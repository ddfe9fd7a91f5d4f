//! A profiler clocked by the 24-bit system tick timer, which counts down and
//! reloads; optionally widened by counting its reloads.
use crate::fraction::{native_to_micros, TickConverter};
use crate::profiler::EmbeddedProfiler;
use crate::rollover::{compose_down, down_offset, down_reading, read_down_extended, WrappingCounter};
use crate::time::EPInstant;
use vstd::prelude::*;

verus! {

/// The value the system tick timer reloads with after reaching zero; also its
/// largest value.
pub const SYSTICK_RELOAD: u32 = 0x00FF_FFFF;

/// The system tick timer, as the profiler drives it.
pub trait SysTickTimer: WrappingCounter {
    /// Clocks the timer from the core, clears it, sets its reload value to
    /// `reload` and starts it; with `interrupt`, also enables the interrupt
    /// that counts its reloads.
    fn start(&mut self, reload: u32, interrupt: bool);
}

/// A profiler that reads the system tick timer of a core running at a fixed
/// frequency. In extended mode the count is widened with the number of reloads.
pub struct SysTickProfiler<C> {
    timer: C,
    converter: TickConverter,
    extended: bool,
}

impl<C> SysTickProfiler<C> {
    /// The core frequency, in ticks per second.
    pub closed spec fn frequency(self) -> nat {
        self.converter.rate_spec()
    }

    /// Whether reloads of the timer are counted.
    pub closed spec fn is_extended(self) -> bool {
        self.extended
    }

    /// Whether `t` is a tick count that a read can yield: the ticks since the
    /// last reload for some register value, or in extended mode the double
    /// read's choice on some readings.
    pub open spec fn readable_ticks(self, t: nat) -> bool {
        if self.is_extended() {
            exists|first: u32, rollovers: u32, second: u32, rollovers_after: u32|
                t == #[trigger] down_reading(SYSTICK_RELOAD, first, rollovers, second, rollovers_after)
        } else {
            exists|raw: u32| t == #[trigger] down_offset(SYSTICK_RELOAD as nat, raw as nat)
        }
    }
}

impl<C: SysTickTimer> SysTickProfiler<C> {
    /// Starts the system tick timer of a core running at `freq` ticks per
    /// second, reloading at `SYSTICK_RELOAD`, and returns a profiler that
    /// reads it. `sysclk` is the frequency that the clock configuration
    /// reports; the two must agree.
    pub fn new(timer: C, freq: u32, sysclk: u32, extended: bool) -> (r: Self)
        requires
            freq == sysclk,
            freq > 0,
        ensures
            r.frequency() == freq,
            r.is_extended() == extended,
    {
        let mut timer = timer;
        timer.start(SYSTICK_RELOAD, extended);
        SysTickProfiler { timer, converter: TickConverter::new(freq), extended }
    }

    /// Reads the ticks elapsed: those since the last reload, or in extended
    /// mode the count widened with the number of reloads by the double-read
    /// protocol.
    pub fn read_ticks(&self) -> (r: u64)
        ensures
            self.is_extended() ==> exists|first: u32, rollovers: u32, second: u32, rollovers_after: u32|
                r == #[trigger] down_reading(SYSTICK_RELOAD, first, rollovers, second, rollovers_after),
            !self.is_extended() ==> exists|raw: u32|
                r == #[trigger] down_offset(SYSTICK_RELOAD as nat, raw as nat),
    {
        if self.extended {
            read_down_extended(&self.timer, SYSTICK_RELOAD)
        } else {
            let raw = self.timer.read_counter();
            let r = compose_down(SYSTICK_RELOAD, 0, raw);
            assert(r == down_offset(SYSTICK_RELOAD as nat, raw as nat));
            r
        }
    }

    /// The instant `ticks` ticks after the timer started, in microseconds.
    pub fn instant_from_ticks(&self, ticks: u64) -> (r: EPInstant)
        ensures
            r.ticks == native_to_micros(ticks as nat, self.frequency()),
    {
        EPInstant { ticks: self.converter.micros(ticks) }
    }
}

impl<C: SysTickTimer> EmbeddedProfiler for SysTickProfiler<C> {
    fn read_clock(&self) -> (r: EPInstant)
        ensures
            exists|t: u64| #[trigger] self.readable_ticks(t as nat)
                && r.ticks == native_to_micros(t as nat, self.frequency()),
    {
        let t = self.read_ticks();
        assert(self.readable_ticks(t as nat));
        self.instant_from_ticks(t)
    }
}

} // verus!
