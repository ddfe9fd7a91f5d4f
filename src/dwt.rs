//! A profiler clocked by the core's cycle counter, optionally widened to 64
//! bits by counting its wraps.
use crate::fraction::{native_to_micros, TickConverter};
use crate::profiler::EmbeddedProfiler;
use crate::rollover::{read_up_extended, up_reading, WrappingCounter};
use crate::systick::{SysTickTimer, SYSTICK_RELOAD};
use crate::time::EPInstant;
use vstd::prelude::*;

verus! {

/// The cycle counter hardware, as the profiler drives it.
pub trait CycleCounter: WrappingCounter {
    /// Whether the hardware has a cycle counter at all.
    fn has_cycle_counter(&self) -> bool;

    /// Enables tracing, resets the counter to zero and starts it.
    fn start(&mut self);

    /// Arms the overflow interrupt to fire as the counter wraps; `false` when
    /// the hardware refuses the settings.
    fn arm_rollover_interrupt(&mut self) -> bool;
}

/// What can go wrong when setting up the cycle counter.
#[derive(Clone, Copy, Debug, PartialEq, Eq, Structural)]
pub enum DwtProfilerError {
    /// The hardware has no cycle counter.
    CycleCounterUnsupported,
    /// The overflow interrupt could not be armed, which the extended mode needs.
    CycleCounterInvalidSettings,
}

/// The outcome of setting up the cycle counter, from what the hardware
/// reported: whether it has a cycle counter, and whether arming the overflow
/// interrupt succeeded (only attempted in extended mode).
pub open spec fn setup_spec(has_counter: bool, extended: bool, armed: bool) -> Result<(), DwtProfilerError> {
    if !has_counter {
        Err(DwtProfilerError::CycleCounterUnsupported)
    } else if extended && !armed {
        Err(DwtProfilerError::CycleCounterInvalidSettings)
    } else {
        Ok(())
    }
}

/// Decides the outcome of setting up the cycle counter: unsupported without a
/// counter, invalid settings when extended mode could not arm its interrupt,
/// success otherwise.
pub fn setup_outcome(has_counter: bool, extended: bool, armed: bool) -> (r: Result<(), DwtProfilerError>)
    ensures
        r == setup_spec(has_counter, extended, armed),
{
    if !has_counter {
        Err(DwtProfilerError::CycleCounterUnsupported)
    } else if extended && !armed {
        Err(DwtProfilerError::CycleCounterInvalidSettings)
    } else {
        Ok(())
    }
}

/// A profiler that reads the cycle counter of a core running at a fixed
/// frequency. In extended mode the 32-bit counter is widened with the count of
/// its wraps.
pub struct DwtProfiler<C> {
    counter: C,
    converter: TickConverter,
    extended: bool,
}

impl<C> DwtProfiler<C> {
    /// The core frequency, in cycles per second.
    pub closed spec fn frequency(self) -> nat {
        self.converter.rate_spec()
    }

    /// Whether wraps of the counter are counted.
    pub closed spec fn is_extended(self) -> bool {
        self.extended
    }

    /// Whether `c` is a cycle count that a read can yield: a bare counter
    /// reading, or in extended mode the double read's choice on some readings.
    pub open spec fn readable_count(self, c: nat) -> bool {
        if self.is_extended() {
            exists|first: u32, rollovers: u32, second: u32, rollovers_after: u32|
                c == #[trigger] up_reading(first, rollovers, second, rollovers_after)
        } else {
            c <= u32::MAX
        }
    }
}

impl<C: CycleCounter> DwtProfiler<C> {
    /// Sets up the cycle counter of a core running at `freq` cycles per second
    /// and returns a profiler that reads it. `sysclk` is the frequency that the
    /// clock configuration reports; the two must agree.
    pub fn new(counter: C, freq: u32, sysclk: u32, extended: bool) -> (r: Result<Self, DwtProfilerError>)
        requires
            freq == sysclk,
            freq > 0,
        ensures
            exists|has_counter: bool, armed: bool|
                #![trigger setup_spec(has_counter, extended, armed)]
                (has_counter && !extended ==> armed) && match setup_spec(has_counter, extended, armed) {
                    Ok(_) => r matches Ok(p) && p.frequency() == freq && p.is_extended() == extended,
                    Err(e) => r == Err::<Self, DwtProfilerError>(e),
                },
    {
        let mut counter = counter;
        let has_counter = counter.has_cycle_counter();
        let mut armed = true;
        if has_counter {
            counter.start();
            if extended {
                armed = counter.arm_rollover_interrupt();
            }
        }
        match setup_outcome(has_counter, extended, armed) {
            Ok(()) => Ok(DwtProfiler { counter, converter: TickConverter::new(freq), extended }),
            Err(e) => Err(e),
        }
    }

    /// Reads the cycle count: the bare 32-bit counter, or in extended mode the
    /// counter widened with its wrap count by the double-read protocol.
    pub fn read_cycles(&self) -> (r: u64)
        ensures
            self.is_extended() ==> exists|first: u32, rollovers: u32, second: u32, rollovers_after: u32|
                r == #[trigger] up_reading(first, rollovers, second, rollovers_after),
            !self.is_extended() ==> r <= u32::MAX,
    {
        if self.extended {
            read_up_extended(&self.counter)
        } else {
            self.counter.read_counter() as u64
        }
    }

    /// The instant `cycles` cycles after the counter started, in microseconds.
    pub fn instant_from_cycles(&self, cycles: u64) -> (r: EPInstant)
        ensures
            r.ticks == native_to_micros(cycles as nat, self.frequency()),
    {
        EPInstant { ticks: self.converter.micros(cycles) }
    }
}

impl<C: CycleCounter> EmbeddedProfiler for DwtProfiler<C> {
    fn read_clock(&self) -> (r: EPInstant)
        ensures
            exists|c: u64| #[trigger] self.readable_count(c as nat)
                && r.ticks == native_to_micros(c as nat, self.frequency()),
    {
        let c = self.read_cycles();
        assert(self.readable_count(c as nat));
        self.instant_from_cycles(c)
    }

    fn reset_clock(&mut self) {
        self.counter.start();
    }
}

/// A clock made of the cycle counter and the system tick timer of a core
/// running at a fixed frequency, read through the 32-bit cycle counter.
pub struct DwtSystick<C, S> {
    dwt: C,
    systick: S,
    converter: TickConverter,
}

impl<C, S> DwtSystick<C, S> {
    /// The core frequency, in cycles per second.
    pub closed spec fn frequency(self) -> nat {
        self.converter.rate_spec()
    }
}

impl<C: CycleCounter, S: SysTickTimer> DwtSystick<C, S> {
    /// Starts the cycle counter and the system tick timer of a core running at
    /// `freq` cycles per second. `sysclk` is the frequency that the clock
    /// configuration reports; the two must agree.
    pub fn new(dwt: C, systick: S, freq: u32, sysclk: u32) -> (r: Self)
        requires
            freq == sysclk,
            freq > 0,
        ensures
            r.frequency() == freq,
    {
        let mut dwt = dwt;
        let mut systick = systick;
        dwt.start();
        systick.start(SYSTICK_RELOAD, false);
        DwtSystick { dwt, systick, converter: TickConverter::new(freq) }
    }

    /// The instant `cycles` cycles after the counter started, in microseconds.
    pub fn instant_from_cycles(&self, cycles: u64) -> (r: EPInstant)
        ensures
            r.ticks == native_to_micros(cycles as nat, self.frequency()),
    {
        EPInstant { ticks: self.converter.micros(cycles) }
    }
}

impl<C: CycleCounter, S: SysTickTimer> EmbeddedProfiler for DwtSystick<C, S> {
    fn read_clock(&self) -> (r: EPInstant)
        ensures
            exists|c: u32| r.ticks == #[trigger] native_to_micros(c as nat, self.frequency()),
    {
        let c = self.dwt.read_counter();
        self.instant_from_cycles(c as u64)
    }

    fn reset_clock(&mut self) {
        self.dwt.start();
        self.systick.start(SYSTICK_RELOAD, false);
    }
}

} // verus!
