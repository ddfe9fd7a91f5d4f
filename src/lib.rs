//! Lightweight profiling of code spans for bare-metal targets.
//!
//! A profiler reads a clock at the start and at the end of a span and turns
//! the two readings into a named duration at microsecond resolution.
//! Hardware clocks are widened and converted by verified logic: an exact
//! rational reduction of the tick rate, and a double-read protocol that
//! extends a narrow free-running counter with an interrupt-driven wrap count.

pub mod fraction;
pub mod time;
pub mod profiler;
pub mod rollover;
pub mod dwt;
pub mod systick;

pub use fraction::{gcd, reduced_fraction, ticks_to_micros, TickConverter};
pub use time::{convert_instant, snapshot_since, EPContainer, EPDuration, EPInstant, EPSnapshot};
pub use profiler::{
    end_snapshot, log_snapshot, profile, profiler, set_profiler, start_snapshot, ActiveProfiler,
    EmbeddedProfiler, NoopProfiler, ProfilerRegistry, SetProfilerError,
};
pub use rollover::{
    compose_down, compose_up, extend_down, extend_up, read_down_extended, read_up_extended,
    WrappingCounter,
};
pub use dwt::{setup_outcome, CycleCounter, DwtProfiler, DwtProfilerError, DwtSystick};
pub use systick::{SysTickProfiler, SysTickTimer, SYSTICK_RELOAD};
