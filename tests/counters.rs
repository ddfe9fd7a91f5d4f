use embedded_profiling::{
    compose_down, compose_up, extend_down, extend_up, read_down_extended, setup_outcome, read_up_extended, CycleCounter, DwtProfiler,
    DwtProfilerError, DwtSystick, EmbeddedProfiler, SysTickProfiler, SysTickTimer, WrappingCounter, SYSTICK_RELOAD,
};
use std::cell::Cell;

/// A counter that replays scripted readings of its register and of its wrap count.
struct Scripted {
    counter: Vec<u32>,
    rollovers: Vec<u32>,
    next_counter: Cell<usize>,
    next_rollovers: Cell<usize>,
    has_counter: bool,
    arm_ok: bool,
    started: Cell<usize>,
    start_args: Cell<Option<(u32, bool)>>,
}

impl Scripted {
    fn new(counter: &[u32], rollovers: &[u32]) -> Scripted {
        Scripted {
            counter: counter.to_vec(),
            rollovers: rollovers.to_vec(),
            next_counter: Cell::new(0),
            next_rollovers: Cell::new(0),
            has_counter: true,
            arm_ok: true,
            started: Cell::new(0),
            start_args: Cell::new(None),
        }
    }
}

impl WrappingCounter for Scripted {
    fn read_counter(&self) -> u32 {
        let i = self.next_counter.get();
        self.next_counter.set(i + 1);
        self.counter[i]
    }

    fn read_rollovers(&self) -> u32 {
        let i = self.next_rollovers.get();
        self.next_rollovers.set(i + 1);
        self.rollovers[i]
    }
}

impl CycleCounter for Scripted {
    fn has_cycle_counter(&self) -> bool {
        self.has_counter
    }

    fn start(&mut self) {
        self.started.set(self.started.get() + 1);
    }

    fn arm_rollover_interrupt(&mut self) -> bool {
        self.arm_ok
    }
}

impl SysTickTimer for Scripted {
    fn start(&mut self, reload: u32, interrupt: bool) {
        self.start_args.set(Some((reload, interrupt)));
    }
}

#[test]
fn up_counter_read_without_wrap() {
    let c = Scripted::new(&[10, 12], &[3]);
    assert_eq!(read_up_extended(&c), 3 * (1u64 << 32) + 10);
    assert_eq!(c.next_rollovers.get(), 1, "no second read of the wrap count");
}

#[test]
fn up_counter_read_straddling_wrap() {
    // the counter wraps between the two reads; the interrupt has not run yet at
    // the first wrap-count read, but has by the second
    let c = Scripted::new(&[0xFFFF_FFFF, 0x0000_0001], &[0, 1]);
    assert_eq!(read_up_extended(&c), (1u64 << 32) + 1);
    // the interrupt already ran at the first wrap-count read
    let c = Scripted::new(&[0xFFFF_FFFF, 0x0000_0001], &[1, 1]);
    assert_eq!(read_up_extended(&c), (1u64 << 32) + 1);
}

#[test]
fn up_counter_readings_increase_across_wrap() {
    let before = read_up_extended(&Scripted::new(&[0xFFFF_FFFE, 0xFFFF_FFFF], &[0]));
    let after = read_up_extended(&Scripted::new(&[0xFFFF_FFFF, 0x0000_0000], &[0, 1]));
    assert_eq!(before, 0xFFFF_FFFE);
    assert_eq!(after, 0x1_0000_0000);
    assert!(before < after);
    assert_eq!(after - before, 2);
    assert_eq!(compose_up(0, 0xFFFF_FFFF) + 1, compose_up(1, 0));
    assert_eq!(compose_up(u32::MAX, u32::MAX), u64::MAX);
}

#[test]
fn down_counter_steps_by_one_across_reload() {
    let r = SYSTICK_RELOAD;
    assert_eq!(compose_down(r, 5, 0) + 1, compose_down(r, 6, r));
    // a double read just before the reload, and one just after
    let before = read_down_extended(&Scripted::new(&[1, 0], &[5]), r);
    let after = read_down_extended(&Scripted::new(&[0, r], &[5, 6]), r);
    assert_eq!(before, 5 * (1 << 24) + r as u64 - 1);
    assert_eq!(after, 6 * (1 << 24));
    assert_eq!(after - before, 2);
    assert_eq!(compose_down(r, 0, r + 1), 0, "a reading above the reload counts as none");
    assert_eq!(compose_down(u32::MAX, u32::MAX, 0), u64::MAX);
}

#[test]
fn systick_just_reloaded_reads_zero() {
    let timer = Scripted::new(&[0x00FF_FFFF, 0x00FF_FFFF - 120_000], &[]);
    let p = SysTickProfiler::new(timer, 120_000_000, 120_000_000, false);
    assert_eq!(p.read_clock().ticks(), 0);
    assert_eq!(p.read_clock().ticks(), 1_000);
}

#[test]
fn systick_extended_reads() {
    let timer = Scripted::new(&[100, 90], &[2]);
    let p = SysTickProfiler::new(timer, 16_000_000, 16_000_000, true);
    let ticks = 2 * (1u64 << 24) + (SYSTICK_RELOAD as u64 - 100);
    assert_eq!(p.read_ticks(), ticks);
    assert_eq!(p.instant_from_ticks(16), embedded_profiling::EPInstant::from_ticks(1));
}

#[test]
fn dwt_profiler_reads_cycles() {
    let counter = Scripted::new(&[240_000], &[]);
    let p = DwtProfiler::new(counter, 120_000_000, 120_000_000, false).unwrap();
    assert_eq!(p.read_clock().ticks(), 2_000);
}

#[test]
fn dwt_profiler_extended_reads() {
    let counter = Scripted::new(&[5, 1_000], &[1]);
    let p = DwtProfiler::new(counter, 1_000_000, 1_000_000, true).unwrap();
    assert_eq!(p.read_clock().ticks(), (1u64 << 32) + 5);
}

#[test]
fn dwt_profiler_without_counter() {
    let mut counter = Scripted::new(&[], &[]);
    counter.has_counter = false;
    let r = DwtProfiler::new(counter, 120_000_000, 120_000_000, false);
    assert!(matches!(r, Err(DwtProfilerError::CycleCounterUnsupported)));
}

#[test]
fn dwt_profiler_invalid_settings() {
    let mut counter = Scripted::new(&[], &[]);
    counter.arm_ok = false;
    let r = DwtProfiler::new(counter, 120_000_000, 120_000_000, true);
    assert!(matches!(r, Err(DwtProfilerError::CycleCounterInvalidSettings)));

    let mut counter = Scripted::new(&[], &[]);
    counter.arm_ok = false;
    assert!(DwtProfiler::new(counter, 120_000_000, 120_000_000, false).is_ok());
}

#[test]
fn dwt_profiler_converts_after_reset() {
    let counter = Scripted::new(&[], &[]);
    let mut p = DwtProfiler::new(counter, 8_000_000, 8_000_000, false).unwrap();
    p.reset_clock();
    assert_eq!(p.instant_from_cycles(8), embedded_profiling::EPInstant::from_ticks(1));
}

#[test]
fn dwt_systick_reads_cycle_counter() {
    let dwt = Scripted::new(&[120_000_000, 60], &[]);
    let systick = Scripted::new(&[], &[]);
    let mut clock = DwtSystick::new(dwt, systick, 120_000_000, 120_000_000);
    assert_eq!(clock.read_clock().ticks(), 1_000_000);
    clock.reset_clock();
    assert_eq!(clock.read_clock().ticks(), 0);
}

#[test]
fn extend_up_pairs_each_reading_with_its_wrap_count() {
    let r = 7u64;
    // no wrap between the counter reads: the first reading and the first wrap count
    assert_eq!(extend_up(0xFFFF_FFFE, 7, 0xFFFF_FFFF, 0), r * (1 << 32) + 0xFFFF_FFFE);
    // wrapped, the interrupt ran after the first wrap-count read
    assert_eq!(extend_up(0xFFFF_FFFF, 7, 0, 8), (r + 1) * (1 << 32));
    // wrapped, the interrupt ran before the first wrap-count read
    assert_eq!(extend_up(0xFFFF_FFFE, 8, 1, 8), (r + 1) * (1 << 32) + 1);
}

#[test]
fn extend_down_pairs_each_reading_with_its_wrap_count() {
    let r = 7u64;
    let reload = SYSTICK_RELOAD;
    let before = extend_down(reload, 0, 7, 0, 7);
    assert_eq!(before, r * (1 << 24) + 0x00FF_FFFF);
    let after = extend_down(reload, 0x00FF_FFFF, 8, 0x00FF_FFFE, 0);
    assert_eq!(after, (r + 1) * (1 << 24));
    assert_eq!(after - before, 1);
    // reloaded between the counter reads: the second reading and the re-read count
    assert_eq!(extend_down(reload, 1, 7, 0x00FF_FFFF, 8), (r + 1) * (1 << 24));
}

#[test]
fn setup_outcome_cases() {
    assert_eq!(setup_outcome(false, false, true), Err(DwtProfilerError::CycleCounterUnsupported));
    assert_eq!(setup_outcome(false, true, true), Err(DwtProfilerError::CycleCounterUnsupported));
    assert_eq!(setup_outcome(true, true, false), Err(DwtProfilerError::CycleCounterInvalidSettings));
    assert_eq!(setup_outcome(true, true, true), Ok(()));
    assert_eq!(setup_outcome(true, false, false), Ok(()));
}
