use embedded_profiling::{
    end_snapshot, log_snapshot, profile, profiler, set_profiler, snapshot_since, start_snapshot,
    EPDuration, EPInstant, EPSnapshot, EmbeddedProfiler, ProfilerRegistry, SetProfilerError,
};
use std::cell::{Cell, RefCell};

/// A profiler whose clock advances by a fixed step at every reading, and that
/// records the order in which its methods are called.
struct MockProfiler {
    now: Cell<u64>,
    step: u64,
    calls: RefCell<Vec<&'static str>>,
    logged: RefCell<Vec<String>>,
}

impl MockProfiler {
    fn new(start: u64, step: u64) -> MockProfiler {
        MockProfiler {
            now: Cell::new(start),
            step,
            calls: RefCell::new(Vec::new()),
            logged: RefCell::new(Vec::new()),
        }
    }
}

impl EmbeddedProfiler for MockProfiler {
    fn read_clock(&self) -> EPInstant {
        self.calls.borrow_mut().push("read_clock");
        let t = self.now.get();
        self.now.set(t + self.step);
        EPInstant::from_ticks(t)
    }

    fn log_snapshot(&self, snapshot: &EPSnapshot) {
        self.calls.borrow_mut().push("log_snapshot");
        self.logged.borrow_mut().push(snapshot.to_string());
    }

    fn at_start(&self) {
        self.calls.borrow_mut().push("at_start");
    }

    fn at_end(&self) {
        self.calls.borrow_mut().push("at_end");
    }
}

#[test]
fn basic_duration() {
    let profiler = MockProfiler::new(0, 25_000);

    let start = profiler.start_snapshot();
    let end = profiler.end_snapshot(start, "basic_dur").unwrap();
    profiler.log_snapshot(&end);
    assert_eq!(end.name, "basic_dur");
    assert_eq!(end.duration.ticks(), 25_000);
    assert_eq!(profiler.logged.borrow()[0], "<EPSS basic_dur: 25000 us>");
}

#[test]
fn basic_duration_and_set_profiler() {
    let mut registry = ProfilerRegistry::new();
    assert_eq!(set_profiler(&mut registry, MockProfiler::new(100, 25_000)), Ok(()));

    let start = start_snapshot(&registry);
    let end = end_snapshot(&registry, start, "basic_dur").unwrap();
    log_snapshot(&registry, &end);
    assert_eq!(end.duration.ticks(), 25_000);
}

#[test]
fn profile_closure() {
    let mut registry = ProfilerRegistry::new();
    set_profiler(&mut registry, MockProfiler::new(0, 25_000)).unwrap();

    let value = profile(&registry, "25ms closure", || 7 * 6);
    assert_eq!(value, 42);
}

#[test]
fn check_call_and_order() {
    let mut registry = ProfilerRegistry::new();
    set_profiler(&mut registry, MockProfiler::new(0, 25_000)).unwrap();

    let runs = Cell::new(0usize);
    profile(&registry, "delay_25ms", || runs.set(runs.get() + 1));
    assert_eq!(runs.get(), 1, "the profiled closure runs exactly once");

    let mock = match profiler(&registry) {
        embedded_profiling::ActiveProfiler::Installed(p) => p,
        embedded_profiling::ActiveProfiler::Noop(_) => panic!("the mock profiler is installed"),
    };
    let calls = mock.calls.borrow();
    assert_eq!(
        *calls,
        vec!["at_start", "read_clock", "at_end", "read_clock", "log_snapshot"],
        "one start, end and log cycle, in order"
    );
    assert_eq!(mock.logged.borrow()[0], "<EPSS delay_25ms: 25000 us>");
}

#[test]
fn profile_returns_value_unchanged() {
    let registry: ProfilerRegistry<MockProfiler> = ProfilerRegistry::new();
    let s = profile(&registry, "noop", || String::from("result"));
    assert_eq!(s, "result");
}

#[test]
fn empty_registry_uses_noop_profiler() {
    let registry: ProfilerRegistry<MockProfiler> = ProfilerRegistry::new();
    assert_eq!(profiler(&registry).read_clock(), EPInstant::from_ticks(0));
    let start = start_snapshot(&registry);
    let snapshot = end_snapshot(&registry, start, "noop").unwrap();
    assert_eq!(snapshot.duration, EPDuration::from_ticks(0));
}

#[test]
fn set_profiler_latches_first() {
    let mut registry = ProfilerRegistry::new();
    assert_eq!(set_profiler(&mut registry, MockProfiler::new(42, 0)), Ok(()));
    assert_eq!(set_profiler(&mut registry, MockProfiler::new(7, 0)), Err(SetProfilerError));
    assert_eq!(set_profiler(&mut registry, MockProfiler::new(9, 0)), Err(SetProfilerError));
    assert_eq!(profiler(&registry).read_clock().ticks(), 42);
}

#[test]
fn end_before_start_gives_no_duration() {
    let start = EPInstant::from_ticks(1_000);
    let now = EPInstant::from_ticks(10);
    assert!(now.checked_duration_since(start).is_none());
    assert!(snapshot_since(start, now, "wrapped").is_none());

    // a clock that went backwards yields no snapshot
    let profiler = MockProfiler::new(500, 0);
    assert!(profiler.end_snapshot(EPInstant::from_ticks(501), "backwards").is_none());
}

#[test]
fn equal_instants_give_zero_duration() {
    let t = EPInstant::from_ticks(u64::MAX);
    assert_eq!(t.checked_duration_since(t), Some(EPDuration::from_ticks(0)));
    let s = snapshot_since(EPInstant::from_ticks(3), EPInstant::from_ticks(u64::MAX), "long").unwrap();
    assert_eq!(s.duration.ticks(), u64::MAX - 3);
}

#[test]
fn snapshot_text() {
    let s = EPSnapshot { name: "basic_snapshot", duration: EPDuration::from_ticks(0) };
    assert_eq!(s.to_string(), "<EPSS basic_snapshot: 0 us>");
    let s = EPSnapshot { name: "x", duration: EPDuration::from_ticks(1_234_567_890) };
    assert_eq!(s.to_string(), "<EPSS x: 1234567890 us>");
    let s = EPSnapshot { name: "", duration: EPDuration::from_ticks(u64::MAX) };
    assert_eq!(s.to_string(), "<EPSS : 18446744073709551615 us>");
}

#[test]
fn empty_registry_span_after_zero_gives_no_duration() {
    let registry: ProfilerRegistry<MockProfiler> = ProfilerRegistry::new();
    assert_eq!(start_snapshot(&registry).ticks(), 0);
    assert!(end_snapshot(&registry, EPInstant::from_ticks(5), "late").is_none());
}
