//! The profiler interface and the single-slot registry that holds the
//! active profiler.
use crate::time::{snapshot_between, snapshot_since, EPInstant, EPSnapshot};
use vstd::prelude::*;

verus! {

/// A profiler: a clock, and optionally a sink for finished snapshots and
/// hooks that run when a span starts and ends.
pub trait EmbeddedProfiler {
    /// Takes a reading from the clock.
    fn read_clock(&self) -> EPInstant;

    /// Resets the clock to its epoch, where the hardware allows it.
    fn reset_clock(&mut self) {
    }

    /// Emits a snapshot to some output, such as a log or a serial port.
    fn log_snapshot(&self, snapshot: &EPSnapshot) {
    }

    /// Runs when a span starts, before the clock is read.
    fn at_start(&self) {
    }

    /// Runs when a span ends, before the clock is read.
    fn at_end(&self) {
    }

    /// Starts a span: runs the start hook, then reads the clock.
    fn start_snapshot(&self) -> EPInstant {
        self.at_start();
        self.read_clock()
    }

    /// Ends a span that started at `start`: runs the end hook, reads the clock,
    /// and yields the named duration, or `None` if the reading is before `start`.
    fn end_snapshot(&self, start: EPInstant, name: &'static str) -> (r: Option<EPSnapshot>)
        ensures
            exists|now: EPInstant| r == #[trigger] snapshot_between(start, now, name),
    {
        self.at_end();
        let now = self.read_clock();
        snapshot_since(start, now, name)
    }
}

/// The profiler in use while none is installed: its clock stays at zero and it
/// logs nothing.
#[derive(Clone, Copy, Debug)]
pub struct NoopProfiler;

impl EmbeddedProfiler for NoopProfiler {
    fn read_clock(&self) -> (r: EPInstant)
        ensures
            r.ticks == 0,
    {
        EPInstant { ticks: 0 }
    }

    fn start_snapshot(&self) -> (r: EPInstant)
        ensures
            r.ticks == 0,
    {
        self.read_clock()
    }

    fn end_snapshot(&self, start: EPInstant, name: &'static str) -> (r: Option<EPSnapshot>)
        ensures
            r == snapshot_between(start, EPInstant { ticks: 0 }, name),
    {
        let now = self.read_clock();
        snapshot_since(start, now, name)
    }
}

/// Installing a profiler failed because one is installed already.
#[derive(Clone, Copy, Debug, PartialEq, Eq, Structural)]
pub struct SetProfilerError;

/// The profiler that calls go to: the installed one, or the no-op stand-in.
pub enum ActiveProfiler<'a, P> {
    Installed(&'a P),
    Noop(NoopProfiler),
}

impl<'a, P: EmbeddedProfiler> EmbeddedProfiler for ActiveProfiler<'a, P> {
    fn read_clock(&self) -> (r: EPInstant)
        ensures
            self is Noop ==> r.ticks == 0,
    {
        match self {
            ActiveProfiler::Installed(p) => p.read_clock(),
            ActiveProfiler::Noop(p) => p.read_clock(),
        }
    }

    fn log_snapshot(&self, snapshot: &EPSnapshot) {
        match self {
            ActiveProfiler::Installed(p) => p.log_snapshot(snapshot),
            ActiveProfiler::Noop(p) => p.log_snapshot(snapshot),
        }
    }

    fn at_start(&self) {
        match self {
            ActiveProfiler::Installed(p) => p.at_start(),
            ActiveProfiler::Noop(p) => p.at_start(),
        }
    }

    fn at_end(&self) {
        match self {
            ActiveProfiler::Installed(p) => p.at_end(),
            ActiveProfiler::Noop(p) => p.at_end(),
        }
    }

    fn start_snapshot(&self) -> (r: EPInstant)
        ensures
            self is Noop ==> r.ticks == 0,
    {
        match self {
            ActiveProfiler::Installed(p) => p.start_snapshot(),
            ActiveProfiler::Noop(p) => p.start_snapshot(),
        }
    }

    fn end_snapshot(&self, start: EPInstant, name: &'static str) -> (r: Option<EPSnapshot>)
        ensures
            self is Noop ==> r == snapshot_between(start, EPInstant { ticks: 0 }, name),
    {
        match self {
            ActiveProfiler::Installed(p) => p.end_snapshot(start, name),
            ActiveProfiler::Noop(p) => p.end_snapshot(start, name),
        }
    }
}

/// The slot for the one active profiler. It starts empty and is filled at most
/// once: later attempts to fill it fail and leave it as it is.
pub struct ProfilerRegistry<P> {
    installed: Option<P>,
}

impl<P> View for ProfilerRegistry<P> {
    type V = Option<P>;

    closed spec fn view(&self) -> Option<P> {
        self.installed
    }
}

/// The slot after an attempt to install `p`: filled with `p` if it was empty,
/// unchanged otherwise.
pub open spec fn latch_set<P>(slot: Option<P>, p: P) -> Option<P> {
    match slot {
        Some(q) => Some(q),
        None => Some(p),
    }
}

/// The slot after attempts to install each of `ps` in turn.
pub open spec fn latch_all<P>(slot: Option<P>, ps: Seq<P>) -> Option<P>
    decreases ps.len(),
{
    if ps.len() == 0 {
        slot
    } else {
        latch_all(latch_set(slot, ps[0]), ps.drop_first())
    }
}

impl<P: EmbeddedProfiler> ProfilerRegistry<P> {
    /// An empty registry: calls go to the no-op profiler.
    pub fn new() -> (r: Self)
        ensures
            r@ is None,
    {
        ProfilerRegistry { installed: None }
    }
}

/// Installs `profiler` as the active profiler. Succeeds only on an empty
/// registry; once one is installed every later call fails with
/// `SetProfilerError` and changes nothing.
pub fn set_profiler<P: EmbeddedProfiler>(registry: &mut ProfilerRegistry<P>, profiler: P) -> (r: Result<(), SetProfilerError>)
    ensures
        final(registry)@ == latch_set(old(registry)@, profiler),
        r is Ok <==> old(registry)@ is None,
{
    if registry.installed.is_some() {
        Err(SetProfilerError)
    } else {
        registry.installed = Some(profiler);
        Ok(())
    }
}

/// The active profiler: the installed one if there is one, else the no-op profiler.
pub fn profiler<'a, P: EmbeddedProfiler>(registry: &'a ProfilerRegistry<P>) -> (r: ActiveProfiler<'a, P>)
    ensures
        match registry@ {
            Some(p) => r == ActiveProfiler::Installed(&p),
            None => r is Noop,
        },
{
    match &registry.installed {
        Some(p) => ActiveProfiler::Installed(p),
        None => ActiveProfiler::Noop(NoopProfiler),
    }
}

/// Starts a span on the active profiler.
pub fn start_snapshot<P: EmbeddedProfiler>(registry: &ProfilerRegistry<P>) -> (r: EPInstant)
    ensures
        registry@ is None ==> r.ticks == 0,
{
    profiler(registry).start_snapshot()
}

/// Ends a span on the active profiler; `None` when the clock went backwards.
pub fn end_snapshot<P: EmbeddedProfiler>(registry: &ProfilerRegistry<P>, start: EPInstant, name: &'static str) -> (r: Option<EPSnapshot>)
    ensures
        exists|now: EPInstant| r == #[trigger] snapshot_between(start, now, name),
        registry@ is None ==> r == snapshot_between(start, EPInstant { ticks: 0 }, name),
{
    profiler(registry).end_snapshot(start, name)
}

/// Logs a snapshot with the active profiler.
pub fn log_snapshot<P: EmbeddedProfiler>(registry: &ProfilerRegistry<P>, snapshot: &EPSnapshot) {
    profiler(registry).log_snapshot(snapshot)
}

/// Profiles `target` as a span named `name` on the active profiler: starts the
/// span, runs `target`, ends the span and logs it unless the clock went
/// backwards. Returns what `target` returned.
pub fn profile<P: EmbeddedProfiler, T: Fn() -> R, R>(registry: &ProfilerRegistry<P>, name: &'static str, target: T) -> (r: R)
    requires
        target.requires(()),
    ensures
        target.ensures((), r),
{
    let start = start_snapshot(registry);
    let ret = target();
    if let Some(snapshot) = end_snapshot(registry, start, name) {
        log_snapshot(registry, &snapshot);
    }
    ret
}

/// Installing is a one-way latch: after a first profiler is installed into an
/// empty registry, every later attempt fails and the first profiler stays.
pub proof fn set_profiler_latches<P>(first: P, later: Seq<P>)
    ensures
        latch_set(None, first) == Some(first),
        forall|i: int| 0 <= i <= later.len() ==> #[trigger] latch_all(Some(first), later.take(i)) == Some(first),
{
    assert forall|i: int| 0 <= i <= later.len() implies #[trigger] latch_all(Some(first), later.take(i)) == Some(first) by {
        lemma_latch_all_keeps(first, later.take(i));
    }
}

proof fn lemma_latch_all_keeps<P>(first: P, ps: Seq<P>)
    ensures
        latch_all(Some(first), ps) == Some(first),
    decreases ps.len(),
{
    if ps.len() > 0 {
        lemma_latch_all_keeps(first, ps.drop_first());
    }
}

} // verus!
