//! Instants, durations and named snapshots at microsecond resolution.
use crate::fraction::MICROS_PER_SEC;
use vstd::prelude::*;
use vstd::string::StringExecFns;

verus! {

/// The integer that holds every instant and duration, in microseconds.
pub type EPContainer = u64;

/// A point in time, in microseconds since the clock's epoch.
#[derive(Clone, Copy, Debug, PartialEq, Eq, Structural)]
pub struct EPInstant {
    pub ticks: EPContainer,
}

/// Time elapsed between two instants, in microseconds.
#[derive(Clone, Copy, Debug, PartialEq, Eq, Structural)]
pub struct EPDuration {
    pub ticks: EPContainer,
}

/// A named duration, produced at the end of a profiling span.
#[derive(Clone, Copy, Debug)]
pub struct EPSnapshot {
    /// The name of the span.
    pub name: &'static str,
    /// How long the span took.
    pub duration: EPDuration,
}

/// The duration from `earlier` to `later`, if `later` is not before it.
pub open spec fn duration_between(earlier: EPInstant, later: EPInstant) -> Option<EPDuration> {
    if earlier.ticks <= later.ticks {
        Some(EPDuration { ticks: (later.ticks - earlier.ticks) as EPContainer })
    } else {
        None
    }
}

/// The snapshot that a span named `name` yields when it started at `start`
/// and the clock read `now` at its end.
pub open spec fn snapshot_between(start: EPInstant, now: EPInstant, name: &'static str) -> Option<EPSnapshot> {
    match duration_between(start, now) {
        Some(d) => Some(EPSnapshot { name, duration: d }),
        None => None,
    }
}

/// Microseconds in `ticks` ticks of `nom / denom` seconds each, saturating at
/// the container's maximum.
pub open spec fn micros_of(ticks: nat, nom: nat, denom: nat) -> nat {
    let exact = ticks * nom * (MICROS_PER_SEC as nat) / denom;
    if exact <= EPContainer::MAX { exact } else { EPContainer::MAX as nat }
}

impl EPInstant {
    /// The instant `ticks` microseconds after the epoch.
    pub fn from_ticks(ticks: EPContainer) -> (r: EPInstant)
        ensures
            r.ticks == ticks,
    {
        EPInstant { ticks }
    }

    /// Microseconds since the epoch.
    pub fn ticks(&self) -> (r: EPContainer)
        ensures
            r == self.ticks,
    {
        self.ticks
    }

    /// The time elapsed since `earlier`, or `None` when `earlier` is after
    /// this instant: a duration is never negative and never wraps.
    pub fn checked_duration_since(self, earlier: EPInstant) -> (r: Option<EPDuration>)
        ensures
            r == duration_between(earlier, self),
    {
        if self.ticks >= earlier.ticks {
            Some(EPDuration { ticks: self.ticks - earlier.ticks })
        } else {
            None
        }
    }
}

impl EPDuration {
    /// A duration of `ticks` microseconds.
    pub fn from_ticks(ticks: EPContainer) -> (r: EPDuration)
        ensures
            r.ticks == ticks,
    {
        EPDuration { ticks }
    }

    /// Length in microseconds.
    pub fn ticks(&self) -> (r: EPContainer)
        ensures
            r == self.ticks,
    {
        self.ticks
    }
}

/// The snapshot of a span named `name` that started at `start` and ended at
/// `now`, or `None` when the clock went backwards (a counter overflowed).
pub fn snapshot_since(start: EPInstant, now: EPInstant, name: &'static str) -> (r: Option<EPSnapshot>)
    ensures
        r == snapshot_between(start, now, name),
{
    match now.checked_duration_since(start) {
        Some(duration) => Some(EPSnapshot { name, duration }),
        None => None,
    }
}

/// Converts an instant counted in ticks of `nom / denom` seconds to one counted
/// in microseconds; the result saturates where it would not fit.
pub fn convert_instant(ticks: EPContainer, nom: u32, denom: u32) -> (r: EPInstant)
    requires
        denom > 0,
    ensures
        r.ticks == micros_of(ticks as nat, nom as nat, denom as nat),
{
    assert(ticks as int * nom as int * MICROS_PER_SEC as int <= u64::MAX as int * u32::MAX as int
        * MICROS_PER_SEC as int) by (nonlinear_arith)
        requires
            ticks <= u64::MAX,
            nom <= u32::MAX,
    ;
    let product = (ticks as u128) * (nom as u128) * (MICROS_PER_SEC as u128);
    let quotient = product / (denom as u128);
    if quotient > EPContainer::MAX as u128 {
        EPInstant { ticks: EPContainer::MAX }
    } else {
        EPInstant { ticks: quotient as EPContainer }
    }
}

/// The decimal digit `d`.
pub open spec fn digit_char(d: nat) -> char {
    if d == 0 { '0' }
    else if d == 1 { '1' }
    else if d == 2 { '2' }
    else if d == 3 { '3' }
    else if d == 4 { '4' }
    else if d == 5 { '5' }
    else if d == 6 { '6' }
    else if d == 7 { '7' }
    else if d == 8 { '8' }
    else { '9' }
}

/// The decimal notation of `n`, without leading zeros.
pub open spec fn decimal(n: nat) -> Seq<char>
    decreases n,
{
    if n < 10 {
        seq![digit_char(n)]
    } else {
        decimal(n / 10) + seq![digit_char(n % 10)]
    }
}

/// The text of a snapshot: `<EPSS name: 25 us>`.
pub open spec fn snapshot_text(name: Seq<char>, micros: nat) -> Seq<char> {
    seq!['<', 'E', 'P', 'S', 'S', ' '] + name + seq![':', ' '] + decimal(micros) + seq![' ', 'u', 's', '>']
}

fn digit_str(d: u64) -> (r: &'static str)
    requires
        d < 10,
    ensures
        r@ == seq![digit_char(d as nat)],
{
    proof {
        reveal_strlit("0");
        reveal_strlit("1");
        reveal_strlit("2");
        reveal_strlit("3");
        reveal_strlit("4");
        reveal_strlit("5");
        reveal_strlit("6");
        reveal_strlit("7");
        reveal_strlit("8");
        reveal_strlit("9");
    }
    if d == 0 { "0" }
    else if d == 1 { "1" }
    else if d == 2 { "2" }
    else if d == 3 { "3" }
    else if d == 4 { "4" }
    else if d == 5 { "5" }
    else if d == 6 { "6" }
    else if d == 7 { "7" }
    else if d == 8 { "8" }
    else { "9" }
}

fn append_decimal(s: &mut String, n: u64)
    ensures
        final(s)@ == old(s)@ + decimal(n as nat),
    decreases n,
{
    if n >= 10 {
        append_decimal(s, n / 10);
    }
    s.append(digit_str(n % 10));
    proof {
        if n >= 10 {
            assert(final(s)@ =~= old(s)@ + decimal(n as nat));
        } else {
            assert(final(s)@ =~= old(s)@ + decimal(n as nat));
        }
    }
}

impl EPSnapshot {
    /// Renders the snapshot as `<EPSS name: 25 us>`.
    pub fn to_string(&self) -> (r: String)
        ensures
            r@ == snapshot_text(self.name@, self.duration.ticks as nat),
    {
        let mut s = String::new();
        s.append("<EPSS ");
        s.append(self.name);
        s.append(": ");
        append_decimal(&mut s, self.duration.ticks);
        s.append(" us>");
        proof {
            reveal_strlit("<EPSS ");
            reveal_strlit(": ");
            reveal_strlit(" us>");
            assert(s@ =~= snapshot_text(self.name@, self.duration.ticks as nat));
        }
        s
    }
}

} // verus!
