//! Widening a narrow free-running counter with the count of its wraps.
//!
//! The counter is read twice with a read of the wrap count between. If the two
//! readings show that the counter wrapped in between, the wrap count may or may
//! not include that wrap, so it is read again and paired with the second
//! reading; otherwise it is paired with the first.
use vstd::arithmetic::div_mod::{lemma_div_is_ordered, lemma_fundamental_div_mod};
use vstd::prelude::*;

verus! {

/// Number of values of a 32-bit counter: it wraps from `2^32 - 1` to `0`.
pub const COUNTER_PERIOD: u64 = 0x1_0000_0000;

/// A free-running hardware counter, and the number of times its overflow
/// interrupt has fired.
pub trait WrappingCounter {
    /// Reads the counter register.
    fn read_counter(&self) -> u32;

    /// Reads how many times the counter has wrapped, as counted by its
    /// overflow interrupt.
    fn read_rollovers(&self) -> u32;
}

/// The extended count of an up-counter: `rollovers` full periods plus `low`.
pub open spec fn up_extended(rollovers: nat, low: nat) -> nat {
    rollovers * (COUNTER_PERIOD as nat) + low
}

/// Ticks elapsed in the current period of a counter that counts down from
/// `reload` to zero; a reading above `reload` counts as none.
pub open spec fn down_offset(reload: nat, raw: nat) -> nat {
    if raw <= reload { (reload - raw) as nat } else { 0 }
}

/// The extended count of a down-counter reloading at `reload`: `rollovers`
/// periods of `reload + 1` ticks plus the ticks elapsed in the current one.
pub open spec fn down_extended(reload: nat, rollovers: nat, raw: nat) -> nat {
    rollovers * (reload + 1) + down_offset(reload, raw)
}

/// What the double read of an up-counter yields from its two counter readings
/// and the wrap counts read after the first and after the second.
pub open spec fn up_reading(first: u32, rollovers: u32, second: u32, rollovers_after: u32) -> nat {
    if first < second {
        up_extended(rollovers as nat, first as nat)
    } else {
        up_extended(rollovers_after as nat, second as nat)
    }
}

/// What the double read of a down-counter yields.
pub open spec fn down_reading(reload: u32, first: u32, rollovers: u32, second: u32, rollovers_after: u32) -> nat {
    if first > second {
        down_extended(reload as nat, rollovers as nat, first as nat)
    } else {
        down_extended(reload as nat, rollovers_after as nat, second as nat)
    }
}

/// `rollovers * 2^32 + low`.
pub fn compose_up(rollovers: u32, low: u32) -> (r: u64)
    ensures
        r == up_extended(rollovers as nat, low as nat),
{
    assert(rollovers as nat * (COUNTER_PERIOD as nat) + low as nat <= u64::MAX) by (nonlinear_arith)
        requires
            rollovers <= u32::MAX,
            low <= u32::MAX,
    ;
    (rollovers as u64) * COUNTER_PERIOD + (low as u64)
}

/// `rollovers * (reload + 1)` plus the ticks elapsed since the last reload.
pub fn compose_down(reload: u32, rollovers: u32, raw: u32) -> (r: u64)
    ensures
        r == down_extended(reload as nat, rollovers as nat, raw as nat),
{
    let offset: u32 = if raw <= reload { reload - raw } else { 0 };
    assert(rollovers as nat * (reload as nat + 1) + offset as nat <= u64::MAX) by (nonlinear_arith)
        requires
            rollovers <= u32::MAX,
            reload <= u32::MAX,
            offset <= u32::MAX,
    ;
    (rollovers as u64) * (reload as u64 + 1) + (offset as u64)
}

/// Combines the readings of a double read of an up-counter: when the counter
/// grew between its two readings it did not wrap, and the first reading goes
/// with the wrap count read after it; otherwise the second reading goes with
/// the wrap count read after the second.
pub fn extend_up(first: u32, rollovers: u32, second: u32, rollovers_after: u32) -> (r: u64)
    ensures
        r == up_reading(first, rollovers, second, rollovers_after),
{
    if first < second {
        compose_up(rollovers, first)
    } else {
        compose_up(rollovers_after, second)
    }
}

/// Combines the readings of a double read of a down-counter reloading at
/// `reload`: when the counter fell between its two readings it did not reload,
/// and the first reading goes with the wrap count read after it; otherwise the
/// second reading goes with the wrap count read after the second.
pub fn extend_down(reload: u32, first: u32, rollovers: u32, second: u32, rollovers_after: u32) -> (r: u64)
    ensures
        r == down_reading(reload, first, rollovers, second, rollovers_after),
{
    if first > second {
        compose_down(reload, rollovers, first)
    } else {
        compose_down(reload, rollovers_after, second)
    }
}

/// Reads an up-counter widened by its wrap count, with the double-read
/// protocol: counter, wrap count, counter, and the wrap count once more only
/// when the counter wrapped between the two counter reads.
pub fn read_up_extended<C: WrappingCounter>(counter: &C) -> (r: u64)
    ensures
        exists|first: u32, rollovers: u32, second: u32, rollovers_after: u32|
            r == #[trigger] up_reading(first, rollovers, second, rollovers_after),
{
    let first = counter.read_counter();
    let rollovers = counter.read_rollovers();
    let second = counter.read_counter();
    let rollovers_after = if first < second { rollovers } else { counter.read_rollovers() };
    extend_up(first, rollovers, second, rollovers_after)
}

/// Reads a down-counter that reloads at `reload`, widened by its wrap count,
/// with the double-read protocol.
pub fn read_down_extended<C: WrappingCounter>(counter: &C, reload: u32) -> (r: u64)
    ensures
        exists|first: u32, rollovers: u32, second: u32, rollovers_after: u32|
            r == #[trigger] down_reading(reload, first, rollovers, second, rollovers_after),
{
    let first = counter.read_counter();
    let rollovers = counter.read_rollovers();
    let second = counter.read_counter();
    let rollovers_after = if first > second { rollovers } else { counter.read_rollovers() };
    extend_down(reload, first, rollovers, second, rollovers_after)
}

// A model of the hardware: at true tick count `t` an up-counter with `period`
// values reads `t % period`, a down-counter reloading at `reload` reads
// `reload - t % (reload + 1)`, and the overflow interrupt has fired
// `t / period` times.

/// The up-counter's register at true count `t`.
pub open spec fn up_counter_at(t: nat) -> u32 {
    (t % (COUNTER_PERIOD as nat)) as u32
}

/// The down-counter's register at true count `t`.
pub open spec fn down_counter_at(reload: u32, t: nat) -> u32 {
    (reload - t % (reload as nat + 1)) as u32
}

/// The wrap count at true count `t`, for a counter with `period` values.
pub open spec fn rollovers_at(period: nat, t: nat) -> u32 {
    (t / period) as u32
}

proof fn lemma_div_mod_bounds(t: nat, p: nat)
    requires
        p > 0,
    ensures
        t == (t / p) * p + t % p,
        t % p < p,
        (t / p) * p <= t,
{
    lemma_fundamental_div_mod(t as int, p as int);
    assert((t / p) * p == p * (t / p)) by (nonlinear_arith);
}

/// Two counts less than a period apart lie in the same period exactly when
/// the counter's low part grew between them; otherwise in consecutive ones.
proof fn lemma_same_or_next_period(t1: nat, t3: nat, p: nat)
    requires
        p > 0,
        t1 < t3,
        t3 < t1 + p,
    ensures
        t1 % p < t3 % p ==> t3 / p == t1 / p,
        t1 % p >= t3 % p ==> t3 / p == t1 / p + 1,
{
    lemma_div_mod_bounds(t1, p);
    lemma_div_mod_bounds(t3, p);
    let h1 = t1 / p;
    let h3 = t3 / p;
    let l1 = t1 % p;
    let l3 = t3 % p;
    assert((h3 - h1) * p == (t3 - t1) - (l3 - l1)) by (nonlinear_arith)
        requires
            t1 == h1 * p + l1,
            t3 == h3 * p + l3,
    ;
    assert(h3 - h1 >= 0 && h3 - h1 <= 1) by (nonlinear_arith)
        requires
            (h3 - h1) * p == (t3 - t1) - (l3 - l1),
            0 < t3 - t1 < p,
            0 <= l1 < p,
            0 <= l3 < p,
    ;
    if h3 == h1 {
        assert(l3 - l1 == t3 - t1) by (nonlinear_arith)
            requires
                (h3 - h1) * p == (t3 - t1) - (l3 - l1),
                h3 == h1,
        ;
    } else {
        assert(l3 - l1 == t3 - t1 - p) by (nonlinear_arith)
            requires
                (h3 - h1) * p == (t3 - t1) - (l3 - l1),
                h3 == h1 + 1,
        ;
    }
}

/// `t` lies in period `h` when `h * p <= t < (h + 1) * p`.
proof fn lemma_in_period(t: nat, h: nat, p: nat)
    requires
        p > 0,
        h * p <= t,
        t < (h + 1) * p,
    ensures
        t / p == h,
{
    lemma_div_mod_bounds(t, p);
    let q = t / p;
    assert(q == h) by (nonlinear_arith)
        requires
            t == q * p + t % p,
            0 <= t % p < p,
            h * p <= t,
            t < (h + 1) * p,
            p > 0,
    ;
}

/// For a counter with `p` values read at `t1 < t3`, with the wrap count read
/// at `t2` between them and again at `t4` after, all within one period: the
/// protocol's choice of count is the true count at the first or at the second
/// counter read.
proof fn lemma_protocol_is_exact(p: nat, t1: nat, t2: nat, t3: nat, t4: nat)
    requires
        p > 0,
        t1 <= t2 <= t3 <= t4,
        t1 < t3,
        t4 < t1 + p,
    ensures
        t1 % p < t3 % p ==> (t2 / p) * p + t1 % p == t1,
        t1 % p >= t3 % p ==> (t4 / p) * p + t3 % p == t3,
{
    lemma_same_or_next_period(t1, t3, p);
    lemma_div_mod_bounds(t1, p);
    lemma_div_mod_bounds(t3, p);
    lemma_div_is_ordered(t1 as int, t2 as int, p as int);
    lemma_div_is_ordered(t2 as int, t3 as int, p as int);
    if t1 % p >= t3 % p {
        let h1 = t1 / p;
        let h3 = t3 / p;
        assert((h1 + 1) * p == h1 * p + p) by (nonlinear_arith);
        assert(t1 < (h1 + 1) * p);
        assert((h3 + 1) * p == (h1 + 1) * p + p) by (nonlinear_arith)
            requires
                h3 == h1 + 1,
        ;
        lemma_in_period(t4, h3, p);
    }
}

/// The double read of an up-counter is exact: with the two counter reads at
/// true counts `t1 < t3` and the wrap-count reads at `t2` and `t4`, all within
/// one period, it yields the true count at the first read if the counter did
/// not wrap between the two reads, and at the second read if it did. It never
/// yields a count one period off.
pub proof fn up_reading_is_exact(t1: nat, t2: nat, t3: nat, t4: nat)
    requires
        t1 <= t2 <= t3 <= t4,
        t1 < t3,
        t4 < t1 + COUNTER_PERIOD,
        t4 / (COUNTER_PERIOD as nat) <= u32::MAX,
    ensures
        up_reading(
            up_counter_at(t1),
            rollovers_at(COUNTER_PERIOD as nat, t2),
            up_counter_at(t3),
            rollovers_at(COUNTER_PERIOD as nat, t4),
        ) == if up_counter_at(t1) < up_counter_at(t3) { t1 } else { t3 },
{
    let p = COUNTER_PERIOD as nat;
    lemma_protocol_is_exact(p, t1, t2, t3, t4);
    lemma_div_is_ordered(t2 as int, t4 as int, p as int);
    lemma_div_is_ordered(t1 as int, t2 as int, p as int);
    lemma_div_mod_bounds(t1, p);
    lemma_div_mod_bounds(t3, p);
}

/// Successive up-counter readings increase strictly, and two readings differ by
/// no more than the true time spanned by the two double reads: a read that
/// straddles a wrap is never off by a period.
pub proof fn up_readings_increase(
    a1: nat, a2: nat, a3: nat, a4: nat,
    b1: nat, b2: nat, b3: nat, b4: nat,
)
    requires
        a1 <= a2 <= a3 <= a4,
        a1 < a3,
        a4 < a1 + COUNTER_PERIOD,
        a4 < b1,
        b1 <= b2 <= b3 <= b4,
        b1 < b3,
        b4 < b1 + COUNTER_PERIOD,
        b4 / (COUNTER_PERIOD as nat) <= u32::MAX,
    ensures
        ({
            let first = up_reading(
                up_counter_at(a1),
                rollovers_at(COUNTER_PERIOD as nat, a2),
                up_counter_at(a3),
                rollovers_at(COUNTER_PERIOD as nat, a4),
            );
            let later = up_reading(
                up_counter_at(b1),
                rollovers_at(COUNTER_PERIOD as nat, b2),
                up_counter_at(b3),
                rollovers_at(COUNTER_PERIOD as nat, b4),
            );
            first < later && later - first <= b3 - a1
        }),
{
    lemma_div_is_ordered(a4 as int, b4 as int, COUNTER_PERIOD as int);
    up_reading_is_exact(a1, a2, a3, a4);
    up_reading_is_exact(b1, b2, b3, b4);
}

/// The double read of a down-counter that reloads at `reload` is exact in the
/// same way: it yields the true count at one of its two counter reads.
pub proof fn down_reading_is_exact(reload: u32, t1: nat, t2: nat, t3: nat, t4: nat)
    requires
        t1 <= t2 <= t3 <= t4,
        t1 < t3,
        t4 < t1 + reload + 1,
        t4 / (reload as nat + 1) <= u32::MAX,
    ensures
        down_reading(
            reload,
            down_counter_at(reload, t1),
            rollovers_at(reload as nat + 1, t2),
            down_counter_at(reload, t3),
            rollovers_at(reload as nat + 1, t4),
        ) == if down_counter_at(reload, t1) > down_counter_at(reload, t3) { t1 } else { t3 },
{
    let p = reload as nat + 1;
    lemma_protocol_is_exact(p, t1, t2, t3, t4);
    lemma_div_is_ordered(t2 as int, t4 as int, p as int);
    lemma_div_is_ordered(t1 as int, t2 as int, p as int);
    lemma_div_mod_bounds(t1, p);
    lemma_div_mod_bounds(t3, p);
}

/// Across a reload the extended count of a down-counter advances by one tick,
/// not by a period: the last reading before the reload (register `0`, `k`
/// wraps) and the first after it (register `reload`, `k + 1` wraps) are
/// consecutive counts.
pub proof fn down_extended_steps_by_one_at_reload(reload: u32, k: nat)
    ensures
        down_extended(reload as nat, k + 1, reload as nat) == down_extended(reload as nat, k, 0) + 1,
{
    assert((k + 1) * (reload as nat + 1) == k * (reload as nat + 1) + reload as nat + 1) by (nonlinear_arith);
}

} // verus!
