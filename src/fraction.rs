//! Exact conversion of native clock ticks to microseconds.
use vstd::arithmetic::div_mod::{
    lemma_div_denominator, lemma_div_multiples_vanish, lemma_fundamental_div_mod,
    lemma_mod_multiples_basic, lemma_truncate_middle,
};
use vstd::arithmetic::power2::{lemma_pow2_adds, lemma_pow2_pos, pow2};
use vstd::bits::{lemma_u32_shl_is_mul, lemma_u32_shr_is_div};
use vstd::prelude::*;
use vstd::std_specs::bits::axiom_u32_trailing_zeros;

verus! {

/// Microseconds in one second: the target tick rate of every instant.
pub const MICROS_PER_SEC: u32 = 1_000_000;

/// Greatest common divisor, by Euclid's rule.
pub open spec fn gcd_spec(a: nat, b: nat) -> nat
    decreases b,
{
    if b == 0 {
        a
    } else {
        gcd_spec(b, a % b)
    }
}

/// The pair `(numerator, denominator)` that converts ticks of a clock running at
/// `rate` ticks per second into microseconds: `1_000_000 / rate` in lowest terms.
pub open spec fn reduced_spec(rate: nat) -> (nat, nat) {
    let g = gcd_spec(MICROS_PER_SEC as nat, rate);
    (MICROS_PER_SEC as nat / g, rate / g)
}

/// `d` divides `x`.
pub open spec fn divides(d: int, x: int) -> bool {
    x % d == 0
}

/// `x`, or the largest container value where `x` does not fit.
pub open spec fn saturate(x: nat) -> nat {
    if x <= u64::MAX { x } else { u64::MAX as nat }
}

/// Microseconds in `ticks` ticks of a clock running at `rate` ticks per second,
/// rounded down and saturating.
pub open spec fn native_to_micros(ticks: nat, rate: nat) -> nat {
    saturate(ticks * (MICROS_PER_SEC as nat) / rate)
}

proof fn lemma_divisor_le(d: int, x: int)
    requires
        d > 0,
        x > 0,
        x % d == 0,
    ensures
        d <= x,
{
    lemma_fundamental_div_mod(x, d);
    assert(x / d >= 1) by (nonlinear_arith)
        requires
            x == d * (x / d),
            x > 0,
            d > 0,
    ;
    assert(d <= d * (x / d)) by (nonlinear_arith)
        requires
            x / d >= 1,
            d > 0,
    ;
}

proof fn lemma_divides_sum(d: int, x: int, y: int, p: int, q: int)
    requires
        d > 0,
        x % d == 0,
        y % d == 0,
    ensures
        (p * x + q * y) % d == 0,
{
    lemma_fundamental_div_mod(x, d);
    lemma_fundamental_div_mod(y, d);
    let a = x / d;
    let b = y / d;
    assert(p * x + q * y == (p * a + q * b) * d) by (nonlinear_arith)
        requires
            x == d * a,
            y == d * b,
    ;
    lemma_mod_multiples_basic(p * a + q * b, d);
}

proof fn lemma_divides_antisym(x: int, y: int)
    requires
        x > 0,
        y > 0,
        x % y == 0,
        y % x == 0,
    ensures
        x == y,
{
    lemma_divisor_le(y, x);
    lemma_divisor_le(x, y);
}

/// The gcd of two numbers, not both zero, is positive and divides both.
proof fn lemma_gcd_divides(a: nat, b: nat)
    requires
        a > 0 || b > 0,
    ensures
        gcd_spec(a, b) > 0,
        a % gcd_spec(a, b) == 0,
        b % gcd_spec(a, b) == 0,
    decreases b,
{
    if b == 0 {
        vstd::arithmetic::div_mod::lemma_mod_self_0(a as int);
    } else {
        let r = a % b;
        lemma_gcd_divides(b, r);
        let g = gcd_spec(b, r);
        lemma_fundamental_div_mod(a as int, b as int);
        lemma_divides_sum(g as int, b as int, r as int, (a / b) as int, 1);
        assert(a as int == (a / b) as int * b as int + 1 * r as int) by (nonlinear_arith)
            requires
                a as int == b as int * (a as int / b as int) + (a as int % b as int),
                r == a % b,
        ;
    }
}

/// Every common divisor of two numbers divides their gcd.
proof fn lemma_common_divisor_divides_gcd(a: nat, b: nat, c: int)
    requires
        c > 0,
        a as int % c == 0,
        b as int % c == 0,
    ensures
        gcd_spec(a, b) as int % c == 0,
    decreases b,
{
    if b != 0 {
        let r = a % b;
        lemma_fundamental_div_mod(a as int, b as int);
        lemma_divides_sum(c, a as int, b as int, 1, -(a as int / b as int));
        assert(r as int == 1 * a as int + (-(a as int / b as int)) * b as int) by (nonlinear_arith)
            requires
                a as int == b as int * (a as int / b as int) + (a as int % b as int),
                r == a % b,
        ;
        lemma_common_divisor_divides_gcd(b, r, c);
    }
}

/// Scaling both arguments scales the gcd.
proof fn lemma_gcd_scale(a: nat, b: nat, c: nat)
    requires
        c > 0,
    ensures
        gcd_spec(c * a, c * b) == c * gcd_spec(a, b),
    decreases b,
{
    if b == 0 {
        assert(c * b == 0) by (nonlinear_arith)
            requires
                b == 0,
        ;
    } else {
        assert(c * b > 0) by (nonlinear_arith)
            requires
                c > 0,
                b > 0,
        ;
        lemma_truncate_middle(a as int, c as int, b as int);
        assert((c * a) % (c * b) == c * (a % b));
        lemma_gcd_scale(b, a % b, c);
    }
}

/// Two pairs with the same common divisors have the same gcd.
proof fn lemma_gcd_equal(a: nat, b: nat, x: nat, y: nat)
    requires
        a > 0 || b > 0,
        x > 0 || y > 0,
        forall|c: int| c > 0 && #[trigger] divides(c, a as int) && divides(c, b as int) ==> divides(c, x as int) && divides(c, y as int),
        forall|c: int| c > 0 && #[trigger] divides(c, x as int) && divides(c, y as int) ==> divides(c, a as int) && divides(c, b as int),
    ensures
        gcd_spec(a, b) == gcd_spec(x, y),
{
    lemma_gcd_divides(a, b);
    lemma_gcd_divides(x, y);
    let g1 = gcd_spec(a, b) as int;
    let g2 = gcd_spec(x, y) as int;
    assert(divides(g1, a as int) && divides(g1, b as int));
    assert(divides(g2, x as int) && divides(g2, y as int));
    lemma_common_divisor_divides_gcd(x, y, g1);
    lemma_common_divisor_divides_gcd(a, b, g2);
    lemma_divides_antisym(g1, g2);
}

proof fn lemma_gcd_sym(a: nat, b: nat)
    ensures
        gcd_spec(a, b) == gcd_spec(b, a),
{
    if a > 0 || b > 0 {
        lemma_gcd_equal(a, b, b, a);
    } else {
        assert(a == 0 && b == 0);
    }
}

proof fn lemma_gcd_sub(u: nat, v: nat)
    requires
        0 < u <= v,
    ensures
        gcd_spec(u, (v - u) as nat) == gcd_spec(u, v),
{
    let w = (v - u) as nat;
    assert forall|c: int| c > 0 && #[trigger] divides(c, u as int) && divides(c, w as int) implies divides(c, v as int) by {
        lemma_divides_sum(c, u as int, w as int, 1, 1);
    }
    assert forall|c: int| c > 0 && #[trigger] divides(c, u as int) && divides(c, v as int) implies divides(c, w as int) by {
        lemma_divides_sum(c, u as int, v as int, -1, 1);
    }
    lemma_gcd_equal(u, w, u, v);
}

/// An odd divisor of an even number `2 * w` divides `w`.
proof fn lemma_odd_divisor_halves(g: int, w: int)
    requires
        g > 0,
        g % 2 == 1,
        w >= 0,
        (2 * w) % g == 0,
    ensures
        w % g == 0,
{
    lemma_fundamental_div_mod(2 * w, g);
    let m = (2 * w) / g;
    lemma_fundamental_div_mod(g, 2);
    lemma_fundamental_div_mod(m, 2);
    let p = g / 2;
    let q = m / 2;
    if m % 2 == 1 {
        assert(g * m == 2 * (2 * p * q + p + q) + 1) by (nonlinear_arith)
            requires
                g == 2 * p + 1,
                m == 2 * q + 1,
        ;
        assert(false);
    }
    assert(w == q * g) by (nonlinear_arith)
        requires
            2 * w == g * m,
            m == 2 * q + m % 2,
            m % 2 == 0,
    ;
    lemma_mod_multiples_basic(q, g);
}

/// A divisor of an odd number is odd.
proof fn lemma_divisor_of_odd(g: int, u: int)
    requires
        g > 0,
        u % 2 == 1,
        u % g == 0,
    ensures
        g % 2 == 1,
{
    lemma_fundamental_div_mod(u, g);
    lemma_fundamental_div_mod(g, 2);
    if g % 2 == 0 {
        let h = g / 2;
        let k = u / g;
        assert(u == (h * k) * 2) by (nonlinear_arith)
            requires
                u == g * k,
                g == 2 * h,
        ;
        lemma_mod_multiples_basic(h * k, 2);
    }
}

/// Doubling one argument leaves the gcd unchanged when the other is odd.
proof fn lemma_gcd_odd_double(u: nat, w: nat)
    requires
        u % 2 == 1,
    ensures
        gcd_spec(u, 2 * w) == gcd_spec(u, w),
{
    assert forall|c: int| c > 0 && #[trigger] divides(c, u as int) && divides(c, (2 * w) as int) implies divides(c, w as int) by {
        lemma_divisor_of_odd(c, u as int);
        lemma_odd_divisor_halves(c, w as int);
    }
    assert forall|c: int| c > 0 && #[trigger] divides(c, u as int) && divides(c, w as int) implies divides(c, (2 * w) as int) by {
        lemma_divides_sum(c, w as int, w as int, 1, 1);
    }
    lemma_gcd_equal(u, 2 * w, u, w);
}

/// Factors of two in one argument do not change the gcd when the other is odd.
proof fn lemma_gcd_odd_pow2(u: nat, w: nat, t: nat)
    requires
        u % 2 == 1,
    ensures
        gcd_spec(u, w * pow2(t)) == gcd_spec(u, w),
    decreases t,
{
    if t == 0 {
        vstd::arithmetic::power2::lemma2_to64();
        assert(w * pow2(t) == w);
    } else {
        lemma_pow2_adds(1, (t - 1) as nat);
        vstd::arithmetic::power2::lemma2_to64();
        let w1 = w * pow2((t - 1) as nat);
        assert(w * pow2(t) == 2 * w1) by (nonlinear_arith)
            requires
                pow2(t) == pow2(1) * pow2((t - 1) as nat),
                pow2(1) == 2,
                w1 == w * pow2((t - 1) as nat),
        ;
        lemma_gcd_odd_double(u, w1);
        lemma_gcd_odd_pow2(u, w, (t - 1) as nat);
    }
}

/// The gcd of `a * 2^i` and `b * 2^j`, with `a` and `b` odd.
proof fn lemma_gcd_split_twos(a: nat, i: nat, b: nat, j: nat)
    requires
        a % 2 == 1,
        b % 2 == 1,
    ensures
        gcd_spec(a * pow2(i), b * pow2(j)) == pow2(if i <= j { i } else { j }) * gcd_spec(a, b),
    decreases (if i <= j { 0int } else { 1int }),
{
    if i <= j {
        let e = (j - i) as nat;
        lemma_pow2_adds(i, e);
        lemma_pow2_pos(i);
        assert(b * pow2(j) == pow2(i) * (b * pow2(e))) by (nonlinear_arith)
            requires
                pow2(j) == pow2(i) * pow2(e),
        ;
        assert(a * pow2(i) == pow2(i) * a) by (nonlinear_arith);
        lemma_gcd_scale(a, b * pow2(e), pow2(i));
        lemma_gcd_odd_pow2(a, b, e);
    } else {
        lemma_gcd_sym(a * pow2(i), b * pow2(j));
        lemma_gcd_split_twos(b, j, a, i);
        lemma_gcd_sym(a, b);
    }
}

/// Shifting a nonzero word right by its trailing zeros leaves an odd factor.
proof fn lemma_strip_twos(x: u32)
    requires
        x != 0,
    ensures
        x.trailing_zeros() < 32,
        (x >> x.trailing_zeros()) % 2 == 1,
        x as nat == (x >> x.trailing_zeros()) as nat * pow2(x.trailing_zeros() as nat),
{
    broadcast use axiom_u32_trailing_zeros;

    let t = x.trailing_zeros();
    let y = x >> t;
    assert(y & 1u32 == 1u32);
    assert(y & 1u32 == 1u32 ==> y % 2 == 1) by (bit_vector);
    assert(x << vstd::prelude::sub(32u32, t) == 0u32);
    assert(t < 32 && x << vstd::prelude::sub(32u32, t) == 0u32 ==> (x >> t) << t == x) by (bit_vector);
    lemma_u32_shr_is_div(x, t);
    lemma_pow2_pos(t as nat);
    lemma_fundamental_div_mod(x as int, pow2(t as nat) as int);
    assert(y as nat * pow2(t as nat) <= x) by (nonlinear_arith)
        requires
            x as int == pow2(t as nat) * (x as int / pow2(t as nat) as int) + (x as int % pow2(t as nat) as int),
            y as nat == x as nat / pow2(t as nat),
            x as int % pow2(t as nat) as int >= 0,
    ;
    lemma_u32_shl_is_mul(y, t);
}

/// The reduced pair is `1_000_000 / rate` in lowest terms: both parts are
/// positive, their ratio is exact and they share no factor.
pub proof fn reduced_fraction_is_lowest_terms(rate: nat)
    requires
        rate > 0,
    ensures
        reduced_spec(rate).0 > 0,
        reduced_spec(rate).1 > 0,
        reduced_spec(rate).0 * rate == reduced_spec(rate).1 * (MICROS_PER_SEC as nat),
        gcd_spec(reduced_spec(rate).0, reduced_spec(rate).1) == 1,
{
    let m = MICROS_PER_SEC as nat;
    let g = gcd_spec(m, rate);
    let (n, d) = reduced_spec(rate);
    lemma_gcd_divides(m, rate);
    lemma_fundamental_div_mod(m as int, g as int);
    lemma_fundamental_div_mod(rate as int, g as int);
    assert(g * n == m && g * d == rate);
    lemma_divisor_le(g as int, m as int);
    lemma_divisor_le(g as int, rate as int);
    assert(n > 0 && d > 0) by (nonlinear_arith)
        requires
            g * n == m,
            g * d == rate,
            m > 0,
            rate > 0,
    ;
    assert(n * rate == d * m) by (nonlinear_arith)
        requires
            g * n == m,
            g * d == rate,
    ;
    lemma_gcd_scale(n, d, g);
    assert(g * gcd_spec(n, d) == g * 1);
    assert(gcd_spec(n, d) == 1) by (nonlinear_arith)
        requires
            g * gcd_spec(n, d) == g * 1,
            g > 0,
    ;
}

/// No fraction equal to `1_000_000 / rate` has a smaller denominator than the
/// reduced one: every such denominator is a multiple of it.
pub proof fn reduced_denominator_is_minimal(rate: nat, numerator: nat, denominator: nat)
    requires
        rate > 0,
        denominator > 0,
        numerator * rate == denominator * (MICROS_PER_SEC as nat),
    ensures
        denominator % reduced_spec(rate).1 == 0,
        reduced_spec(rate).1 <= denominator,
{
    let m = MICROS_PER_SEC as nat;
    let g = gcd_spec(m, rate);
    let (n, d) = reduced_spec(rate);
    reduced_fraction_is_lowest_terms(rate);
    lemma_gcd_divides(m, rate);
    lemma_fundamental_div_mod(m as int, g as int);
    lemma_fundamental_div_mod(rate as int, g as int);
    assert(g * n == m && g * d == rate);
    assert(g * (numerator * d) == g * (denominator * n)) by (nonlinear_arith)
        requires
            numerator * rate == denominator * m,
            g * n == m,
            g * d == rate,
    ;
    assert(numerator * d == denominator * n) by (nonlinear_arith)
        requires
            g * (numerator * d) == g * (denominator * n),
            g > 0,
    ;
    // d divides both denominator * n and denominator * d, hence their gcd.
    lemma_mod_multiples_basic(numerator as int, d as int);
    assert((numerator * d) as int == numerator as int * d as int);
    lemma_mod_multiples_basic(denominator as int, d as int);
    assert((denominator * n) as int % d as int == 0);
    lemma_common_divisor_divides_gcd(denominator * n, denominator * d, d as int);
    lemma_gcd_scale(n, d, denominator);
    assert(denominator * n == n * denominator) by (nonlinear_arith);
    assert(gcd_spec(denominator * n, denominator * d) == denominator);
    lemma_divisor_le(d as int, denominator as int);
}

/// Converting with the reduced pair gives exactly the microseconds of the
/// unreduced ratio, for every tick count.
pub proof fn reduced_conversion_is_exact(rate: nat, ticks: nat)
    requires
        rate > 0,
    ensures
        (ticks * reduced_spec(rate).0) / reduced_spec(rate).1 == (ticks * (MICROS_PER_SEC as nat)) / rate,
{
    let m = MICROS_PER_SEC as nat;
    let g = gcd_spec(m, rate);
    let (n, d) = reduced_spec(rate);
    reduced_fraction_is_lowest_terms(rate);
    lemma_gcd_divides(m, rate);
    lemma_fundamental_div_mod(m as int, g as int);
    lemma_fundamental_div_mod(rate as int, g as int);
    assert(g * n == m && g * d == rate);
    let x = ticks * n;
    assert(ticks * m == g * x) by (nonlinear_arith)
        requires
            g * n == m,
            x == ticks * n,
    ;
    lemma_div_multiples_vanish(x as int, g as int);
    lemma_div_denominator((g * x) as int, g as int, d as int);
    assert(g * d == rate);
}

/// Greatest common divisor of two words, by the binary method: common factors
/// of two are stripped, the odd parts are reduced by repeated subtraction, and
/// the factors of two are put back at the end.
pub fn gcd(u0: u32, v0: u32) -> (r: u32)
    ensures
        r == gcd_spec(u0 as nat, v0 as nat),
{
    if u0 == 0 {
        proof {
            lemma_gcd_sym(0, v0 as nat);
        }
        return v0;
    } else if v0 == 0 {
        return u0;
    }
    let i = u0.trailing_zeros();
    let j = v0.trailing_zeros();
    proof {
        lemma_strip_twos(u0);
        lemma_strip_twos(v0);
    }
    let mut u = u0 >> i;
    let mut v = v0 >> j;
    let k = if i <= j { i } else { j };
    proof {
        lemma_gcd_split_twos(u as nat, i as nat, v as nat, j as nat);
        lemma_gcd_divides(u0 as nat, v0 as nat);
        lemma_divisor_le(gcd_spec(u0 as nat, v0 as nat) as int, u0 as int);
    }
    loop
        invariant
            u % 2 == 1,
            v % 2 == 1,
            k < 32,
            gcd_spec(u0 as nat, v0 as nat) <= u32::MAX,
            pow2(k as nat) * gcd_spec(u as nat, v as nat) == gcd_spec(u0 as nat, v0 as nat),
        decreases u + v,
    {
        if u > v {
            proof {
                lemma_gcd_sym(u as nat, v as nat);
            }
            let tmp = u;
            u = v;
            v = tmp;
        }
        proof {
            lemma_gcd_sub(u as nat, v as nat);
        }
        let ghost w = v - u;
        v = v - u;
        if v == 0 {
            proof {
                assert(gcd_spec(u as nat, 0) == u);
                lemma_pow2_pos(k as nat);
                assert(u * pow2(k as nat) == pow2(k as nat) * u) by (nonlinear_arith);
                lemma_u32_shl_is_mul(u, k);
            }
            return u << k;
        }
        let t = v.trailing_zeros();
        proof {
            lemma_strip_twos(v);
            lemma_gcd_odd_pow2(u as nat, (v >> t) as nat, t as nat);
            lemma_pow2_pos(t as nat);
            assert((v >> t) as nat <= v) by (nonlinear_arith)
                requires
                    v as nat == (v >> t) as nat * pow2(t as nat),
                    pow2(t as nat) > 0,
            ;
        }
        v = v >> t;
    }
}

/// Reduces `1_000_000 / rate`, the factor from native ticks to microseconds,
/// to lowest terms: returns `(numerator, denominator)`.
pub fn reduced_fraction(rate: u32) -> (r: (u32, u32))
    requires
        rate > 0,
    ensures
        (r.0 as nat, r.1 as nat) == reduced_spec(rate as nat),
{
    let g = gcd(MICROS_PER_SEC, rate);
    proof {
        lemma_gcd_divides(MICROS_PER_SEC as nat, rate as nat);
    }
    (MICROS_PER_SEC / g, rate / g)
}

/// Converts a native tick count to microseconds with a reduced fraction:
/// `ticks * numerator / denominator`, computed without intermediate overflow,
/// saturating at `u64::MAX` where the result does not fit.
pub fn ticks_to_micros(ticks: u64, numerator: u32, denominator: u32) -> (r: u64)
    requires
        denominator > 0,
    ensures
        r == if ticks as int * numerator as int / denominator as int <= u64::MAX {
            ticks as int * numerator as int / denominator as int
        } else {
            u64::MAX as int
        },
{
    assert((ticks as int) * (numerator as int) <= u64::MAX as int * u32::MAX as int) by (nonlinear_arith)
        requires
            ticks <= u64::MAX,
            numerator <= u32::MAX,
    ;
    let product = (ticks as u128) * (numerator as u128);
    let quotient = product / (denominator as u128);
    if quotient > u64::MAX as u128 {
        u64::MAX
    } else {
        quotient as u64
    }
}

/// Converts ticks of a clock with a fixed rate to microseconds, with the
/// rate's reduced fraction computed once.
#[derive(Clone, Copy, Debug)]
pub struct TickConverter {
    rate: u32,
    numerator: u32,
    denominator: u32,
}

impl TickConverter {
    #[verifier::type_invariant]
    spec fn inv(self) -> bool {
        self.rate > 0 && (self.numerator as nat, self.denominator as nat) == reduced_spec(self.rate as nat)
    }

    /// The clock's rate, in ticks per second.
    pub closed spec fn rate_spec(self) -> nat {
        self.rate as nat
    }

    /// A converter for a clock running at `rate` ticks per second.
    pub fn new(rate: u32) -> (r: Self)
        requires
            rate > 0,
        ensures
            r.rate_spec() == rate,
    {
        let (numerator, denominator) = reduced_fraction(rate);
        TickConverter { rate, numerator, denominator }
    }

    /// The clock's rate, in ticks per second.
    pub fn rate(&self) -> (r: u32)
        ensures
            r == self.rate_spec(),
    {
        self.rate
    }

    /// Microseconds in `ticks` ticks, rounded down and saturating.
    pub fn micros(&self, ticks: u64) -> (r: u64)
        ensures
            r == native_to_micros(ticks as nat, self.rate_spec()),
    {
        proof {
            use_type_invariant(self);
            reduced_fraction_is_lowest_terms(self.rate as nat);
            reduced_conversion_is_exact(self.rate as nat, ticks as nat);
        }
        ticks_to_micros(ticks, self.numerator, self.denominator)
    }
}

} // verus!
