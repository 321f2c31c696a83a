//! Rounding to single precision.
//!
//! A typed temperature is taken as the single-precision number (24 bits of
//! significand, ties to even) nearest to the text, and every product or sum
//! of such numbers is rounded the same way. Numbers are modelled exactly, as
//! multiples of the smallest positive single-precision number, 2^-149: the
//! natural number `n` stands for `n / one()`.
//!
//! The model has no largest number. Where single precision would overflow to
//! infinity, the number modelled lies far above every bound this crate
//! compares with, so the comparisons come out the same.

use vstd::arithmetic::div_mod::{
    lemma_div_denominator, lemma_fundamental_div_mod, lemma_fundamental_div_mod_converse,
};
use vstd::prelude::*;

verus! {

/// The model of the number 1: 2^149.
pub open spec fn one() -> nat {
    0x20000000000000000000000000000000000000nat
}

/// The model of 2^-29: 2^120.
pub open spec fn step29() -> nat {
    0x1000000000000000000000000000000nat
}

/// The weight of the last of 24 significant bits of `q`: the power of two
/// that leaves a quotient below 2^24.
pub open spec fn unit(q: nat) -> nat
    decreases q,
{
    if q < 0x100_0000 {
        1
    } else {
        2 * unit(q / 2)
    }
}

/// `n / d` rounded to the nearest integer, a tie going to the even one.
pub open spec fn half_even(n: nat, d: nat) -> nat {
    let q = n / d;
    let r = n % d;
    if 2 * r < d || (2 * r == d && q % 2 == 0) {
        q
    } else {
        q + 1
    }
}

/// `n / d` rounded to 24 significant bits.
pub open spec fn round24(n: nat, d: nat) -> nat {
    let u = unit(n / d);
    half_even(n, d * u) * u
}

/// The single-precision number nearest to `num / den`.
pub open spec fn nearest(num: nat, den: nat) -> nat {
    round24(num * one(), den)
}

// ---------------------------------------------------------------------
// Facts about rounding
// ---------------------------------------------------------------------

/// 2 to the power of `k`.
pub open spec fn twos(k: nat) -> nat
    decreases k,
{
    if k == 0 {
        1
    } else {
        2 * twos((k - 1) as nat)
    }
}

proof fn lemma_twos_120()
    ensures
        twos(120) == step29(),
{
    assert(twos(30) == 0x4000_0000) by {
        reveal_with_fuel(twos, 31);
    }
    lemma_twos_sum(30, 30);
    let t = twos(30);
    assert(t * t == 0x1000_0000_0000_0000) by (nonlinear_arith)
        requires
            t == 0x4000_0000,
    ;
    lemma_twos_sum(60, 60);
    let v = twos(60);
    assert(v * v == step29()) by (nonlinear_arith)
        requires
            v == 0x1000_0000_0000_0000,
    ;
}

pub proof fn lemma_twos_sum(a: nat, b: nat)
    ensures
        twos(a + b) == twos(a) * twos(b),
    decreases a,
{
    if a > 0 {
        let c = (a - 1) as nat;
        lemma_twos_sum(c, b);
        assert((2 * twos(c)) * twos(b) == 2 * (twos(c) * twos(b))) by (nonlinear_arith);
    } else {
        assert(1 * twos(b) == twos(b));
    }
}

proof fn lemma_twos_pos(k: nat)
    ensures
        twos(k) > 0,
    decreases k,
{
    if k > 0 {
        lemma_twos_pos((k - 1) as nat);
    }
}

pub proof fn lemma_unit_bounds(q: nat)
    ensures
        unit(q) >= 1,
        q < 0x100_0000 * unit(q),
        q >= 0x80_0000 ==> 0x80_0000 * unit(q) <= q,
        q < 0x80_0000 ==> unit(q) == 1,
        q >= 0x100_0000 ==> unit(q) % 2 == 0,
    decreases q,
{
    if q >= 0x100_0000 {
        lemma_unit_bounds(q / 2);
    }
}

proof fn lemma_unit_shift(q: nat, k: nat)
    requires
        q / twos(k) >= 0x80_0000,
    ensures
        unit(q) == twos(k) * unit(q / twos(k)),
    decreases k,
{
    if k > 0 {
        let m = (k - 1) as nat;
        lemma_twos_pos(m);
        lemma_div_denominator(q as int, 2, twos(m) as int);
        assert(q / twos(k) == (q / 2) / twos(m));
        assert(q >= 0x100_0000) by {
            lemma_fundamental_div_mod(q as int, twos(k) as int);
            let t = twos(k) as int;
            let v = q as int / t;
            assert(t * v >= 2 * 0x80_0000) by (nonlinear_arith)
                requires
                    t >= 2,
                    v >= 0x80_0000,
            ;
        }
        lemma_unit_shift(q / 2, m);
        let w = unit(q / twos(k)) as int;
        assert(2 * (twos(m) * w) == (2 * twos(m)) * w) by (nonlinear_arith);
    } else {
        assert(q / 1 == q);
        assert(twos(k) == 1);
        assert(1 * unit(q) == unit(q));
    }
}

/// A quotient and a remainder that fit are the quotient and the remainder.
pub proof fn lemma_div_mod(n: nat, d: nat, q: nat, r: nat)
    requires
        n == q * d + r,
        r < d,
    ensures
        n / d == q,
        n % d == r,
{
    lemma_fundamental_div_mod_converse(n as int, d as int, q as int, r as int);
}

/// Scaling both sides of a fraction leaves its rounding alone.
pub proof fn lemma_half_even_scale(n: nat, d: nat, c: nat)
    requires
        d > 0,
        c > 0,
    ensures
        half_even(n * c, d * c) == half_even(n, d),
{
    let q = n / d;
    let r = n % d;
    lemma_fundamental_div_mod(n as int, d as int);
    assert(n * c == q * (d * c) + r * c) by (nonlinear_arith)
        requires
            n == d * q + r,
    ;
    assert(r * c < d * c) by (nonlinear_arith)
        requires
            r < d,
            c > 0,
    ;
    lemma_div_mod(n * c, d * c, q, r * c);
    assert(2 * (r * c) < d * c <==> 2 * r < d) by (nonlinear_arith)
        requires
            c > 0,
    ;
    assert(2 * (r * c) == d * c <==> 2 * r == d) by (nonlinear_arith)
        requires
            c > 0,
    ;
}

proof fn lemma_round24_bounds(n: nat, d: nat)
    requires
        d > 0,
    ensures
        ({
            let q = n / d;
            let u = unit(q);
            &&& round24(n, d) <= q + u
            &&& round24(n, d) + u > q
        }),
{
    let q = n / d;
    let u = unit(q);
    lemma_unit_bounds(q);
    let h = half_even(n, d * u);
    assert(d * u > 0) by (nonlinear_arith)
        requires
            d > 0,
            u >= 1,
    ;
    lemma_div_denominator(n as int, d as int, u as int);
    let a = q / u;
    assert(n / (d * u) == a);
    lemma_fundamental_div_mod(q as int, u as int);
    assert(h == a || h == a + 1);
    assert(h * u == a * u || h * u == a * u + u) by (nonlinear_arith)
        requires
            h == a || h == a + 1,
    ;
    assert(u * a == a * u) by (nonlinear_arith);
}

/// Rounding moves a number by less than one part in 2^23, and by less than
/// the smallest step where the number is small.
pub proof fn lemma_round24_close(n: nat, d: nat)
    requires
        d > 0,
    ensures
        round24(n, d) * 0x80_0000 <= (n / d) * 0x80_0001 + 0x80_0000,
        round24(n, d) * 0x80_0000 + 0x80_0000 >= (n / d) * 0x7F_FFFF,
{
    lemma_round24_bounds(n, d);
    lemma_unit_bounds(n / d);
}

/// Rounding commutes with scaling by 2^120, for numbers with at least 24
/// significant bits.
pub proof fn lemma_round24_scale(m: nat)
    requires
        m >= 0x80_0000,
    ensures
        round24(m * step29(), 1) == round24(m, 1) * step29(),
{
    let s = step29();
    lemma_twos_120();
    lemma_div_mod(m * s, s, m, 0);
    lemma_unit_shift(m * s, 120);
    let u = unit(m);
    lemma_unit_bounds(m);
    assert(unit(m * s) == s * u);
    assert((m * s) / 1 == m * s);
    assert(m / 1 == m);
    lemma_half_even_scale(m, u, s);
    assert(1 * (s * u) == u * s) by (nonlinear_arith);
    let h = half_even(m, u);
    assert(h * (s * u) == (h * u) * s) by (nonlinear_arith);
}

/// The nearest number to a fraction given in units of 2^-29: `num / den`
/// lies at or above `q` such units by the share `s / den` of one unit.
pub proof fn lemma_nearest29(num: nat, den: nat, q: nat, s: nat, a: nat, rem: nat)
    requires
        den > 0,
        num * 0x2000_0000 == q * den + s,
        s < den,
        q >= 0x100_0000,
        q == a * unit(q) + rem,
        rem < unit(q),
    ensures
        nearest(num, den) == step29() * (unit(q) * (if rem > unit(q) / 2 || (rem == unit(q) / 2 && (
        s > 0 || a % 2 == 1)) {
            a + 1
        } else {
            a
        })),
{
    let big = step29();
    let u = unit(q);
    let h = u / 2;
    lemma_unit_bounds(q);
    lemma_twos_120();
    assert(u == 2 * h);
    let n = num * 0x2000_0000;
    assert(num * one() == n * big);
    // The quotient at the finest scale, cut back to units of 2^-29, is `q`.
    lemma_div_mod(n, den, q, s);
    let fine = (num * one()) / den;
    assert(fine / big == q) by {
        lemma_div_denominator((n * big) as int, den as int, big as int);
        lemma_div_denominator((n * big) as int, big as int, den as int);
        assert(den * big == big * den);
        lemma_div_mod(n * big, big, n, 0);
    }
    lemma_unit_shift(fine, 120);
    assert(unit(fine) == big * u);
    // Rounding at the finest scale is rounding at the scale of `u`.
    let d = den * u;
    assert(d > 0) by (nonlinear_arith)
        requires
            d == den * u,
            den > 0,
            u >= 1,
    ;
    assert(den * (big * u) == d * big) by (nonlinear_arith)
        requires
            d == den * u,
    ;
    lemma_half_even_scale(n, d, big);
    let r = rem * den + s;
    assert(n == a * d + r) by (nonlinear_arith)
        requires
            n == q * den + s,
            q == a * u + rem,
            d == den * u,
            r == rem * den + s,
    ;
    assert(r < d) by (nonlinear_arith)
        requires
            r == rem * den + s,
            rem + 1 <= u,
            s < den,
            d == den * u,
    ;
    lemma_div_mod(n, d, a, r);
    let m = half_even(n, d);
    assert(d == 2 * (h * den)) by (nonlinear_arith)
        requires
            d == den * u,
            u == 2 * h,
    ;
    if rem < h {
        assert(r < h * den) by (nonlinear_arith)
            requires
                r == rem * den + s,
                rem + 1 <= h,
                s < den,
        ;
        assert(m == a);
    } else if rem > h {
        assert(r > h * den) by (nonlinear_arith)
            requires
                r == rem * den + s,
                rem >= h + 1,
                den > 0,
                s >= 0,
        ;
        assert(m == a + 1);
    } else {
        assert(r == h * den + s);
    }
    assert(nearest(num, den) == m * (big * u));
    assert(m * (big * u) == big * (u * m)) by (nonlinear_arith);
}

// ---------------------------------------------------------------------
// Executable rounding
// ---------------------------------------------------------------------

/// The weight of the last of 24 significant bits of `q`.
pub fn unit_of(q: u64) -> (u: u64)
    ensures
        u as nat == unit(q as nat),
        1 <= u <= q || (u == 1 && q == 0),
{
    let mut t: u64 = q;
    let mut u: u64 = 1;
    while t >= 0x100_0000
        invariant
            u as nat * unit(t as nat) == unit(q as nat),
            u >= 1,
            u as nat * t as nat <= q as nat,
            t >= 1 || q == 0,
            u == 1 || t >= 0x80_0000,
        decreases t,
    {
        proof {
            let (u0, t0) = (u as nat, t as nat);
            let w = unit(t0 / 2);
            assert(u0 * (2 * w) == (2 * u0) * w) by (nonlinear_arith);
            assert((2 * u0) * (t0 / 2) <= u0 * t0) by (nonlinear_arith)
                requires
                    2 * (t0 / 2) <= t0,
            ;
            assert(2 * u0 <= q) by (nonlinear_arith)
                requires
                    u0 * t0 <= q,
                    t0 >= 2,
            ;
        }
        u = u * 2;
        t = t / 2;
    }
    proof {
        assert(u as nat * 1 == u as nat);
        let (u0, t0) = (u as nat, t as nat);
        if q > 0 {
            assert(u0 <= q) by (nonlinear_arith)
                requires
                    u0 * t0 <= q,
                    t0 >= 1,
            ;
        }
    }
    u
}

/// `m` rounded to 24 significant bits.
pub fn round_to_24(m: u64) -> (r: u64)
    requires
        m < 0x8000_0000_0000_0000,
    ensures
        r as nat == round24(m as nat, 1),
{
    let u = unit_of(m);
    let a: u64 = m / u;
    let rem: u64 = m % u;
    proof {
        lemma_round24_bounds(m as nat, 1);
        assert(m as nat / 1 == m as nat);
        let (m0, u0) = (m as nat, u as nat);
        lemma_fundamental_div_mod(m0 as int, u0 as int);
        assert(1 * u0 == u0);
        assert(a * u0 <= m0) by (nonlinear_arith)
            requires
                m0 == u0 * a + rem,
                rem >= 0,
        ;
        assert((a + 1) * u0 == a * u0 + u0) by (nonlinear_arith);
    }
    if rem < u - rem || (rem == u - rem && a % 2 == 0) {
        a * u
    } else {
        (a + 1) * u
    }
}

} // verus!
