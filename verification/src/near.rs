//! How far a rounded result may lie from the true one.
//!
//! Numbers are compared as counts of the smallest unit: [`one`] is the count of the number one,
//! and [`slip`] what rounding may add to a number of that size or take from it.

use vstd::prelude::*;
use vstd::arithmetic::div_mod::*;
use vstd::arithmetic::power2::*;
use crate::single::Single;

verus! {

/// The number one, in units.
pub open spec fn one() -> int {
    pow2(149) as int
}

/// A rounded number of the size of one is at most this far off, in units.
pub open spec fn slip() -> int {
    pow2(126) as int
}

/// The numbers have the same value; so have the two zeros.
pub open spec fn same_value(a: Single, b: Single) -> bool {
    a.finite() && b.finite() && a.signed() == b.signed()
}

pub proof fn lemma_sizes()
    ensures
        one() == slip() * 0x80_0000,
        slip() >= 0x1_0000_0000_0000_0000,
        pow2(149) == one(),
        pow2(270) >= one() * 0x1_0000_0000_0000_0000,
{
    lemma2_to64();
    lemma2_to64_rest();
    lemma_pow2_adds(23, 126);
    lemma_pow2_strictly_increases(64, 126);
    lemma_pow2_adds(149, 64);
    lemma_pow2_strictly_increases(213, 270);
}

/// A sum of numbers is off by at most a slip for each time that it holds one.
pub proof fn lemma_sum(a: Single, b: Single, k: int)
    requires
        a.finite(),
        b.finite(),
        1 <= k <= 0x1_0000_0000,
        -k * one() <= a.signed() + b.signed() <= k * one(),
    ensures
        a.plus_spec(b).finite(),
        -k * slip() <= a.plus_spec(b).signed() - (a.signed() + b.signed()) <= k * slip(),
{
    lemma_sizes();
    let t = a.signed() + b.signed();
    let c = one();
    let s = slip();
    assert(k * c <= 0x1_0000_0000 * c) by (nonlinear_arith)
        requires
            k <= 0x1_0000_0000,
            c >= 0,
    ;
    assert(-k * c == -(k * c)) by (nonlinear_arith);
    crate::single::lemma_plus_near(a, b);
    let e = crate::single::size(a.plus_spec(b).signed() - t);
    assert(e <= k * s) by (nonlinear_arith)
        requires
            e * 0x100_0000 <= k * c + 0x8000_0000_0000,
            c == s * 0x80_0000,
            s >= 0x1_0000_0000_0000_0000,
            k >= 1,
    ;
    assert(-k * s == -(k * s)) by (nonlinear_arith);
}

/// So is a difference.
pub proof fn lemma_difference(a: Single, b: Single, k: int)
    requires
        a.finite(),
        b.finite(),
        1 <= k <= 0x1_0000_0000,
        -k * one() <= a.signed() - b.signed() <= k * one(),
    ensures
        a.minus_spec(b).finite(),
        -k * slip() <= a.minus_spec(b).signed() - (a.signed() - b.signed()) <= k * slip(),
{
    crate::single::lemma_opposite(b);
    lemma_sum(a, b.neg_spec(), k);
}

/// The size of a number is its distance from zero.
pub proof fn lemma_size(a: Single)
    requires
        a.finite(),
    ensures
        a.abs_spec().finite(),
        a.abs_spec().signed() == crate::single::size(a.signed()),
{
    reveal(Single::abs_spec);
    assert(a.abs_spec().units() == a.units());
}

/// A rounded fraction with a sign, off by at most a slip for each time that it holds one.
proof fn lemma_signed_round(neg: bool, n: nat, d: nat, k: int)
    requires
        d > 0,
        1 <= k <= 0x1_0000_0000,
        n <= k * one() * d,
    ensures
        crate::single::round_units(neg, n, d).finite(),
        crate::single::round_units(neg, n, d).units()
            == crate::single::round_units(false, n, d).units(),
        n > 0 && crate::single::round_units(neg, n, d).units() > 0
            ==> crate::single::round_units(neg, n, d).negative() == neg,
        -(k * slip() * d) <= crate::single::round_units(neg, n, d).units() * d - n <= k * slip()
            * d,
{
    lemma_sizes();
    let c = one();
    let s = slip();
    assert(k * c * d <= d * pow2(270)) by (nonlinear_arith)
        requires
            k <= 0x1_0000_0000,
            c >= 0,
            d > 0,
            pow2(270) >= c * 0x1_0000_0000_0000_0000,
    ;
    crate::single::lemma_round_near(n, d);
    crate::single::lemma_round_is_a_number(neg, n, d);
    let up = crate::single::round_units(false, n, d);
    let r = crate::single::round_units(neg, n, d);
    assert(r.mag() == up.mag());
    let u = up.units();
    let e = k * s * d;
    assert(n + 0x8000_0000_0000 * d <= e * 0x100_0000) by (nonlinear_arith)
        requires
            n <= k * c * d,
            c == s * 0x80_0000,
            s >= 0x1_0000_0000_0000_0000,
            k >= 1,
            d > 0,
            e == k * s * d,
    ;
    assert(u * d * 0x100_0000 <= n * 0x100_0000 + e * 0x100_0000);
    assert(n * 0x100_0000 <= u * d * 0x100_0000 + e * 0x100_0000);
}

/// A product is off by at most a slip for each time that it holds one.
pub proof fn lemma_product(a: Single, b: Single, k: int)
    requires
        a.finite(),
        b.finite(),
        1 <= k <= 0x1_0000_0000,
        -(k * one() * one()) <= a.signed() * b.signed() <= k * one() * one(),
    ensures
        a.times_spec(b).finite(),
        -(k * slip() * one()) <= a.times_spec(b).signed() * one() - a.signed() * b.signed() <= k
            * slip() * one(),
{
    reveal(Single::times_spec);
    lemma_sizes();
    let c = one();
    let neg = a.negative() != b.negative();
    let n = a.units() * b.units();
    let p = a.signed() * b.signed();
    assert(p == if neg {
        -(n as int)
    } else {
        n as int
    }) by (nonlinear_arith)
        requires
            n == a.units() * b.units(),
            p == a.signed() * b.signed(),
            a.signed() == (if a.negative() {
                -(a.units() as int)
            } else {
                a.units() as int
            }),
            b.signed() == (if b.negative() {
                -(b.units() as int)
            } else {
                b.units() as int
            }),
            neg == (a.negative() != b.negative()),
    ;
    lemma_signed_round(neg, n, c as nat, k);
    let r = a.times_spec(b);
    let u = r.units();
    if n == 0 {
        crate::single::lemma_zero_rounds(neg, c as nat);
        crate::single::lemma_units_positive(r);
    }
    if u == 0 || n == 0 {
        assert(r.signed() * c == 0) by (nonlinear_arith)
            requires
                r.signed() == 0,
        ;
        assert(u * c == 0) by (nonlinear_arith)
            requires
                u == 0,
        ;
    } else {
        assert(r.negative() == neg);
        assert((-(u as int)) * c == -(u * c)) by (nonlinear_arith);
    }
}

/// A quotient by a number above zero is off by at most a slip for each time that it holds one.
pub proof fn lemma_quotient(a: Single, b: Single, k: int)
    requires
        a.finite(),
        b.finite(),
        b.signed() > 0,
        1 <= k <= 0x1_0000_0000,
        -(k * b.signed()) <= a.signed() <= k * b.signed(),
    ensures
        a.over_spec(b).finite(),
        -(k * slip() * b.signed()) <= a.over_spec(b).signed() * b.signed() - a.signed() * one()
            <= k * slip() * b.signed(),
{
    reveal(Single::over_spec);
    lemma_sizes();
    crate::single::lemma_units_positive(b);
    let c = one();
    let d = b.units();
    let neg = a.negative();
    let n = a.units() * pow2(149);
    assert(n <= k * c * d) by (nonlinear_arith)
        requires
            n == a.units() * c,
            a.units() <= k * d,
            c > 0,
    ;
    lemma_signed_round(neg, n, d, k);
    let r = a.over_spec(b);
    let u = r.units();
    if n == 0 {
        crate::single::lemma_zero_rounds(neg, d);
        crate::single::lemma_units_positive(r);
        assert(a.units() == 0) by (nonlinear_arith)
            requires
                a.units() * c == 0,
                c > 0,
        ;
    }
    assert(a.signed() * c == if neg {
        -(n as int)
    } else {
        n as int
    }) by (nonlinear_arith)
        requires
            n == a.units() * c,
            a.signed() == (if neg {
                -(a.units() as int)
            } else {
                a.units() as int
            }),
    ;
    if u == 0 || n == 0 {
        assert(r.signed() * d == 0) by (nonlinear_arith)
            requires
                r.signed() == 0,
        ;
        assert(u * d == 0) by (nonlinear_arith)
            requires
                u == 0,
        ;
    } else {
        assert(r.negative() == neg);
        assert((-(u as int)) * d == -(u * d)) by (nonlinear_arith);
    }
}

/// A sum that a number holds exactly is that number.
pub proof fn lemma_exact_sum(a: Single, b: Single, x: Single)
    requires
        a.finite(),
        b.finite(),
        x.finite(),
        a.signed() + b.signed() == x.signed(),
    ensures
        same_value(a.plus_spec(b), x),
{
    reveal(Single::plus_spec);
    crate::single::lemma_round_self(x);
    let none = crate::single::pack(a.negative() && b.negative(), 0);
    assert(none.mag() == 0);
    crate::single::lemma_units_positive(none);
}

/// So is a difference.
pub proof fn lemma_exact_difference(a: Single, b: Single, x: Single)
    requires
        a.finite(),
        b.finite(),
        x.finite(),
        a.signed() - b.signed() == x.signed(),
    ensures
        same_value(a.minus_spec(b), x),
{
    crate::single::lemma_opposite(b);
    lemma_exact_sum(a, b.neg_spec(), x);
}

/// A product that a number holds exactly is that number.
pub proof fn lemma_exact_product(a: Single, b: Single, x: Single)
    requires
        a.finite(),
        b.finite(),
        x.finite(),
        a.signed() * b.signed() == x.signed() * one(),
    ensures
        same_value(a.times_spec(b), x),
{
    reveal(Single::times_spec);
    lemma_sizes();
    let c = pow2(149);
    let neg = a.negative() != b.negative();
    let n = a.units() * b.units();
    let r = a.times_spec(b);
    assert(n == x.units() * c && (n > 0 ==> neg == x.negative())) by (nonlinear_arith)
        requires
            n == a.units() * b.units(),
            a.signed() * b.signed() == x.signed() * c,
            c > 0,
            a.signed() == (if a.negative() {
                -(a.units() as int)
            } else {
                a.units() as int
            }),
            b.signed() == (if b.negative() {
                -(b.units() as int)
            } else {
                b.units() as int
            }),
            x.signed() == (if x.negative() {
                -(x.units() as int)
            } else {
                x.units() as int
            }),
            neg == (a.negative() != b.negative()),
    ;
    if n == 0 {
        crate::single::lemma_zero_rounds(neg, c);
        crate::single::lemma_units_positive(r);
        assert(x.units() == 0) by (nonlinear_arith)
            requires
                x.units() * c == 0,
                c > 0,
        ;
    } else {
        crate::single::lemma_round_self(x);
        crate::single::lemma_scale(neg, x.units(), 1, c);
        assert(1 * c == c);
    }
}

/// One time a number is the number.
pub proof fn lemma_once(x: Single, a: Single)
    requires
        x.finite(),
        a.finite(),
        x.signed() == one(),
    ensures
        same_value(x.times_spec(a), a),
        same_value(a.times_spec(x), a),
{
    assert(x.signed() * a.signed() == a.signed() * one() && a.signed() * x.signed() == a.signed()
        * one()) by (nonlinear_arith)
        requires
            x.signed() == one(),
    ;
    lemma_exact_product(x, a, a);
    lemma_exact_product(a, x, a);
}

/// No time a number is nothing.
pub proof fn lemma_none(x: Single, a: Single)
    requires
        x.finite(),
        a.finite(),
        x.signed() == 0,
    ensures
        same_value(x.times_spec(a), x),
        same_value(a.times_spec(x), x),
{
    assert(x.signed() * a.signed() == 0 && a.signed() * x.signed() == 0 && 0 * one() == 0)
        by (nonlinear_arith)
        requires
            x.signed() == 0,
    ;
    lemma_exact_product(x, a, x);
    lemma_exact_product(a, x, x);
}

/// Whole numbers below `2^24` are held as they are.
pub proof fn lemma_whole(n: u64)
    requires
        n < 0x100_0000,
    ensures
        Single::whole_spec(n).finite(),
        Single::whole_spec(n).signed() == n * one(),
        !Single::whole_spec(n).negative(),
{
    crate::single::lemma_whole_exact(n);
}

/// A bounded factor times a bounded one.
pub proof fn lemma_bounded(x: int, bx: int, y: int, by: int)
    requires
        -bx <= x <= bx,
        -by <= y <= by,
    ensures
        -(bx * by) <= x * y <= bx * by,
{
    assert(-(bx * by) <= x * y <= bx * by) by (nonlinear_arith)
        requires
            -bx <= x <= bx,
            -by <= y <= by,
    ;
}

/// What is bounded as a multiple is bounded itself.
pub proof fn lemma_divided(x: int, b: int, c: int)
    requires
        c > 0,
        -(b * c) <= x * c <= b * c,
    ensures
        -b <= x <= b,
{
    assert(-b <= x <= b) by (nonlinear_arith)
        requires
            c > 0,
            -(b * c) <= x * c <= b * c,
    ;
}

/// Numbers with the same value are the same, but for the two zeros.
pub proof fn lemma_unique(a: Single, b: Single)
    requires
        same_value(a, b),
        a.signed() != 0,
    ensures
        a == b,
{
    crate::single::lemma_units_monotone(a, b);
    crate::single::lemma_units_monotone(b, a);
    assert(a.negative() == b.negative());
    assert(a.mag() == b.mag());
    assert(a.bits == b.bits);
}

/// The whole number that a number is rounded to lies at most half away from it.
pub proof fn lemma_rounded(a: Single) -> (q: nat)
    requires
        a.finite(),
        0 <= a.signed() < 0x80_0000 * one(),
    ensures
        a.rounded_spec().finite(),
        a.rounded_spec().signed() == q * one(),
        -one() <= 2 * (q * one() - a.signed()) <= one(),
        q <= 0x80_0000,
        forall|max: u64| #[trigger]
            a.rounded_spec().to_int_spec(max) == if q <= max {
                q as u64
            } else {
                max
            },
{
    reveal(Single::rounded_spec);
    reveal(Single::to_int_spec);
    lemma_sizes();
    let c = pow2(149);
    let u = a.units();
    let n = 2 * u + c;
    let q = n / (2 * c);
    lemma_fundamental_div_mod(n as int, (2 * c) as int);
    lemma_mod_bound(n as int, (2 * c) as int);
    assert(n == (2 * c) * q + n % (2 * c));
    assert((2 * c) * q == 2 * (q * c)) by (nonlinear_arith);
    assert(q <= 0x80_0000) by (nonlinear_arith)
        requires
            2 * (q * c) <= 2 * u + c,
            u < 0x80_0000 * c,
            c > 0,
    ;
    crate::single::lemma_dyadic_exact(q, 149);
    let r = a.rounded_spec();
    crate::single::lemma_round_is_a_number(a.negative(), q * c, 1);
    let up = crate::single::round_units(false, q * c, 1);
    assert(r.mag() == up.mag());
    assert(r.units() == q * c);
    if a.negative() {
        assert(u == 0);
        assert(q == 0) by (nonlinear_arith)
            requires
                2 * (q * c) <= c,
                c > 0,
        ;
        assert(0 * c == 0);
    }
    assert((q * c) / c == q) by {
        lemma_div_by_multiple(q as int, c as int);
    }
    q
}

/// The whole number below a number, where it is cut at its point.
pub proof fn lemma_cut(a: Single, max: u64)
    requires
        a.finite(),
        0 <= a.signed(),
    ensures
        ({
            let v = a.to_int_spec(max);
            &&& v <= max
            &&& v * one() <= a.signed()
            &&& v < max ==> a.signed() < (v + 1) * one()
        }),
{
    reveal(Single::to_int_spec);
    lemma_sizes();
    let c = pow2(149);
    let u = a.units();
    lemma_fundamental_div_mod(u as int, c as int);
    lemma_mod_bound(u as int, c as int);
    let q = u / c;
    let v = a.to_int_spec(max);
    assert(q * c == c * q && (q + 1) * c == c * q + c) by (nonlinear_arith);
    assert(v * c <= q * c) by (nonlinear_arith)
        requires
            v <= q,
            c > 0,
    ;
}

/// Which of two numbers is the smaller and which the larger, by value.
pub proof fn lemma_smaller_larger(a: Single, b: Single)
    requires
        a.finite(),
        b.finite(),
    ensures
        a.smaller_spec(b).finite(),
        a.larger_spec(b).finite(),
        a.smaller_spec(b).signed() == if a.signed() <= b.signed() {
            a.signed()
        } else {
            b.signed()
        },
        a.larger_spec(b).signed() == if a.signed() >= b.signed() {
            a.signed()
        } else {
            b.signed()
        },
{
    reveal(Single::smaller_spec);
    reveal(Single::larger_spec);
    reveal(Single::at_most_spec);
    crate::single::order_is_by_value(a, b);
    crate::single::order_is_by_value(b, a);
}

/// A number that is held between two others.
pub proof fn lemma_held(a: Single, lo: Single, hi: Single)
    requires
        a.finite(),
        lo.finite(),
        hi.finite(),
        lo.signed() <= hi.signed(),
    ensures
        a.clamp_spec(lo, hi).finite(),
        a.clamp_spec(lo, hi).signed() == if a.signed() < lo.signed() {
            lo.signed()
        } else if a.signed() > hi.signed() {
            hi.signed()
        } else {
            a.signed()
        },
{
    crate::single::order_is_by_value(a, lo);
    crate::single::order_is_by_value(hi, a);
}

/// A sum of `k` numbers, none of them below zero, is off by at most `2·k` parts in `2^24` of the
/// true one.
pub open spec fn sums_to(sum: Single, total: int, k: int) -> bool {
    &&& sum.finite()
    &&& 0 <= sum.signed()
    &&& 0 <= total
    &&& -(2 * k * (total + 0x8000_0000_0000)) <= (sum.signed() - total) * 0x100_0000 <= 2 * k * (
    total + 0x8000_0000_0000)
}

/// Adding one more number to a sum.
pub proof fn lemma_one_more(sum: Single, total: int, k: int, x: Single)
    requires
        sums_to(sum, total, k),
        0 <= k < 0x40_0000,
        x.finite(),
        0 <= x.signed(),
        total + x.signed() <= 0x100_0000_0000 * one(),
    ensures
        sums_to(sum.plus_spec(x), total + x.signed(), k + 1),
{
    lemma_sizes();
    let s = sum.signed();
    let v = x.signed();
    let h: int = 0x8000_0000_0000;
    let n = s + v;
    let t = total + v;
    assert(2 * k * (total + h) <= 0x80_0000 * (t + h)) by (nonlinear_arith)
        requires
            0 <= k < 0x40_0000,
            0 <= total <= t,
            h > 0,
    ;
    assert(2 * n <= 4 * t + h);
    crate::single::lemma_plus_near(sum, x);
    let r = sum.plus_spec(x);
    let e = r.signed() - n;
    assert(crate::single::size(n) == n);
    assert(-(n + h) <= e * 0x100_0000 <= n + h);
    assert(n + h <= 2 * (t + h));
    assert(2 * (k + 1) * (t + h) >= 2 * k * (total + h) + 2 * (t + h)) by (nonlinear_arith)
        requires
            k >= 0,
            0 <= total <= t,
            h > 0,
    ;
    reveal(Single::plus_spec);
    if n > 0 {
        crate::single::lemma_round_is_a_number(false, n as nat, 1);
    } else {
        let none = crate::single::pack(sum.negative() && x.negative(), 0);
        assert(none.mag() == 0);
        crate::single::lemma_units_positive(none);
    }
}

/// A fraction is off by at most a slip for each time that it holds one.
pub proof fn lemma_ratio(n: u32, d: u32, k: int)
    requires
        d > 0,
        1 <= k <= 0x1_0000_0000,
        n <= k * d,
    ensures
        Single::ratio_spec(n, d).finite(),
        0 <= Single::ratio_spec(n, d).signed(),
        -(k * slip() * d) <= Single::ratio_spec(n, d).signed() * d - n * one() <= k * slip() * d,
{
    reveal(Single::ratio_spec);
    lemma_sizes();
    let c = one();
    assert(0 <= n * c <= k * c * d) by (nonlinear_arith)
        requires
            0 <= n <= k * d,
            c >= 0,
    ;
    lemma_signed_round(false, (n * c) as nat, d as nat, k);
    crate::single::lemma_round_is_a_number(false, (n * c) as nat, d as nat);
}

/// The least whole number that is not below a number.
pub proof fn lemma_ceiled(a: Single) -> (q: nat)
    requires
        a.finite(),
        0 <= a.signed() < 0x80_0000 * one(),
    ensures
        a.ceiled_spec().finite(),
        a.ceiled_spec().signed() == q * one(),
        a.signed() <= q * one() < a.signed() + one(),
        q <= 0x80_0000,
        forall|max: u64| #[trigger]
            a.ceiled_spec().to_int_spec(max) == if q <= max {
                q as u64
            } else {
                max
            },
{
    reveal(Single::ceiled_spec);
    reveal(Single::to_int_spec);
    lemma_sizes();
    let c = pow2(149);
    let u = a.units();
    lemma_fundamental_div_mod(u as int, c as int);
    lemma_mod_bound(u as int, c as int);
    assert(c * (u / c) == (u / c) * c && ((u / c) + 1) * c == c * (u / c) + c) by (nonlinear_arith);
    let q = if a.negative() {
        u / c
    } else {
        crate::single::whole_above(u)
    };
    if a.negative() {
        assert(u == 0);
        lemma_basic_div(0, c as int);
    }
    assert(q <= 0x80_0000) by (nonlinear_arith)
        requires
            q * c < u + c,
            u < 0x80_0000 * c,
            c > 0,
    ;
    crate::single::lemma_dyadic_exact(q, 149);
    let r = a.ceiled_spec();
    crate::single::lemma_round_is_a_number(a.negative(), q * c, 1);
    let up = crate::single::round_units(false, q * c, 1);
    assert(r.mag() == up.mag());
    assert(r.units() == q * c);
    assert((q * c) / c == q) by {
        lemma_div_by_multiple(q as int, c as int);
    }
    q
}

/// The most that a whole number below a number can be, for a number that is not below zero.
pub proof fn lemma_floored(a: Single) -> (q: nat)
    requires
        a.finite(),
        a.signed() < 0x80_0000 * one(),
    ensures
        a.signed() >= 0 ==> q * one() <= a.signed() < (q + 1) * one(),
        a.signed() >= 0 ==> a.floored_spec().finite() && a.floored_spec().signed() == q * one(),
        a.signed() <= 0 ==> q == 0,
        q < 0x80_0000,
        forall|max: u64| #[trigger]
            a.floored_spec().to_int_spec(max) == if q <= max {
                q as u64
            } else {
                max
            },
{
    reveal(Single::floored_spec);
    reveal(Single::to_int_spec);
    lemma_sizes();
    let c = pow2(149);
    let u = a.units();
    lemma_fundamental_div_mod(u as int, c as int);
    lemma_mod_bound(u as int, c as int);
    let q = u / c;
    assert(c * q == q * c && (q + 1) * c == c * q + c) by (nonlinear_arith);
    let r = a.floored_spec();
    if a.negative() {
        let w = crate::single::whole_above(u);
        crate::single::lemma_round_is_a_number(true, w * c, 1);
        if w == 0 {
            assert(0 * c == 0);
            crate::single::lemma_zero_rounds(true, 1);
        }
        assert(r.to_int_spec(u64::MAX) == 0);
        assert(forall|max: u64| #[trigger] r.to_int_spec(max) == 0);
        if a.signed() == 0 {
            lemma_basic_div(0, c as int);
            assert(w == 0);
            crate::single::lemma_units_positive(r);
        }
        0
    } else {
        assert(q < 0x80_0000) by (nonlinear_arith)
            requires
                q * c <= u,
                u < 0x80_0000 * c,
                c > 0,
        ;
        crate::single::lemma_dyadic_exact(q, 149);
        crate::single::lemma_round_is_a_number(false, q * c, 1);
        assert(r.units() == q * c);
        assert((q * c) / c == q) by {
            lemma_div_by_multiple(q as int, c as int);
        }
        if u == 0 {
            lemma_basic_div(0, c as int);
        }
        q
    }
}

proof fn lemma_double_exp(s: nat, n: nat, m: nat)
    requires
        0 < s,
        0 < n < 0x1_0000_0000,
        m <= 84,
        s >= pow2(m),
    ensures
        s * pow2(crate::single::double_exp(s, n)) >= n * 0x10_0000_0000_0000,
        m + crate::single::double_exp(s, n) <= 84,
    decreases 85 - m,
{
    lemma2_to64();
    lemma2_to64_rest();
    let e = crate::single::double_exp(s, n);
    if s < n * 0x10_0000_0000_0000 {
        lemma_pow2_adds(64, 20);
        assert(m < 84) by {
            if m == 84 {
                assert(pow2(84) == 0x1_0000_0000_0000_0000 * 0x10_0000);
            }
        }
        lemma_pow2_unfold(m + 1);
        lemma_double_exp(2 * s, n, m + 1);
        let f = crate::single::double_exp(2 * s, n);
        assert(e == f + 1);
        lemma_pow2_unfold(e);
        assert(s * (2 * pow2(f)) == 2 * s * pow2(f)) by (nonlinear_arith);
    } else {
        assert(e == 0);
        assert(s * 1 == s);
    }
}

/// A mean is off by at most two slips for each time that it holds one.
pub proof fn lemma_mean(sum: u64, count: u64, k: int)
    requires
        0 < count < 0x1_0000_0000,
        1 <= k <= 0x1_0000_0000,
        sum <= k * count,
    ensures
        Single::mean_spec(sum, count).finite(),
        0 <= Single::mean_spec(sum, count).signed(),
        -(2 * k * slip() * count) <= Single::mean_spec(sum, count).signed() * count - sum * one()
            <= 2 * k * slip() * count,
{
    reveal(Single::mean_spec);
    lemma_sizes();
    lemma2_to64();
    let c = one();
    let s = slip();
    let r = Single::mean_spec(sum, count);
    let e = crate::single::double_exp(sum as nat, count as nat);
    let t = sum as nat * pow2(e);
    let q = crate::single::nearest_even(t, count as nat);
    assert(k * s * count > 0) by (nonlinear_arith)
        requires
            k >= 1,
            s > 0,
            count > 0,
    ;
    if sum == 0 {
        assert(e == 0);
        assert(0 * pow2(0) == 0);
        lemma_basic_div(0, count as int);
        lemma_small_mod(0, count as nat);
        assert(q == 0);
        assert(0 * pow2(149) == 0);
        crate::single::lemma_zero_rounds(false, 1);
        assert(r.signed() == 0);
        assert(0 * c == 0);
        assert(2 * k * s * count == 2 * (k * s * count)) by (nonlinear_arith);
        assert(r.signed() * count == 0) by (nonlinear_arith)
            requires
                r.signed() == 0,
        ;
    } else {
        lemma_double_exp(sum as nat, count as nat, 0);
        let g = pow2((149 - e) as nat);
        lemma_pow2_pos((149 - e) as nat);
        lemma_pow2_adds(e, (149 - e) as nat);
        let n = q * g;
        lemma_fundamental_div_mod(t as int, count as int);
        lemma_mod_bound(t as int, count as int);
        let b = t as int / count as int;
        assert((b + 1) * count == count * b + count && b * count == count * b) by (nonlinear_arith);
        // The quotient in double precision.
        let d = q * count - t;
        assert(-count <= 2 * d <= count);
        let off = n * count - sum * c;
        assert(off == d * g) by (nonlinear_arith)
            requires
                off == n * count - sum * c,
                n == q * g,
                d == q * count - t,
                t == sum * pow2(e),
                pow2(e) * g == c,
        ;
        let small = count * g;
        assert(-small <= 2 * off <= small) by (nonlinear_arith)
            requires
                off == d * g,
                -count <= 2 * d <= count,
                small == count * g,
                g > 0,
        ;
        assert(small * 0x10_0000_0000_0000 <= sum * c) by (nonlinear_arith)
            requires
                small == count * g,
                t == sum * pow2(e),
                pow2(e) * g == c,
                t >= count * 0x10_0000_0000_0000,
                g > 0,
        ;
        let kc = k * s * count;
        assert(sum * c <= kc * 0x80_0000) by (nonlinear_arith)
            requires
                sum <= k * count,
                kc == k * s * count,
                c == s * 0x80_0000,
                s > 0,
        ;
        assert(small <= kc);
        // The rounding to single precision.
        assert(n * count <= 2 * (kc * 0x80_0000));
        assert(n <= k * c * 2) by (nonlinear_arith)
            requires
                n * count <= 2 * (kc * 0x80_0000),
                kc == k * s * count,
                c == s * 0x80_0000,
                count > 0,
        ;
        assert(n <= 1 * pow2(270)) by (nonlinear_arith)
            requires
                n <= k * c * 2,
                k <= 0x1_0000_0000,
                c >= 0,
                pow2(270) >= c * 0x1_0000_0000_0000_0000,
        ;
        crate::single::lemma_round_near(n, 1);
        let u = r.units();
        assert(r == crate::single::round_units(false, n, 1));
        let w = u - n;
        assert(-(n + 0x8000_0000_0000) <= w * 0x100_0000 <= n + 0x8000_0000_0000);
        let wc = w * count;
        assert(-(n * count + 0x8000_0000_0000 * count) <= wc * 0x100_0000 <= n * count
            + 0x8000_0000_0000 * count) by (nonlinear_arith)
            requires
                -(n + 0x8000_0000_0000) <= w * 0x100_0000 <= n + 0x8000_0000_0000,
                wc == w * count,
                count > 0,
        ;
        assert(0x8000_0000_0000 * count * 0x1_0000 <= kc) by (nonlinear_arith)
            requires
                kc == k * s * count,
                k >= 1,
                s >= 0x1_0000_0000_0000_0000,
                count > 0,
        ;
        assert(u * count - sum * c == wc + off) by (nonlinear_arith)
            requires
                wc == w * count,
                w == u - n,
                off == n * count - sum * c,
        ;
        assert(2 * k * s * count == 2 * kc) by (nonlinear_arith)
            requires
                kc == k * s * count,
        ;
        assert(-kc <= 2 * off <= kc);
        assert(-kc <= wc <= kc);
        assert(r.signed() == u);
    }
}

/// Two factors that are not below zero have a product that is not.
pub proof fn lemma_product_not_below(a: Single, b: Single)
    requires
        a.finite(),
        b.finite(),
        0 <= a.signed(),
        0 <= b.signed(),
        a.times_spec(b).finite(),
    ensures
        0 <= a.times_spec(b).signed(),
{
    reveal(Single::times_spec);
    lemma_sizes();
    let neg = a.negative() != b.negative();
    let n = a.units() * b.units();
    if neg {
        assert(n == 0) by (nonlinear_arith)
            requires
                n == a.units() * b.units(),
                a.units() == 0 || b.units() == 0,
        ;
        crate::single::lemma_zero_rounds(true, pow2(149));
        crate::single::lemma_units_positive(a.times_spec(b));
    } else {
        crate::single::lemma_round_is_a_number(false, n, pow2(149));
    }
}

/// So is the sum of two numbers.
pub proof fn lemma_sum_not_below(a: Single, b: Single)
    requires
        a.finite(),
        b.finite(),
        0 <= a.signed(),
        0 <= b.signed(),
        a.plus_spec(b).finite(),
    ensures
        0 <= a.plus_spec(b).signed(),
{
    reveal(Single::plus_spec);
    let t = a.signed() + b.signed();
    if t > 0 {
        crate::single::lemma_round_is_a_number(false, t as nat, 1);
    } else {
        let none = crate::single::pack(a.negative() && b.negative(), 0);
        assert(none.mag() == 0);
        crate::single::lemma_units_positive(none);
    }
}

/// A product of numbers that are not below zero is off by at most one part in `2^24` of it.
pub proof fn lemma_product_part(a: Single, b: Single)
    requires
        a.finite(),
        b.finite(),
        0 <= a.signed() <= 0x1_0000_0000 * one(),
        0 <= b.signed() <= 0x1_0000_0000 * one(),
    ensures
        a.times_spec(b).finite(),
        0 <= a.times_spec(b).signed(),
        a.negative() == b.negative() ==> !a.times_spec(b).negative(),
        ({
            let (x, r) = (a.signed() * b.signed(), a.times_spec(b).signed());
            -(x + 0x8000_0000_0000 * one()) <= (r * one() - x) * 0x100_0000 <= x + 0x8000_0000_0000
                * one()
        }),
{
    reveal(Single::times_spec);
    lemma_sizes();
    let c = pow2(149);
    let n = a.units() * b.units();
    let neg = a.negative() != b.negative();
    assert(n <= c * pow2(270)) by (nonlinear_arith)
        requires
            n == a.units() * b.units(),
            a.units() <= 0x1_0000_0000 * c,
            b.units() <= 0x1_0000_0000 * c,
            pow2(270) >= c * 0x1_0000_0000_0000_0000,
    ;
    crate::single::lemma_round_near(n, c);
    crate::single::lemma_round_is_a_number(neg, n, c);
    let up = crate::single::round_units(false, n, c);
    let r = a.times_spec(b);
    assert(r.mag() == up.mag());
    assert(a.signed() * b.signed() == n) by (nonlinear_arith)
        requires
            n == a.units() * b.units(),
            a.signed() == a.units() || a.signed() == 0 && a.units() == 0,
            b.signed() == b.units() || b.signed() == 0 && b.units() == 0,
    ;
    lemma_product_not_below(a, b);
    assert(r.signed() == up.units());
}

/// So is a quotient.
pub proof fn lemma_quotient_part(a: Single, b: Single)
    requires
        a.finite(),
        b.finite(),
        0 <= a.signed(),
        0 < b.signed(),
        a.signed() <= 0x1_0000_0000_0000_0000 * b.signed(),
        !a.negative(),
    ensures
        a.over_spec(b).finite(),
        0 <= a.over_spec(b).signed(),
        ({
            let (x, r) = (a.signed() * one(), a.over_spec(b).signed());
            -(x + 0x8000_0000_0000 * b.signed()) <= (r * b.signed() - x) * 0x100_0000 <= x
                + 0x8000_0000_0000 * b.signed()
        }),
{
    reveal(Single::over_spec);
    lemma_sizes();
    let c = pow2(149);
    let n = a.units() * c;
    let d = b.units();
    assert(n <= d * pow2(270)) by (nonlinear_arith)
        requires
            n == a.units() * c,
            a.units() <= 0x1_0000_0000_0000_0000 * d,
            pow2(270) >= c * 0x1_0000_0000_0000_0000,
    ;
    crate::single::lemma_units_positive(b);
    crate::single::lemma_round_near(n, d);
    assert(a.over_spec(b) == crate::single::round_units(false, n, d));
}

} // verus!
