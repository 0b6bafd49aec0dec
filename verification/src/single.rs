//! Single-precision arithmetic on bit patterns.
//!
//! A [`Single`] holds the 32 bits of an IEEE 754 binary32 number. Every operation
//! here is total and rounds to nearest, ties to even, so that it yields the same
//! number as the machine's own arithmetic; all not-a-number patterns behave alike.

use vstd::prelude::*;
use vstd::arithmetic::power2::*;
use vstd::arithmetic::div_mod::*;
use vstd::arithmetic::mul::*;
use vstd::bits::*;

verus! {

/// A binary32 number, by its bit pattern.
#[derive(Clone, Copy, Debug, PartialEq, Eq, Hash, Structural)]
pub struct Single {
    pub bits: u32,
}

/// Magnitude bits of infinity; every larger magnitude is not a number.
pub const INFINITE: u32 = 0x7f80_0000;

/// Sign bit.
pub const SIGN: u32 = 0x8000_0000;

impl Single {
    /// The pattern without its sign bit.
    pub open spec fn mag(self) -> nat {
        (self.bits % SIGN) as nat
    }

    pub open spec fn negative(self) -> bool {
        self.bits >= SIGN
    }

    pub open spec fn not_a_number(self) -> bool {
        self.mag() > INFINITE
    }

    pub open spec fn infinite(self) -> bool {
        self.mag() == INFINITE
    }

    pub open spec fn finite(self) -> bool {
        self.mag() < INFINITE
    }

    /// Exponent of a finite number: it is `mant · 2^exp` units of `2^-149`.
    pub open spec fn exp(self) -> nat {
        let b = self.mag() / 0x80_0000;
        if b == 0 {
            0
        } else {
            (b - 1) as nat
        }
    }

    /// Significand of a finite number, below `2^24`.
    pub open spec fn mant(self) -> nat {
        let f = self.mag() % 0x80_0000;
        if self.mag() < 0x80_0000 {
            f
        } else {
            f + 0x80_0000
        }
    }

    /// Magnitude of a finite number, counted in units of `2^-149`.
    pub open spec fn units(self) -> nat {
        self.mant() * pow2(self.exp())
    }
}

/// Significands stay below this.
pub open spec fn two24() -> nat {
    0x100_0000
}

/// `n / d` rounded to the nearest integer, ties to even.
pub open spec fn nearest_even(n: nat, d: nat) -> nat {
    let q = n / d;
    let r = n % d;
    if 2 * r > d || (2 * r == d && q % 2 == 1) {
        q + 1
    } else {
        q
    }
}

/// The least `k` with `n / d < 2^24 · 2^k`.
pub open spec fn unit_exp(n: nat, d: nat) -> nat
    decreases n / d,
{
    if d == 0 || n < two24() * d {
        0
    } else {
        proof {
            lemma_halves(n, d);
        }
        1 + unit_exp(n, 2 * d)
    }
}

pub proof fn lemma_halves(n: nat, d: nat)
    requires
        d > 0,
        n >= d,
    ensures
        n / (2 * d) < n / d,
{
    lemma_div_denominator(n as int, d as int, 2);
    lemma_mul_is_commutative(d as int, 2);
    lemma_div_non_zero(n as int, d as int);
    let x = (n / d) as int;
    assert(x > 0);
    assert(x / 2 < x);
    assert((n as int) / ((d as int) * 2) == x / 2);
}

/// The number nearest to `n / d` units of `2^-149`, with the given sign.
///
/// Significand and exponent share the pattern: `k · 2^23 + q` is the pattern of
/// `q · 2^k` units, also where rounding carries `q` up to `2^24`.
pub open spec fn round_units(neg: bool, n: nat, d: nat) -> Single {
    let k = unit_exp(n, d);
    let m = k * 0x80_0000 + nearest_even(n, d * pow2(k));
    pack(neg, if m < INFINITE { m } else { INFINITE as nat })
}

/// The pattern with this sign and these magnitude bits.
pub open spec fn pack(neg: bool, mag: nat) -> Single {
    Single { bits: (mag + if neg { SIGN as nat } else { 0 }) as u32 }
}

pub proof fn lemma_unit_exp_is(n: nat, d: nat, k: nat)
    requires
        d > 0,
        n < two24() * pow2(k) * d,
        k > 0 ==> n >= two24() * pow2((k - 1) as nat) * d,
    ensures
        unit_exp(n, d) == k,
    decreases k,
{
    lemma2_to64();
    if k == 0 {
        assert(two24() * pow2(0) * d == two24() * d);
    } else {
        let p = pow2((k - 1) as nat);
        lemma_pow2_unfold(k);
        lemma_pow2_pos((k - 1) as nat);
        assert(two24() * p * d >= two24() * d) by (nonlinear_arith)
            requires
                p >= 1,
                two24() == 0x100_0000,
        ;
        assert(two24() * p * (2 * d) == two24() * (2 * p) * d) by (nonlinear_arith);
        if k > 1 {
            let p2 = pow2((k - 2) as nat);
            lemma_pow2_unfold((k - 1) as nat);
            assert(two24() * p2 * (2 * d) == two24() * (2 * p2) * d) by (nonlinear_arith);
        }
        lemma_unit_exp_is(n, 2 * d, (k - 1) as nat);
    }
}

pub proof fn lemma_unit_exp_bounds(n: nat, d: nat)
    requires
        d > 0,
    ensures
        n < two24() * pow2(unit_exp(n, d)) * d,
        unit_exp(n, d) > 0 ==> n >= two24() * pow2((unit_exp(n, d) - 1) as nat) * d,
    decreases n / d,
{
    lemma2_to64();
    if n < two24() * d {
        assert(two24() * pow2(0) * d == two24() * d);
    } else {
        lemma_halves(n, d);
        lemma_unit_exp_bounds(n, 2 * d);
        let k = unit_exp(n, 2 * d);
        lemma_pow2_unfold(k + 1);
        let p = pow2(k);
        assert(two24() * p * (2 * d) == two24() * (2 * p) * d) by (nonlinear_arith);
        if k > 0 {
            let p2 = pow2((k - 1) as nat);
            lemma_pow2_unfold(k);
            assert(two24() * p2 * (2 * d) == two24() * (2 * p2) * d) by (nonlinear_arith);
        } else {
            assert(two24() * pow2(0) * d == two24() * d);
        }
    }
}

/// Rounding depends on the quotient alone.
pub proof fn lemma_scale(neg: bool, n: nat, d: nat, c: nat)
    requires
        d > 0,
        c > 0,
    ensures
        round_units(neg, n * c, d * c) == round_units(neg, n, d),
{
    let k = unit_exp(n, d);
    lemma_unit_exp_bounds(n, d);
    let p = pow2(k);
    lemma_pow2_pos(k);
    assert(n * c < two24() * p * (d * c)) by (nonlinear_arith)
        requires
            n < two24() * p * d,
            c > 0,
    ;
    if k > 0 {
        let p2 = pow2((k - 1) as nat);
        assert(n * c >= two24() * p2 * (d * c)) by (nonlinear_arith)
            requires
                n >= two24() * p2 * d,
                c > 0,
        ;
    }
    assert(d * c > 0) by (nonlinear_arith)
        requires
            d > 0,
            c > 0,
    ;
    lemma_unit_exp_is(n * c, d * c, k);
    let e = d * p;
    assert(e > 0) by (nonlinear_arith)
        requires
            d > 0,
            p > 0,
            e == d * p,
    ;
    assert(d * c * p == e * c) by (nonlinear_arith)
        requires
            e == d * p,
    ;
    lemma_nearest_scale(n, e, c);
}

proof fn lemma_nearest_scale(n: nat, d: nat, c: nat)
    requires
        d > 0,
        c > 0,
    ensures
        nearest_even(n * c, d * c) == nearest_even(n, d),
{
    let q = n / d;
    let r = n % d;
    lemma_fundamental_div_mod(n as int, d as int);
    lemma_mod_bound(n as int, d as int);
    assert(n * c == q * (d * c) + r * c) by (nonlinear_arith)
        requires
            n == d * q + r,
    ;
    assert(0 <= r * c < d * c) by (nonlinear_arith)
        requires
            0 <= r < d,
            c > 0,
    ;
    lemma_fundamental_div_mod_converse((n * c) as int, (d * c) as int, q as int, (r * c) as int);
    assert((2 * (r * c) > d * c) == (2 * r > d)) by (nonlinear_arith)
        requires
            c > 0,
    ;
    assert((2 * (r * c) == d * c) == (2 * r == d)) by (nonlinear_arith)
        requires
            c > 0,
    ;
}

/// Numerator of `m · 2^e`, whatever the sign of `e`.
pub open spec fn dyadic_n(m: nat, e: int) -> nat {
    if e >= 0 {
        m * pow2(e as nat)
    } else {
        m
    }
}

/// Denominator of `m · 2^e`.
pub open spec fn dyadic_d(e: int) -> nat {
    if e >= 0 {
        1
    } else {
        pow2((-e) as nat)
    }
}

proof fn lemma_dyadic_exp(m: nat, e: int, len: nat, k: nat)
    requires
        len > 0,
        pow2((len - 1) as nat) <= m < pow2(len),
        k == if e + len > 24 { e + len - 24 } else { 0 },
    ensures
        dyadic_d(e) > 0,
        unit_exp(dyadic_n(m, e), dyadic_d(e)) == k,
{
    lemma2_to64();
    assert(two24() == pow2(24));
    lemma_pow2_adds(24, k);
    let n = dyadic_n(m, e);
    let d = dyadic_d(e);
    lemma_pow2_pos(k);
    if e >= 0 {
        let p = pow2(e as nat);
        lemma_pow2_pos(e as nat);
        lemma_pow2_adds(len, e as nat);
        lemma_pow2_adds((len - 1) as nat, e as nat);
        assert(m * p < pow2(len) * p) by (nonlinear_arith)
            requires
                m < pow2(len),
                p > 0,
        ;
        if len + e < 24 + k {
            lemma_pow2_strictly_increases((len + e) as nat, 24 + k);
        }
        assert(two24() * pow2(k) * d == two24() * pow2(k)) by (nonlinear_arith)
            requires
                d == 1,
        ;
        if k > 0 {
            lemma_pow2_adds(24, (k - 1) as nat);
            assert(m * p >= pow2((len - 1) as nat) * p) by (nonlinear_arith)
                requires
                    m >= pow2((len - 1) as nat),
                    p > 0,
            ;
            assert(two24() * pow2((k - 1) as nat) * d == two24() * pow2((k - 1) as nat))
                by (nonlinear_arith)
                requires
                    d == 1,
            ;
        }
    } else {
        let f = (-e) as nat;
        lemma_pow2_pos(f);
        lemma_pow2_adds(24 + k, f);
        assert(two24() * pow2(k) * d == pow2(24 + k + f));
        if len < 24 + k + f {
            lemma_pow2_strictly_increases(len, 24 + k + f);
        }
        if k > 0 {
            lemma_pow2_adds(24, (k - 1) as nat);
            lemma_pow2_adds((23 + k) as nat, f);
            assert(two24() * pow2((k - 1) as nat) * d == pow2((23 + k + f) as nat));
        }
    }
    lemma_unit_exp_is(n, d, k);
}

proof fn lemma_nearest_exact(q: nat, d: nat)
    requires
        d > 0,
    ensures
        nearest_even(q * d, d) == q,
{
    lemma_fundamental_div_mod_converse((q * d) as int, d as int, q as int, 0);
}

/// Rounds `m · 2^e`, given the exponent `k` that the result takes, to a quotient of `m`.
proof fn lemma_dyadic_nearest(m: nat, e: int, k: nat)
    ensures
        dyadic_d(e) * pow2(k) > 0,
        k <= e ==> nearest_even(dyadic_n(m, e), dyadic_d(e) * pow2(k)) == m * pow2((e - k) as nat),
        k > e ==> nearest_even(dyadic_n(m, e), dyadic_d(e) * pow2(k)) == nearest_even(
            m,
            pow2((k - e) as nat),
        ),
{
    lemma_pow2_pos(k);
    if e >= 0 {
        let p = pow2(e as nat);
        lemma_pow2_pos(e as nat);
        assert(dyadic_d(e) * pow2(k) == pow2(k)) by (nonlinear_arith)
            requires
                dyadic_d(e) == 1,
        ;
        if k <= e {
            let t = (e - k) as nat;
            lemma_pow2_adds(t, k);
            assert(m * p == (m * pow2(t)) * pow2(k)) by (nonlinear_arith)
                requires
                    p == pow2(t) * pow2(k),
            ;
            lemma_nearest_exact(m * pow2(t), pow2(k));
        } else {
            let t = (k - e) as nat;
            lemma_pow2_pos(t);
            lemma_pow2_adds(t, e as nat);
            lemma_nearest_scale(m, pow2(t), p);
        }
    } else {
        let f = (-e) as nat;
        lemma_pow2_pos(f);
        lemma_pow2_adds(f, k);
        lemma_pow2_pos(f + k);
    }
    let d = dyadic_d(e);
    assert(d > 0);
    assert(d * pow2(k) > 0) by (nonlinear_arith)
        requires
            d > 0,
            pow2(k) > 0,
    ;
}

/// Number of binary digits of `m`.
fn bit_len(m: u64) -> (len: u32)
    requires
        m > 0,
    ensures
        0 < len <= 64,
        pow2((len - 1) as nat) <= m < pow2(len as nat),
{
    let z: u32 = m.leading_zeros();
    proof {
        vstd::std_specs::bits::axiom_u64_leading_zeros(m);
        let top = (63 - z) as u64;
        assert(((m >> top) & 1u64) != 0u64);
        let y = m >> top;
        assert(y >= 1u64) by (bit_vector)
            requires
                y & 1u64 != 0u64,
        ;
        lemma_u64_shr_is_div(m, top);
        let p = pow2(top as nat) as int;
        lemma_pow2_pos(top as nat);
        lemma_fundamental_div_mod(m as int, p);
        lemma_mod_bound(m as int, p);
        assert(m >= p) by (nonlinear_arith)
            requires
                m as int == p * (m as int / p) + (m as int % p),
                m as int / p >= 1,
                m as int % p >= 0,
                p > 0,
        ;
        if z > 0 {
            let above = (64 - z) as u64;
            lemma_u64_shr_is_div(m, above);
            let p2 = pow2(above as nat) as int;
            lemma_pow2_pos(above as nat);
            lemma_fundamental_div_mod(m as int, p2);
            lemma_mod_bound(m as int, p2);
            assert(m as int / p2 == 0);
        } else {
            lemma2_to64();
            lemma2_to64_rest();
        }
    }
    64 - z
}

/// `m / 2^s` rounded to the nearest integer, ties to even.
fn shift_round(m: u64, s: u32) -> (q: u64)
    requires
        s > 0,
    ensures
        q == nearest_even(m as nat, pow2(s as nat)),
{
    proof {
        lemma2_to64();
        lemma2_to64_rest();
        lemma_pow2_pos(s as nat);
    }
    if s > 64 {
        proof {
            lemma_pow2_strictly_increases(64, s as nat);
            lemma_pow2_unfold(s as nat);
            if s > 65 {
                lemma_pow2_strictly_increases(64, (s - 1) as nat);
            }
            lemma_small_mod(m as nat, pow2(s as nat));
            lemma_basic_div(m as int, pow2(s as nat) as int);
        }
        0
    } else if s == 64 {
        proof {
            lemma_small_mod(m as nat, pow2(64));
            lemma_basic_div(m as int, pow2(64) as int);
        }
        if m > 0x8000_0000_0000_0000 {
            1
        } else {
            0
        }
    } else {
        let t: u64 = s as u64;
        let q: u64 = m >> t;
        let one: u64 = 1;
        let d: u64 = one << t;
        proof {
            lemma_u64_shr_is_div(m, t);
            if s < 63 {
                lemma_pow2_strictly_increases(t as nat, 63);
            }
            assert(1 * pow2(t as nat) <= u64::MAX);
            lemma_u64_shl_is_mul(one, t);
            lemma_mod_bound(m as int, d as int);
            lemma_div_nonincreasing(m as int, 2);
            assert(q <= m / 2) by {
                lemma_pow2_unfold(t as nat);
                lemma_pow2_pos((t - 1) as nat);
                assert(pow2(t as nat) >= 2);
                lemma_div_is_ordered_by_denominator(m as int, 2, d as int);
            }
        }
        let r: u64 = m % d;
        let half: u64 = d / 2;
        proof {
            lemma_pow2_unfold(t as nat);
        }
        if r > half || (r == half && q % 2 == 1) {
            q + 1
        } else {
            q
        }
    }
}

fn pack_bits(neg: bool, mag: u32) -> (r: Single)
    requires
        mag <= INFINITE,
    ensures
        r == pack(neg, mag as nat),
{
    Single {
        bits: if neg {
            mag + SIGN
        } else {
            mag
        },
    }
}

pub proof fn lemma_zero_rounds(neg: bool, d: nat)
    requires
        d > 0,
    ensures
        round_units(neg, 0, d) == pack(neg, 0),
{
    lemma2_to64();
    assert(unit_exp(0, d) == 0);
    assert(d * pow2(0) == d) by (nonlinear_arith)
        requires
            pow2(0) == 1,
    ;
    lemma_small_mod(0, d);
    lemma_basic_div(0, d as int);
}

/// The number nearest to `m · 2^e` units.
pub(crate) fn round_dyadic(neg: bool, m: u64, e: i32) -> (r: Single)
    requires
        -1000 <= e <= 1000,
    ensures
        r == round_units(neg, dyadic_n(m as nat, e as int), dyadic_d(e as int)),
{
    if m == 0 {
        proof {
            let d = dyadic_d(e as int);
            if e < 0 {
                lemma_pow2_pos((-e) as nat);
            }
            assert(dyadic_n(0, e as int) == 0) by (nonlinear_arith)
                requires
                    dyadic_n(0, e as int) == 0 || dyadic_n(0, e as int) == 0 * pow2(e as nat),
            ;
            lemma_zero_rounds(neg, d);
        }
        return pack_bits(neg, 0);
    }
    let len: i32 = bit_len(m) as i32;
    let k: i32 = if e + len > 24 {
        e + len - 24
    } else {
        0
    };
    proof {
        lemma_dyadic_exp(m as nat, e as int, len as nat, k as nat);
        lemma_dyadic_nearest(m as nat, e as int, k as nat);
    }
    let q: u64 = if k <= e {
        let t: u64 = (e - k) as u64;
        proof {
            lemma2_to64();
            lemma2_to64_rest();
            assert(t <= 24 - len || t == 0);
            lemma_pow2_adds(len as nat, t as nat);
            lemma_pow2_pos(t as nat);
            assert(m * pow2(t as nat) < pow2(len as nat) * pow2(t as nat)) by (nonlinear_arith)
                requires
                    m < pow2(len as nat),
                    pow2(t as nat) > 0,
            ;
            if len + t < 64 {
                lemma_pow2_strictly_increases((len + t) as nat, 64);
            }
            if len + t < 24 {
                lemma_pow2_strictly_increases((len + t) as nat, 24);
            }
            lemma_u64_shl_is_mul(m, t);
        }
        m << t
    } else {
        shift_round(m, (k - e) as u32)
    };
    proof {
        lemma_nearest_small(
            dyadic_n(m as nat, e as int),
            dyadic_d(e as int),
            k as nat,
        );
    }
    let mag: u64 = (k as u64) * 0x80_0000 + q;
    if mag < INFINITE as u64 {
        pack_bits(neg, mag as u32)
    } else {
        pack_bits(neg, INFINITE)
    }
}

/// A rounded significand is at most `2^24`.
proof fn lemma_nearest_small(n: nat, d: nat, k: nat)
    requires
        d > 0,
        k == unit_exp(n, d),
    ensures
        nearest_even(n, d * pow2(k)) <= two24(),
{
    lemma_unit_exp_bounds(n, d);
    lemma_pow2_pos(k);
    let p = pow2(k);
    let e = d * p;
    assert(e > 0) by (nonlinear_arith)
        requires
            d > 0,
            p > 0,
            e == d * p,
    ;
    lemma_fundamental_div_mod(n as int, e as int);
    lemma_mod_bound(n as int, e as int);
    let q = n / e;
    assert(q < two24()) by (nonlinear_arith)
        requires
            n == e * q + n % e,
            n % e >= 0,
            n < two24() * p * d,
            e == d * p,
            e > 0,
    ;
}

impl Single {
    /// The absolute value's pattern.
    fn mag_bits(self) -> (m: u32)
        ensures
            m == self.mag(),
    {
        self.bits % SIGN
    }

    pub fn is_negative(self) -> (r: bool)
        ensures
            r == self.negative(),
    {
        self.bits >= SIGN
    }

    pub fn is_nan(self) -> (r: bool)
        ensures
            r == self.not_a_number(),
    {
        self.mag_bits() > INFINITE
    }

    fn exp_of(self) -> (k: i32)
        ensures
            k == self.exp(),
            0 <= k <= 254,
    {
        let b: u32 = self.mag_bits() / 0x80_0000;
        if b == 0 {
            0
        } else {
            (b - 1) as i32
        }
    }

    fn mant_of(self) -> (m: u64)
        ensures
            m == self.mant(),
            m < two24(),
    {
        let g: u32 = self.mag_bits();
        let f: u32 = g % 0x80_0000;
        if g < 0x80_0000 {
            f as u64
        } else {
            (f + 0x80_0000) as u64
        }
    }

    /// Absolute value.
    #[verifier::when_used_as_spec(abs_spec)]
    pub fn abs(self) -> (r: Single)
        ensures
            r == self.abs_spec(),
    {
        proof {
            reveal(Single::abs_spec);
        }
        Single { bits: self.mag_bits() }
    }

    #[verifier::opaque]
    pub open spec fn abs_spec(self) -> Single {
        pack(false, self.mag())
    }

    /// Opposite number.
    #[verifier::when_used_as_spec(neg_spec)]
    pub fn neg(self) -> (r: Single)
        ensures
            r == self.neg_spec(),
    {
        proof {
            reveal(Single::neg_spec);
        }
        if self.bits >= SIGN {
            Single { bits: self.bits - SIGN }
        } else {
            Single { bits: self.bits + SIGN }
        }
    }

    #[verifier::opaque]
    pub open spec fn neg_spec(self) -> Single {
        pack(!self.negative(), self.mag())
    }
}

/// The pattern that stands for every result that is not a number.
pub open spec fn nan() -> Single {
    Single { bits: 0x7fc0_0000 }
}

impl Single {
    /// Product, rounded.
    #[verifier::opaque]
    pub open spec fn times_spec(self, other: Single) -> Single {
        let neg = self.negative() != other.negative();
        if self.not_a_number() || other.not_a_number() {
            nan()
        } else if self.infinite() || other.infinite() {
            if self.mag() == 0 || other.mag() == 0 {
                nan()
            } else {
                pack(neg, INFINITE as nat)
            }
        } else {
            round_units(neg, self.units() * other.units(), pow2(149))
        }
    }

    /// `a · b`.
    #[verifier::when_used_as_spec(times_spec)]
    pub fn times(self, other: Single) -> (r: Single)
        ensures
            r == self.times_spec(other),
    {
        proof {
            reveal(Single::times_spec);
        }
        let neg = self.is_negative() != other.is_negative();
        let am: u32 = self.mag_bits();
        let bm: u32 = other.mag_bits();
        if am > INFINITE || bm > INFINITE {
            Single { bits: 0x7fc0_0000 }
        } else if am == INFINITE || bm == INFINITE {
            if am == 0 || bm == 0 {
                Single { bits: 0x7fc0_0000 }
            } else {
                pack_bits(neg, INFINITE)
            }
        } else {
            let m1: u64 = self.mant_of();
            let m2: u64 = other.mant_of();
            let k1: i32 = self.exp_of();
            let k2: i32 = other.exp_of();
            assert(m1 * m2 < 0x1_0000_0000_0000) by (nonlinear_arith)
                requires
                    m1 < 0x100_0000,
                    m2 < 0x100_0000,
            ;
            let m: u64 = m1 * m2;
            let e: i32 = k1 + k2 - 149;
            proof {
                lemma_product_dyadic(neg, m1 as nat, k1 as nat, m2 as nat, k2 as nat);
            }
            round_dyadic(neg, m, e)
        }
    }
}

proof fn lemma_product_dyadic(neg: bool, m1: nat, k1: nat, m2: nat, k2: nat)
    ensures
        round_units(neg, (m1 * pow2(k1)) * (m2 * pow2(k2)), pow2(149)) == round_units(
            neg,
            dyadic_n(m1 * m2, k1 + k2 - 149),
            dyadic_d(k1 + k2 - 149),
        ),
{
    let m = m1 * m2;
    let p1 = pow2(k1);
    let p2 = pow2(k2);
    let e = k1 + k2 - 149;
    lemma_pow2_adds(k1, k2);
    assert((m1 * p1) * (m2 * p2) == m * (p1 * p2)) by (nonlinear_arith)
        requires
            m == m1 * m2,
    ;
    lemma_pow2_pos(149);
    lemma_pow2_pos(k1 + k2);
    if e >= 0 {
        lemma_pow2_adds(e as nat, 149);
        let pe = pow2(e as nat);
        let c = pow2(149);
        assert(m * (pe * c) == (m * pe) * c) by (nonlinear_arith);
        lemma_scale(neg, m * pe, 1, c);
        assert(1 * c == c);
    } else {
        let f = (-e) as nat;
        lemma_pow2_adds(f, k1 + k2);
        lemma_pow2_pos(f);
        lemma_scale(neg, m, pow2(f), pow2(k1 + k2));
    }
}

impl Single {
    /// Whole numbers, rounded where they exceed 24 bits.
    #[verifier::opaque]
    pub open spec fn whole_spec(v: u64) -> Single {
        round_units(false, v as nat * pow2(149), 1)
    }

    /// `v` as a single.
    #[verifier::when_used_as_spec(whole_spec)]
    pub fn whole(v: u64) -> (r: Single)
        ensures
            r == Single::whole_spec(v),
    {
        proof {
            reveal(Single::whole_spec);
        }
        round_dyadic(false, v, 149)
    }
}

/// Numerators in the same cell of width `g`, both on its edge or both inside, round alike
/// over a denominator that is an even multiple of `g`.
proof fn lemma_nearest_cell(n: nat, m: nat, g: nat, t: nat, inside: bool)
    requires
        g > 0,
        t > 0,
        m * g <= n < (m + 1) * g,
        inside == (n != m * g),
    ensures
        nearest_even(n, g * (2 * t)) == {
            let q = m / (2 * t);
            let r = m % (2 * t);
            if r > t || (r == t && (inside || q % 2 == 1)) {
                q + 1
            } else {
                q
            }
        },
{
    let w = 2 * t;
    let q = m / w;
    let r = m % w;
    lemma_fundamental_div_mod(m as int, w as int);
    lemma_mod_bound(m as int, w as int);
    let x = (n - m * g) as nat;
    let big = g * w;
    let y = r * g + x;
    assert(n == q * big + y) by (nonlinear_arith)
        requires
            n == m * g + x,
            m == w * q + r,
            big == g * w,
            y == r * g + x,
    ;
    assert(x < g) by (nonlinear_arith)
        requires
            n == m * g + x,
            n < (m + 1) * g,
    ;
    assert(0 <= y < big) by (nonlinear_arith)
        requires
            0 <= r < w,
            0 <= x < g,
            big == g * w,
            y == r * g + x,
    ;
    lemma_fundamental_div_mod_converse(n as int, big as int, q as int, y as int);
    let half = g * t;
    assert(big == 2 * half) by (nonlinear_arith)
        requires
            big == g * w,
            w == 2 * t,
            half == g * t,
    ;
    if r > t {
        assert(y > half) by (nonlinear_arith)
            requires
                r >= t + 1,
                y == r * g + x,
                x >= 0,
                half == g * t,
                g > 0,
        ;
    } else if r < t {
        assert(y < half) by (nonlinear_arith)
            requires
                r + 1 <= t,
                y == r * g + x,
                x < g,
                half == g * t,
        ;
    } else {
        assert(y == half + x) by (nonlinear_arith)
            requires
                r == t,
                y == r * g + x,
                half == g * t,
        ;
    }
}

/// `2^f` as a fraction of two powers of which one is 1.
pub open spec fn up(f: int) -> nat {
    pow2(if f > 0 { f as nat } else { 0 })
}

/// A quotient known to 25 bits, and whether anything is left over, fix how it rounds.
proof fn lemma_sticky(neg: bool, n: nat, d: nat, m: nat, f: int, inside: bool)
    requires
        d > 0,
        m >= 0x200_0000,
        m * (up(f) * d) <= n * up(-f) < (m + 1) * (up(f) * d),
        inside == (n * up(-f) != m * (up(f) * d)),
    ensures
        round_units(neg, n, d) == round_units(
            neg,
            dyadic_n((2 * m + if inside { 1nat } else { 0 }) as nat, f - 1),
            dyadic_d(f - 1),
        ),
{
    lemma2_to64();
    let g0 = up(f);
    let p = up(-f);
    let st: nat = if inside { 1 } else { 0 };
    lemma_pow2_pos(if f > 0 { f as nat } else { 0 });
    lemma_pow2_pos(if -f > 0 { (-f) as nat } else { 0 });
    let n1 = n * (2 * p);
    let d1 = d * (2 * p);
    let gd = g0 * d;
    let g = 2 * gd;
    let n2 = (2 * m + st) * gd;
    assert(gd > 0 && d1 > 0 && g > 0 && 2 * p > 0) by (nonlinear_arith)
        requires
            g0 > 0,
            d > 0,
            p > 0,
            gd == g0 * d,
            d1 == d * (2 * p),
            g == 2 * gd,
    ;
    assert(m * g <= n1 < (m + 1) * g && inside == (n1 != m * g)) by (nonlinear_arith)
        requires
            m * gd <= n * p < (m + 1) * gd,
            inside == (n * p != m * gd),
            n1 == n * (2 * p),
            g == 2 * gd,
    ;
    assert(m * g <= n2 < (m + 1) * g && inside == (n2 != m * g)) by (nonlinear_arith)
        requires
            n2 == (2 * m + st) * gd,
            g == 2 * gd,
            gd > 0,
            st == if inside { 1nat } else { 0 },
    ;
    let k = unit_exp(n1, d1);
    lemma_unit_exp_bounds(n1, d1);
    lemma_pow2_pos(k);
    // the exponent leaves the cell below half a step
    assert(k >= f + 2 || f < 0) by {
        if f >= 0 && k <= f + 1 {
            lemma_pow2_unfold((f + 1) as nat);
            if k < f + 1 {
                lemma_pow2_strictly_increases(k, (f + 1) as nat);
            }
            let pk = pow2(k);
            assert(p == 1);
            assert(d1 == 2 * d) by (nonlinear_arith)
                requires
                    d1 == d * (2 * p),
                    p == 1,
            ;
            assert(n1 < n1) by (nonlinear_arith)
                requires
                    n1 < 0x100_0000 * pk * d1,
                    pk <= 2 * g0,
                    d1 == 2 * d,
                    n1 >= m * g,
                    m >= 0x200_0000,
                    g == 2 * (g0 * d),
                    d > 0,
                    g0 > 0,
                    pk > 0,
            ;
        }
    }
    let h = (k - 1 - f) as nat;
    let t = pow2(h);
    lemma_pow2_pos(h);
    // d1 · 2^k == g · 2t
    assert(p * pow2(k) == 2 * (g0 * t)) by {
        lemma_pow2_unfold((k - f) as nat);
        if f >= 0 {
            lemma_pow2_adds(f as nat, (k - f) as nat);
            assert(p == 1 && g0 == pow2(f as nat));
            assert(p * pow2(k) == 2 * (g0 * t)) by (nonlinear_arith)
                requires
                    p == 1,
                    pow2(k) == g0 * (2 * t),
            ;
        } else {
            lemma_pow2_adds((-f) as nat, k);
            assert(g0 == 1 && p == pow2((-f) as nat));
            assert(p * pow2(k) == 2 * (g0 * t)) by (nonlinear_arith)
                requires
                    g0 == 1,
                    p * pow2(k) == 2 * t,
            ;
        }
    }
    assert(d1 * pow2(k) == g * (2 * t)) by (nonlinear_arith)
        requires
            p * pow2(k) == 2 * (g0 * t),
            d1 == d * (2 * p),
            g == 2 * (g0 * d),
    ;
    lemma_nearest_cell(n1, m, g, t, inside);
    lemma_nearest_cell(n2, m, g, t, inside);
    // n2 has the same exponent: both bounds are multiples of g
    let a = 0x100_0000 * (2 * t);
    assert(two24() * pow2(k) * d1 == a * g) by (nonlinear_arith)
        requires
            d1 * pow2(k) == g * (2 * t),
            two24() == 0x100_0000,
            a == 0x100_0000 * (2 * t),
    ;
    lemma_cell_below(n1, n2, m, g, a);
    if k > 0 {
        lemma_pow2_unfold(k);
        let b = 0x100_0000 * t;
        assert(two24() * pow2((k - 1) as nat) * d1 == b * g) by (nonlinear_arith)
            requires
                d1 * pow2(k) == g * (2 * t),
                pow2(k) == 2 * pow2((k - 1) as nat),
                two24() == 0x100_0000,
                b == 0x100_0000 * t,
        ;
        lemma_cell_below(n1, n2, m, g, b);
    }
    lemma_unit_exp_is(n2, d1, k);
    lemma_scale(neg, n, d, 2 * p);
    // n2 / d1 is the dyadic number
    let m2 = 2 * m + st;
    let e = f - 1;
    if e >= 0 {
        lemma_pow2_unfold(f as nat);
        assert(n2 == (m2 * pow2(e as nat)) * (2 * d)) by (nonlinear_arith)
            requires
                n2 == m2 * (g0 * d),
                g0 == 2 * pow2(e as nat),
        ;
        lemma_scale(neg, m2 * pow2(e as nat), 1, 2 * d);
        assert(p == 1);
        assert(d1 == 1 * (2 * d)) by (nonlinear_arith)
            requires
                d1 == d * (2 * p),
                p == 1,
        ;
        assert(dyadic_n(m2, e) == m2 * pow2(e as nat) && dyadic_d(e) == 1);
    } else {
        lemma_pow2_unfold((-e) as nat);
        assert(pow2((-e) as nat) == 2 * p);
        assert(g0 == 1);
        assert(n2 == m2 * d) by (nonlinear_arith)
            requires
                n2 == m2 * (g0 * d),
                g0 == 1,
        ;
        lemma_scale(neg, m2, 2 * p, d);
        assert((2 * p) * d == d1) by (nonlinear_arith)
            requires
                d1 == d * (2 * p),
        ;
        assert(dyadic_n(m2, e) == m2 && dyadic_d(e) == 2 * p);
    }
    assert(round_units(neg, n1, d1) == round_units(neg, n2, d1));
}

proof fn lemma_cell_below(n1: nat, n2: nat, m: nat, g: nat, a: nat)
    requires
        g > 0,
        m * g <= n1 < (m + 1) * g,
        m * g <= n2 < (m + 1) * g,
    ensures
        (n1 < a * g) == (n2 < a * g),
{
    if m < a {
        assert((m + 1) * g <= a * g) by (nonlinear_arith)
            requires
                m + 1 <= a,
                g > 0,
        ;
    } else {
        assert(a * g <= m * g) by (nonlinear_arith)
            requires
                a <= m,
                g > 0,
        ;
    }
}

impl Single {
    /// Quotient, rounded.
    #[verifier::opaque]
    pub open spec fn over_spec(self, other: Single) -> Single {
        let neg = self.negative() != other.negative();
        if self.not_a_number() || other.not_a_number() || (self.infinite() && other.infinite()) || (self.mag() == 0
            && other.mag() == 0) {
            nan()
        } else if self.infinite() || other.mag() == 0 {
            pack(neg, INFINITE as nat)
        } else if other.infinite() {
            pack(neg, 0)
        } else {
            round_units(neg, self.units() * pow2(149), other.units())
        }
    }

    /// `a / b`.
    #[verifier::when_used_as_spec(over_spec)]
    pub fn over(self, other: Single) -> (r: Single)
        ensures
            r == self.over_spec(other),
    {
        proof {
            reveal(Single::over_spec);
        }
        let neg = self.is_negative() != other.is_negative();
        let am: u32 = self.mag_bits();
        let bm: u32 = other.mag_bits();
        if am > INFINITE || bm > INFINITE || (am == INFINITE && bm == INFINITE) || (am == 0 && bm
            == 0) {
            Single { bits: 0x7fc0_0000 }
        } else if am == INFINITE || bm == 0 {
            pack_bits(neg, INFINITE)
        } else if bm == INFINITE {
            pack_bits(neg, 0)
        } else {
            let m1: u64 = self.mant_of();
            let m2: u64 = other.mant_of();
            let k1: i32 = self.exp_of();
            let k2: i32 = other.exp_of();
            if m1 == 0 {
                proof {
                    lemma_zero_mant(other);
                    lemma_pow2_pos(k2 as nat);
                    let d = other.units();
                    assert(d > 0) by (nonlinear_arith)
                        requires
                            d == m2 * pow2(k2 as nat),
                            m2 > 0,
                            pow2(k2 as nat) > 0,
                    ;
                    assert(self.units() * pow2(149) == 0) by (nonlinear_arith)
                        requires
                            self.units() == 0 * pow2(k1 as nat),
                    ;
                    lemma_zero_rounds(neg, d);
                }
                return pack_bits(neg, 0);
            }
            proof {
                lemma_zero_mant(other);
                lemma2_to64();
                lemma2_to64_rest();
            }
            let len: u32 = bit_len(m1);
            proof {
                if len > 24 {
                    lemma_pow2_strictly_increases(23, (len - 1) as nat);
                    if len > 25 {
                        lemma_pow2_strictly_increases(24, (len - 1) as nat);
                    }
                }
            }
            let j: u64 = (24 - len) as u64;
            let s: u64 = j + 38;
            proof {
                lemma_pow2_adds(len as nat, s as nat);
                lemma_pow2_adds((len - 1) as nat, s as nat);
                lemma_pow2_pos(s as nat);
                assert(m1 * pow2(s as nat) < pow2(len as nat) * pow2(s as nat)) by (nonlinear_arith)
                    requires
                        m1 < pow2(len as nat),
                        pow2(s as nat) > 0,
                ;
                assert(m1 * pow2(s as nat) >= pow2((len - 1) as nat) * pow2(s as nat))
                    by (nonlinear_arith)
                    requires
                        m1 >= pow2((len - 1) as nat),
                        pow2(s as nat) > 0,
                ;
                lemma_u64_shl_is_mul(m1, s);
            }
            let top: u64 = m1 << s;
            let n: u64 = top / m2;
            let rest: u64 = top % m2;
            proof {
                lemma_fundamental_div_mod(top as int, m2 as int);
                lemma_mod_bound(top as int, m2 as int);
                assert(n >= 0x200_0000) by (nonlinear_arith)
                    requires
                        top == m2 * n + rest,
                        top >= 0x2000_0000_0000_0000,
                        0 <= rest < m2,
                        m2 < 0x100_0000,
                ;
                assert(n <= top) by (nonlinear_arith)
                    requires
                        top == m2 * n + rest,
                        rest >= 0,
                        m2 >= 1,
                ;
            }
            let f: i32 = k1 - k2 + 149 - s as i32;
            let twice: u64 = 2 * n + if rest > 0 {
                1
            } else {
                0
            };
            proof {
                lemma_quotient_sticky(
                    neg,
                    m1 as nat,
                    k1 as nat,
                    m2 as nat,
                    k2 as nat,
                    s as nat,
                    n as nat,
                    rest as nat,
                );
            }
            round_dyadic(neg, twice, f - 1)
        }
    }
}

proof fn lemma_zero_mant(a: Single)
    ensures
        a.mant() == 0 <==> a.mag() == 0,
{
}

proof fn lemma_quotient_sticky(
    neg: bool,
    m1: nat,
    k1: nat,
    m2: nat,
    k2: nat,
    s: nat,
    n: nat,
    rest: nat,
)
    requires
        m2 > 0,
        n >= 0x200_0000,
        m1 * pow2(s) == m2 * n + rest,
        rest < m2,
    ensures
        ({
            let f = k1 - k2 + 149 - s;
            round_units(neg, (m1 * pow2(k1)) * pow2(149), m2 * pow2(k2)) == round_units(
                neg,
                dyadic_n((2 * n + if rest > 0 { 1nat } else { 0 }) as nat, f - 1),
                dyadic_d(f - 1),
            )
        }),
{
    let f = k1 - k2 + 149 - s;
    let nn = (m1 * pow2(k1)) * pow2(149);
    let d = m2 * pow2(k2);
    lemma_pow2_pos(k2);
    assert(d > 0) by (nonlinear_arith)
        requires
            d == m2 * pow2(k2),
            m2 > 0,
            pow2(k2) > 0,
    ;
    let a = up(f);
    let b = up(-f);
    lemma2_to64();
    lemma_pow2_pos(if f > 0 { f as nat } else { 0 });
    lemma_pow2_pos(if -f > 0 { (-f) as nat } else { 0 });
    // scale by 2^s: (n · a · d, .., (n+1) · a · d) against nn · b
    lemma_pow2_pos(s);
    lemma_pow2_adds(k1, 149);
    let u = pow2(k1 + 149);
    assert(nn == m1 * u) by (nonlinear_arith)
        requires
            nn == (m1 * pow2(k1)) * pow2(149),
            u == pow2(k1) * pow2(149),
    ;
    // u · b == a · 2^k2 · 2^s
    assert(u * b == (a * pow2(k2)) * pow2(s)) by {
        if f >= 0 {
            lemma_pow2_adds(f as nat, k2);
            lemma_pow2_adds(f as nat + k2, s);
        } else {
            lemma_pow2_adds(k1 + 149, (-f) as nat);
            lemma_pow2_adds(k2, s);
        }
    }
    let v = a * pow2(k2);
    assert(nn * b == (m1 * pow2(s)) * v) by (nonlinear_arith)
        requires
            nn == m1 * u,
            u * b == v * pow2(s),
    ;
    assert(a * d == m2 * v) by (nonlinear_arith)
        requires
            d == m2 * pow2(k2),
            v == a * pow2(k2),
    ;
    assert(v > 0) by (nonlinear_arith)
        requires
            v == a * pow2(k2),
            a > 0,
            pow2(k2) > 0,
    ;
    let x = m1 * pow2(s);
    assert(n * (a * d) <= nn * b < (n + 1) * (a * d) && (rest > 0) == (nn * b != n * (a * d)))
        by (nonlinear_arith)
        requires
            nn * b == x * v,
            a * d == m2 * v,
            x == m2 * n + rest,
            0 <= rest < m2,
            v > 0,
    ;
    lemma_sticky(neg, nn, d, n, f, rest > 0);
}

impl Single {
    /// A finite number counted in units of `2^-149`, with its sign.
    pub open spec fn signed(self) -> int {
        if self.negative() {
            -(self.units() as int)
        } else {
            self.units() as int
        }
    }
}

impl Single {
    /// Sum, rounded; a sum of zero is positive unless both terms are negative.
    #[verifier::opaque]
    pub open spec fn plus_spec(self, other: Single) -> Single {
        if self.not_a_number() || other.not_a_number() || (self.infinite() && other.infinite() && self.negative()
            != other.negative()) {
            nan()
        } else if self.infinite() {
            self
        } else if other.infinite() {
            other
        } else {
            let t = self.signed() + other.signed();
            if t == 0 {
                pack(self.negative() && other.negative(), 0)
            } else {
                round_units(t < 0, (if t < 0 { -t } else { t }) as nat, 1)
            }
        }
    }

    /// `a + b`.
    #[verifier::when_used_as_spec(plus_spec)]
    pub fn plus(self, other: Single) -> (r: Single)
        ensures
            r == self.plus_spec(other),
    {
        proof {
            reveal(Single::plus_spec);
        }
        let am: u32 = self.mag_bits();
        let bm: u32 = other.mag_bits();
        if am > INFINITE || bm > INFINITE || (am == INFINITE && bm == INFINITE && self.is_negative()
            != other.is_negative()) {
            Single { bits: 0x7fc0_0000 }
        } else if am == INFINITE {
            self
        } else if bm == INFINITE {
            other
        } else if self.exp_of() >= other.exp_of() {
            plus_ordered(self, other)
        } else {
            plus_ordered(other, self)
        }
    }
}

impl Single {
    /// Difference, rounded.
    pub open spec fn minus_spec(self, other: Single) -> Single {
        self.plus_spec(other.neg_spec())
    }

    /// `a - b`.
    #[verifier::when_used_as_spec(minus_spec)]
    pub fn minus(self, other: Single) -> (r: Single)
        ensures
            r == self.minus_spec(other),
    {
        self.plus(other.neg())
    }
}

/// A term far below half a step of a normal number leaves it as it is.
proof fn lemma_absorb(a: Single, y: int)
    requires
        a.finite(),
        a.exp() >= 2,
        -(pow2((a.exp() - 2) as nat) as int) < y < pow2((a.exp() - 2) as nat),
    ensures
        a.units() + y > 0,
        round_units(a.negative(), (a.units() + y) as nat, 1) == a,
{
    let k = a.exp();
    let m = a.mant();
    let p = pow2(k);
    let h = pow2((k - 1) as nat);
    lemma_pow2_unfold(k);
    lemma_pow2_unfold((k - 1) as nat);
    lemma_pow2_pos((k - 2) as nat);
    let x = (a.units() + y) as nat;
    assert(m >= 0x80_0000 && m < 0x100_0000);
    assert(m * p >= p) by (nonlinear_arith)
        requires
            m >= 1,
            p >= 0,
    ;
    assert(x == m * p + y);
    assert(a.mag() == k * 0x80_0000 + m);
    if m > 0x80_0000 || y >= 0 {
        assert(0x80_0000 * p <= m * p + y < 0x100_0000 * p) by (nonlinear_arith)
            requires
                0x80_0000 <= m < 0x100_0000,
                m > 0x80_0000 || y >= 0,
                -p < y < p,
        ;
        assert(two24() * p * 1 == 0x100_0000 * p) by (nonlinear_arith)
            requires
                two24() == 0x100_0000,
        ;
        assert(two24() * h * 1 == 0x80_0000 * p) by (nonlinear_arith)
            requires
                two24() == 0x100_0000,
                p == 2 * h,
        ;
        lemma_unit_exp_is(x, 1, k);
        if y >= 0 {
            lemma_fundamental_div_mod_converse(x as int, p as int, m as int, y);
        } else {
            assert(x == (m - 1) * p + (p + y)) by (nonlinear_arith)
                requires
                    x == m * p + y,
            ;
            lemma_fundamental_div_mod_converse(x as int, p as int, m as int - 1, p + y);
        }
        assert(nearest_even(x, p) == m);
        assert(1 * p == p);
    } else {
        assert(0x80_0000 * p <= x - y && x < 0x100_0000 * h) by (nonlinear_arith)
            requires
                m == 0x80_0000,
                x == m * p + y,
                y < 0,
                p == 2 * h,
        ;
        let h2 = pow2((k - 2) as nat);
        assert(two24() * h * 1 == 0x100_0000 * h) by (nonlinear_arith)
            requires
                two24() == 0x100_0000,
        ;
        assert(two24() * h2 * 1 == 0x80_0000 * h) by (nonlinear_arith)
            requires
                two24() == 0x100_0000,
                h == 2 * h2,
        ;
        lemma_unit_exp_is(x, 1, (k - 1) as nat);
        assert(x == 0xff_ffff * h + (h + y)) by (nonlinear_arith)
            requires
                x == m * p + y,
                m == 0x80_0000,
                p == 2 * h,
        ;
        lemma_fundamental_div_mod_converse(x as int, h as int, 0xff_ffff, h + y);
        assert(nearest_even(x, h) == 0x100_0000);
        assert(1 * h == h);
    }
}

/// Sum of two finite numbers of which the first has the larger exponent.
fn plus_ordered(a: Single, b: Single) -> (r: Single)
    requires
        a.finite(),
        b.finite(),
        a.exp() >= b.exp(),
    ensures
        r == a.plus_spec(b),
{
    proof {
        reveal(Single::plus_spec);
    }
    let m1: u64 = a.mant_of();
    let m2: u64 = b.mant_of();
    let k1: i32 = a.exp_of();
    let k2: i32 = b.exp_of();
    let gap: u64 = (k1 - k2) as u64;
    let same = a.is_negative() == b.is_negative();
    if gap > 38 {
        proof {
            let y = if a.negative() == b.negative() {
                b.units() as int
            } else {
                -(b.units() as int)
            };
            lemma2_to64();
            lemma_pow2_adds(24, k2 as nat);
            lemma_pow2_strictly_increases(24 + k2 as nat, (k1 - 2) as nat);
            lemma_pow2_pos(k2 as nat);
            assert(m2 * pow2(k2 as nat) < 0x100_0000 * pow2(k2 as nat)) by (nonlinear_arith)
                requires
                    m2 < 0x100_0000,
                    pow2(k2 as nat) > 0,
            ;
            lemma_absorb(a, y);
        }
        a
    } else {
        proof {
            lemma2_to64();
            lemma2_to64_rest();
            lemma_pow2_pos(gap as nat);
            lemma_pow2_adds(24, gap as nat);
            if gap < 38 {
                lemma_pow2_strictly_increases(gap as nat, 38);
            }
            assert(m1 * pow2(gap as nat) <= 0xff_ffff * 0x40_0000_0000) by (nonlinear_arith)
                requires
                    m1 <= 0xff_ffff,
                    pow2(gap as nat) <= 0x40_0000_0000,
            ;
            lemma_u64_shl_is_mul(m1, gap);
            lemma_pow2_adds(gap as nat, k2 as nat);
            lemma_pow2_pos(k2 as nat);
        }
        let top: u64 = m1 << gap;
        proof {
            let p = pow2(k2 as nat);
            assert(a.units() == top * p) by (nonlinear_arith)
                requires
                    a.units() == m1 * (pow2(gap as nat) * p),
                    top == m1 * pow2(gap as nat),
            ;
            assert(top * p + m2 * p == (top + m2) * p) by (nonlinear_arith);
            assert(top * p - m2 * p == (top - m2) * p) by (nonlinear_arith);
            assert(m2 * p - top * p == (m2 - top) * p) by (nonlinear_arith);
            assert((top + m2) * p == 0 <==> top + m2 == 0) by (nonlinear_arith)
                requires
                    p > 0,
            ;
            assert((top - m2) * p == 0 <==> top == m2) by (nonlinear_arith)
                requires
                    p > 0,
            ;
            assert((top - m2) * p < 0 <==> top < m2) by (nonlinear_arith)
                requires
                    p > 0,
            ;
        }
        if same {
            if top + m2 == 0 {
                pack_bits(a.is_negative(), 0)
            } else {
                round_dyadic(a.is_negative(), top + m2, k2)
            }
        } else if top == m2 {
            pack_bits(false, 0)
        } else if top > m2 {
            round_dyadic(a.is_negative(), top - m2, k2)
        } else {
            round_dyadic(b.is_negative(), m2 - top, k2)
        }
    }
}

impl Single {
    /// Position on the number line: patterns of larger magnitude lie farther from zero,
    /// and the two zeros coincide.
    pub open spec fn key(self) -> int {
        if self.negative() {
            -(self.mag() as int)
        } else {
            self.mag() as int
        }
    }
}

impl Single {
    /// `a < b`; false where either is not a number.
    #[verifier::opaque]
    pub open spec fn less_spec(self, other: Single) -> bool {
        !self.not_a_number() && !other.not_a_number() && self.key() < other.key()
    }

    #[verifier::when_used_as_spec(less_spec)]
    pub fn less(self, other: Single) -> (r: bool)
        ensures
            r == self.less_spec(other),
    {
        proof {
            reveal(Single::less_spec);
        }
        !self.is_nan() && !other.is_nan() && key_of(self) < key_of(other)
    }
}

impl Single {
    /// `a <= b`; false where either is not a number.
    #[verifier::opaque]
    pub open spec fn at_most_spec(self, other: Single) -> bool {
        !self.not_a_number() && !other.not_a_number() && self.key() <= other.key()
    }

    #[verifier::when_used_as_spec(at_most_spec)]
    pub fn at_most(self, other: Single) -> (r: bool)
        ensures
            r == self.at_most_spec(other),
    {
        proof {
            reveal(Single::at_most_spec);
        }
        !self.is_nan() && !other.is_nan() && key_of(self) <= key_of(other)
    }
}

pub(crate) fn key_of(a: Single) -> (k: i64)
    ensures
        k == a.key(),
        -0x8000_0000 < k < 0x8000_0000,
{
    if a.bits >= SIGN {
        -((a.bits - SIGN) as i64)
    } else {
        a.bits as i64
    }
}

impl Single {
    /// The smaller number; a number wins over what is none.
    #[verifier::opaque]
    pub open spec fn smaller_spec(self, other: Single) -> Single {
        if self.not_a_number() {
            other
        } else if other.not_a_number() || self.key() <= other.key() {
            self
        } else {
            other
        }
    }

    #[verifier::when_used_as_spec(smaller_spec)]
    pub fn smaller(self, other: Single) -> (r: Single)
        ensures
            r == self.smaller_spec(other),
    {
        proof {
            reveal(Single::smaller_spec);
        }
        if self.is_nan() {
            other
        } else if other.is_nan() || key_of(self) <= key_of(other) {
            self
        } else {
            other
        }
    }
}

impl Single {
    /// The larger number; a number wins over what is none.
    #[verifier::opaque]
    pub open spec fn larger_spec(self, other: Single) -> Single {
        if self.not_a_number() {
            other
        } else if other.not_a_number() || self.key() >= other.key() {
            self
        } else {
            other
        }
    }

    #[verifier::when_used_as_spec(larger_spec)]
    pub fn larger(self, other: Single) -> (r: Single)
        ensures
            r == self.larger_spec(other),
    {
        proof {
            reveal(Single::larger_spec);
        }
        if self.is_nan() {
            other
        } else if other.is_nan() || key_of(self) >= key_of(other) {
            self
        } else {
            other
        }
    }
}

/// A number rounds to itself.
pub proof fn lemma_round_self(a: Single)
    requires
        a.finite(),
    ensures
        round_units(a.negative(), a.units(), 1) == a,
{
    let k = a.exp();
    let m = a.mant();
    let p = pow2(k);
    lemma_pow2_pos(k);
    assert(a.mag() == k * 0x80_0000 + m);
    assert(m * p < two24() * p * 1) by (nonlinear_arith)
        requires
            m < two24(),
            p > 0,
    ;
    if k > 0 {
        lemma_pow2_unfold(k);
        let h = pow2((k - 1) as nat);
        assert(m * p >= two24() * h * 1) by (nonlinear_arith)
            requires
                m >= 0x80_0000,
                two24() == 0x100_0000,
                p == 2 * h,
        ;
    }
    lemma_unit_exp_is(m * p, 1, k);
    lemma_nearest_exact(m, p);
    assert(1 * p == p);
}

impl Single {
    /// The nearest whole number, halves away from zero.
    #[verifier::opaque]
    pub open spec fn rounded_spec(self) -> Single {
        if self.not_a_number() {
            nan()
        } else if self.infinite() {
            self
        } else {
            round_units(
                self.negative(),
                ((2 * self.units() + pow2(149)) / (2 * pow2(149))) * pow2(149),
                1,
            )
        }
    }

    /// `a` rounded to a whole number, halves away from zero.
    #[verifier::when_used_as_spec(rounded_spec)]
    pub fn rounded(self) -> (r: Single)
        ensures
            r == self.rounded_spec(),
    {
        proof {
            reveal(Single::rounded_spec);
        }
        let am: u32 = self.mag_bits();
        if am > INFINITE {
            return Single { bits: 0x7fc0_0000 };
        }
        if am == INFINITE {
            return self;
        }
        let m: u64 = self.mant_of();
        let k: i32 = self.exp_of();
        if k >= 149 {
            proof {
                let p = pow2(149);
                let t = (k - 149) as nat;
                lemma_pow2_adds(t, 149);
                lemma_pow2_pos(149);
                let w = m * pow2(t);
                assert(self.units() == w * p) by (nonlinear_arith)
                    requires
                        self.units() == m * (pow2(t) * p),
                        w == m * pow2(t),
                ;
                assert(2 * (w * p) + p == w * (2 * p) + p) by (nonlinear_arith);
                lemma_fundamental_div_mod_converse(
                    2 * (w * p) + p,
                    (2 * p) as int,
                    w as int,
                    p as int,
                );
                lemma_round_self(self);
            }
            return self;
        }
        let s: u64 = (149 - k) as u64;
        proof {
            lemma_fraction(m as nat, k as nat);
            lemma2_to64();
            lemma_pow2_pos(s as nat);
        }
        let q: u64 = if s >= 25 {
            proof {
                if s > 25 {
                    lemma_pow2_strictly_increases(25, s as nat);
                }
                lemma_basic_div((2 * m + pow2(s as nat)) as int, (2 * pow2(s as nat)) as int);
            }
            0
        } else {
            proof {
                if s < 24 {
                    lemma_pow2_strictly_increases(s as nat, 24);
                }
                lemma2_to64_rest();
                lemma_u64_shl_is_mul(1, s);
            }
            let one: u64 = 1;
            let d: u64 = one << s;
            (2 * m + d) / (2 * d)
        };
        round_dyadic(self.is_negative(), q, 149)
    }
}

/// Units of a number over `2^149`, in terms of its significand.
proof fn lemma_fraction(m: nat, k: nat)
    requires
        k < 149,
    ensures
        m * pow2(k) / pow2(149) == m / pow2((149 - k) as nat),
        (2 * (m * pow2(k)) + pow2(149)) / (2 * pow2(149)) == (2 * m + pow2((149 - k) as nat)) / (2
            * pow2((149 - k) as nat)),
{
    let s = (149 - k) as nat;
    let p = pow2(k);
    let d = pow2(s);
    lemma_pow2_adds(s, k);
    lemma_pow2_pos(k);
    lemma_pow2_pos(s);
    lemma_quotient_scale(m, d, p);
    assert((2 * m + d) * p == 2 * (m * p) + d * p) by (nonlinear_arith);
    assert((2 * d) * p == 2 * (d * p)) by (nonlinear_arith);
    lemma_quotient_scale(2 * m + d, 2 * d, p);
}

proof fn lemma_quotient_scale(n: nat, d: nat, c: nat)
    requires
        d > 0,
        c > 0,
    ensures
        (n * c) / (d * c) == n / d,
{
    let q = n / d;
    let r = n % d;
    lemma_fundamental_div_mod(n as int, d as int);
    lemma_mod_bound(n as int, d as int);
    assert(n * c == q * (d * c) + r * c) by (nonlinear_arith)
        requires
            n == d * q + r,
    ;
    assert(0 <= r * c < d * c) by (nonlinear_arith)
        requires
            0 <= r < d,
            c > 0,
    ;
    lemma_fundamental_div_mod_converse((n * c) as int, (d * c) as int, q as int, (r * c) as int);
}

impl Single {
    /// The integer part of a non-negative number, no more than `max`; zero for a negative
    /// number or for what is none.
    #[verifier::opaque]
    pub open spec fn to_int_spec(self, max: u64) -> u64 {
        if self.not_a_number() || self.negative() {
            0
        } else if self.infinite() {
            max
        } else {
            let v = self.units() / pow2(149);
            if v <= max {
                v as u64
            } else {
                max
            }
        }
    }

    /// Integer part, from zero up to `max`.
    #[verifier::when_used_as_spec(to_int_spec)]
    pub fn to_int(self, max: u64) -> (r: u64)
        ensures
            r == self.to_int_spec(max),
    {
        proof {
            reveal(Single::to_int_spec);
        }
        let am: u32 = self.mag_bits();
        if am > INFINITE || self.is_negative() {
            return 0;
        }
        if am == INFINITE {
            return max;
        }
        let m: u64 = self.mant_of();
        let k: i32 = self.exp_of();
        let v: u64 = if k < 149 {
            let s: u64 = (149 - k) as u64;
            proof {
                lemma_fraction(m as nat, k as nat);
                lemma2_to64();
                lemma_pow2_pos(s as nat);
            }
            if s >= 25 {
                proof {
                    if s > 25 {
                        lemma_pow2_strictly_increases(25, s as nat);
                    }
                    lemma_basic_div(m as int, pow2(s as nat) as int);
                }
                0
            } else {
                proof {
                    lemma_u64_shr_is_div(m, s);
                }
                m >> s
            }
        } else {
            let t: u64 = (k - 149) as u64;
            proof {
                lemma_pow2_adds(t as nat, 149);
                lemma_pow2_pos(149);
                lemma_pow2_pos(t as nat);
                let p = pow2(149);
                let w = m * pow2(t as nat);
                assert(self.units() == w * p) by (nonlinear_arith)
                    requires
                        self.units() == m * (pow2(t as nat) * p),
                        w == m * pow2(t as nat),
                ;
                lemma_div_by_multiple(w as int, p as int);
                lemma2_to64();
                lemma2_to64_rest();
            }
            if t >= 41 {
                proof {
                    if t > 41 {
                        lemma_pow2_strictly_increases(41, t as nat);
                    }
                    let p41 = pow2(t as nat);
                    assert(m * p41 >= 0x80_0000 * 0x200_0000_0000) by (nonlinear_arith)
                        requires
                            m >= 0x80_0000,
                            p41 >= 0x200_0000_0000,
                    ;
                }
                return max;
            }
            proof {
                if t < 40 {
                    lemma_pow2_strictly_increases(t as nat, 40);
                }
                let p40 = pow2(t as nat);
                assert(m * p40 <= 0xff_ffff * 0x100_0000_0000) by (nonlinear_arith)
                    requires
                        m <= 0xff_ffff,
                        p40 <= 0x100_0000_0000,
                ;
                lemma_u64_shl_is_mul(m, t);
            }
            m << t
        };
        if v <= max {
            v
        } else {
            max
        }
    }
}

/// A cast never exceeds its limit.
pub proof fn lemma_to_int_bound(a: Single, max: u64)
    ensures
        a.to_int_spec(max) <= max,
{
    reveal(Single::to_int_spec);
    lemma_pow2_pos(149);
    lemma_div_pos_is_pos(a.units() as int, pow2(149) as int);
}

/// `v` brought between `lo` and `hi`.
pub open spec fn bounded(v: int, lo: i64, hi: i64) -> i64 {
    if v < lo {
        lo
    } else if v > hi {
        hi
    } else {
        v as i64
    }
}

/// Limit on the bounds of [`Single::floor_int`] and [`Single::ceil_int`].
pub const WIDE: i64 = 0x100_0000_0000;

impl Single {
    /// The greatest whole number not above this one, between `lo` and `hi`; zero for what is
    /// not a number.
    #[verifier::opaque]
    pub open spec fn floor_int_spec(self, lo: i64, hi: i64) -> i64 {
        if self.not_a_number() {
            0
        } else if self.infinite() {
            if self.negative() {
                lo
            } else {
                hi
            }
        } else {
            bounded(self.signed() / (pow2(149) as int), lo, hi)
        }
    }

    /// The least whole number not below this one, between `lo` and `hi`; zero for what is not
    /// a number.
    #[verifier::opaque]
    pub open spec fn ceil_int_spec(self, lo: i64, hi: i64) -> i64 {
        if self.not_a_number() {
            0
        } else if self.infinite() {
            if self.negative() {
                lo
            } else {
                hi
            }
        } else {
            bounded(-((-self.signed()) / (pow2(149) as int)), lo, hi)
        }
    }

    /// Whether a finite number has a fractional part.
    fn has_fraction(self) -> (r: bool)
        requires
            self.finite(),
        ensures
            r == (self.units() % pow2(149) != 0),
    {
        let m: u64 = self.mant_of();
        let k: i32 = self.exp_of();
        proof {
            lemma_pow2_pos(149);
            lemma_fundamental_div_mod(self.units() as int, pow2(149) as int);
        }
        if k >= 149 {
            proof {
                let t = (k - 149) as nat;
                lemma_pow2_adds(t, 149);
                let p = pow2(149);
                let w = m * pow2(t);
                assert(self.units() == w * p) by (nonlinear_arith)
                    requires
                        self.units() == m * (pow2(t) * p),
                        w == m * pow2(t),
                ;
                lemma_mod_multiples_basic(w as int, p as int);
            }
            return false;
        }
        let s: u64 = (149 - k) as u64;
        proof {
            let d = pow2(s as nat);
            let p = pow2(k as nat);
            lemma_pow2_adds(s as nat, k as nat);
            lemma_pow2_pos(s as nat);
            lemma_pow2_pos(k as nat);
            lemma2_to64();
            let q = m as int / d as int;
            let r = m as int % d as int;
            lemma_fundamental_div_mod(m as int, d as int);
            lemma_mod_bound(m as int, d as int);
            assert(m * p == q * (d * p) + r * p) by (nonlinear_arith)
                requires
                    m == d * q + r,
            ;
            assert(0 <= r * p < d * p) by (nonlinear_arith)
                requires
                    0 <= r < d,
                    p > 0,
            ;
            lemma_fundamental_div_mod_converse((m * p) as int, (d * p) as int, q, r * p);
            assert((r * p != 0) == (r != 0)) by (nonlinear_arith)
                requires
                    p > 0,
            ;
        }
        if s >= 25 {
            proof {
                if s > 25 {
                    lemma_pow2_strictly_increases(25, s as nat);
                }
                lemma_small_mod(m as nat, pow2(s as nat));
            }
            m > 0
        } else {
            proof {
                if s < 24 {
                    lemma_pow2_strictly_increases(s as nat, 24);
                }
                lemma2_to64_rest();
                lemma_u64_shl_is_mul(1, s);
            }
            let one: u64 = 1;
            let d: u64 = one << s;
            m % d > 0
        }
    }

    /// Rounds down to an integer between `lo` and `hi`.
    #[verifier::when_used_as_spec(floor_int_spec)]
    pub fn floor_int(self, lo: i64, hi: i64) -> (r: i64)
        requires
            -WIDE <= lo <= hi <= WIDE,
        ensures
            r == self.floor_int_spec(lo, hi),
    {
        proof {
            reveal(Single::floor_int_spec);
            reveal(Single::to_int_spec);
            lemma_pow2_pos(149);
        }
        let am: u32 = self.mag_bits();
        if am > INFINITE {
            return 0;
        }
        let neg: bool = self.is_negative();
        if am == INFINITE {
            return if neg {
                lo
            } else {
                hi
            };
        }
        let size: Single = self.abs();
        proof {
            reveal(Single::abs_spec);
            lemma_abs_units(self);
            lemma_floor_negated(self.units(), pow2(149));
        }
        let w: i64 = size.to_int(0x1000_0000_0000) as i64;
        let v: i64 = if neg {
            if self.has_fraction() {
                -w - 1
            } else {
                -w
            }
        } else {
            w
        };
        if v < lo {
            lo
        } else if v > hi {
            hi
        } else {
            v
        }
    }

    /// Rounds up to an integer between `lo` and `hi`.
    #[verifier::when_used_as_spec(ceil_int_spec)]
    pub fn ceil_int(self, lo: i64, hi: i64) -> (r: i64)
        requires
            -WIDE <= lo <= hi <= WIDE,
        ensures
            r == self.ceil_int_spec(lo, hi),
    {
        proof {
            reveal(Single::ceil_int_spec);
            reveal(Single::to_int_spec);
            lemma_pow2_pos(149);
        }
        let am: u32 = self.mag_bits();
        if am > INFINITE {
            return 0;
        }
        let neg: bool = self.is_negative();
        if am == INFINITE {
            return if neg {
                lo
            } else {
                hi
            };
        }
        let size: Single = self.abs();
        proof {
            reveal(Single::abs_spec);
            lemma_abs_units(self);
            lemma_floor_negated(self.units(), pow2(149));
        }
        let w: i64 = size.to_int(0x1000_0000_0000) as i64;
        let v: i64 = if neg {
            -w
        } else {
            if self.has_fraction() {
                w + 1
            } else {
                w
            }
        };
        if v < lo {
            lo
        } else if v > hi {
            hi
        } else {
            v
        }
    }
}

/// Dropping the sign keeps the size.
proof fn lemma_abs_units(a: Single)
    ensures
        a.abs_spec().units() == a.units(),
        a.abs_spec().mag() == a.mag(),
        !a.abs_spec().negative(),
{
    reveal(Single::abs_spec);
}

/// The floor of a negated quotient.
proof fn lemma_floor_negated(u: nat, p: nat)
    requires
        p > 0,
    ensures
        (-(u as int)) / (p as int) == if u % p == 0 {
            -((u / p) as int)
        } else {
            -((u / p) as int) - 1
        },
{
    let q = u as int / p as int;
    let r = u as int % p as int;
    lemma_fundamental_div_mod(u as int, p as int);
    lemma_mod_bound(u as int, p as int);
    if r == 0 {
        assert(-(u as int) == (-q) * p + 0) by (nonlinear_arith)
            requires
                u == p * q + r,
                r == 0,
        ;
        lemma_fundamental_div_mod_converse(-(u as int), p as int, -q, 0);
    } else {
        assert(-(u as int) == (-q - 1) * p + (p - r)) by (nonlinear_arith)
            requires
                u == p * q + r,
        ;
        lemma_fundamental_div_mod_converse(-(u as int), p as int, -q - 1, p - r);
    }
}

impl Single {
    /// The greatest whole number not above this one, as a number of the same sign.
    #[verifier::opaque]
    pub open spec fn floored_spec(self) -> Single {
        if self.not_a_number() {
            nan()
        } else if self.infinite() {
            self
        } else if self.negative() {
            round_units(true, whole_above(self.units()) * pow2(149), 1)
        } else {
            round_units(false, (self.units() / pow2(149)) * pow2(149), 1)
        }
    }

    /// The least whole number not below this one, as a number of the same sign.
    #[verifier::opaque]
    pub open spec fn ceiled_spec(self) -> Single {
        if self.not_a_number() {
            nan()
        } else if self.infinite() {
            self
        } else if self.negative() {
            round_units(true, (self.units() / pow2(149)) * pow2(149), 1)
        } else {
            round_units(false, whole_above(self.units()) * pow2(149), 1)
        }
    }

    /// Brings a finite size to a whole number, up or down.
    fn to_whole(self, up: bool) -> (r: Single)
        requires
            self.finite(),
        ensures
            r == round_units(
                self.negative(),
                (if up {
                    whole_above(self.units())
                } else {
                    self.units() / pow2(149)
                }) * pow2(149),
                1,
            ),
    {
        let part: bool = self.has_fraction();
        let m: u64 = self.mant_of();
        let k: i32 = self.exp_of();
        proof {
            lemma_pow2_pos(149);
            lemma_fundamental_div_mod(self.units() as int, pow2(149) as int);
        }
        if !part {
            proof {
                lemma_round_self(self);
                let p = pow2(149) as int;
                let q = self.units() as int / p;
                assert(q * p == p * q) by (nonlinear_arith);
            }
            return self;
        }
        proof {
            if k >= 149 {
                let t = (k - 149) as nat;
                lemma_pow2_adds(t, 149);
                let p = pow2(149);
                let w = m * pow2(t);
                assert(self.units() == w * p) by (nonlinear_arith)
                    requires
                        self.units() == m * (pow2(t) * p),
                        w == m * pow2(t),
                ;
                lemma_mod_multiples_basic(w as int, p as int);
                assert(false);
            }
        }
        let s: u64 = (149 - k) as u64;
        proof {
            lemma_fraction(m as nat, k as nat);
            lemma2_to64();
            lemma_pow2_pos(s as nat);
        }
        let q: u64 = if s >= 25 {
            proof {
                if s > 25 {
                    lemma_pow2_strictly_increases(25, s as nat);
                }
                lemma_basic_div(m as int, pow2(s as nat) as int);
            }
            0
        } else {
            proof {
                lemma_u64_shr_is_div(m, s);
                lemma_div_is_ordered_by_denominator(m as int, 1, pow2(s as nat) as int);
                lemma_div_basics(m as int);
            }
            m >> s
        };
        round_dyadic(
            self.is_negative(),
            if up {
                q + 1
            } else {
                q
            },
            149,
        )
    }

    /// Rounds down to a whole number.
    #[verifier::when_used_as_spec(floored_spec)]
    pub fn floored(self) -> (r: Single)
        ensures
            r == self.floored_spec(),
    {
        proof {
            reveal(Single::floored_spec);
        }
        let am: u32 = self.mag_bits();
        if am > INFINITE {
            return Single { bits: 0x7fc0_0000 };
        }
        if am == INFINITE {
            return self;
        }
        self.to_whole(self.is_negative())
    }

    /// Rounds up to a whole number.
    #[verifier::when_used_as_spec(ceiled_spec)]
    pub fn ceiled(self) -> (r: Single)
        ensures
            r == self.ceiled_spec(),
    {
        proof {
            reveal(Single::ceiled_spec);
        }
        let am: u32 = self.mag_bits();
        if am > INFINITE {
            return Single { bits: 0x7fc0_0000 };
        }
        if am == INFINITE {
            return self;
        }
        self.to_whole(!self.is_negative())
    }
}

/// The least whole number of `2^149` units that is not below `u` units.
pub open spec fn whole_above(u: nat) -> nat {
    if u % pow2(149) == 0 {
        u / pow2(149)
    } else {
        u / pow2(149) + 1
    }
}

/// How often `s` is doubled until `s / n` reaches `2^52`, so that its integer part has the 53
/// bits of a double.
pub open spec fn double_exp(s: nat, n: nat) -> nat
    decreases 2 * (n * 0x10_0000_0000_0000) - s,
{
    if s == 0 || s >= n * 0x10_0000_0000_0000 {
        0
    } else {
        1 + double_exp(2 * s, n)
    }
}

impl Single {
    /// The quotient of two counts, rounded to double precision and then to this one.
    #[verifier::opaque]
    pub open spec fn mean_spec(sum: u64, count: u64) -> Single {
        let e = double_exp(sum as nat, count as nat);
        let q = nearest_even(sum as nat * pow2(e), count as nat);
        round_units(false, dyadic_n(q, 149 - e), dyadic_d(149 - e))
    }

    /// Mean of whole numbers that add up to `sum`, divided in double precision.
    #[verifier::when_used_as_spec(mean_spec)]
    pub fn mean(sum: u64, count: u64) -> (r: Single)
        requires
            0 < count <= 0xffff_ffff,
            sum < 0x100_0000_0000,
        ensures
            r == Single::mean_spec(sum, count),
    {
        proof {
            reveal(Single::mean_spec);
            lemma2_to64();
        }
        let n: u128 = count as u128;
        let full: u128 = n * 0x10_0000_0000_0000;
        let mut t: u128 = sum as u128;
        let mut e: i32 = 0;
        assert(sum * pow2(0) == sum);
        if sum == 0 {
            proof {
                lemma_basic_div(0, count as int);
                lemma_small_mod(0, count as nat);
            }
            return round_dyadic(false, 0, 149);
        }
        while t < full
            invariant
                0 < sum < 0x100_0000_0000,
                0 < count <= 0xffff_ffff,
                n == count,
                full == n * 0x10_0000_0000_0000,
                0 <= e <= 84,
                t == sum * pow2(e as nat),
                0 < t < 2 * full,
                double_exp(sum as nat, count as nat) == e + double_exp(t as nat, count as nat),
            decreases 2 * full - t,
        {
            proof {
                let p = pow2(e as nat);
                lemma_pow2_adds(1, e as nat);
                lemma2_to64();
                lemma2_to64_rest();
                lemma_pow2_adds(64, 20);
                assert(pow2(84) == 0x1_0000_0000_0000_0000 * 0x10_0000);
                assert(sum * p >= p) by (nonlinear_arith)
                    requires
                        sum >= 1,
                        p >= 0,
                ;
                if e == 84 {
                    assert(false);
                }
                assert(sum * (2 * p) == 2 * (sum * p)) by (nonlinear_arith);
            }
            t = 2 * t;
            e = e + 1;
        }
        proof {
            assert(double_exp(t as nat, count as nat) == 0);
            let q = t as int / n as int;
            lemma_fundamental_div_mod(t as int, n as int);
            lemma_mod_bound(t as int, n as int);
            assert(q < 0x20_0000_0000_0000) by (nonlinear_arith)
                requires
                    t == n * q + t as int % n as int,
                    t as int % n as int >= 0,
                    t < 2 * (n * 0x10_0000_0000_0000),
                    n > 0,
            ;
        }
        let q: u64 = (t / n) as u64;
        let r: u128 = t % n;
        let near: u64 = if 2 * r > n || (2 * r == n && q % 2 == 1) {
            q + 1
        } else {
            q
        };
        round_dyadic(false, near, 149 - e)
    }
}

/// `r` is the integer part of the square root of `t`.
pub open spec fn is_root(r: nat, t: nat) -> bool {
    r * r <= t < (r + 1) * (r + 1)
}

/// The least `k` with `sqrt(s) < 2^24 · 2^k`.
pub open spec fn root_exp(s: nat) -> nat
    decreases s,
{
    if s < 0x1_0000_0000_0000 {
        0
    } else {
        1 + root_exp(s / 4)
    }
}

/// The square root of `s` squared units, rounded to nearest; no root lies halfway.
pub open spec fn root_units(s: nat) -> Single {
    let k = root_exp(s);
    let t = s / pow2(2 * k);
    let q = choose|q: nat| is_root(q, t);
    pack(
        false,
        (k * 0x80_0000 + if 4 * s > (2 * q + 1) * (2 * q + 1) * pow2(2 * k) {
            q + 1
        } else {
            q
        }) as nat,
    )
}

impl Single {
    /// Square root, rounded.
    #[verifier::opaque]
    pub open spec fn square_root_spec(self) -> Single {
        if self.not_a_number() || (self.negative() && self.mag() > 0) {
            nan()
        } else if self.mag() == 0 || self.infinite() {
            self
        } else {
            root_units(self.units() * pow2(149))
        }
    }

    /// Square root of `a`.
    #[verifier::when_used_as_spec(square_root_spec)]
    pub fn square_root(self) -> (r: Single)
        ensures
            r == self.square_root_spec(),
    {
        proof {
            reveal(Single::square_root_spec);
        }
        let am: u32 = self.mag_bits();
        if am > INFINITE || (self.is_negative() && am > 0) {
            return Single { bits: 0x7fc0_0000 };
        }
        if am == 0 || am == INFINITE {
            return self;
        }
        let m: u64 = self.mant_of();
        let e: i32 = self.exp_of();
        proof {
            lemma_zero_mant(self);
            lemma2_to64();
            lemma2_to64_rest();
        }
        let len: i32 = bit_len(m) as i32;
        proof {
            if len > 24 {
                if len > 25 {
                    lemma_pow2_strictly_increases(24, (len - 1) as nat);
                }
            }
        }
        let total: i32 = len + e + 149;
        let k: i32 = (total + 1) / 2 - 24;
        let v: u64 = (e + 149 - 2 * k) as u64;
        proof {
            assert(v + len == 48 || v + len == 47);
            lemma_pow2_adds(len as nat, v as nat);
            lemma_pow2_adds((len - 1) as nat, v as nat);
            lemma_pow2_pos(v as nat);
            let pv = pow2(v as nat);
            assert(m * pv < pow2(len as nat) * pv) by (nonlinear_arith)
                requires
                    m < pow2(len as nat),
                    pv > 0,
            ;
            assert(m * pv >= pow2((len - 1) as nat) * pv) by (nonlinear_arith)
                requires
                    m >= pow2((len - 1) as nat),
                    pv > 0,
            ;
            lemma_u64_shl_is_mul(m, v);
        }
        let t: u64 = m << v;
        let q: u64 = int_root(t);
        proof {
            let s = self.units() * pow2(149);
            let w = pow2((2 * k) as nat);
            lemma_pow2_pos((2 * k) as nat);
            lemma_pow2_adds(e as nat, 149);
            lemma_pow2_adds(v as nat, (2 * k) as nat);
            assert(s == t * w) by (nonlinear_arith)
                requires
                    s == (m * pow2(e as nat)) * pow2(149),
                    pow2(e as nat) * pow2(149) == pow2(v as nat) * w,
                    t == m * pow2(v as nat),
            ;
            lemma_root_exp(t as nat, k as nat);
            lemma_div_by_multiple(t as int, w as int);
            assert(2 * (k as nat) == (2 * k) as nat);
            let c = choose|c: nat| is_root(c, t as nat);
            assert(is_root(q as nat, t as nat));
            lemma_root_unique(c, q as nat, t as nat);
            let odd = (2 * q + 1) * (2 * q + 1);
            assert((4 * s > odd * w) == (4 * t > odd)) by (nonlinear_arith)
                requires
                    s == t * w,
                    w > 0,
            ;
            assert(odd == 4 * (q * q + q) + 1) by (nonlinear_arith)
                requires
                    odd == (2 * q + 1) * (2 * q + 1),
            ;
            assert(q * q + q <= 0x100_0000 * 0x100_0000 + 0x100_0000) by (nonlinear_arith)
                requires
                    q <= 0x100_0000,
            ;
            assert(q * q <= 0x100_0000 * 0x100_0000) by (nonlinear_arith)
                requires
                    q <= 0x100_0000,
            ;
        }
        let up: u64 = if t > q * q + q {
            q + 1
        } else {
            q
        };
        pack_bits(false, (k as u64 * 0x80_0000 + up) as u32)
    }
}

proof fn lemma_root_unique(p: nat, q: nat, t: nat)
    requires
        is_root(p, t),
        is_root(q, t),
    ensures
        p == q,
{
    if p < q {
        assert((p + 1) * (p + 1) <= q * q) by (nonlinear_arith)
            requires
                p + 1 <= q,
        ;
    } else if q < p {
        assert((q + 1) * (q + 1) <= p * p) by (nonlinear_arith)
            requires
                q + 1 <= p,
        ;
    }
}

proof fn lemma_root_exp(t: nat, k: nat)
    requires
        k > 0 ==> t >= 0x4000_0000_0000,
        t < 0x1_0000_0000_0000,
    ensures
        root_exp(t * pow2(2 * k)) == k,
    decreases k,
{
    lemma2_to64();
    if k == 0 {
        assert(t * 1 == t);
    } else {
        let j = (k - 1) as nat;
        lemma_pow2_adds(2, 2 * j);
        assert(2 + 2 * j == 2 * k);
        let p = pow2(2 * j);
        lemma_pow2_pos(2 * j);
        assert(t * (4 * p) == (t * p) * 4) by (nonlinear_arith);
        assert(t * p >= t) by (nonlinear_arith)
            requires
                p >= 1,
        ;
        lemma_root_exp(t, j);
    }
}

/// Integer part of the square root, bit by bit.
fn int_root(t: u64) -> (r: u64)
    requires
        t < 0x1_0000_0000_0000,
    ensures
        is_root(r as nat, t as nat),
        r < 0x100_0000,
{
    let mut lo: u64 = 0;
    let mut hi: u64 = 0x100_0000;
    while hi - lo > 1
        invariant
            lo < hi <= 0x100_0000,
            lo * lo <= t < hi * hi,
        decreases hi - lo,
    {
        let mid: u64 = lo + (hi - lo) / 2;
        assert(mid * mid <= 0x100_0000 * 0x100_0000) by (nonlinear_arith)
            requires
                mid <= 0x100_0000,
        ;
        if mid * mid <= t {
            lo = mid;
        } else {
            hi = mid;
        }
    }
    lo
}

proof fn lemma_digits(n: nat) -> (len: nat)
    requires
        n > 0,
    ensures
        len > 0,
        pow2((len - 1) as nat) <= n < pow2(len),
    decreases n,
{
    lemma2_to64();
    if n == 1 {
        1
    } else {
        let l = lemma_digits(n / 2);
        lemma_pow2_unfold(l + 1);
        lemma_pow2_unfold(l);
        l + 1
    }
}

/// Multiples `m · 2^e` of a unit are held exactly where `m` has at most 24 bits.
pub proof fn lemma_dyadic_exact(m: nat, e: nat)
    requires
        m < two24(),
        24 <= e <= 200,
    ensures
        round_units(false, m * pow2(e), 1).finite(),
        !round_units(false, m * pow2(e), 1).negative(),
        round_units(false, m * pow2(e), 1).units() == m * pow2(e),
        m > 0 ==> round_units(false, m * pow2(e), 1).mag() > 0,
{
    lemma2_to64();
    lemma_pow2_pos(e);
    let a = round_units(false, m * pow2(e), 1);
    if m == 0 {
        assert(0 * pow2(e) == 0);
        assert(unit_exp(0, 1) == 0);
        assert(1 * pow2(0) == 1);
        assert(a.mag() == 0);
        assert(a.units() == 0 * pow2(a.exp()));
        assert(0 * pow2(a.exp()) == 0);
    } else {
        let len = lemma_digits(m);
        if len > 24 {
            if len > 25 {
                lemma_pow2_strictly_increases(24, (len - 1) as nat);
            }
        }
        let k = (e + len - 24) as nat;
        lemma_dyadic_exp(m, e as int, len, k);
        lemma_dyadic_nearest(m, e as int, k);
        let t = (e - k) as nat;
        let q = m * pow2(t);
        lemma_pow2_adds(len, t);
        lemma_pow2_adds((len - 1) as nat, t);
        lemma_pow2_pos(t);
        assert(0x80_0000 <= q < 0x100_0000) by (nonlinear_arith)
            requires
                q == m * pow2(t),
                pow2((len - 1) as nat) <= m < pow2(len),
                pow2(len) * pow2(t) == 0x100_0000,
                pow2((len - 1) as nat) * pow2(t) == 0x80_0000,
                pow2(t) > 0,
        ;
        assert(a.mag() == k * 0x80_0000 + q);
        assert(a.exp() == k && a.mant() == q);
        lemma_pow2_adds(t, k);
        assert(q * pow2(k) == m * pow2(e)) by (nonlinear_arith)
            requires
                q == m * pow2(t),
                pow2(e) == pow2(t) * pow2(k),
        ;
    }
}

/// Whole numbers below `2^24` are held exactly.
pub proof fn lemma_whole_exact(n: u64)
    requires
        n < two24(),
    ensures
        Single::whole_spec(n).finite(),
        !Single::whole_spec(n).negative(),
        Single::whole_spec(n).units() == n * pow2(149),
        n > 0 ==> Single::whole_spec(n).mag() > 0,
{
    reveal(Single::whole_spec);
    lemma_dyadic_exact(n as nat, 149);
}

/// What is raised to one has an integer part of at least one.
pub proof fn lemma_at_least_one(a: Single, max: u64)
    requires
        max >= 1,
    ensures
        1 <= a.larger_spec(Single::whole_spec(1)).to_int_spec(max) <= max,
{
    reveal(Single::larger_spec);
    reveal(Single::to_int_spec);
    let one = Single::whole_spec(1);
    let p = pow2(149);
    lemma_pow2_pos(149);
    lemma_whole_exact(1);
    lemma_units_positive(one);
    lemma_div_by_multiple(1, p as int);
    assert(1 * p == p);
    if a.finite() {
        order_is_by_value(one, a);
        reveal(Single::at_most_spec);
        if one.signed() <= a.signed() {
            lemma_div_is_ordered(p as int, a.units() as int, p as int);
        }
    }
}

/// What is clamped to at most `n` has an integer part of at most `n`.
pub proof fn lemma_clamped_int(a: Single, lo: Single, n: u64, max: u64)
    requires
        n < two24(),
        lo.not_a_number() || lo.at_most_spec(Single::whole_spec(n)),
    ensures
        a.clamp_spec(lo, Single::whole_spec(n)).to_int_spec(max) <= n,
{
    reveal(Single::to_int_spec);
    reveal(Single::less_spec);
    reveal(Single::at_most_spec);
    let hi = Single::whole_spec(n);
    let p = pow2(149);
    lemma_pow2_pos(149);
    lemma_whole_exact(n);
    lemma_units_positive(hi);
    lemma_div_by_multiple(n as int, p as int);
    let r = a.clamp_spec(lo, hi);
    if r.finite() && !r.negative() {
        order_is_by_value(r, hi);
        order_is_by_value(hi, r);
        lemma_div_is_ordered(r.units() as int, hi.units() as int, p as int);
    }
}

/// What is clamped to at least `m` has an integer part of at least `m`.
pub proof fn lemma_clamped_low(a: Single, m: u64, n: u64, max: u64)
    requires
        m <= n < two24(),
        n <= max,
        !a.not_a_number(),
    ensures
        a.clamp_spec(Single::whole_spec(m), Single::whole_spec(n)).to_int_spec(max) >= m,
{
    reveal(Single::to_int_spec);
    reveal(Single::less_spec);
    let lo = Single::whole_spec(m);
    let hi = Single::whole_spec(n);
    let p = pow2(149);
    lemma_pow2_pos(149);
    lemma_whole_exact(m);
    lemma_whole_exact(n);
    lemma_units_positive(lo);
    lemma_units_positive(hi);
    lemma_div_by_multiple(m as int, p as int);
    lemma_div_by_multiple(n as int, p as int);
    let r = a.clamp_spec(lo, hi);
    if r != lo && r != hi {
        if r.finite() {
            order_is_by_value(r, lo);
            assert(r.signed() >= lo.signed());
            assert(lo.signed() >= 0);
            if r.negative() {
                assert(m * p == 0);
                assert(m == 0) by (nonlinear_arith)
                    requires
                        m * p == 0,
                        p > 0,
                ;
            } else {
                lemma_div_is_ordered(lo.units() as int, r.units() as int, p as int);
            }
        }
    }
}

/// A number times a count that is not zero is a number, and rounding keeps it one.
pub proof fn lemma_product_is_a_number(a: Single, n: u64)
    requires
        0 < n < two24(),
        !a.not_a_number(),
    ensures
        !a.times_spec(Single::whole_spec(n)).not_a_number(),
        !a.times_spec(Single::whole_spec(n)).floored_spec().not_a_number(),
{
    reveal(Single::times_spec);
    reveal(Single::floored_spec);
    lemma_whole_exact(n);
    let b = Single::whole_spec(n);
    let r = a.times_spec(b);
    if a.finite() {
        lemma_round_is_a_number(a.negative() != b.negative(), a.units() * b.units(), pow2(149));
    }
}

/// Rounding yields a number.
pub proof fn lemma_round_is_a_number(neg: bool, n: nat, d: nat)
    ensures
        !round_units(neg, n, d).not_a_number(),
        round_units(neg, n, d).negative() == neg,
{
}

/// A 32-bit count is finite, and at least one where it is not zero.
pub proof fn lemma_whole_range(n: u64)
    requires
        0 < n <= u32::MAX,
    ensures
        Single::whole_spec(n).finite(),
        !Single::whole_spec(n).negative(),
        pow2(149) <= Single::whole_spec(n).units() <= pow2(182),
{
    reveal(Single::whole_spec);
    lemma2_to64();
    lemma2_to64_rest();
    lemma_pow2_adds(23, 159);
    lemma_pow2_adds(33, 149);
    lemma_pow2_pos(149);
    let a = Single { bits: 1342177280 };
    assert(a.mag() == 160 * 0x80_0000);
    assert(a.exp() == 159 && a.mant() == 0x80_0000);
    assert(n * pow2(149) <= pow2(33) * pow2(149)) by (nonlinear_arith)
        requires
            n <= pow2(33),
            pow2(149) > 0,
    ;
    lemma_round_at_most(n as nat * pow2(149), 1, a);
    lemma_units_monotone(Single::whole_spec(n), a);
    let one = Single::whole_spec(1);
    lemma_whole_exact(1);
    assert(1 * pow2(149) * 1 <= n * pow2(149) * 1) by (nonlinear_arith)
        requires
            n >= 1,
            pow2(149) > 0,
    ;
    lemma_round_monotone(1 * pow2(149), 1, n as nat * pow2(149), 1);
    lemma_units_monotone(one, Single::whole_spec(n));
}

impl Single {
    /// The fraction `n / d`, rounded: what a decimal literal of it is read as.
    #[verifier::opaque]
    pub open spec fn ratio_spec(n: u32, d: u32) -> Single {
        round_units(false, n as nat * pow2(149), d as nat)
    }

    /// `n / d`, rounded.
    #[verifier::when_used_as_spec(ratio_spec)]
    pub fn ratio(n: u32, d: u32) -> (r: Single)
        requires
            n < two24(),
            0 < d < two24(),
        ensures
            r == Single::ratio_spec(n, d),
    {
        proof {
            reveal(Single::ratio_spec);
            reveal(Single::over_spec);
        }
        proof {
            lemma_whole_exact(n as u64);
            lemma_whole_exact(d as u64);
            lemma_pow2_pos(149);
            lemma_scale(false, n as nat * pow2(149), d as nat, pow2(149));
        }
        Single::whole(n as u64).over(Single::whole(d as u64))
    }
}

impl Single {
    /// The number moved into the range from `lo` to `hi`; what is none stays as it is.
    pub open spec fn clamp_spec(self, lo: Single, hi: Single) -> Single {
        if self.less(lo) {
            lo
        } else if hi.less(self) {
            hi
        } else {
            self
        }
    }

    #[verifier::when_used_as_spec(clamp_spec)]
    pub fn clamp(self, lo: Single, hi: Single) -> (r: Single)
        ensures
            r == self.clamp_spec(lo, hi),
    {
        if self.less(lo) {
            lo
        } else if hi.less(self) {
            hi
        } else {
            self
        }
    }
}

/// Finite numbers compare as their values do.
pub proof fn order_is_by_value(a: Single, b: Single)
    requires
        a.finite(),
        b.finite(),
    ensures
        a.less_spec(b) == (a.signed() < b.signed()),
        a.at_most_spec(b) == (a.signed() <= b.signed()),
{
    reveal(Single::less_spec);
    reveal(Single::at_most_spec);
    lemma_units_monotone(a, b);
    lemma_units_monotone(b, a);
    lemma_pow2_pos(a.exp());
    lemma_pow2_pos(b.exp());
    lemma_units_positive(a);
    lemma_units_positive(b);
}

pub proof fn lemma_units_positive(a: Single)
    requires
        a.finite(),
    ensures
        a.units() > 0 <==> a.mag() > 0,
{
    lemma_zero_mant(a);
    lemma_pow2_pos(a.exp());
    assert(a.mant() * pow2(a.exp()) > 0 <==> a.mant() > 0) by (nonlinear_arith)
        requires
            pow2(a.exp()) > 0,
            a.mant() >= 0,
    ;
}

pub proof fn lemma_units_monotone(a: Single, b: Single)
    requires
        a.finite(),
        b.finite(),
    ensures
        a.mag() < b.mag() ==> a.units() < b.units(),
        a.mag() == b.mag() ==> a.units() == b.units(),
{
    if a.mag() < b.mag() {
        lemma_units_below(a, b);
    }
}

proof fn lemma_units_below(a: Single, b: Single)
    requires
        a.finite(),
        b.finite(),
        a.mag() < b.mag(),
    ensures
        a.units() < b.units(),
{
    let p = pow2(a.exp());
    let q = pow2(b.exp());
    lemma_pow2_pos(a.exp());
    if a.exp() == b.exp() {
        assert(a.mant() < b.mant());
        assert(a.mant() * p < b.mant() * p) by (nonlinear_arith)
            requires
                a.mant() < b.mant(),
                p > 0,
        ;
    } else {
        assert(a.exp() < b.exp());
        assert(b.mant() >= 0x80_0000);
        let j = (b.exp() - 1) as nat;
        if a.exp() < j {
            lemma_pow2_strictly_increases(a.exp(), j);
        }
        lemma_pow2_unfold(b.exp());
        let h = pow2(j);
        assert(a.mant() * p < b.mant() * q) by (nonlinear_arith)
            requires
                a.mant() < 0x100_0000,
                b.mant() >= 0x80_0000,
                0 < p <= h,
                q == 2 * h,
        ;
    }
}


proof fn lemma_nearest_bounds(n: nat, d: nat)
    requires
        d > 0,
    ensures
        2 * (nearest_even(n, d) * d) <= 2 * n + d,
        2 * n <= 2 * (nearest_even(n, d) * d) + d,
{
    let q = n / d;
    let r = n % d;
    lemma_fundamental_div_mod(n as int, d as int);
    lemma_mod_bound(n as int, d as int);
    assert(q * d == d * q) by (nonlinear_arith);
    assert((q + 1) * d == d * q + d) by (nonlinear_arith);
}

/// A larger fraction rounds to an integer that is no smaller.
proof fn lemma_nearest_monotone(n1: nat, d1: nat, n2: nat, d2: nat)
    requires
        d1 > 0,
        d2 > 0,
        n1 * d2 <= n2 * d1,
    ensures
        nearest_even(n1, d1) <= nearest_even(n2, d2),
{
    let q1 = n1 / d1;
    let r1 = n1 % d1;
    let q2 = n2 / d2;
    let r2 = n2 % d2;
    lemma_fundamental_div_mod(n1 as int, d1 as int);
    lemma_mod_bound(n1 as int, d1 as int);
    lemma_fundamental_div_mod(n2 as int, d2 as int);
    lemma_mod_bound(n2 as int, d2 as int);
    let e = d1 * d2;
    assert(n1 * d2 == q1 * e + r1 * d2) by (nonlinear_arith)
        requires
            n1 == d1 * q1 + r1,
            e == d1 * d2,
    ;
    assert(n2 * d1 == q2 * e + r2 * d1) by (nonlinear_arith)
        requires
            n2 == d2 * q2 + r2,
            e == d1 * d2,
    ;
    assert(r1 * d2 < e && r2 * d1 < e && 0 <= r1 * d2 && 0 <= r2 * d1) by (nonlinear_arith)
        requires
            0 <= r1 < d1,
            0 <= r2 < d2,
            e == d1 * d2,
    ;
    if q1 > q2 {
        assert(q1 * e >= q2 * e + e) by (nonlinear_arith)
            requires
                q1 >= q2 + 1,
                e >= 0,
        ;
    }
    if q1 == q2 {
        assert(r1 * d2 <= r2 * d1);
        assert(2 * r1 > d1 ==> 2 * r2 > d2) by (nonlinear_arith)
            requires
                r1 * d2 <= r2 * d1,
                d1 > 0,
                d2 > 0,
        ;
        assert(2 * r1 == d1 ==> 2 * r2 >= d2) by (nonlinear_arith)
            requires
                r1 * d2 <= r2 * d1,
                d1 > 0,
                d2 > 0,
        ;
    }
}

/// Rounding keeps order: a larger quotient gives a pattern that is no smaller.
pub proof fn lemma_round_monotone(n1: nat, d1: nat, n2: nat, d2: nat)
    requires
        d1 > 0,
        d2 > 0,
        n1 * d2 <= n2 * d1,
    ensures
        round_units(false, n1, d1).mag() <= round_units(false, n2, d2).mag(),
{
    let k1 = unit_exp(n1, d1);
    let k2 = unit_exp(n2, d2);
    let p1 = pow2(k1);
    let p2 = pow2(k2);
    lemma_unit_exp_bounds(n1, d1);
    lemma_unit_exp_bounds(n2, d2);
    lemma_pow2_pos(k1);
    lemma_pow2_pos(k2);
    lemma_nearest_small(n1, d1, k1);
    lemma_nearest_small(n2, d2, k2);
    let e1 = d1 * p1;
    let e2 = d2 * p2;
    assert(e1 > 0 && e2 > 0) by (nonlinear_arith)
        requires
            e1 == d1 * p1,
            e2 == d2 * p2,
            d1 > 0,
            d2 > 0,
            p1 > 0,
            p2 > 0,
    ;
    if k1 == k2 {
        assert(n1 * e2 <= n2 * e1) by (nonlinear_arith)
            requires
                n1 * d2 <= n2 * d1,
                e1 == d1 * p1,
                e2 == d2 * p1,
                p1 > 0,
        ;
        lemma_nearest_monotone(n1, e1, n2, e2);
    } else if k1 > k2 {
        let h = pow2((k1 - 1) as nat);
        if k2 < k1 - 1 {
            lemma_pow2_strictly_increases(k2, (k1 - 1) as nat);
        }
        assert(n2 * d1 < n1 * d2) by (nonlinear_arith)
            requires
                n1 >= 0x100_0000 * h * d1,
                n2 < 0x100_0000 * p2 * d2,
                p2 <= h,
                d1 > 0,
                d2 > 0,
                p2 > 0,
        ;
    } else {
        lemma_pow2_unfold(k2);
        let h = pow2((k2 - 1) as nat);
        let q2 = nearest_even(n2, e2);
        assert(q2 >= 0x80_0000) by {
            let q = n2 / e2;
            lemma_fundamental_div_mod(n2 as int, e2 as int);
            lemma_mod_bound(n2 as int, e2 as int);
            assert(q >= 0x80_0000) by (nonlinear_arith)
                requires
                    n2 == e2 * q + n2 % e2,
                    n2 % e2 < e2,
                    n2 >= 0x100_0000 * h * d2,
                    e2 == d2 * (2 * h),
                    e2 > 0,
            ;
        }
    }
}

/// A quotient of units no larger than a finite number's rounds to no more than it.
pub proof fn lemma_round_at_most(n: nat, d: nat, a: Single)
    requires
        d > 0,
        a.finite(),
        !a.negative(),
        n <= a.units() * d,
    ensures
        round_units(false, n, d).mag() <= a.mag(),
        round_units(false, n, d).finite(),
        !round_units(false, n, d).negative(),
{
    lemma_round_self(a);
    assert(n * 1 <= a.units() * d);
    lemma_round_monotone(n, d, a.units(), 1);
}

/// A fraction compares with a number as their values do.
pub proof fn lemma_ratio_bounds(n: u32, d: u32, lo: Single, hi: Single)
    requires
        d > 0,
        lo.finite(),
        !lo.negative(),
        hi.finite(),
        !hi.negative(),
        lo.units() * d <= n * pow2(149) <= hi.units() * d,
    ensures
        lo.mag() <= Single::ratio_spec(n, d).mag() <= hi.mag(),
        Single::ratio_spec(n, d).finite(),
        !Single::ratio_spec(n, d).negative(),
{
    reveal(Single::ratio_spec);
    lemma_round_at_most(n as nat * pow2(149), d as nat, hi);
    lemma_round_self(lo);
    assert(lo.units() * d <= (n * pow2(149)) * 1);
    lemma_round_monotone(lo.units(), 1, n as nat * pow2(149), d as nat);
}

/// A millionth is above zero.
pub proof fn lemma_tiny_is_positive()
    ensures
        Single::ratio_spec(1, 1_000_000).finite(),
        Single::ratio_spec(1, 1_000_000).signed() > 0,
{
    let low = Single { bits: 0x3000_0000 };
    let one = Single { bits: 0x3f80_0000 };
    lemma2_to64();
    lemma2_to64_rest();
    assert(low.exp() == 95 && low.mant() == 0x80_0000);
    assert(one.exp() == 126 && one.mant() == 0x80_0000);
    lemma_pow2_adds(23, 95);
    lemma_pow2_adds(23, 126);
    lemma_pow2_adds(31, 118);
    lemma_pow2_pos(118);
    let p = pow2(118);
    assert(pow2(31) == 0x8000_0000);
    assert(pow2(149) == 0x8000_0000 * p);
    lemma_ratio_bounds(1, 1_000_000, low, one);
    lemma_units_positive(Single::ratio_spec(1, 1_000_000));
}

/// The next lower pattern lies at most one step of the last place below.
proof fn lemma_pred_units(a: Single)
    requires
        a.finite(),
        !a.negative(),
        a.mag() > 0,
    ensures
        ({
            let p = Single { bits: (a.bits - 1) as u32 };
            p.finite() && !p.negative() && p.mag() == a.mag() - 1 && p.units() + pow2(a.exp())
                >= a.units()
        }),
{
    let p = Single { bits: (a.bits - 1) as u32 };
    let e = pow2(a.exp());
    lemma_pow2_pos(a.exp());
    if p.exp() == a.exp() {
        assert(p.mant() + 1 == a.mant());
        assert((p.mant() + 1) * e == p.mant() * e + e) by (nonlinear_arith);
    } else {
        assert(p.exp() + 1 == a.exp());
        assert(a.mant() == 0x80_0000);
        assert(p.mant() == 0xff_ffff);
        lemma_pow2_adds(1, p.exp());
        lemma2_to64();
        let q = pow2(p.exp());
        assert(0xff_ffff * q + 2 * q >= 0x80_0000 * (2 * q)) by (nonlinear_arith)
            requires
                q >= 0,
        ;
    }
}

/// What is taken from a number lowers it, if it is at least a step of its last place.
pub proof fn lemma_minus_lowers(a: Single, b: Single)
    requires
        a.finite(),
        !a.negative(),
        b.finite(),
        !b.negative(),
        pow2(a.exp()) <= b.units() <= a.units(),
    ensures
        a.minus_spec(b).finite(),
        !a.minus_spec(b).negative(),
        a.minus_spec(b).mag() < a.mag(),
{
    reveal(Single::plus_spec);
    reveal(Single::neg_spec);
    lemma_pow2_pos(a.exp());
    lemma_units_positive(a);
    lemma_units_positive(b);
    let nb = b.neg_spec();
    assert(nb.finite() && nb.mag() == b.mag() && nb.negative());
    assert(nb.units() == b.units());
    lemma_pred_units(a);
    let p = Single { bits: (a.bits - 1) as u32 };
    let t = (a.units() - b.units()) as nat;
    if t > 0 {
        lemma_round_at_most(t, 1, p);
    }
}

/// From `2^23` units up, rounding adds or takes at most one part in `2^24`.
pub proof fn lemma_round_error(n: nat, d: nat)
    requires
        d > 0,
        n >= 0x80_0000 * d,
        round_units(false, n, d).finite(),
    ensures
        round_units(false, n, d).units() * d * 0x100_0000 <= n * 0x100_0001,
        round_units(false, n, d).units() * d * 0x100_0000 >= n * 0xff_ffff,
{
    let k = unit_exp(n, d);
    let p = pow2(k);
    lemma_unit_exp_bounds(n, d);
    lemma_pow2_pos(k);
    let e = d * p;
    assert(e > 0) by (nonlinear_arith)
        requires
            e == d * p,
            d > 0,
            p > 0,
    ;
    let q = nearest_even(n, e);
    lemma_nearest_bounds(n, e);
    lemma_nearest_small(n, d, k);
    assert(n >= 0x80_0000 * e) by {
        lemma2_to64();
        if k > 0 {
            lemma_pow2_unfold(k);
            let h = pow2((k - 1) as nat);
            assert(n >= 0x80_0000 * e) by (nonlinear_arith)
                requires
                    n >= 0x100_0000 * h * d,
                    e == d * (2 * h),
            ;
        } else {
            assert(e == d) by (nonlinear_arith)
                requires
                    e == d * p,
                    p == 1,
            ;
        }
    }
    let a = round_units(false, n, d);
    // the pattern stands for q · 2^k units, also where q carried up to 2^24
    assert(a.units() == q * p) by {
        assert(a.mag() == k * 0x80_0000 + q);
        assert(q >= 0x80_0000) by (nonlinear_arith)
            requires
                2 * n <= 2 * (q * e) + e,
                n >= 0x80_0000 * e,
                e > 0,
        ;
        if q == 0x100_0000 {
            assert(a.exp() == k + 1 && a.mant() == 0x80_0000);
            lemma_pow2_unfold(k + 1);
            assert(0x80_0000 * (2 * p) == q * p) by (nonlinear_arith)
                requires
                    q == 0x100_0000,
            ;
        } else {
            assert(a.exp() == k && a.mant() == q);
        }
    }
    assert(q * p * d == q * e) by (nonlinear_arith)
        requires
            e == d * p,
    ;
    assert(q * e * 0x100_0000 <= n * 0x100_0001) by (nonlinear_arith)
        requires
            2 * (q * e) <= 2 * n + e,
            n >= 0x80_0000 * e,
    ;
    assert(q * e * 0x100_0000 >= n * 0xff_ffff) by (nonlinear_arith)
        requires
            2 * n <= 2 * (q * e) + e,
            n >= 0x80_0000 * e,
    ;
}

/// Rounding adds or takes at most one part in `2^24` and `2^23` units, whatever is rounded.
pub proof fn lemma_round_near(n: nat, d: nat)
    requires
        d > 0,
        n <= d * pow2(270),
    ensures
        round_units(false, n, d).finite(),
        !round_units(false, n, d).negative(),
        round_units(false, n, d).units() * d * 0x100_0000 <= n * 0x100_0001 + 0x8000_0000_0000 * d,
        n * 0xff_ffff <= round_units(false, n, d).units() * d * 0x100_0000 + 0x8000_0000_0000 * d,
{
    let high = Single { bits: 0x7c00_0000 };
    let low = Single { bits: 0x80_0000 };
    let r = round_units(false, n, d);
    lemma2_to64();
    assert(high.exp() == 247 && high.mant() == 0x80_0000);
    assert(low.exp() == 0 && low.mant() == 0x80_0000);
    lemma_pow2_adds(23, 247);
    assert(high.units() == pow2(270));
    assert(n <= high.units() * d) by (nonlinear_arith)
        requires
            n <= d * pow2(270),
            high.units() == pow2(270),
    ;
    lemma_round_at_most(n, d, high);
    let u = r.units();
    if n >= 0x80_0000 * d {
        lemma_round_error(n, d);
    } else {
        assert(low.units() == 0x80_0000);
        lemma_round_at_most(n, d, low);
        lemma_units_monotone(r, low);
        assert(u * d <= 0x80_0000 * d) by (nonlinear_arith)
            requires
                u <= 0x80_0000,
        ;
        assert(u * d >= 0) by (nonlinear_arith);
    }
}

/// A number from zero to one.
pub open spec fn is_part(v: Single) -> bool {
    Single::whole_spec(0).at_most_spec(v) && v.at_most_spec(Single::whole_spec(1))
}

/// A fraction is held as `q · 2^k` units, where that is nearer to it than half a step.
pub proof fn lemma_ratio_is(n: u32, d: u32, q: nat, k: nat, s: nat)
    requires
        d > 0,
        0 < k <= 200,
        k + s == 149,
        0x80_0000 < q < 0x100_0000,
        (2 * q - 1) * d < 2 * (n * pow2(s)) < (2 * q + 1) * d,
    ensures
        Single::ratio_spec(n, d).finite(),
        !Single::ratio_spec(n, d).negative(),
        Single::ratio_spec(n, d).units() == q * pow2(k),
{
    reveal(Single::ratio_spec);
    let p = pow2(k);
    let h = pow2((k - 1) as nat);
    lemma_pow2_pos(k);
    lemma_pow2_unfold(k);
    lemma_pow2_adds(s, k);
    let z = n as nat * pow2(s);
    let m = n as nat * pow2(149);
    assert(m == z * p) by (nonlinear_arith)
        requires
            m == n as nat * (pow2(s) * p),
            z == n as nat * pow2(s),
    ;
    let e = d as nat * p;
    assert(e > 0) by (nonlinear_arith)
        requires
            e == d as nat * p,
            d > 0,
            p > 0,
    ;
    assert((2 * q - 1) * e < 2 * m && 2 * m < (2 * q + 1) * e) by (nonlinear_arith)
        requires
            (2 * q - 1) * d < 2 * z,
            2 * z < (2 * q + 1) * d,
            e == d as nat * p,
            m == z * p,
            p > 0,
    ;
    assert(two24() * p * d == 0x100_0000 * e) by (nonlinear_arith)
        requires
            two24() == 0x100_0000,
            e == d as nat * p,
    ;
    assert(2 * (two24() * h * d) == 0x100_0000 * e) by (nonlinear_arith)
        requires
            two24() == 0x100_0000,
            e == d as nat * p,
            p == 2 * h,
    ;
    assert((2 * q + 1) * e <= 0x1ff_ffff * e && (2 * q - 1) * e >= 0x100_0000 * e)
        by (nonlinear_arith)
        requires
            0x80_0000 < q < 0x100_0000,
            e > 0,
    ;
    lemma_unit_exp_is(m, d as nat, k);
    let r = nearest_even(m, e);
    lemma_nearest_bounds(m, e);
    assert(r == q) by (nonlinear_arith)
        requires
            2 * (r * e) <= 2 * m + e,
            2 * m <= 2 * (r * e) + e,
            (2 * q - 1) * e < 2 * m,
            2 * m < (2 * q + 1) * e,
            e > 0,
    ;
    let a = Single::ratio_spec(n, d);
    assert(a.mag() == k * 0x80_0000 + q);
    assert(a.exp() == k && a.mant() == q);
}

/// The numbers lie at most a millionth apart.
pub open spec fn is_near(a: Single, b: Single) -> bool {
    &&& (a.signed() - b.signed()) * 1_000_000 <= pow2(149)
    &&& (b.signed() - a.signed()) * 1_000_000 <= pow2(149)
}

/// How far a number lies from zero.
pub open spec fn size(v: int) -> int {
    if v < 0 {
        -v
    } else {
        v
    }
}

/// A sum is off by at most one part in `2^24` and `2^23` units.
pub proof fn lemma_plus_near(a: Single, b: Single)
    requires
        a.finite(),
        b.finite(),
        size(a.signed() + b.signed()) <= pow2(270),
    ensures
        a.plus_spec(b).finite(),
        size(a.plus_spec(b).signed() - (a.signed() + b.signed())) * 0x100_0000 <= size(
            a.signed() + b.signed(),
        ) + 0x8000_0000_0000,
{
    reveal(Single::plus_spec);
    let t = a.signed() + b.signed();
    let n = size(t) as nat;
    lemma_round_near(n, 1);
    let up = round_units(false, n, 1);
    let down = round_units(true, n, 1);
    lemma_round_is_a_number(true, n, 1);
    assert(down.mag() == up.mag());
    assert(down.units() == up.units());
    let none = pack(a.negative() && b.negative(), 0);
    assert(none.mag() == 0);
    lemma_units_positive(none);
}

/// So is a difference.
pub proof fn lemma_minus_near(a: Single, b: Single)
    requires
        a.finite(),
        b.finite(),
        size(a.signed() - b.signed()) <= pow2(270),
    ensures
        a.minus_spec(b).finite(),
        size(a.minus_spec(b).signed() - (a.signed() - b.signed())) * 0x100_0000 <= size(
            a.signed() - b.signed(),
        ) + 0x8000_0000_0000,
{
    lemma_opposite(b);
    lemma_plus_near(a, b.neg_spec());
}

/// The opposite number lies as far on the other side of zero.
pub proof fn lemma_opposite(a: Single)
    requires
        a.finite(),
    ensures
        a.neg_spec().finite(),
        a.neg_spec().mag() == a.mag(),
        a.neg_spec().negative() == !a.negative(),
        a.neg_spec().signed() == -a.signed(),
{
    reveal(Single::neg_spec);
    assert(a.neg_spec().units() == a.units());
}

/// What is moved into a range lies in it.
pub proof fn lemma_clamped(v: Single, lo: Single, hi: Single)
    requires
        !v.not_a_number(),
        lo.finite(),
        hi.finite(),
        lo.signed() <= hi.signed(),
    ensures
        v.clamp_spec(lo, hi).finite(),
        lo.signed() <= v.clamp_spec(lo, hi).signed() <= hi.signed(),
{
    reveal(Single::less_spec);
    if v.finite() {
        order_is_by_value(v, lo);
        order_is_by_value(hi, v);
    }
}

/// A number that is multiplied and divided again is itself, to a millionth.
pub proof fn lemma_scaled_back(g: Single, q: Single)
    requires
        g.finite(),
        g.units() <= 4 * pow2(149),
        q.finite(),
        !q.negative(),
        pow2(149) <= 4 * q.units(),
        q.units() <= 4 * pow2(149),
    ensures
        g.times_spec(q) == q.times_spec(g),
        g.times_spec(q).finite(),
        g.times_spec(q).negative() == g.negative(),
        2 * g.units() >= pow2(144) ==> g.times_spec(q).units() > 0,
        g.times_spec(q).over_spec(q).finite(),
        is_near(g.times_spec(q).over_spec(q), g),
{
    reveal(Single::times_spec);
    reveal(Single::over_spec);
    lemma2_to64();
    lemma2_to64_rest();
    lemma_pow2_adds(5, 144);
    lemma_pow2_strictly_increases(64, 144);
    lemma_pow2_adds(121, 149);
    lemma_pow2_strictly_increases(64, 121);
    let c = pow2(149);
    let big = pow2(270);
    let gu = g.units();
    let qu = q.units();
    assert(big >= 0x1_0000_0000_0000_0000 * c) by (nonlinear_arith)
        requires
            big == pow2(121) * c,
            pow2(121) >= 0x1_0000_0000_0000_0000,
    ;
    let n = gu * qu;
    assert(n == qu * gu && n <= c * big && 4 * n >= gu * c) by (nonlinear_arith)
        requires
            n == gu * qu,
            gu <= 4 * c,
            qu <= 4 * c,
            c <= 4 * qu,
            big >= 16 * c,
    ;
    lemma_round_near(n, c);
    let neg = g.negative();
    let p = g.times_spec(q);
    assert(p.mag() == round_units(false, n, c).mag());
    lemma_round_is_a_number(neg, n, c);
    let pu = p.units();
    assert(pu == round_units(false, n, c).units());
    let pc = pu * c;
    lemma_units_positive(q);
    let cq = c * qu;
    assert(n <= 4 * cq) by (nonlinear_arith)
        requires
            n == gu * qu,
            cq == c * qu,
            gu <= 4 * c,
    ;
    assert(4 * cq >= c * c && cq <= 4 * (c * c)) by (nonlinear_arith)
        requires
            cq == c * qu,
            c <= 4 * qu,
            qu <= 4 * c,
    ;
    let cc = c * c;
    assert(cc >= 0x1_0000_0000_0000_0000 * c) by (nonlinear_arith)
        requires
            cc == c * c,
            c >= 0x1_0000_0000_0000_0000,
    ;
    assert(pc <= qu * big) by (nonlinear_arith)
        requires
            pc <= 40 * cc,
            cc == c * c,
            c <= 4 * qu,
            big >= 160 * c,
            c > 0,
    ;
    lemma_round_near(pc, qu);
    let r = p.over_spec(q);
    assert(r.mag() == round_units(false, pc, qu).mag());
    lemma_round_is_a_number(neg, pc, qu);
    let ru = r.units();
    assert(ru == round_units(false, pc, qu).units());
    let rq = ru * qu;
    // Both products, over the same factor.
    assert(size(rq - n) * 1_000_000 <= cq);
    let off = size(ru - gu);
    assert(size(rq - n) == qu * off) by (nonlinear_arith)
        requires
            rq == ru * qu,
            n == gu * qu,
            off == size(ru - gu),
            qu > 0,
    ;
    assert(off * 1_000_000 <= c) by {
        assert((off * 1_000_000) * qu <= c * qu) by (nonlinear_arith)
            requires
                (qu * off) * 1_000_000 <= c * qu,
        ;
        lemma_mul_inequality_converse(off * 1_000_000, c as int, qu as int);
    }
    if 2 * gu >= pow2(144) {
        assert(gu * c >= 0x8000_0000_0000_0000 * c) by (nonlinear_arith)
            requires
                gu >= 0x8000_0000_0000_0000,
        ;
        assert(pu > 0) by (nonlinear_arith)
            requires
                pu * c > 0,
        ;
    }
}

/// Zero has no magnitude, and is what no units round to.
pub proof fn lemma_zero()
    ensures
        Single::whole_spec(0) == pack(false, 0),
        Single::whole_spec(0).mag() == 0,
        Single::whole_spec(0).units() == 0,
        Single::whole_spec(0).finite(),
        !Single::whole_spec(0).negative(),
{
    lemma_whole_exact(0);
    lemma_round_self(Single::whole_spec(0));
    lemma_zero_rounds(false, 1);
}

/// A number is itself when it is multiplied with one or divided by it.
pub proof fn lemma_one_is_neutral(a: Single)
    requires
        a.finite(),
    ensures
        a.times_spec(Single::whole_spec(1)) == a,
        a.over_spec(Single::whole_spec(1)) == a,
{
    reveal(Single::times_spec);
    reveal(Single::over_spec);
    let one = Single::whole_spec(1);
    let p = pow2(149);
    lemma_pow2_pos(149);
    lemma_whole_exact(1);
    lemma_round_self(a);
    lemma_scale(a.negative(), a.units(), 1, p);
    assert(one.units() == p);
}

/// A number that is not zero is one when it is divided by itself.
pub proof fn lemma_over_itself(a: Single)
    requires
        a.finite(),
        a.mag() > 0,
    ensures
        a.over_spec(a) == Single::whole_spec(1),
{
    reveal(Single::over_spec);
    let one = Single::whole_spec(1);
    let p = pow2(149);
    lemma_pow2_pos(149);
    lemma_whole_exact(1);
    lemma_round_self(one);
    lemma_units_positive(a);
    lemma_scale(false, p, 1, a.units());
    assert(p * a.units() == a.units() * p && 1 * a.units() == a.units()) by (nonlinear_arith);
}

/// Nothing is left of a number when it is taken from itself, and taking nothing from it or
/// adding nothing to it leaves it; zero counts without its sign.
pub proof fn lemma_zero_is_neutral(a: Single)
    requires
        a.finite(),
        !(a.negative() && a.mag() == 0),
    ensures
        a.minus_spec(a) == Single::whole_spec(0),
        a.minus_spec(Single::whole_spec(0)) == a,
        a.plus_spec(Single::whole_spec(0)) == a,
        Single::whole_spec(0).plus_spec(a) == a,
{
    reveal(Single::plus_spec);
    reveal(Single::neg_spec);
    let zero = Single::whole_spec(0);
    lemma_zero();
    lemma_round_self(a);
    lemma_units_positive(a);
    assert(zero.neg_spec().units() == zero.units());
    let n = a.neg_spec();
    assert(n.finite() && n.mag() == a.mag() && n.negative() == !a.negative());
    assert(n.units() == a.units());
    assert(a.signed() + n.signed() == 0);
    if a.mag() == 0 {
        assert(a == zero);
    }
}

/// How many millionths a number from zero to one is, rounded to the nearest, ties to even.
pub open spec fn millionths(v: Single) -> nat {
    nearest_even(v.units() * 1_000_000, pow2(149))
}

/// A number from zero to one is at most one unit of `2^149`, and below zero only in its sign.
proof fn lemma_part_units(v: Single)
    requires
        is_part(v),
    ensures
        v.finite(),
        v.mag() <= 0x3f80_0000,
        v.units() <= pow2(149),
        v.negative() ==> v.units() == 0,
        pow2(149) >= 0x1_0000_0000_0000_0000,
{
    reveal(Single::at_most_spec);
    lemma2_to64();
    lemma_zero();
    lemma_whole_exact(1);
    lemma_pow2_strictly_increases(64, 149);
    lemma_pow2_adds(23, 126);
    let one = Single { bits: 0x3f80_0000 };
    assert(one.exp() == 126 && one.mant() == 0x80_0000);
    assert(one.units() == pow2(149));
    order_is_by_value(v, Single::whole_spec(1));
    order_is_by_value(Single::whole_spec(0), v);
    if v.negative() {
        lemma_units_positive(v);
    } else if v.mag() > one.mag() {
        lemma_units_below(one, v);
    }
}

/// No part is more than a million millionths.
proof fn lemma_millionths_bound(v: Single)
    requires
        is_part(v),
    ensures
        millionths(v) <= 1_000_000,
        2 * (millionths(v) * pow2(149)) <= 2 * (v.units() * 1_000_000) + pow2(149),
        2 * (v.units() * 1_000_000) <= 2 * (millionths(v) * pow2(149)) + pow2(149),
{
    lemma_part_units(v);
    let c = pow2(149);
    let q = millionths(v);
    lemma_nearest_bounds(v.units() * 1_000_000, c);
    assert(q <= 1_000_000) by (nonlinear_arith)
        requires
            2 * (q * c) <= 2_000_001 * c,
            c > 0,
    ;
}

/// Counts a number from zero to one in millionths.
pub fn millionths_of(v: Single) -> (r: u32)
    requires
        is_part(v),
    ensures
        r == millionths(v),
        r <= 1_000_000,
{
    let e: i32 = v.exp_of();
    let m: u64 = v.mant_of();
    proof {
        lemma_part_units(v);
        lemma_millionths_bound(v);
        assert(e <= 126);
        let s = (149 - e) as nat;
        let p = pow2(e as nat);
        lemma_pow2_adds(s, e as nat);
        lemma_pow2_pos(s);
        lemma_pow2_pos(e as nat);
        assert(v.units() * 1_000_000 == (m * 1_000_000) * p) by (nonlinear_arith)
            requires
                v.units() == m * p,
        ;
        lemma_nearest_scale((m * 1_000_000) as nat, pow2(s), p);
    }
    shift_round(m * 1_000_000, (149 - e) as u32) as u32
}

/// The number of so many millionths, with this sign.
pub open spec fn of_millionths(negative: bool, n: u32) -> Single {
    if negative {
        Single::ratio_spec(n, 1_000_000).neg_spec()
    } else {
        Single::ratio_spec(n, 1_000_000)
    }
}

/// A number from zero to one that is counted in millionths and made again lies from zero to one,
/// at most a millionth off.
pub proof fn millionths_stay_near(v: Single)
    requires
        is_part(v),
    ensures
        millionths(v) <= 1_000_000,
        is_part(of_millionths(v.negative(), millionths(v) as u32)),
        is_near(v, of_millionths(v.negative(), millionths(v) as u32)),
{
    lemma_part_units(v);
    lemma_millionths_bound(v);
    lemma_zero();
    lemma_whole_exact(1);
    let c = pow2(149);
    let m = millionths(v);
    let one = Single::whole_spec(1);
    let zero = Single::whole_spec(0);
    let r = Single::ratio_spec(m as u32, 1_000_000);
    let g = of_millionths(v.negative(), m as u32);
    lemma_units_positive(zero);
    assert(0 <= m * c <= 1_000_000 * c) by (nonlinear_arith)
        requires
            m <= 1_000_000,
            c > 0,
    ;
    lemma_ratio_bounds(m as u32, 1_000_000, zero, one);
    lemma_pow2_strictly_increases(149, 270);
    lemma_round_near(m * c, 1_000_000);
    lemma_opposite(r);
    if v.negative() {
        assert(2 * (m * c) <= c);
        assert(m == 0 && m * c == 0) by (nonlinear_arith)
            requires
                2 * (m * c) <= c,
                c > 0,
        ;
        lemma_units_positive(v);
        lemma_ratio_bounds(m as u32, 1_000_000, zero, zero);
        lemma_units_positive(r);
    }
    reveal(Single::ratio_spec);
    reveal(Single::at_most_spec);
    order_is_by_value(g, one);
    order_is_by_value(zero, g);
    lemma_units_monotone(r, one);
}

} // verus!
