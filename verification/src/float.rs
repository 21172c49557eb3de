//! Binary floating point arithmetic, reproduced exactly with integers.
//!
//! The picker's colour formulas are defined by IEEE 754 binary64 (`f64`) and
//! binary32 (`f32`) arithmetic: every operation rounds its exact result to
//! the nearest value with `prec` significant bits (53 or 24), ties to even.
//! Here a floating point value `x` is held as the integer `x * 2^66`. Every
//! nonzero value those formulas produce lies between `2^-14` and `2^20` in
//! magnitude, so its last significant bit weighs at least `2^-66`: the
//! integer holds it exactly, and `round_bits` below, which rounds at the
//! value's own binary magnitude, is the IEEE rounding.

use vstd::prelude::*;
use vstd::arithmetic::power2::{lemma2_to64, lemma_pow2_adds, lemma_pow2_pos, lemma_pow2_strictly_increases, lemma_pow2_unfold, pow2};
use vstd::arithmetic::div_mod::{lemma_fundamental_div_mod, lemma_fundamental_div_mod_converse};

verus! {

/// Significant bits of `f64`.
pub const F64_BITS: u32 = 53;

/// Significant bits of `f32`.
pub const F32_BITS: u32 = 24;

/// `1.0` in fixed point (`2^66`).
pub const ONE: i128 = 0x4_0000_0000_0000_0000;

/// `1.0` in fixed point (`2^66`).
pub open spec fn one() -> int {
    0x4_0000_0000_0000_0000
}

pub open spec fn abs(x: int) -> int {
    if x < 0 { -x } else { x }
}

/// The number of binary digits of `a`.
pub open spec fn bit_len(a: nat) -> nat
    decreases a,
{
    if a == 0 { 0 } else { 1 + bit_len(a / 2) }
}

/// `a` (plus a fraction strictly between 0 and 1 when `sticky`) rounded to
/// `prec` significant bits, to nearest, ties to even.
pub closed spec fn round_bits(a: nat, sticky: bool, prec: nat) -> nat {
    let l = bit_len(a);
    if l <= prec {
        a
    } else {
        let p = pow2((l - prec) as nat);
        let m = a / p;
        let rem = a % p;
        let up = rem > p / 2 || (rem == p / 2 && (sticky || m % 2 == 1));
        if up { ((m + 1) * p) as nat } else { (m * p) as nat }
    }
}

/// Rounding of a signed value; the sign is kept.
pub closed spec fn round_signed(x: int, sticky: bool, prec: nat) -> int {
    if x >= 0 {
        round_bits(x as nat, sticky, prec) as int
    } else {
        -(round_bits((-x) as nat, sticky, prec) as int)
    }
}

/// Floating point `a + b`.
pub closed spec fn fl_add(a: int, b: int, prec: nat) -> int {
    round_signed(a + b, false, prec)
}

/// Floating point `a - b`.
pub closed spec fn fl_sub(a: int, b: int, prec: nat) -> int {
    round_signed(a - b, false, prec)
}

/// Floating point `a * n` for a whole number `n`.
pub closed spec fn fl_mul(a: int, n: int, prec: nat) -> int {
    round_signed(a * n, false, prec)
}

/// Floating point `a / b`.
pub closed spec fn fl_div(a: int, b: int, prec: nat) -> int {
    let n = abs(a) * one();
    let q = n / abs(b);
    let r = round_bits(q as nat, n % abs(b) != 0, prec) as int;
    if (a < 0) != (b < 0) { -r } else { r }
}

/// Floating point `a % m` (exact; the sign of `a` is kept).
pub open spec fn fl_rem(a: int, m: int) -> int {
    if a < 0 { -((-a) % m) } else { a % m }
}

/// `round()`: the nearest whole number, halves away from zero.
pub open spec fn round_half_away(a: int) -> int {
    if a < 0 { -((-a + one() / 2) / one()) } else { (a + one() / 2) / one() }
}

/// `as` an integer: toward zero.
pub open spec fn trunc_units(a: int) -> int {
    if a < 0 { -((-a) / one()) } else { a / one() }
}

/// The saturating conversion of a whole number to `i32`.
pub open spec fn saturate_i32(v: int) -> int {
    if v > i32::MAX { i32::MAX as int } else if v < i32::MIN { i32::MIN as int } else { v }
}

pub proof fn lemma_bit_len(a: nat)
    ensures
        a < pow2(bit_len(a)),
        a > 0 ==> pow2((bit_len(a) - 1) as nat) <= a,
    decreases a,
{
    if a == 0 {
        lemma2_to64();
    } else {
        lemma_bit_len(a / 2);
        lemma_pow2_unfold(bit_len(a));
        if a / 2 > 0 {
            lemma_pow2_unfold((bit_len(a) - 1) as nat);
        } else {
            lemma2_to64();
        }
    }
}

pub proof fn lemma_bit_len_at_most(a: nat, b: nat)
    requires
        a < pow2(b),
    ensures
        bit_len(a) <= b,
{
    lemma_bit_len(a);
    if bit_len(a) > b {
        if a > 0 {
            if (bit_len(a) - 1) as nat > b {
                lemma_pow2_strictly_increases(b, (bit_len(a) - 1) as nat);
            }
        }
    }
}

/// Rounding moves a value below `2^b` by at most `2^(b - prec)`, and not past `2^b`.
pub proof fn lemma_round_error(a: nat, sticky: bool, prec: nat, b: nat)
    requires
        a < pow2(b),
        1 <= prec <= b,
    ensures
        a - pow2((b - prec) as nat) <= round_bits(a, sticky, prec) <= a + pow2((b - prec) as nat),
        round_bits(a, sticky, prec) <= pow2(b),
{
    lemma_bit_len(a);
    lemma_bit_len_at_most(a, b);
    lemma_pow2_pos((b - prec) as nat);
    let l = bit_len(a);
    if l > prec {
        let s = (l - prec) as nat;
        let p = pow2(s);
        lemma_pow2_pos(s);
        let m = a / p;
        let rem = a % p;
        lemma_fundamental_div_mod(a as int, p as int);
        assert(a == m * p + rem && 0 <= rem < p);
        if s < (b - prec) as nat {
            lemma_pow2_strictly_increases(s, (b - prec) as nat);
        }
        lemma_pow2_adds(prec, s);
        assert(pow2(l) == pow2(prec) * p);
        if l < b {
            lemma_pow2_strictly_increases(l, b);
        }
        assert(m < pow2(prec)) by (nonlinear_arith)
            requires
                a == m * p + rem,
                0 <= rem,
                a < pow2(prec) * p,
                p > 0,
        ;
        assert((m + 1) * p <= pow2(prec) * p) by (nonlinear_arith)
            requires
                m + 1 <= pow2(prec),
                p > 0,
        ;
        assert((m + 1) * p == m * p + p) by (nonlinear_arith);
    }
}

/// Rounding of a signed value below `2^b` in magnitude.
pub proof fn lemma_round_signed_error(x: int, sticky: bool, prec: nat, b: nat)
    requires
        abs(x) < pow2(b),
        1 <= prec <= b,
    ensures
        abs(round_signed(x, sticky, prec) - x) <= pow2((b - prec) as nat),
        abs(round_signed(x, sticky, prec)) <= pow2(b),
        x >= 0 ==> round_signed(x, sticky, prec) >= 0,
        x <= 0 ==> round_signed(x, sticky, prec) <= 0,
{
    if x >= 0 {
        lemma_round_error(x as nat, sticky, prec, b);
    } else {
        lemma_round_error((-x) as nat, sticky, prec, b);
    }
}

/// `2^s` for `s < 128`.
fn pow2_u128(s: u32) -> (p: u128)
    requires
        s < 128,
    ensures
        p == pow2(s as nat),
{
    let mut p: u128 = 1;
    let mut i: u32 = 0;
    proof {
        lemma2_to64();
    }
    while i < s
        invariant
            i <= s < 128,
            p == pow2(i as nat),
        decreases s - i,
    {
        proof {
            lemma_pow2_unfold((i + 1) as nat);
            lemma_pow2_strictly_increases((i + 1) as nat, 128);
            lemma_pow2_adds(64, 64);
            lemma2_to64();
            lemma2_to64_high();
        }
        p = p * 2;
        i = i + 1;
    }
    p
}

proof fn lemma2_to64_high()
    ensures
        pow2(128) == 0x1_0000_0000_0000_0000_0000_0000_0000_0000,
{
    lemma2_to64();
    lemma_pow2_adds(64, 64);
}

/// The number of binary digits of `a`.
fn bit_length(a: u128) -> (l: u32)
    ensures
        l as nat == bit_len(a as nat),
        l <= 128,
{
    proof {
        lemma2_to64_high();
        lemma_bit_len_at_most(a as nat, 128);
    }
    let mut x = a;
    let mut l: u32 = 0;
    while x > 0
        invariant
            bit_len(a as nat) == l + bit_len(x as nat),
            bit_len(a as nat) <= 128,
        decreases x,
    {
        x = x / 2;
        l = l + 1;
    }
    l
}

/// Rounds `a` (plus a fraction when `sticky`) to `prec` significant bits.
pub fn round_u128(a: u128, sticky: bool, prec: u32) -> (r: u128)
    requires
        a < pow2(126),
        1 <= prec <= 64,
    ensures
        r == round_bits(a as nat, sticky, prec as nat),
{
    let l = bit_length(a);
    if l <= prec {
        return a;
    }
    let p = pow2_u128(l - prec);
    proof {
        lemma_round_error(a as nat, sticky, prec as nat, 126);
        lemma_pow2_pos((l - prec) as nat);
        lemma_fundamental_div_mod(a as int, p as int);
    }
    let m = a / p;
    let rem = a % p;
    let half = p / 2;
    let up = rem > half || (rem == half && (sticky || m % 2 == 1));
    proof {
        assert((m + 1) * p == m * p + p) by (nonlinear_arith);
        assert(m * p <= a);
        lemma2_to64_high();
        lemma_pow2_strictly_increases(126, 128);
    }
    if up {
        (m + 1) * p
    } else {
        m * p
    }
}

/// `(n * 2^66) / d` and whether the division leaves a remainder.
fn div_scaled(n: u128, d: u128) -> (res: (u128, bool))
    requires
        0 < d < pow2(95),
        n < pow2(95),
        n * one() < d * pow2(121),
    ensures
        res.0 == (n * one()) / (d as int),
        res.1 == ((n * one()) % (d as int) != 0),
{
    proof {
        lemma2_to64();
        lemma2_to64_high();
        lemma_pow2_adds(95, 33);
        lemma_pow2_unfold(33);
        assert(pow2(33) == 0x2_0000_0000);
        assert(pow2(95) * 0x2_0000_0000 == 0x1_0000_0000_0000_0000_0000_0000_0000_0000);
        lemma_pow2_adds(88, 33);
        lemma_pow2_adds(33, 88);
        lemma_pow2_adds(33, 55);
        lemma_pow2_adds(33, 22);
        lemma_pow2_adds(121, 7);
        assert(n * 0x2_0000_0000 < 0x1_0000_0000_0000_0000_0000_0000_0000_0000) by (nonlinear_arith)
            requires
                n < pow2(95),
                pow2(95) * 0x2_0000_0000 == 0x1_0000_0000_0000_0000_0000_0000_0000_0000,
        ;
    }
    let shift: u128 = 0x2_0000_0000;
    let n1 = n * shift;
    let q1 = n1 / d;
    let r1 = n1 % d;
    proof {
        lemma_fundamental_div_mod(n1 as int, d as int);
        assert(r1 * 0x2_0000_0000 < 0x1_0000_0000_0000_0000_0000_0000_0000_0000) by (nonlinear_arith)
            requires
                r1 < d,
                d < pow2(95),
                pow2(95) * 0x2_0000_0000 == 0x1_0000_0000_0000_0000_0000_0000_0000_0000,
        ;
    }
    let n2 = r1 * shift;
    let q2 = n2 / d;
    let r2 = n2 % d;
    proof {
        lemma_fundamental_div_mod(n2 as int, d as int);
        let total = n * one();
        assert(total == (q1 * 0x2_0000_0000 + q2) * d + r2) by (nonlinear_arith)
            requires
                n1 == n * 0x2_0000_0000,
                n1 == d * q1 + r1,
                n2 == r1 * 0x2_0000_0000,
                n2 == d * q2 + r2,
                total == n * 0x4_0000_0000_0000_0000,
        ;
        lemma_fundamental_div_mod_converse(total, d as int, q1 * 0x2_0000_0000 + q2, r2 as int);
        assert(total / (d as int) < pow2(121)) by (nonlinear_arith)
            requires
                total < d * pow2(121),
                d > 0,
                total >= 0,
        ;
        assert(pow2(121) < 0x1_0000_0000_0000_0000_0000_0000_0000_0000) by {
            lemma_pow2_strictly_increases(121, 128);
        }
    }
    (q1 * shift + q2, r2 != 0)
}


/// Values of the powers of two that bound fixed-point magnitudes.
pub proof fn lemma_pow2_bounds()
    ensures
        pow2(42) == 0x400_0000_0000,
        pow2(43) == 0x800_0000_0000,
        pow2(44) == 0x1000_0000_0000,
        pow2(66) == one(),
        pow2(67) == 2 * one(),
        pow2(68) == 4 * one(),
        pow2(69) == 8 * one(),
        pow2(75) == 512 * one(),
        pow2(76) == 1024 * one(),
        pow2(77) == 2048 * one(),
        pow2(78) == 4096 * one(),
        pow2(83) == 131072 * one(),
        pow2(85) == 524288 * one(),
        pow2(95) == 0x8000_0000_0000_0000_0000_0000,
        pow2(100) == 0x10_0000_0000_0000_0000_0000_0000,
        pow2(120) == 0x100_0000_0000_0000_0000_0000_0000_0000,
        pow2(126) == 0x4000_0000_0000_0000_0000_0000_0000_0000,
{
    lemma2_to64();
    lemma_pow2_adds(64, 2);
    lemma_pow2_adds(66, 1);
    lemma_pow2_adds(66, 2);
    lemma_pow2_adds(66, 3);
    lemma_pow2_adds(66, 9);
    lemma_pow2_adds(66, 10);
    lemma_pow2_adds(66, 11);
    lemma_pow2_adds(66, 12);
    lemma_pow2_adds(66, 17);
    lemma_pow2_adds(66, 19);
    lemma_pow2_adds(64, 31);
    lemma_pow2_adds(64, 36);
    lemma_pow2_adds(64, 56);
    lemma_pow2_adds(64, 62);
    lemma_pow2_adds(32, 4);
    lemma_pow2_adds(32, 10);
    lemma_pow2_adds(32, 11);
    lemma_pow2_adds(32, 12);
    lemma_pow2_adds(32, 24);
    lemma_pow2_adds(32, 30);
}

fn magnitude(x: i128) -> (m: u128)
    requires
        x > i128::MIN,
    ensures
        m as int == abs(x as int),
{
    if x < 0 { (-x) as u128 } else { x as u128 }
}

/// Rounds a fixed-point value (plus a fraction when `sticky`) to `prec` bits.
pub fn round_i128(x: i128, sticky: bool, prec: u32) -> (r: i128)
    requires
        abs(x as int) < 0x100_0000_0000_0000_0000_0000_0000_0000,
        1 <= prec <= 64,
    ensures
        r == round_signed(x as int, sticky, prec as nat),
{
    proof {
        lemma_pow2_bounds();
        lemma_round_error(abs(x as int) as nat, sticky, prec as nat, 120);
    }
    let m = magnitude(x);
    let r = round_u128(m, sticky, prec);
    if x < 0 { -(r as i128) } else { r as i128 }
}

/// Floating point `a + b`.
pub fn float_add(a: i128, b: i128, prec: u32) -> (r: i128)
    requires
        abs(a as int) < 0x10_0000_0000_0000_0000_0000_0000,
        abs(b as int) < 0x10_0000_0000_0000_0000_0000_0000,
        1 <= prec <= 64,
    ensures
        r == fl_add(a as int, b as int, prec as nat),
{
    round_i128(a + b, false, prec)
}

/// Floating point `a - b`.
pub fn float_sub(a: i128, b: i128, prec: u32) -> (r: i128)
    requires
        abs(a as int) < 0x10_0000_0000_0000_0000_0000_0000,
        abs(b as int) < 0x10_0000_0000_0000_0000_0000_0000,
        1 <= prec <= 64,
    ensures
        r == fl_sub(a as int, b as int, prec as nat),
{
    round_i128(a - b, false, prec)
}

/// Floating point `a * n` for a whole number `n`.
pub fn float_mul(a: i128, n: i128, prec: u32) -> (r: i128)
    requires
        abs(a as int) < 0x10_0000_0000_0000_0000_0000_0000,
        0 < n <= 1000,
        1 <= prec <= 64,
    ensures
        r == fl_mul(a as int, n as int, prec as nat),
{
    assert(abs(a * n) < 0x100_0000_0000_0000_0000_0000_0000_0000) by (nonlinear_arith)
        requires
            abs(a as int) < 0x10_0000_0000_0000_0000_0000_0000,
            0 < n <= 1000,
    ;
    round_i128(a * n, false, prec)
}

/// Floating point `a / b`.
pub fn float_div(a: i128, b: i128, prec: u32) -> (r: i128)
    requires
        b != 0,
        abs(a as int) < 0x8000_0000_0000_0000_0000_0000,
        abs(b as int) < 0x8000_0000_0000_0000_0000_0000,
        abs(a as int) * one() < abs(b as int) * 0x100_0000_0000_0000_0000_0000_0000_0000,
        1 <= prec <= 64,
    ensures
        r == fl_div(a as int, b as int, prec as nat),
{
    proof {
        lemma_pow2_bounds();
        lemma_pow2_adds(120, 1);
        lemma2_to64();
    }
    let n = magnitude(a);
    let d = magnitude(b);
    assert((n as int) * one() < (d as int) * pow2(121)) by (nonlinear_arith)
        requires
            (n as int) * one() < (d as int) * 0x100_0000_0000_0000_0000_0000_0000_0000,
            pow2(121) == 2 * 0x100_0000_0000_0000_0000_0000_0000_0000,
            d > 0,
    ;
    let (q, sticky) = div_scaled(n, d);
    proof {
        assert((n as int) * one() / (d as int) < 0x100_0000_0000_0000_0000_0000_0000_0000) by (nonlinear_arith)
            requires
                (n as int) * one() < (d as int) * 0x100_0000_0000_0000_0000_0000_0000_0000,
                d > 0,
                n >= 0,
        ;
        lemma_round_error(q as nat, sticky, prec as nat, 120);
    }
    let r = round_u128(q, sticky, prec);
    if (a < 0) != (b < 0) { -(r as i128) } else { r as i128 }
}

/// Floating point `a % m` for a positive `m`.
pub fn float_rem(a: i128, m: i128) -> (r: i128)
    requires
        a > i128::MIN,
        m > 0,
    ensures
        r == fl_rem(a as int, m as int),
{
    if a < 0 { -((-a) % m) } else { a % m }
}

/// `round()` of a fixed-point value, as a whole number.
pub fn round_to_whole(a: i128) -> (r: i128)
    requires
        abs(a as int) < 0x100_0000_0000_0000_0000_0000_0000_0000,
    ensures
        r == round_half_away(a as int),
{
    let half = ONE / 2;
    if a < 0 { -((-a + half) / ONE) } else { (a + half) / ONE }
}

/// `as` a whole number (toward zero) of a fixed-point value.
pub fn trunc_to_whole(a: i128) -> (r: i128)
    requires
        a > i128::MIN,
    ensures
        r == trunc_units(a as int),
{
    if a < 0 { -((-a) / ONE) } else { a / ONE }
}

/// The saturating conversion to `i32`.
pub fn to_i32(v: i128) -> (r: i32)
    ensures
        r == saturate_i32(v as int),
{
    if v > i32::MAX as i128 {
        i32::MAX
    } else if v < i32::MIN as i128 {
        i32::MIN
    } else {
        v as i32
    }
}


/// A byte channel as a fraction of 255 (`c as f64 / 255.0`, or `f32`).
pub open spec fn unit_channel(c: u8, prec: nat) -> int {
    fl_div(c as int * one(), 255 * one(), prec)
}

/// `(x * n).round() as i32`, the product first rounded to `prec` bits.
pub fn rounded_product(x: i128, n: i128, prec: u32) -> (w: i32)
    requires
        abs(x as int) <= 524288 * one(),
        0 < n <= 1000,
        1 <= prec <= 64,
    ensures
        w == saturate_i32(round_half_away(fl_mul(x as int, n as int, prec as nat))),
{
    proof {
        lemma_pow2_bounds();
        assert(abs(x * n) < pow2(95)) by (nonlinear_arith)
            requires
                abs(x as int) <= 524288 * one(),
                0 < n <= 1000,
                one() == 0x4_0000_0000_0000_0000,
                pow2(95) == 0x8000_0000_0000_0000_0000_0000,
        ;
        lemma_fl_mul(x as int, n as int, prec as nat, 95);
    }
    to_i32(round_to_whole(float_mul(x, n, prec)))
}

/// `(x * n).round() as i32` in `f64` for a fraction `x` within `2^-34` of
/// `[0, 1]` lies in `[0, n]`; it is `0` for `x == 0` and `n` for `x` within
/// `2^-50` of `1`.
pub proof fn lemma_rounded_fraction(x: int, n: int)
    requires
        -0x1_0000_0000 <= x <= one() + 0x1_0000_0000,
        0 < n <= 1000,
    ensures
        0 <= saturate_i32(round_half_away(fl_mul(x, n, 53))) <= n,
        x == 0 ==> saturate_i32(round_half_away(fl_mul(x, n, 53))) == 0,
        abs(x - one()) <= 0x1_0000 ==> saturate_i32(round_half_away(fl_mul(x, n, 53))) == n,
{
    lemma_pow2_bounds();
    assert(abs(x * n) < pow2(95)) by (nonlinear_arith)
        requires
            -0x1_0000_0000 <= x <= one() + 0x1_0000_0000,
            0 < n <= 1000,
            one() == 0x4_0000_0000_0000_0000,
            pow2(95) == 0x8000_0000_0000_0000_0000_0000,
    ;
    lemma_fl_mul(x, n, 53, 95);
    let y = fl_mul(x, n, 53);
    assert(((95 - 53) as nat) == 42nat);
    assert(-0x400_0000_0000 <= y - x * n <= 0x400_0000_0000);
    assert(-0x1000_0000_0000 <= y && y <= n * one() + 0x1000_0000_0000) by (nonlinear_arith)
        requires
            -0x400_0000_0000 <= y - x * n <= 0x400_0000_0000,
            -0x1_0000_0000 <= x <= one() + 0x1_0000_0000,
            0 < n <= 1000,
            one() == 0x4_0000_0000_0000_0000,
    ;
    if y >= 0 {
        assert(0 <= (y + one() / 2) / one() <= n) by (nonlinear_arith)
            requires
                0 <= y <= n * one() + 0x1000_0000_0000,
                one() == 0x4_0000_0000_0000_0000,
        ;
        if abs(x - one()) <= 0x1_0000 {
            assert(n * one() - 0x1000_0000_0000 <= y) by (nonlinear_arith)
                requires
                    -0x400_0000_0000 <= y - x * n,
                    one() - 0x1_0000 <= x,
                    0 < n <= 1000,
            ;
            assert((y + one() / 2) / one() == n) by (nonlinear_arith)
                requires
                    n * one() - 0x1000_0000_0000 <= y <= n * one() + 0x1000_0000_0000,
                    one() == 0x4_0000_0000_0000_0000,
            ;
        }
    } else {
        assert((-y + one() / 2) / one() == 0) by (nonlinear_arith)
            requires
                0 < -y <= 0x1000_0000_0000,
                one() == 0x4_0000_0000_0000_0000,
        ;
    }
}

/// `n / d` rounded to the nearest whole number, halves up.
pub open spec fn round_div(n: int, d: int) -> int {
    (2 * n + d) / (2 * d)
}

/// A fraction `x` within `2^-36` of `n / d` (no tie at the half) becomes,
/// as `(x * 100.0).round() as i32` in `f64`, the percent `100 * n / d` rounded.
pub proof fn lemma_percent_of_ratio(x: int, n: int, d: int)
    requires
        0 < d <= 1000,
        0 <= n <= d,
        abs(d * x - n * one()) <= d * 0x4000_0000,
        (200 * n + d) % (2 * d) != 0,
    ensures
        saturate_i32(round_half_away(fl_mul(x, 100, 53))) == round_div(100 * n, d),
{
    lemma_pow2_bounds();
    vstd::arithmetic::power2::lemma2_to64();
    assert(-0x4000_0000 <= x <= one() + 0x4000_0000) by (nonlinear_arith)
        requires
            abs(d * x - n * one()) <= d * 0x4000_0000,
            0 < d,
            0 <= n <= d,
            one() == 0x4_0000_0000_0000_0000,
    ;
    assert(abs(x * 100) < pow2(95)) by (nonlinear_arith)
        requires
            -0x4000_0000 <= x <= one() + 0x4000_0000,
            one() == 0x4_0000_0000_0000_0000,
            pow2(95) == 0x8000_0000_0000_0000_0000_0000,
    ;
    lemma_fl_mul(x, 100, 53, 95);
    let y = fl_mul(x, 100, 53);
    assert(((95 - 53) as nat) == 42nat);
    assert(-0x400_0000_0000 <= y - x * 100 <= 0x400_0000_0000);
    let q = round_div(100 * n, d);
    lemma_fundamental_div_mod(200 * n + d, 2 * d);
    assert(2 * d * q + 1 <= 200 * n + d <= 2 * d * q + 2 * d - 1) by (nonlinear_arith)
        requires
            200 * n + d == 2 * d * ((200 * n + d) / (2 * d)) + (200 * n + d) % (2 * d),
            0 < (200 * n + d) % (2 * d) < 2 * d,
            q == (200 * n + d) / (2 * d),
    ;
    assert(0 <= q <= 100) by (nonlinear_arith)
        requires
            2 * d * q + 1 <= 200 * n + d <= 2 * d * q + 2 * d - 1,
            0 <= n <= d,
            d > 0,
    ;
    assert(q * one() <= y + one() / 2 < (q + 1) * one()) by (nonlinear_arith)
        requires
            -0x400_0000_0000 <= y - x * 100 <= 0x400_0000_0000,
            abs(d * x - n * one()) <= d * 0x4000_0000,
            2 * d * q + 1 <= 200 * n + d <= 2 * d * q + 2 * d - 1,
            0 < d <= 1000,
            one() == 0x4_0000_0000_0000_0000,
    ;
    if y >= 0 {
        assert((y + one() / 2) / one() == q) by (nonlinear_arith)
            requires
                q * one() <= y + one() / 2 < (q + 1) * one(),
                one() == 0x4_0000_0000_0000_0000,
        ;
    } else {
        assert(q == 0) by (nonlinear_arith)
            requires
                q * one() <= y + one() / 2,
                y < 0,
                q >= 0,
                one() == 0x4_0000_0000_0000_0000,
        ;
        assert((-y + one() / 2) / one() == 0) by (nonlinear_arith)
            requires
                0 < -y <= 0x8000_0000_0000,
                one() == 0x4_0000_0000_0000_0000,
        ;
    }
}

/// A fraction `x` within `2^-36` of `n / d` becomes, as `(x * k).round() as
/// i32` in `f64`, the rounded `k * n / d`, wherever that is not a tie.
pub proof fn lemma_rounded_ratio(x: int, n: int, d: int, k: int)
    requires
        0 < d <= 100_000,
        0 <= n <= d,
        0 < k <= 360,
        abs(d * x - n * one()) <= d * 0x4000_0000,
        (2 * k * n + d) % (2 * d) != 0,
    ensures
        saturate_i32(round_half_away(fl_mul(x, k, 53))) == round_div(k * n, d),
{
    lemma_pow2_bounds();
    vstd::arithmetic::power2::lemma2_to64();
    assert(-0x4000_0000 <= x <= one() + 0x4000_0000) by (nonlinear_arith)
        requires
            abs(d * x - n * one()) <= d * 0x4000_0000,
            0 < d,
            0 <= n <= d,
            one() == 0x4_0000_0000_0000_0000,
    ;
    assert(abs(x * k) < pow2(75)) by (nonlinear_arith)
        requires
            -0x4000_0000 <= x <= one() + 0x4000_0000,
            0 < k <= 360,
            one() == 0x4_0000_0000_0000_0000,
            pow2(75) == 512 * one(),
    ;
    lemma_fl_mul(x, k, 53, 75);
    let y = fl_mul(x, k, 53);
    assert(((75 - 53) as nat) == 22nat);
    assert(-0x40_0000 <= y - x * k <= 0x40_0000);
    let q = round_div(k * n, d);
    lemma_fundamental_div_mod(2 * k * n + d, 2 * d);
    assert(2 * d * q + 1 <= 2 * k * n + d <= 2 * d * q + 2 * d - 1) by (nonlinear_arith)
        requires
            2 * k * n + d == 2 * d * ((2 * k * n + d) / (2 * d)) + (2 * k * n + d) % (2 * d),
            0 < (2 * k * n + d) % (2 * d) < 2 * d,
            q == (2 * (k * n) + d) / (2 * d),
    ;
    assert(k * n <= k * d) by (nonlinear_arith)
        requires
            0 <= n <= d,
            k > 0,
    ;
    assert(0 <= q <= k) by (nonlinear_arith)
        requires
            2 * d * q + 1 <= 2 * k * n + d <= 2 * d * q + 2 * d - 1,
            k * n <= k * d,
            0 <= k * n,
            d > 0,
    ;
    assert(abs(d * y - k * n * one()) <= d * 0x100_0000_0000) by (nonlinear_arith)
        requires
            -0x40_0000 <= y - x * k <= 0x40_0000,
            abs(d * x - n * one()) <= d * 0x4000_0000,
            0 < k <= 360,
            d > 0,
    ;
    assert(q * one() <= y + one() / 2 < (q + 1) * one()) by (nonlinear_arith)
        requires
            abs(d * y - k * n * one()) <= d * 0x100_0000_0000,
            2 * d * q + 1 <= 2 * k * n + d <= 2 * d * q + 2 * d - 1,
            0 < d <= 100_000,
            one() == 0x4_0000_0000_0000_0000,
    ;
    assert(y >= -0x100_0000_0000) by (nonlinear_arith)
        requires
            abs(d * y - k * n * one()) <= d * 0x100_0000_0000,
            0 <= k * n,
            d > 0,
            one() > 0,
    ;
    if y >= 0 {
        assert((y + one() / 2) / one() == q) by (nonlinear_arith)
            requires
                q * one() <= y + one() / 2 < (q + 1) * one(),
                one() == 0x4_0000_0000_0000_0000,
        ;
    } else {
        assert(q == 0) by (nonlinear_arith)
            requires
                q * one() <= y + one() / 2,
                y < 0,
                q >= 0,
                one() == 0x4_0000_0000_0000_0000,
        ;
        assert((-y + one() / 2) / one() == 0) by (nonlinear_arith)
            requires
                0 < -y <= 0x100_0000_0000,
                one() == 0x4_0000_0000_0000_0000,
        ;
    }
}

/// A byte channel as a fraction of 255, rounded to `prec` bits.
pub fn channel_fraction(c: u8, prec: u32) -> (x: i128)
    requires
        1 <= prec <= 64,
    ensures
        x == unit_channel(c, prec as nat),
{
    let a = c as i128 * ONE;
    let b = 255 * ONE;
    assert(abs(a as int) * one() < abs(b as int) * 0x100_0000_0000_0000_0000_0000_0000_0000) by (nonlinear_arith)
        requires
            a == c * one(),
            b == 255 * one(),
            0 <= c <= 255,
            one() == 0x4_0000_0000_0000_0000,
    ;
    float_div(a, b, prec)
}

/// A channel fraction lies within `2^(67 - prec)` of `c / 255`.
pub proof fn lemma_unit_channel(c: u8, prec: nat)
    requires
        1 <= prec <= 67,
    ensures
        0 <= unit_channel(c, prec) <= one() + pow2((67 - prec) as nat),
        255 * unit_channel(c, prec) >= c * one() - 255 * (pow2((67 - prec) as nat) + 1),
        255 * unit_channel(c, prec) <= c * one() + 255 * pow2((67 - prec) as nat),
{
    lemma_pow2_bounds();
    lemma_pow2_adds(66, 1);
    lemma2_to64();
    let n = (c as int * one()) * one();
    let q0 = (c as int * one()) / 255;
    let r0 = (c as int * one()) % 255;
    lemma_fundamental_div_mod(c as int * one(), 255);
    assert(n == q0 * (255 * one()) + r0 * one()) by (nonlinear_arith)
        requires
            c as int * one() == 255 * q0 + r0,
            n == (c as int * one()) * one(),
    ;
    assert(0 <= r0 * one() < 255 * one()) by (nonlinear_arith)
        requires
            0 <= r0 < 255,
            one() > 0,
    ;
    lemma_fundamental_div_mod_converse(n, 255 * one(), q0, r0 * one());
    assert(abs(c as int * one()) == c as int * one());
    assert(abs(255 * one()) == 255 * one());
    assert(0 <= q0 <= one());
    lemma_round_error(q0 as nat, n % (255 * one()) != 0, prec, 67);
}


/// Floating point addition: the error is at most `2^(bits - prec)` and the
/// sign of the exact sum is kept.
pub proof fn lemma_fl_add(a: int, b: int, prec: nat, bits: nat)
    requires
        abs(a + b) < pow2(bits),
        1 <= prec <= bits,
    ensures
        abs(fl_add(a, b, prec)) <= pow2(bits),
        abs(fl_add(a, b, prec) - (a + b)) <= pow2((bits - prec) as nat),
        a + b >= 0 ==> fl_add(a, b, prec) >= 0,
        a + b <= 0 ==> fl_add(a, b, prec) <= 0,
        a + b == 0 ==> fl_add(a, b, prec) == 0,
{
    lemma_round_signed_error(a + b, false, prec, bits);
}

/// Floating point subtraction: the error is at most `2^(bits - prec)` and
/// the sign of the exact difference is kept.
pub proof fn lemma_fl_sub(a: int, b: int, prec: nat, bits: nat)
    requires
        abs(a - b) < pow2(bits),
        1 <= prec <= bits,
    ensures
        abs(fl_sub(a, b, prec)) <= pow2(bits),
        abs(fl_sub(a, b, prec) - (a - b)) <= pow2((bits - prec) as nat),
        a - b >= 0 ==> fl_sub(a, b, prec) >= 0,
        a - b <= 0 ==> fl_sub(a, b, prec) <= 0,
        a == b ==> fl_sub(a, b, prec) == 0,
{
    lemma_round_signed_error(a - b, false, prec, bits);
}

/// Floating point multiplication by a whole number: the error is at most
/// `2^(bits - prec)` and the sign of the exact product is kept.
pub proof fn lemma_fl_mul(a: int, n: int, prec: nat, bits: nat)
    requires
        abs(a * n) < pow2(bits),
        1 <= prec <= bits,
    ensures
        abs(fl_mul(a, n, prec)) <= pow2(bits),
        abs(fl_mul(a, n, prec) - a * n) <= pow2((bits - prec) as nat),
        a * n >= 0 ==> fl_mul(a, n, prec) >= 0,
        a * n <= 0 ==> fl_mul(a, n, prec) <= 0,
{
    lemma_round_signed_error(a * n, false, prec, bits);
}

/// Floating point division by a positive `b`: `b * fl_div(a, b)` lies within
/// `b * (2^(bits - prec) + 1)` of `a` (both in fixed point), the sign of `a`
/// is kept, and `0 / b` is `0`.
pub proof fn lemma_fl_div(a: int, b: int, prec: nat, bits: nat)
    requires
        b > 0,
        abs(a) * one() < b * pow2(bits),
        1 <= prec <= bits,
    ensures
        abs(fl_div(a, b, prec)) <= pow2(bits),
        abs(b * fl_div(a, b, prec) - a * one()) <= b * (pow2((bits - prec) as nat) + 1),
        a >= 0 ==> fl_div(a, b, prec) >= 0,
        a <= 0 ==> fl_div(a, b, prec) <= 0,
        a == 0 ==> fl_div(a, b, prec) == 0,
{
    let n = abs(a) * one();
    let q = n / b;
    let sticky = n % b != 0;
    assert(n >= 0) by (nonlinear_arith)
        requires
            n == abs(a) * one(),
            one() > 0,
    ;
    lemma_fundamental_div_mod(n, b);
    assert(0 <= q < pow2(bits)) by (nonlinear_arith)
        requires
            n == b * q + n % b,
            0 <= n % b < b,
            n < b * pow2(bits),
            n >= 0,
            b > 0,
    ;
    lemma_round_error(q as nat, sticky, prec, bits);
    let e = pow2((bits - prec) as nat);
    let rq = round_bits(q as nat, sticky, prec) as int;
    assert(abs(b * rq - n) <= b * (e + 1)) by (nonlinear_arith)
        requires
            n == b * q + n % b,
            0 <= n % b < b,
            q - e <= rq <= q + e,
            b > 0,
    ;
    if a < 0 {
        assert(fl_div(a, b, prec) == -rq);
        assert(a * one() == -n) by (nonlinear_arith)
            requires
                n == abs(a) * one(),
                a < 0,
        ;
        assert(b * (-rq) == -(b * rq)) by (nonlinear_arith);
    } else {
        assert(fl_div(a, b, prec) == rq);
        assert(a * one() == n);
        if a == 0 {
            assert(n == 0);
            assert(q == 0);
            assert(rq == 0) by {
                lemma_round_error(0, sticky, prec, bits);
            }
        }
    }
}

/// `|fl_div(a, b)|` stays within `2^bits` when the exact quotient does.
pub proof fn lemma_div_bound(a: int, b: int, prec: nat, bits: nat)
    requires
        b != 0,
        abs(a) * one() < abs(b) * pow2(bits),
        1 <= prec <= bits,
    ensures
        abs(fl_div(a, b, prec)) <= pow2(bits),
        a >= 0 && b > 0 ==> fl_div(a, b, prec) >= 0,
{
    let n = abs(a) * one();
    let q = n / abs(b);
    assert(q < pow2(bits)) by (nonlinear_arith)
        requires
            n < abs(b) * pow2(bits),
            abs(b) > 0,
            n >= 0,
            q == n / abs(b),
    ;
    assert(q >= 0) by (nonlinear_arith)
        requires
            n >= 0,
            abs(b) > 0,
            q == n / abs(b),
    ;
    lemma_round_error(q as nat, n % abs(b) != 0, prec, bits);
}

} // verus!
