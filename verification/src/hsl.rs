//! The HSL notation of a colour, `hsl(H, S%, L%)`, as `f64` arithmetic
//! computes it: channels are divided by 255, hue, saturation and lightness
//! follow the usual formulas, and each is scaled and rounded to a whole
//! number, halves away from zero.

use vstd::prelude::*;
use vstd::arithmetic::power2::pow2;
use crate::color::{hue_times_chroma, max3, min3};
use crate::float::{
    abs, channel_fraction, fl_add, fl_div, fl_mul, fl_sub, float_add, float_div, float_sub,
    lemma_div_bound, lemma_fl_add, lemma_fl_div, lemma_fl_sub, lemma_percent_of_ratio, lemma_pow2_bounds,
    lemma_rounded_ratio,
    lemma_rounded_fraction,
    lemma_unit_channel,
    one, round_div, round_half_away, rounded_product, saturate_i32, unit_channel, F64_BITS, ONE,
};
use crate::text::{push_signed_decimal, signed_decimal};

verus! {

/// A channel as `f64`, divided by 255.
pub open spec fn ch64(c: u8) -> int {
    unit_channel(c, 53)
}

/// `f64::max` of two (non-NaN) values.
pub open spec fn fmax(a: int, b: int) -> int {
    if a >= b { a } else { b }
}

/// `f64::min` of two (non-NaN) values.
pub open spec fn fmin(a: int, b: int) -> int {
    if a <= b { a } else { b }
}

/// `f64::EPSILON` (`2^-52`) in fixed point.
pub open spec fn eps64() -> int {
    0x4000
}

/// `(x).abs() < f64::EPSILON`.
pub open spec fn below_eps(x: int) -> bool {
    abs(x) < eps64()
}

/// The largest channel fraction.
pub open spec fn fmax3(r: u8, g: u8, b: u8) -> int {
    fmax(fmax(ch64(r), ch64(g)), ch64(b))
}

/// The smallest channel fraction.
pub open spec fn fmin3(r: u8, g: u8, b: u8) -> int {
    fmin(fmin(ch64(r), ch64(g)), ch64(b))
}

/// Lightness `(max + min) / 2`.
pub open spec fn hsl_l(r: u8, g: u8, b: u8) -> int {
    fl_div(fl_add(fmax3(r, g, b), fmin3(r, g, b), 53), 2 * one(), 53)
}

/// Chroma `max - min`.
pub open spec fn hsl_chroma(r: u8, g: u8, b: u8) -> int {
    fl_sub(fmax3(r, g, b), fmin3(r, g, b), 53)
}

/// Whether the colour counts as gray (`max - min` below `f64::EPSILON`).
pub open spec fn hsl_gray(r: u8, g: u8, b: u8) -> bool {
    below_eps(hsl_chroma(r, g, b))
}

/// The divisor of the saturation: `2 - max - min` for light colours, `max + min` otherwise.
pub open spec fn hsl_s_divisor(r: u8, g: u8, b: u8) -> int {
    let mx = fmax3(r, g, b);
    let mn = fmin3(r, g, b);
    if hsl_l(r, g, b) > one() / 2 {
        fl_sub(fl_sub(2 * one(), mx, 53), mn, 53)
    } else {
        fl_add(mx, mn, 53)
    }
}

/// Saturation in `[0, 1]` (0 for grays).
pub open spec fn hsl_s(r: u8, g: u8, b: u8) -> int {
    if hsl_gray(r, g, b) {
        0
    } else {
        fl_div(hsl_chroma(r, g, b), hsl_s_divisor(r, g, b), 53)
    }
}

/// Hue in sixths of a turn, before the division by 6.
pub open spec fn hsl_sixths(r: u8, g: u8, b: u8) -> int {
    let (rf, gf, bf) = (ch64(r), ch64(g), ch64(b));
    let mx = fmax3(r, g, b);
    let d = hsl_chroma(r, g, b);
    if below_eps(fl_sub(mx, rf, 53)) {
        fl_add(fl_div(fl_sub(gf, bf, 53), d, 53), if gf < bf { 6 * one() } else { 0 }, 53)
    } else if below_eps(fl_sub(mx, gf, 53)) {
        fl_add(fl_div(fl_sub(bf, rf, 53), d, 53), 2 * one(), 53)
    } else {
        fl_add(fl_div(fl_sub(rf, gf, 53), d, 53), 4 * one(), 53)
    }
}

/// Hue in turns (0 for grays).
pub open spec fn hsl_h(r: u8, g: u8, b: u8) -> int {
    if hsl_gray(r, g, b) {
        0
    } else {
        fl_div(hsl_sixths(r, g, b), 6 * one(), 53)
    }
}

/// The hue in whole degrees: `(h * 360.0).round() as i32`.
pub open spec fn hsl_hue(r: u8, g: u8, b: u8) -> int {
    saturate_i32(round_half_away(fl_mul(hsl_h(r, g, b), 360, 53)))
}

/// The saturation in whole percent: `(s * 100.0).round() as i32`.
pub open spec fn hsl_saturation(r: u8, g: u8, b: u8) -> int {
    saturate_i32(round_half_away(fl_mul(hsl_s(r, g, b), 100, 53)))
}

/// The lightness in whole percent: `(l * 100.0).round() as i32`.
pub open spec fn hsl_lightness(r: u8, g: u8, b: u8) -> int {
    saturate_i32(round_half_away(fl_mul(hsl_l(r, g, b), 100, 53)))
}

/// `hsl(H, S%, L%)`.
pub open spec fn hsl_text(r: u8, g: u8, b: u8) -> Seq<char> {
    seq!['h', 's', 'l', '('] + signed_decimal(hsl_hue(r, g, b)) + seq![',', ' ']
        + signed_decimal(hsl_saturation(r, g, b)) + seq!['%', ',', ' ']
        + signed_decimal(hsl_lightness(r, g, b)) + seq!['%', ')']
}

/// A channel fraction lies within `2^14` (in fixed point) of `c / 255`.
pub proof fn lemma_ch64(c: u8)
    ensures
        0 <= ch64(c) <= one() + 0x4000,
        255 * ch64(c) >= c * one() - 255 * 0x4001,
        255 * ch64(c) <= c * one() + 255 * 0x4000,
{
    vstd::arithmetic::power2::lemma2_to64();
    lemma_unit_channel(c, 53);
}

/// Channel fractions keep the order of the channels.
pub proof fn lemma_ch64_order(c1: u8, c2: u8)
    ensures
        c1 < c2 ==> ch64(c1) < ch64(c2),
{
    lemma_ch64(c1);
    lemma_ch64(c2);
}

/// The largest and smallest fractions are those of the largest and smallest channels.
pub proof fn lemma_extremes(r: u8, g: u8, b: u8)
    ensures
        fmax3(r, g, b) == ch64(max3(r, g, b) as u8),
        fmin3(r, g, b) == ch64(min3(r, g, b) as u8),
{
    lemma_ch64_order(r, g);
    lemma_ch64_order(g, r);
    lemma_ch64_order(r, b);
    lemma_ch64_order(b, r);
    lemma_ch64_order(g, b);
    lemma_ch64_order(b, g);
}

/// The chroma is 0 exactly for grays and otherwise at least `2^57` (1/512).
proof fn lemma_chroma(r: u8, g: u8, b: u8)
    ensures
        0 <= fmin3(r, g, b) <= fmax3(r, g, b) <= one() + 0x4000,
        0 <= hsl_chroma(r, g, b) <= 2 * one(),
        hsl_gray(r, g, b) <==> max3(r, g, b) == min3(r, g, b),
        !hsl_gray(r, g, b) ==> hsl_chroma(r, g, b) >= 0x200_0000_0000_0000,
        max3(r, g, b) >= 1 ==> 255 * fmax3(r, g, b) >= one() - 255 * 0x4001,
        min3(r, g, b) <= 254 ==> 255 * fmin3(r, g, b) <= 254 * one() + 255 * 0x4000,
{
    lemma_pow2_bounds();
    vstd::arithmetic::power2::lemma2_to64();
    lemma_extremes(r, g, b);
    let hi = max3(r, g, b) as u8;
    let lo = min3(r, g, b) as u8;
    lemma_ch64(hi);
    lemma_ch64(lo);
    lemma_ch64_order(lo, hi);
    let mx = fmax3(r, g, b);
    let mn = fmin3(r, g, b);
    lemma_fl_sub(mx, mn, 53, 67);
    if hi > lo {
        assert(255 * (mx - mn) >= one() - 255 * 0x8001);
    }
}

/// The sum `max + min` and the lightness lie in `[0, 4]`.
proof fn lemma_light(r: u8, g: u8, b: u8)
    ensures
        0 <= fl_add(fmax3(r, g, b), fmin3(r, g, b), 53) <= 4 * one(),
        fl_add(fmax3(r, g, b), fmin3(r, g, b), 53) >= fmax3(r, g, b) + fmin3(r, g, b) - 0x8000,
        0 <= hsl_l(r, g, b) <= 4 * one(),
{
    lemma_pow2_bounds();
    vstd::arithmetic::power2::lemma2_to64();
    lemma_chroma(r, g, b);
    let sum = fl_add(fmax3(r, g, b), fmin3(r, g, b), 53);
    lemma_fl_add(fmax3(r, g, b), fmin3(r, g, b), 53, 68);
    assert(abs(sum) * one() < abs(2 * one()) * pow2(68)) by (nonlinear_arith)
        requires
            0 <= sum <= 4 * one(),
            one() == 0x4_0000_0000_0000_0000,
            pow2(68) == 4 * one(),
    ;
    lemma_div_bound(sum, 2 * one(), 53, 68);
}

/// For colours that are not gray the divisor of the saturation lies in
/// `[2^57, 4]` and the saturation below 2048.
proof fn lemma_saturation(r: u8, g: u8, b: u8)
    requires
        !hsl_gray(r, g, b),
    ensures
        0x200_0000_0000_0000 <= hsl_s_divisor(r, g, b) <= 4 * one(),
        0 <= fl_sub(2 * one(), fmax3(r, g, b), 53) <= 4 * one(),
        abs(hsl_s(r, g, b)) <= 2048 * one(),
{
    lemma_pow2_bounds();
    vstd::arithmetic::power2::lemma2_to64();
    lemma_chroma(r, g, b);
    lemma_light(r, g, b);
    let mx = fmax3(r, g, b);
    let mn = fmin3(r, g, b);
    let t1 = fl_sub(2 * one(), mx, 53);
    lemma_fl_sub(2 * one(), mx, 53, 68);
    lemma_fl_sub(t1, mn, 53, 68);
    assert(255 * (t1 - mn) >= one() - 255 * 0x10000);
    let den = hsl_s_divisor(r, g, b);
    let d = hsl_chroma(r, g, b);
    assert(abs(d) * one() < abs(den) * pow2(77)) by (nonlinear_arith)
        requires
            0 <= d <= 2 * one(),
            den >= 0x200_0000_0000_0000,
            one() == 0x4_0000_0000_0000_0000,
            pow2(77) == 2048 * one(),
    ;
    lemma_div_bound(d, den, 53, 77);
}

/// For colours that are not gray every step of the hue stays below 4096.
proof fn lemma_hue(r: u8, g: u8, b: u8)
    requires
        !hsl_gray(r, g, b),
    ensures
        abs(fl_sub(fmax3(r, g, b), ch64(r), 53)) <= 2 * one(),
        abs(fl_sub(fmax3(r, g, b), ch64(g), 53)) <= 2 * one(),
        abs(fl_sub(ch64(g), ch64(b), 53)) <= 2 * one(),
        abs(fl_sub(ch64(b), ch64(r), 53)) <= 2 * one(),
        abs(fl_sub(ch64(r), ch64(g), 53)) <= 2 * one(),
        abs(fl_div(fl_sub(ch64(g), ch64(b), 53), hsl_chroma(r, g, b), 53)) <= 2048 * one(),
        abs(fl_div(fl_sub(ch64(b), ch64(r), 53), hsl_chroma(r, g, b), 53)) <= 2048 * one(),
        abs(fl_div(fl_sub(ch64(r), ch64(g), 53), hsl_chroma(r, g, b), 53)) <= 2048 * one(),
        abs(hsl_sixths(r, g, b)) <= 4096 * one(),
        abs(hsl_h(r, g, b)) <= 1024 * one(),
{
    lemma_pow2_bounds();
    vstd::arithmetic::power2::lemma2_to64();
    lemma_chroma(r, g, b);
    lemma_ch64(r);
    lemma_ch64(g);
    lemma_ch64(b);
    let (rf, gf, bf) = (ch64(r), ch64(g), ch64(b));
    let mx = fmax3(r, g, b);
    let d = hsl_chroma(r, g, b);
    lemma_fl_sub(mx, rf, 53, 67);
    lemma_fl_sub(mx, gf, 53, 67);
    lemma_fl_sub(gf, bf, 53, 67);
    lemma_fl_sub(bf, rf, 53, 67);
    lemma_fl_sub(rf, gf, 53, 67);
    lemma_quotient(fl_sub(gf, bf, 53), d);
    lemma_quotient(fl_sub(bf, rf, 53), d);
    lemma_quotient(fl_sub(rf, gf, 53), d);
    let q1 = fl_div(fl_sub(gf, bf, 53), d, 53);
    let q2 = fl_div(fl_sub(bf, rf, 53), d, 53);
    let q3 = fl_div(fl_sub(rf, gf, 53), d, 53);
    lemma_fl_add(q1, if gf < bf { 6 * one() } else { 0 }, 53, 78);
    lemma_fl_add(q2, 2 * one(), 53, 78);
    lemma_fl_add(q3, 4 * one(), 53, 78);
    let six = hsl_sixths(r, g, b);
    assert(abs(six) * one() < abs(6 * one()) * pow2(76)) by (nonlinear_arith)
        requires
            abs(six) <= 4096 * one(),
            one() == 0x4_0000_0000_0000_0000,
            pow2(76) == 1024 * one(),
    ;
    lemma_div_bound(six, 6 * one(), 53, 76);
}

/// A difference of fractions divided by the chroma stays below 2048.
proof fn lemma_quotient(x: int, d: int)
    requires
        abs(x) <= 2 * one(),
        d >= 0x200_0000_0000_0000,
    ensures
        abs(fl_div(x, d, 53)) <= 2048 * one(),
{
    lemma_pow2_bounds();
    assert(abs(x) * one() < abs(d) * pow2(77)) by (nonlinear_arith)
        requires
            abs(x) <= 2 * one(),
            d >= 0x200_0000_0000_0000,
            one() == 0x4_0000_0000_0000_0000,
            pow2(77) == 2048 * one(),
    ;
    lemma_div_bound(x, d, 53, 77);
}

/// The lightness fraction lies in `[0, 1 + 2^-34]`.
proof fn lemma_light_fraction(r: u8, g: u8, b: u8)
    ensures
        0 <= hsl_l(r, g, b) <= one() + 0x1_0000_0000,
{
    lemma_pow2_bounds();
    vstd::arithmetic::power2::lemma2_to64();
    lemma_chroma(r, g, b);
    lemma_light(r, g, b);
    let sum = fl_add(fmax3(r, g, b), fmin3(r, g, b), 53);
    lemma_fl_add(fmax3(r, g, b), fmin3(r, g, b), 53, 68);
    assert(abs(sum) * one() < 2 * one() * pow2(68)) by (nonlinear_arith)
        requires
            0 <= sum <= 4 * one(),
            one() == 0x4_0000_0000_0000_0000,
            pow2(68) == 4 * one(),
    ;
    lemma_fl_div(sum, 2 * one(), 53, 68);
    let l = hsl_l(r, g, b);
    assert(l <= one() + 0x1_0000_0000) by (nonlinear_arith)
        requires
            2 * one() * l - sum * one() <= 2 * one() * (0x8000 + 1),
            sum <= fmax3(r, g, b) + fmin3(r, g, b) + 0x8000,
            fmax3(r, g, b) <= one() + 0x4000,
            fmin3(r, g, b) <= one() + 0x4000,
            one() == 0x4_0000_0000_0000_0000,
    ;
}

/// The saturation fraction of a colour that is not gray lies in `[0, 1 + 2^-34]`.
proof fn lemma_saturation_fraction(r: u8, g: u8, b: u8)
    requires
        !hsl_gray(r, g, b),
    ensures
        0 <= hsl_s(r, g, b) <= one() + 0x1_0000_0000,
{
    lemma_pow2_bounds();
    vstd::arithmetic::power2::lemma2_to64();
    lemma_chroma(r, g, b);
    lemma_light(r, g, b);
    lemma_saturation(r, g, b);
    let mx = fmax3(r, g, b);
    let mn = fmin3(r, g, b);
    let d = hsl_chroma(r, g, b);
    let den = hsl_s_divisor(r, g, b);
    lemma_fl_sub(mx, mn, 53, 67);
    let t1 = fl_sub(2 * one(), mx, 53);
    lemma_fl_sub(2 * one(), mx, 53, 68);
    lemma_fl_sub(t1, mn, 53, 68);
    lemma_fl_add(mx, mn, 53, 68);
    assert(d <= den + 0x2_0000);
    assert(abs(d) * one() < den * pow2(77)) by (nonlinear_arith)
        requires
            0 <= d <= 2 * one(),
            den >= 0x200_0000_0000_0000,
            one() == 0x4_0000_0000_0000_0000,
            pow2(77) == 2048 * one(),
    ;
    lemma_fl_div(d, den, 53, 77);
    let s = hsl_s(r, g, b);
    assert(s <= one() + 0x1_0000_0000) by (nonlinear_arith)
        requires
            den * s - d * one() <= den * (0x100_0000 + 1),
            d <= den + 0x2_0000,
            den >= 0x200_0000_0000_0000,
            one() == 0x4_0000_0000_0000_0000,
    ;
}

/// A difference of two channel fractions divided by the chroma lies within
/// `2^-40` of `[-1, 1]` and has the sign of the difference.
proof fn lemma_unit_quotient(x: int, d: int)
    requires
        d >= 0x200_0000_0000_0000,
        abs(x) <= d + 0x8000,
    ensures
        abs(fl_div(x, d, 53)) <= one() + 0x400_0000,
        x >= 0 ==> fl_div(x, d, 53) >= 0,
        x <= 0 ==> fl_div(x, d, 53) <= 0,
{
    lemma_pow2_bounds();
    vstd::arithmetic::power2::lemma2_to64();
    assert(abs(x) * one() < d * pow2(77)) by (nonlinear_arith)
        requires
            abs(x) <= d + 0x8000,
            d >= 0x200_0000_0000_0000,
            one() == 0x4_0000_0000_0000_0000,
            pow2(77) == 2048 * one(),
    ;
    lemma_fl_div(x, d, 53, 77);
    let q = fl_div(x, d, 53);
    assert(abs(q) <= one() + 0x400_0000) by (nonlinear_arith)
        requires
            abs(d * q - x * one()) <= d * (0x100_0000 + 1),
            abs(x) <= d + 0x8000,
            d >= 0x200_0000_0000_0000,
            one() == 0x4_0000_0000_0000_0000,
    ;
}

/// The hue, in sixths of a turn, of a colour that is not gray lies in `[0, 6 + 2^-38]`.
proof fn lemma_sixths_range(r: u8, g: u8, b: u8)
    requires
        !hsl_gray(r, g, b),
    ensures
        0 <= hsl_sixths(r, g, b) <= 6 * one() + 0x1000_0000,
{
    lemma_pow2_bounds();
    vstd::arithmetic::power2::lemma2_to64();
    lemma_chroma(r, g, b);
    let (rf, gf, bf) = (ch64(r), ch64(g), ch64(b));
    let mx = fmax3(r, g, b);
    let mn = fmin3(r, g, b);
    let d = hsl_chroma(r, g, b);
    lemma_fl_sub(mx, mn, 53, 67);
    assert(mn <= rf <= mx && mn <= gf <= mx && mn <= bf <= mx);
    lemma_fl_sub(gf, bf, 53, 67);
    lemma_fl_sub(bf, rf, 53, 67);
    lemma_fl_sub(rf, gf, 53, 67);
    lemma_unit_quotient(fl_sub(gf, bf, 53), d);
    lemma_unit_quotient(fl_sub(bf, rf, 53), d);
    lemma_unit_quotient(fl_sub(rf, gf, 53), d);
    let q1 = fl_div(fl_sub(gf, bf, 53), d, 53);
    let q2 = fl_div(fl_sub(bf, rf, 53), d, 53);
    let q3 = fl_div(fl_sub(rf, gf, 53), d, 53);
    lemma_fl_add(q1, if gf < bf { 6 * one() } else { 0 }, 53, 76);
    lemma_fl_add(q2, 2 * one(), 53, 76);
    lemma_fl_add(q3, 4 * one(), 53, 76);
}

/// The hue fraction of a colour that is not gray lies in `[0, 1 + 2^-34]`.
proof fn lemma_hue_fraction(r: u8, g: u8, b: u8)
    requires
        !hsl_gray(r, g, b),
    ensures
        0 <= hsl_h(r, g, b) <= one() + 0x1_0000_0000,
{
    lemma_pow2_bounds();
    vstd::arithmetic::power2::lemma2_to64();
    lemma_sixths_range(r, g, b);
    let six = hsl_sixths(r, g, b);
    assert(abs(six) * one() < 6 * one() * pow2(67)) by (nonlinear_arith)
        requires
            0 <= six <= 6 * one() + 0x1000_0000,
            one() == 0x4_0000_0000_0000_0000,
            pow2(67) == 2 * one(),
    ;
    lemma_fl_div(six, 6 * one(), 53, 67);
    let h = hsl_h(r, g, b);
    assert(h <= one() + 0x1_0000_0000) by (nonlinear_arith)
        requires
            6 * one() * h - six * one() <= 6 * one() * (0x4000 + 1),
            six <= 6 * one() + 0x1000_0000,
            one() == 0x4_0000_0000_0000_0000,
    ;
}

/// The HSL components stay in range: the hue in `[0, 360]` degrees, the
/// saturation and the lightness in `[0, 100]` percent; a gray has hue 0 and
/// saturation 0.
pub proof fn hsl_components_in_range(r: u8, g: u8, b: u8)
    ensures
        0 <= hsl_hue(r, g, b) <= 360,
        0 <= hsl_saturation(r, g, b) <= 100,
        0 <= hsl_lightness(r, g, b) <= 100,
        max3(r, g, b) == min3(r, g, b) ==> hsl_hue(r, g, b) == 0 && hsl_saturation(r, g, b) == 0,
{
    lemma_chroma(r, g, b);
    lemma_light_fraction(r, g, b);
    lemma_rounded_fraction(hsl_l(r, g, b), 100);
    if !hsl_gray(r, g, b) {
        lemma_saturation_fraction(r, g, b);
        lemma_hue_fraction(r, g, b);
    }
    lemma_rounded_fraction(hsl_s(r, g, b), 100);
    lemma_rounded_fraction(hsl_h(r, g, b), 360);
}

/// The lightness fraction lies within `2^-36` of `(max + min) / 510`.
proof fn lemma_lightness_error(r: u8, g: u8, b: u8)
    ensures
        abs(510 * hsl_l(r, g, b) - (max3(r, g, b) + min3(r, g, b)) * one()) <= 510 * 0x4000_0000,
{
    lemma_pow2_bounds();
    vstd::arithmetic::power2::lemma2_to64();
    lemma_chroma(r, g, b);
    lemma_light(r, g, b);
    lemma_extremes(r, g, b);
    lemma_ch64(max3(r, g, b) as u8);
    lemma_ch64(min3(r, g, b) as u8);
    let mx = fmax3(r, g, b);
    let mn = fmin3(r, g, b);
    let sum = fl_add(mx, mn, 53);
    lemma_fl_add(mx, mn, 53, 68);
    assert(abs(sum) * one() < 2 * one() * pow2(68)) by (nonlinear_arith)
        requires
            0 <= sum <= 4 * one(),
            one() == 0x4_0000_0000_0000_0000,
            pow2(68) == 4 * one(),
    ;
    lemma_fl_div(sum, 2 * one(), 53, 68);
    let l = hsl_l(r, g, b);
    assert(abs(2 * l - sum) <= 2 * (0x8000 + 1)) by (nonlinear_arith)
        requires
            abs(2 * one() * l - sum * one()) <= 2 * one() * (0x8000 + 1),
            one() == 0x4_0000_0000_0000_0000,
    ;
}

/// The lightness is `100 * (max + min) / 510` rounded (there is never a tie),
/// and a gray of channel `v` is `hsl(0, 0%, L%)` with `L` the rounded
/// `100 * v / 255`.
pub proof fn hsl_lightness_is_rounded_mean(r: u8, g: u8, b: u8)
    ensures
        hsl_lightness(r, g, b) == round_div(100 * (max3(r, g, b) + min3(r, g, b)), 510),
        r == g && g == b ==> hsl_lightness(r, g, b) == round_div(100 * r, 255),
        r == g && g == b ==> hsl_text(r, g, b) == "hsl(0, 0%, "@ + signed_decimal(
            round_div(100 * r, 255),
        ) + "%)"@,
{
    lemma_lightness_error(r, g, b);
    let n = max3(r, g, b) + min3(r, g, b);
    assert((200 * n + 510) % 1020 != 0);
    lemma_percent_of_ratio(hsl_l(r, g, b), n, 510);
    if r == g && g == b {
        assert(n == 2 * r);
        let t = 200 * (r as int) + 255;
        assert((2 * t) / 1020 == t / 510) by (nonlinear_arith)
            requires
                t >= 0,
        ;
        assert(round_div(100 * n, 510) == round_div(100 * r, 255));
        hsl_components_in_range(r, g, b);
        reveal_strlit("hsl(0, 0%, ");
        reveal_strlit("%)");
        reveal_strlit("0");
        assert(signed_decimal(0) == seq!['0']);
        assert(hsl_text(r, g, b) =~= "hsl(0, 0%, "@ + signed_decimal(round_div(100 * r, 255)) + "%)"@);
    }
}

/// The divisor of the saturation in 255ths: `max + min` for dark colours,
/// `510 - max - min` (that is `2 - max - min` of the fractions) for light ones.
pub open spec fn saturation_base(mx: int, mn: int) -> int {
    if mx + mn > 255 { 510 - mx - mn } else { mx + mn }
}

/// The divisor of the saturation lies within `2^-49` of `saturation_base / 255`.
proof fn lemma_divisor_error(r: u8, g: u8, b: u8)
    requires
        !hsl_gray(r, g, b),
    ensures
        abs(255 * hsl_s_divisor(r, g, b) - saturation_base(max3(r, g, b), min3(r, g, b)) * one())
            <= 255 * 0x2_0000,
        abs(255 * hsl_chroma(r, g, b) - (max3(r, g, b) - min3(r, g, b)) * one()) <= 255 * 0x1_0000,
{
    lemma_pow2_bounds();
    vstd::arithmetic::power2::lemma2_to64();
    lemma_chroma(r, g, b);
    lemma_extremes(r, g, b);
    lemma_ch64(max3(r, g, b) as u8);
    lemma_ch64(min3(r, g, b) as u8);
    lemma_lightness_error(r, g, b);
    let mx = fmax3(r, g, b);
    let mn = fmin3(r, g, b);
    lemma_fl_sub(mx, mn, 53, 67);
    let t1 = fl_sub(2 * one(), mx, 53);
    lemma_fl_sub(2 * one(), mx, 53, 68);
    lemma_fl_sub(t1, mn, 53, 68);
    lemma_fl_add(mx, mn, 53, 68);
    let hi = max3(r, g, b);
    let lo = min3(r, g, b);
    if hi + lo >= 256 {
        assert(hsl_l(r, g, b) > one() / 2);
    } else if hi + lo <= 254 {
        assert(hsl_l(r, g, b) <= one() / 2);
    }
}

/// The saturation fraction lies within `2^-39` of `(max - min) / saturation_base`.
proof fn lemma_saturation_error(r: u8, g: u8, b: u8)
    requires
        !hsl_gray(r, g, b),
    ensures
        ({
            let n = max3(r, g, b) - min3(r, g, b);
            let dd = saturation_base(max3(r, g, b), min3(r, g, b));
            &&& 0 < n <= dd <= 510
            &&& abs(dd * hsl_s(r, g, b) - n * one()) <= dd * 0x4000_0000
        }),
{
    lemma_pow2_bounds();
    vstd::arithmetic::power2::lemma2_to64();
    lemma_chroma(r, g, b);
    lemma_saturation(r, g, b);
    lemma_saturation_fraction(r, g, b);
    lemma_divisor_error(r, g, b);
    let mx = fmax3(r, g, b);
    let mn = fmin3(r, g, b);
    let d = hsl_chroma(r, g, b);
    let den = hsl_s_divisor(r, g, b);
    lemma_fl_sub(mx, mn, 53, 67);
    let t1 = fl_sub(2 * one(), mx, 53);
    lemma_fl_sub(2 * one(), mx, 53, 68);
    lemma_fl_sub(t1, mn, 53, 68);
    lemma_fl_add(mx, mn, 53, 68);
    assert(abs(d) * one() < den * pow2(77)) by (nonlinear_arith)
        requires
            0 <= d <= 2 * one(),
            den >= 0x200_0000_0000_0000,
            one() == 0x4_0000_0000_0000_0000,
            pow2(77) == 2048 * one(),
    ;
    lemma_fl_div(d, den, 53, 77);
    let s = hsl_s(r, g, b);
    let n = max3(r, g, b) - min3(r, g, b);
    let dd = saturation_base(max3(r, g, b), min3(r, g, b));
    assert(0 < n <= dd <= 510);
    assert(abs(dd * d - n * den) <= 3 * dd * 0x1_0000) by (nonlinear_arith)
        requires
            abs(255 * d - n * one()) <= 255 * 0x1_0000,
            abs(255 * den - dd * one()) <= 255 * 0x2_0000,
            0 < n <= dd,
    ;
    let e1 = den * s - d * one();
    let e2 = dd * d - n * den;
    assert(den * (dd * s - n * one()) == dd * e1 + e2 * one()) by (nonlinear_arith)
        requires
            e1 == den * s - d * one(),
            e2 == dd * d - n * den,
    ;
    assert(abs(dd * e1) <= dd * den * (0x100_0000 + 1)) by (nonlinear_arith)
        requires
            abs(e1) <= den * (0x100_0000 + 1),
            dd > 0,
    ;
    assert(abs(e2 * one()) <= 3 * dd * 0x1_0000 * one()) by (nonlinear_arith)
        requires
            abs(e2) <= 3 * dd * 0x1_0000,
            one() > 0,
    ;
    assert(abs(den * (dd * s - n * one())) <= dd * den * (0x100_0000 + 1) + 3 * dd * 0x1_0000 * one());
    assert(abs(dd * s - n * one()) <= dd * 0x4000_0000) by (nonlinear_arith)
        requires
            abs(den * (dd * s - n * one())) <= dd * den * (0x100_0000 + 1) + 3 * dd * 0x1_0000 * one(),
            den >= 0x200_0000_0000_0000,
            dd > 0,
            one() == 0x4_0000_0000_0000_0000,
    ;
}

/// The saturation is the chroma over the saturation base, `100 * (max - min)
/// / (max + min)` for dark colours and `100 * (max - min) / (510 - max - min)`
/// for light ones, rounded (where that ratio is not a tie). A colour with a
/// full channel (255) or an empty one (0) that is not gray is fully saturated.
pub proof fn hsl_saturation_is_rounded_ratio(r: u8, g: u8, b: u8)
    requires
        max3(r, g, b) != min3(r, g, b),
    ensures
        ({
            let n = max3(r, g, b) - min3(r, g, b);
            let dd = saturation_base(max3(r, g, b), min3(r, g, b));
            (200 * n + dd) % (2 * dd) != 0 ==> hsl_saturation(r, g, b) == round_div(100 * n, dd)
        }),
        max3(r, g, b) == 255 || min3(r, g, b) == 0 ==> hsl_saturation(r, g, b) == 100,
{
    lemma_chroma(r, g, b);
    lemma_saturation_error(r, g, b);
    let n = max3(r, g, b) - min3(r, g, b);
    let dd = saturation_base(max3(r, g, b), min3(r, g, b));
    if (200 * n + dd) % (2 * dd) != 0 {
        lemma_percent_of_ratio(hsl_s(r, g, b), n, dd);
    }
    if max3(r, g, b) == 255 || min3(r, g, b) == 0 {
        assert(dd == n);
        assert((200 * n + n) % (2 * n) == n) by (nonlinear_arith)
            requires
                n > 0,
        ;
        assert((200 * n + n) / (2 * n) == 100) by (nonlinear_arith)
            requires
                n > 0,
        ;
        lemma_percent_of_ratio(hsl_s(r, g, b), n, dd);
    }
}

/// A difference of channel fractions divided by the chroma lies within
/// `2^28 / dd` of `delta / dd`, for channel difference `delta` and chroma `dd`.
proof fn lemma_hsl_quotient(x: int, d: int, delta: int, dd: int)
    requires
        1 <= dd <= 255,
        abs(delta) <= dd,
        abs(255 * x - delta * one()) <= 255 * 0x1_0000,
        abs(255 * d - dd * one()) <= 255 * 0x1_0000,
    ensures
        abs(fl_div(x, d, 53)) <= 2 * one(),
        abs(dd * fl_div(x, d, 53) - delta * one()) <= 0x1000_0000,
        x == 0 ==> fl_div(x, d, 53) == 0,
{
    lemma_pow2_bounds();
    vstd::arithmetic::power2::lemma2_to64();
    assert(0 < d <= 2 * one());
    assert(abs(x) * one() < d * pow2(67)) by (nonlinear_arith)
        requires
            abs(255 * x - delta * one()) <= 255 * 0x1_0000,
            abs(255 * d - dd * one()) <= 255 * 0x1_0000,
            abs(delta) <= dd,
            1 <= dd,
            one() == 0x4_0000_0000_0000_0000,
            pow2(67) == 2 * one(),
    ;
    lemma_fl_div(x, d, 53, 67);
    let q = fl_div(x, d, 53);
    let beta = 255 * d - dd * one();
    let gamma = 255 * x - delta * one();
    assert(abs(one() * (dd * q - delta * one())) <= one() * 0x1000_0000) by (nonlinear_arith)
        requires
            abs(d * q - x * one()) <= d * (0x4000 + 1),
            beta == 255 * d - dd * one(),
            gamma == 255 * x - delta * one(),
            abs(beta) <= 255 * 0x1_0000,
            abs(gamma) <= 255 * 0x1_0000,
            abs(q) <= 2 * one(),
            0 < d <= 2 * one(),
            one() == 0x4_0000_0000_0000_0000,
    ;
    assert(abs(dd * q - delta * one()) <= 0x1000_0000) by (nonlinear_arith)
        requires
            abs(one() * (dd * q - delta * one())) <= one() * 0x1000_0000,
            one() == 0x4_0000_0000_0000_0000,
    ;
}

/// The hue in sixths of a turn lies within `2^35 / (60 * (max - min))` of the
/// exact `hue_times_chroma / (60 * (max - min))`.
proof fn lemma_sixths_error(r: u8, g: u8, b: u8)
    requires
        max3(r, g, b) != min3(r, g, b),
    ensures
        abs(60 * (max3(r, g, b) - min3(r, g, b)) * hsl_sixths(r, g, b) - hue_times_chroma(r, g, b)
            * one()) <= 0x8_0000_0000,
{
    lemma_pow2_bounds();
    vstd::arithmetic::power2::lemma2_to64();
    lemma_chroma(r, g, b);
    lemma_divisor_error(r, g, b);
    lemma_extremes(r, g, b);
    lemma_ch64(r);
    lemma_ch64(g);
    lemma_ch64(b);
    let hi = max3(r, g, b);
    lemma_ch64(hi as u8);
    lemma_ch64_order(r, hi as u8);
    lemma_ch64_order(g, hi as u8);
    lemma_ch64_order(g, b);
    lemma_ch64_order(b, g);
    let (rf, gf, bf) = (ch64(r), ch64(g), ch64(b));
    let mx = fmax3(r, g, b);
    let dd = hi - min3(r, g, b);
    let d = hsl_chroma(r, g, b);
    let h = hue_times_chroma(r, g, b);
    let six = hsl_sixths(r, g, b);
    lemma_fl_sub(mx, rf, 53, 67);
    lemma_fl_sub(mx, gf, 53, 67);
    assert(below_eps(fl_sub(mx, rf, 53)) == (hi == r));
    assert(below_eps(fl_sub(mx, gf, 53)) == (hi == g));
    assert((gf < bf) == (g < b));
    if hi == r {
        let x = fl_sub(gf, bf, 53);
        lemma_fl_sub(gf, bf, 53, 67);
        lemma_hsl_quotient(x, d, g - b, dd);
        let q = fl_div(x, d, 53);
        let k: int = if g < b { 6 } else { 0 };
        if g < b {
            assert(h == 60 * (g - b) + 360 * dd);
            assert(60 * k * dd == 360 * dd);
        } else {
            assert(h == 60 * (g - b));
            assert(60 * k * dd == 0);
        }
        lemma_fl_add(q, k * one(), 53, 69);
        assert(six == fl_add(q, k * one(), 53));
        assert(abs(60 * dd * six - h * one()) <= 0x8_0000_0000) by (nonlinear_arith)
            requires
                abs(dd * q - (g - b) * one()) <= 0x1000_0000,
                abs(six - (q + k * one())) <= 0x1_0000,
                h == 60 * (g - b) + 60 * k * dd,
                1 <= dd <= 255,
        ;
    } else if hi == g {
        let x = fl_sub(bf, rf, 53);
        lemma_fl_sub(bf, rf, 53, 67);
        lemma_hsl_quotient(x, d, b - r, dd);
        let q = fl_div(x, d, 53);
        lemma_fl_add(q, 2 * one(), 53, 69);
        assert(abs(60 * dd * six - h * one()) <= 0x8_0000_0000) by (nonlinear_arith)
            requires
                abs(dd * q - (b - r) * one()) <= 0x1000_0000,
                abs(six - (q + 2 * one())) <= 0x1_0000,
                h == 60 * (b - r) + 120 * dd,
                1 <= dd <= 255,
        ;
    } else {
        let x = fl_sub(rf, gf, 53);
        lemma_fl_sub(rf, gf, 53, 67);
        lemma_hsl_quotient(x, d, r - g, dd);
        let q = fl_div(x, d, 53);
        lemma_fl_add(q, 4 * one(), 53, 69);
        assert(abs(60 * dd * six - h * one()) <= 0x8_0000_0000) by (nonlinear_arith)
            requires
                abs(dd * q - (r - g) * one()) <= 0x1000_0000,
                abs(six - (q + 4 * one())) <= 0x1_0000,
                h == 60 * (r - g) + 240 * dd,
                1 <= dd <= 255,
        ;
    }
}

/// The hue is the exact hue `hue_times_chroma / (max - min)` rounded to whole
/// degrees, wherever that is not a tie (so it can reach 360).
pub proof fn hsl_hue_is_rounded_exact_hue(r: u8, g: u8, b: u8)
    requires
        max3(r, g, b) != min3(r, g, b),
        (2 * hue_times_chroma(r, g, b) + (max3(r, g, b) - min3(r, g, b))) % (2 * (max3(r, g, b)
            - min3(r, g, b))) != 0,
    ensures
        hsl_hue(r, g, b) == round_div(hue_times_chroma(r, g, b), max3(r, g, b) - min3(r, g, b)),
{
    lemma_pow2_bounds();
    vstd::arithmetic::power2::lemma2_to64();
    lemma_chroma(r, g, b);
    lemma_sixths_error(r, g, b);
    lemma_sixths_range(r, g, b);
    let dd = max3(r, g, b) - min3(r, g, b);
    let h = hue_times_chroma(r, g, b);
    let six = hsl_sixths(r, g, b);
    assert(abs(six) * one() < 6 * one() * pow2(67)) by (nonlinear_arith)
        requires
            0 <= six <= 6 * one() + 0x1000_0000,
            one() == 0x4_0000_0000_0000_0000,
            pow2(67) == 2 * one(),
    ;
    lemma_fl_div(six, 6 * one(), 53, 67);
    let t = hsl_h(r, g, b);
    assert(abs(6 * t - six) <= 6 * (0x4000 + 1)) by (nonlinear_arith)
        requires
            abs(6 * one() * t - six * one()) <= 6 * one() * (0x4000 + 1),
            one() == 0x4_0000_0000_0000_0000,
    ;
    assert(abs(360 * dd * t - h * one()) <= 360 * dd * 0x4000_0000) by (nonlinear_arith)
        requires
            abs(60 * dd * six - h * one()) <= 0x8_0000_0000,
            abs(6 * t - six) <= 6 * (0x4000 + 1),
            1 <= dd <= 255,
    ;
    assert(0 <= h < 360 * dd);
    let a = 2 * h + dd;
    let m = 2 * dd;
    vstd::arithmetic::div_mod::lemma_fundamental_div_mod(a, m);
    let qq = a / m;
    let rr = a % m;
    assert(0 < rr < m);
    assert(360 * a == (360 * m) * qq + 360 * rr) by (nonlinear_arith)
        requires
            a == m * qq + rr,
    ;
    vstd::arithmetic::div_mod::lemma_fundamental_div_mod_converse(360 * a, 360 * m, qq, 360 * rr);
    assert(2 * (360 * h) + 360 * dd == 360 * a);
    assert(2 * (360 * dd) == 360 * m);
    assert(2 * 360 * h + 360 * dd == 360 * a) by (nonlinear_arith)
        requires
            a == 2 * h + dd,
    ;
    assert((360 * a) % (360 * m) == 360 * rr);
    assert((2 * 360 * h + 360 * dd) % (2 * (360 * dd)) != 0);
    lemma_rounded_ratio(t, h, 360 * dd, 360);
    assert(round_div(360 * h, 360 * dd) == qq);
    assert(round_div(h, dd) == qq);
}

/// Saturation and lightness do not depend on the order of the channels.
pub proof fn hsl_saturation_and_lightness_ignore_channel_order(r: u8, g: u8, b: u8)
    ensures
        hsl_saturation(r, b, g) == hsl_saturation(r, g, b) && hsl_lightness(r, b, g) == hsl_lightness(r, g, b),
        hsl_saturation(g, r, b) == hsl_saturation(r, g, b) && hsl_lightness(g, r, b) == hsl_lightness(r, g, b),
        hsl_saturation(g, b, r) == hsl_saturation(r, g, b) && hsl_lightness(g, b, r) == hsl_lightness(r, g, b),
        hsl_saturation(b, r, g) == hsl_saturation(r, g, b) && hsl_lightness(b, r, g) == hsl_lightness(r, g, b),
        hsl_saturation(b, g, r) == hsl_saturation(r, g, b) && hsl_lightness(b, g, r) == hsl_lightness(r, g, b),
{
    lemma_extremes(r, g, b);
    lemma_extremes(r, b, g);
    lemma_extremes(g, r, b);
    lemma_extremes(g, b, r);
    lemma_extremes(b, r, g);
    lemma_extremes(b, g, r);
}

fn push_str_lit(s: &mut String, lit: &str)
    ensures
        final(s)@ == old(s)@ + lit@,
{
    s.append(lit);
}

/// The saturation of a colour that is not gray.
fn saturation(r: u8, g: u8, b: u8, mx: i128, mn: i128, l: i128, d: i128) -> (s: i128)
    requires
        !hsl_gray(r, g, b),
        mx == fmax3(r, g, b),
        mn == fmin3(r, g, b),
        l == hsl_l(r, g, b),
        d == hsl_chroma(r, g, b),
    ensures
        s == hsl_s(r, g, b),
        abs(s as int) <= 2048 * one(),
{
    proof {
        lemma_pow2_bounds();
        lemma_chroma(r, g, b);
        lemma_light(r, g, b);
        lemma_saturation(r, g, b);
    }
    let den = if l > ONE / 2 {
        float_sub(float_sub(2 * ONE, mx, F64_BITS), mn, F64_BITS)
    } else {
        float_add(mx, mn, F64_BITS)
    };
    assert(abs(d as int) * one() < abs(den as int) * 0x100_0000_0000_0000_0000_0000_0000_0000) by (nonlinear_arith)
        requires
            0 <= d <= 2 * one(),
            den >= 0x200_0000_0000_0000,
            one() == 0x4_0000_0000_0000_0000,
    ;
    float_div(d, den, F64_BITS)
}

/// The hue, in turns, of a colour that is not gray.
fn hue_turns(r: u8, g: u8, b: u8, rf: i128, gf: i128, bf: i128, mx: i128, d: i128) -> (h: i128)
    requires
        !hsl_gray(r, g, b),
        rf == ch64(r),
        gf == ch64(g),
        bf == ch64(b),
        mx == fmax3(r, g, b),
        d == hsl_chroma(r, g, b),
    ensures
        h == hsl_h(r, g, b),
        abs(h as int) <= 1024 * one(),
{
    proof {
        lemma_pow2_bounds();
        lemma_chroma(r, g, b);
        lemma_ch64(r);
        lemma_ch64(g);
        lemma_ch64(b);
        lemma_hue(r, g, b);
    }
    let eps: i128 = 0x4000;
    let to_r = float_sub(mx, rf, F64_BITS);
    let to_g = float_sub(mx, gf, F64_BITS);
    let sixths = if -eps < to_r && to_r < eps {
        let q = quotient(float_sub(gf, bf, F64_BITS), d);
        float_add(q, if gf < bf { 6 * ONE } else { 0 }, F64_BITS)
    } else if -eps < to_g && to_g < eps {
        let q = quotient(float_sub(bf, rf, F64_BITS), d);
        float_add(q, 2 * ONE, F64_BITS)
    } else {
        let q = quotient(float_sub(rf, gf, F64_BITS), d);
        float_add(q, 4 * ONE, F64_BITS)
    };
    float_div(sixths, 6 * ONE, F64_BITS)
}

/// `x / d` for a difference of fractions and a chroma.
fn quotient(x: i128, d: i128) -> (q: i128)
    requires
        abs(x as int) <= 2 * one(),
        d >= 0x200_0000_0000_0000,
        d <= 2 * one(),
    ensures
        q == fl_div(x as int, d as int, 53),
{
    assert(abs(x as int) * one() < abs(d as int) * 0x100_0000_0000_0000_0000_0000_0000_0000) by (nonlinear_arith)
        requires
            abs(x as int) <= 2 * one(),
            d >= 0x200_0000_0000_0000,
            one() == 0x4_0000_0000_0000_0000,
    ;
    float_div(x, d, F64_BITS)
}

/// Hue (in turns), saturation and lightness of a colour.
fn hsl_fractions(r: u8, g: u8, b: u8) -> (res: (i128, i128, i128))
    ensures
        res.0 == hsl_h(r, g, b),
        res.1 == hsl_s(r, g, b),
        res.2 == hsl_l(r, g, b),
        abs(res.0 as int) <= 4096 * one(),
        abs(res.1 as int) <= 4096 * one(),
        abs(res.2 as int) <= 4096 * one(),
{
    proof {
        lemma_pow2_bounds();
        lemma_chroma(r, g, b);
        lemma_light(r, g, b);
    }
    let rf = channel_fraction(r, F64_BITS);
    let gf = channel_fraction(g, F64_BITS);
    let bf = channel_fraction(b, F64_BITS);
    let mx0 = if rf >= gf { rf } else { gf };
    let mx = if mx0 >= bf { mx0 } else { bf };
    let mn0 = if rf <= gf { rf } else { gf };
    let mn = if mn0 <= bf { mn0 } else { bf };
    let sum = float_add(mx, mn, F64_BITS);
    let l = float_div(sum, 2 * ONE, F64_BITS);
    let d = float_sub(mx, mn, F64_BITS);
    let eps: i128 = 0x4000;
    if -eps < d && d < eps {
        (0, 0, l)
    } else {
        let s = saturation(r, g, b, mx, mn, l, d);
        let h = hue_turns(r, g, b, rf, gf, bf, mx, d);
        (h, s, l)
    }
}

/// The HSL notation of a colour, `hsl(H, S%, L%)`.
pub fn hsl(r: u8, g: u8, b: u8) -> (s: String)
    ensures
        s@ == hsl_text(r, g, b),
{
    let (h, sat, l) = hsl_fractions(r, g, b);
    let hue = rounded_product(h, 360, F64_BITS);
    let sat_pct = rounded_product(sat, 100, F64_BITS);
    let light_pct = rounded_product(l, 100, F64_BITS);
    let mut s = String::new();
    proof { reveal_strlit("hsl("); reveal_strlit(", "); reveal_strlit("%, "); reveal_strlit("%)"); }
    push_str_lit(&mut s, "hsl(");
    push_signed_decimal(&mut s, hue);
    push_str_lit(&mut s, ", ");
    push_signed_decimal(&mut s, sat_pct);
    push_str_lit(&mut s, "%, ");
    push_signed_decimal(&mut s, light_pct);
    push_str_lit(&mut s, "%)");
    s
}

} // verus!
