//! Plain Chinese colour names for sampled pixels.
//!
//! Gray levels and darkness are decided on the integer channels; hue and
//! saturation are computed as `f32` arithmetic computes them (see
//! `crate::float`), and compared with the ranges of each name.

use vstd::prelude::*;
use vstd::arithmetic::power2::pow2;
use crate::color::{channel_max, channel_min, hue_times_chroma, max3, min3};
use crate::float::{
    abs, channel_fraction, fl_add, fl_div, fl_mul, fl_rem, fl_sub, float_add, float_div, float_mul,
    float_rem, float_sub, lemma_fl_add, lemma_fl_div, lemma_fl_mul, lemma_fl_sub, lemma_pow2_bounds,
    lemma_unit_channel, one, saturate_i32, to_i32, trunc_to_whole, trunc_units, unit_channel, F32_BITS,
    ONE,
};

verus! {

/// The names the picker gives to colours.
#[derive(Clone, Copy, PartialEq, Eq, Debug)]
pub enum ColorName {
    Black,
    White,
    DarkGray,
    Gray,
    LightGray,
    NearWhite,
    LightPink,
    PinkishRed,
    LightYellow,
    LightGreen,
    LightGrayBlue,
    LightBlue,
    LightGrayPurple,
    Lavender,
    LightOrange,
    GrayBlue,
    GrayYellow,
    DarkBrown,
    Brown,
    DarkGreen,
    DarkBlue,
    DarkPurple,
    DarkRed,
    LightRed,
    Red,
    OrangeRed,
    Orange,
    Yellow,
    YellowGreen,
    Green,
    Teal,
    Cyan,
    Blue,
    Violet,
    LightPurple,
    Purple,
    Pink,
    Rose,
}

/// The Chinese text shown for a name.
pub open spec fn name_text(c: ColorName) -> Seq<char> {
    match c {
        ColorName::Black => "黑色"@,
        ColorName::White => "白色"@,
        ColorName::DarkGray => "深灰色"@,
        ColorName::Gray => "灰色"@,
        ColorName::LightGray => "浅灰色"@,
        ColorName::NearWhite => "近白色"@,
        ColorName::LightPink => "浅粉色"@,
        ColorName::PinkishRed => "粉红色"@,
        ColorName::LightYellow => "浅黄色"@,
        ColorName::LightGreen => "浅绿色"@,
        ColorName::LightGrayBlue => "浅灰蓝色"@,
        ColorName::LightBlue => "浅蓝色"@,
        ColorName::LightGrayPurple => "浅灰紫色"@,
        ColorName::Lavender => "淡紫色"@,
        ColorName::LightOrange => "浅橙色"@,
        ColorName::GrayBlue => "灰蓝色"@,
        ColorName::GrayYellow => "灰黄色"@,
        ColorName::DarkBrown => "深棕色"@,
        ColorName::Brown => "棕色"@,
        ColorName::DarkGreen => "深绿色"@,
        ColorName::DarkBlue => "深蓝色"@,
        ColorName::DarkPurple => "深紫色"@,
        ColorName::DarkRed => "深红色"@,
        ColorName::LightRed => "浅红色"@,
        ColorName::Red => "红色"@,
        ColorName::OrangeRed => "橘红色"@,
        ColorName::Orange => "橙色"@,
        ColorName::Yellow => "黄色"@,
        ColorName::YellowGreen => "黄绿色"@,
        ColorName::Green => "绿色"@,
        ColorName::Teal => "青绿色"@,
        ColorName::Cyan => "青色"@,
        ColorName::Blue => "蓝色"@,
        ColorName::Violet => "蓝紫色"@,
        ColorName::LightPurple => "浅紫色"@,
        ColorName::Purple => "紫色"@,
        ColorName::Pink => "粉色"@,
        ColorName::Rose => "玫红色"@,
    }
}

impl ColorName {
    /// The Chinese text of this name.
    pub fn text(self) -> (s: &'static str)
        ensures
            s@ == name_text(self),
    {
        match self {
            ColorName::Black => "黑色",
            ColorName::White => "白色",
            ColorName::DarkGray => "深灰色",
            ColorName::Gray => "灰色",
            ColorName::LightGray => "浅灰色",
            ColorName::NearWhite => "近白色",
            ColorName::LightPink => "浅粉色",
            ColorName::PinkishRed => "粉红色",
            ColorName::LightYellow => "浅黄色",
            ColorName::LightGreen => "浅绿色",
            ColorName::LightGrayBlue => "浅灰蓝色",
            ColorName::LightBlue => "浅蓝色",
            ColorName::LightGrayPurple => "浅灰紫色",
            ColorName::Lavender => "淡紫色",
            ColorName::LightOrange => "浅橙色",
            ColorName::GrayBlue => "灰蓝色",
            ColorName::GrayYellow => "灰黄色",
            ColorName::DarkBrown => "深棕色",
            ColorName::Brown => "棕色",
            ColorName::DarkGreen => "深绿色",
            ColorName::DarkBlue => "深蓝色",
            ColorName::DarkPurple => "深紫色",
            ColorName::DarkRed => "深红色",
            ColorName::LightRed => "浅红色",
            ColorName::Red => "红色",
            ColorName::OrangeRed => "橘红色",
            ColorName::Orange => "橙色",
            ColorName::Yellow => "黄色",
            ColorName::YellowGreen => "黄绿色",
            ColorName::Green => "绿色",
            ColorName::Teal => "青绿色",
            ColorName::Cyan => "青色",
            ColorName::Blue => "蓝色",
            ColorName::Violet => "蓝紫色",
            ColorName::LightPurple => "浅紫色",
            ColorName::Purple => "紫色",
            ColorName::Pink => "粉色",
            ColorName::Rose => "玫红色",
        }
    }
}

/// A channel as `f32`, divided by 255.
pub open spec fn ch32(c: u8) -> int {
    unit_channel(c, 24)
}

/// The saturation `delta as f32 / max as f32`.
pub open spec fn name_saturation(r: u8, g: u8, b: u8) -> int {
    fl_div((max3(r, g, b) - min3(r, g, b)) * one(), max3(r, g, b) * one(), 24)
}

/// The chroma `(max - min) as f32 / 255.0`.
pub open spec fn name_chroma(r: u8, g: u8, b: u8) -> int {
    fl_div((max3(r, g, b) - min3(r, g, b)) * one(), 255 * one(), 24)
}

/// The hue in degrees as `f32` arithmetic computes it, before it is moved
/// into `[0, 360)`: `60 * ((g - b) / d % 6)`, `60 * ((b - r) / d + 2)` or
/// `60 * ((r - g) / d + 4)`, by the channel that is largest.
pub open spec fn name_raw_hue(r: u8, g: u8, b: u8) -> int {
    let (rf, gf, bf) = (ch32(r), ch32(g), ch32(b));
    let d = name_chroma(r, g, b);
    if max3(r, g, b) == r {
        fl_mul(fl_rem(fl_div(fl_sub(gf, bf, 24), d, 24), 6 * one()), 60, 24)
    } else if max3(r, g, b) == g {
        fl_mul(fl_add(fl_div(fl_sub(bf, rf, 24), d, 24), 2 * one(), 24), 60, 24)
    } else {
        fl_mul(fl_add(fl_div(fl_sub(rf, gf, 24), d, 24), 4 * one(), 24), 60, 24)
    }
}

/// The hue in degrees, negative hues moved up by 360.
pub open spec fn name_hue(r: u8, g: u8, b: u8) -> int {
    let raw = name_raw_hue(r, g, b);
    if raw < 0 { fl_add(raw, 360 * one(), 24) } else { raw }
}

/// `pct / 100` as an `f32` (the thresholds `0.12`, `0.14` and `0.35`).
pub open spec fn percent_f32(pct: int) -> int {
    fl_div(pct * one(), 100 * one(), 24)
}

/// The hue lies in the closed range `[lo, hi]` degrees.
pub open spec fn hue_within(hue: int, lo: int, hi: int) -> bool {
    lo * one() <= hue <= hi * one()
}

/// The hue as whole degrees, `hue as i32`.
pub open spec fn whole_degrees(hue: int) -> int {
    saturate_i32(trunc_units(hue))
}

/// Gray levels by lightness.
pub open spec fn gray_by_lightness(light: int) -> ColorName {
    if light < 65 {
        ColorName::DarkGray
    } else if light < 155 {
        ColorName::Gray
    } else if light < 220 {
        ColorName::LightGray
    } else {
        ColorName::NearWhite
    }
}

/// Names of light (pale) colours that keep their hue; `None` where the hue
/// falls between the listed ranges.
pub open spec fn pale_name(hue: int, sat: int) -> Option<ColorName> {
    if hue_within(hue, 315, 340) {
        Some(ColorName::LightPink)
    } else if hue > 340 * one() || hue <= 10 * one() {
        Some(ColorName::PinkishRed)
    } else if hue_within(hue, 35, 78) {
        Some(ColorName::LightYellow)
    } else if hue_within(hue, 79, 180) {
        Some(ColorName::LightGreen)
    } else if hue_within(hue, 181, 250) {
        Some(if sat < percent_f32(12) { ColorName::LightGrayBlue } else { ColorName::LightBlue })
    } else if 251 * one() <= hue < 315 * one() {
        Some(if sat < percent_f32(12) { ColorName::LightGrayPurple } else { ColorName::Lavender })
    } else if 11 * one() <= hue < 35 * one() {
        Some(ColorName::LightOrange)
    } else {
        None
    }
}

/// Names of dark colours by whole-degree hue.
pub open spec fn dark_name(t: int) -> ColorName {
    if 15 <= t <= 55 {
        ColorName::DarkBrown
    } else if 56 <= t <= 175 {
        ColorName::DarkGreen
    } else if 176 <= t <= 260 {
        ColorName::DarkBlue
    } else if 261 <= t <= 335 {
        ColorName::DarkPurple
    } else {
        ColorName::DarkRed
    }
}

/// Names of the remaining colours by whole-degree hue and lightness.
pub open spec fn hue_name(t: int, light: int) -> ColorName {
    if (0 <= t <= 10) || (350 <= t <= 359) {
        if light > 200 { ColorName::LightRed } else { ColorName::Red }
    } else if 11 <= t <= 24 {
        ColorName::OrangeRed
    } else if 25 <= t <= 44 {
        if light > 190 { ColorName::LightOrange } else { ColorName::Orange }
    } else if 45 <= t <= 69 {
        if light > 205 { ColorName::LightYellow } else { ColorName::Yellow }
    } else if 70 <= t <= 94 {
        ColorName::YellowGreen
    } else if 95 <= t <= 154 {
        if light > 195 { ColorName::LightGreen } else { ColorName::Green }
    } else if 155 <= t <= 184 {
        ColorName::Teal
    } else if 185 <= t <= 204 {
        ColorName::Cyan
    } else if 205 <= t <= 249 {
        if light > 190 { ColorName::LightBlue } else { ColorName::Blue }
    } else if 250 <= t <= 274 {
        ColorName::Violet
    } else if 275 <= t <= 314 {
        if light > 195 { ColorName::LightPurple } else { ColorName::Purple }
    } else if 315 <= t <= 339 {
        if light > 200 { ColorName::LightPink } else { ColorName::Pink }
    } else {
        ColorName::Rose
    }
}

/// The name of a colour with chroma of at least 8.
pub open spec fn chromatic_name(r: u8, g: u8, b: u8) -> ColorName {
    let mx = max3(r, g, b);
    let mn = min3(r, g, b);
    let d = mx - mn;
    let light = (mx + mn) / 2;
    let hue = name_hue(r, g, b);
    let sat = name_saturation(r, g, b);
    if light >= 200 && pale_name(hue, sat) is Some {
        pale_name(hue, sat)->0
    } else if mn > 242 {
        ColorName::White
    } else if d < 10 {
        gray_by_lightness(light)
    } else if sat < percent_f32(35) && hue_within(hue, 190, 260) {
        ColorName::GrayBlue
    } else if sat < percent_f32(35) && hue_within(hue, 35, 75) {
        ColorName::GrayYellow
    } else if sat < percent_f32(35) && sat < percent_f32(14) {
        if light < 80 {
            ColorName::DarkGray
        } else if light > 210 {
            ColorName::LightGray
        } else {
            ColorName::Gray
        }
    } else if hue_within(hue, 12, 48) && light < 145 && r < 190 && r > g && g >= b {
        if light < 70 { ColorName::DarkBrown } else { ColorName::Brown }
    } else if light < 70 {
        dark_name(whole_degrees(hue))
    } else {
        hue_name(whole_degrees(hue), light)
    }
}

/// The name of a colour.
pub open spec fn color_class(r: u8, g: u8, b: u8) -> ColorName {
    let mx = max3(r, g, b);
    let mn = min3(r, g, b);
    if mx < 25 {
        ColorName::Black
    } else if mx - mn < 8 {
        if mn > 242 { ColorName::White } else { gray_by_lightness((mx + mn) / 2) }
    } else {
        chromatic_name(r, g, b)
    }
}


/// Magnitudes of the `f32` steps of the hue and saturation of a colour
/// whose chroma is at least 8.
proof fn lemma_name_bounds(r: u8, g: u8, b: u8)
    requires
        max3(r, g, b) - min3(r, g, b) >= 8,
    ensures
        0 <= ch32(r) <= 2 * one(),
        0 <= ch32(g) <= 2 * one(),
        0 <= ch32(b) <= 2 * one(),
        0x1000_0000_0000_0000 <= name_chroma(r, g, b) <= 2 * one(),
        0 <= name_saturation(r, g, b) <= 2 * one(),
        abs(fl_sub(ch32(g), ch32(b), 24)) <= 2 * one(),
        abs(fl_sub(ch32(b), ch32(r), 24)) <= 2 * one(),
        abs(fl_sub(ch32(r), ch32(g), 24)) <= 2 * one(),
        abs(fl_div(fl_sub(ch32(g), ch32(b), 24), name_chroma(r, g, b), 24)) <= 1024 * one(),
        abs(fl_div(fl_sub(ch32(b), ch32(r), 24), name_chroma(r, g, b), 24)) <= 1024 * one(),
        abs(fl_div(fl_sub(ch32(r), ch32(g), 24), name_chroma(r, g, b), 24)) <= 1024 * one(),
        abs(fl_add(fl_div(fl_sub(ch32(b), ch32(r), 24), name_chroma(r, g, b), 24), 2 * one(), 24))
            <= 2048 * one(),
        abs(fl_add(fl_div(fl_sub(ch32(r), ch32(g), 24), name_chroma(r, g, b), 24), 4 * one(), 24))
            <= 2048 * one(),
        abs(name_raw_hue(r, g, b)) <= 131072 * one(),
        abs(name_hue(r, g, b)) <= 524288 * one(),
{
    lemma_pow2_bounds();
    vstd::arithmetic::power2::lemma2_to64();
    lemma_unit_channel(r, 24);
    lemma_unit_channel(g, 24);
    lemma_unit_channel(b, 24);
    let (rf, gf, bf) = (ch32(r), ch32(g), ch32(b));
    let mx = max3(r, g, b);
    let dd = mx - min3(r, g, b);
    assert(dd * one() * one() < 255 * one() * pow2(67)) by (nonlinear_arith)
        requires
            0 <= dd <= 255,
            one() == 0x4_0000_0000_0000_0000,
            pow2(67) == 2 * one(),
    ;
    lemma_fl_div(dd * one(), 255 * one(), 24, 67);
    let d = name_chroma(r, g, b);
    assert(255 * one() * d >= dd * one() * one() - 255 * one() * (0x800_0000_0000 + 1));
    assert(d >= 0x1000_0000_0000_0000) by (nonlinear_arith)
        requires
            255 * one() * d >= dd * one() * one() - 255 * one() * (0x800_0000_0000 + 1),
            dd >= 8,
            one() == 0x4_0000_0000_0000_0000,
    ;
    assert(dd * one() * one() < mx * one() * pow2(67)) by (nonlinear_arith)
        requires
            0 <= dd <= mx,
            mx >= 8,
            one() == 0x4_0000_0000_0000_0000,
            pow2(67) == 2 * one(),
    ;
    lemma_fl_div(dd * one(), mx * one(), 24, 67);
    lemma_fl_sub(gf, bf, 24, 67);
    lemma_fl_sub(bf, rf, 24, 67);
    lemma_fl_sub(rf, gf, 24, 67);
    lemma_name_quotient(fl_sub(gf, bf, 24), d);
    lemma_name_quotient(fl_sub(bf, rf, 24), d);
    lemma_name_quotient(fl_sub(rf, gf, 24), d);
    let q1 = fl_div(fl_sub(gf, bf, 24), d, 24);
    let q2 = fl_div(fl_sub(bf, rf, 24), d, 24);
    let q3 = fl_div(fl_sub(rf, gf, 24), d, 24);
    let m1 = fl_rem(q1, 6 * one());
    assert(abs(m1) <= 6 * one());
    assert(abs(m1 * 60) < pow2(76)) by (nonlinear_arith)
        requires
            abs(m1) <= 6 * one(),
            pow2(76) == 1024 * one(),
            one() == 0x4_0000_0000_0000_0000,
    ;
    lemma_fl_mul(m1, 60, 24, 76);
    lemma_fl_add(q2, 2 * one(), 24, 77);
    lemma_fl_add(q3, 4 * one(), 24, 77);
    let a2 = fl_add(q2, 2 * one(), 24);
    let a3 = fl_add(q3, 4 * one(), 24);
    assert(abs(a2 * 60) < pow2(83)) by (nonlinear_arith)
        requires
            abs(a2) <= 2048 * one(),
            pow2(83) == 131072 * one(),
            one() == 0x4_0000_0000_0000_0000,
    ;
    assert(abs(a3 * 60) < pow2(83)) by (nonlinear_arith)
        requires
            abs(a3) <= 2048 * one(),
            pow2(83) == 131072 * one(),
            one() == 0x4_0000_0000_0000_0000,
    ;
    lemma_fl_mul(a2, 60, 24, 83);
    lemma_fl_mul(a3, 60, 24, 83);
    let raw = name_raw_hue(r, g, b);
    lemma_fl_add(raw, 360 * one(), 24, 85);
}

/// A difference of `f32` fractions divided by the chroma stays below 1024.
proof fn lemma_name_quotient(x: int, d: int)
    requires
        abs(x) <= 2 * one(),
        d >= 0x1000_0000_0000_0000,
    ensures
        abs(fl_div(x, d, 24)) <= 1024 * one(),
{
    lemma_pow2_bounds();
    assert(abs(x) * one() < d * pow2(76)) by (nonlinear_arith)
        requires
            abs(x) <= 2 * one(),
            d >= 0x1000_0000_0000_0000,
            one() == 0x4_0000_0000_0000_0000,
            pow2(76) == 1024 * one(),
    ;
    lemma_fl_div(x, d, 24, 76);
}

/// `x / d` in `f32` for a difference of fractions and a chroma.
fn name_quotient(x: i128, d: i128) -> (q: i128)
    requires
        abs(x as int) <= 2 * one(),
        0x1000_0000_0000_0000 <= d <= 2 * one(),
    ensures
        q == fl_div(x as int, d as int, 24),
{
    assert(abs(x as int) * one() < abs(d as int) * 0x100_0000_0000_0000_0000_0000_0000_0000) by (nonlinear_arith)
        requires
            abs(x as int) <= 2 * one(),
            d >= 0x1000_0000_0000_0000,
            one() == 0x4_0000_0000_0000_0000,
    ;
    float_div(x, d, F32_BITS)
}

/// The `f32` hue and saturation of a colour whose chroma is at least 8.
fn hue_and_saturation(r: u8, g: u8, b: u8) -> (res: (i128, i128))
    requires
        max3(r, g, b) - min3(r, g, b) >= 8,
    ensures
        res.0 == name_hue(r, g, b),
        res.1 == name_saturation(r, g, b),
{
    proof {
        lemma_pow2_bounds();
        lemma_name_bounds(r, g, b);
    }
    let mx = channel_max(r, g, b);
    let mn = channel_min(r, g, b);
    let dd = (mx - mn) as i128;
    assert(abs((dd * ONE) as int) * one() < abs((mx as i128 * ONE) as int) * 0x100_0000_0000_0000_0000_0000_0000_0000) by (nonlinear_arith)
        requires
            0 <= dd <= mx,
            mx >= 8,
            one() == 0x4_0000_0000_0000_0000,
            ONE == one(),
    ;
    let sat = float_div(dd * ONE, mx as i128 * ONE, F32_BITS);
    assert(abs((dd * ONE) as int) * one() < abs((255 * ONE) as int) * 0x100_0000_0000_0000_0000_0000_0000_0000) by (nonlinear_arith)
        requires
            0 <= dd <= 255,
            one() == 0x4_0000_0000_0000_0000,
            ONE == one(),
    ;
    let d = float_div(dd * ONE, 255 * ONE, F32_BITS);
    let rf = channel_fraction(r, F32_BITS);
    let gf = channel_fraction(g, F32_BITS);
    let bf = channel_fraction(b, F32_BITS);
    let raw = if mx == r {
        let q = name_quotient(float_sub(gf, bf, F32_BITS), d);
        float_mul(float_rem(q, 6 * ONE), 60, F32_BITS)
    } else if mx == g {
        let q = name_quotient(float_sub(bf, rf, F32_BITS), d);
        float_mul(float_add(q, 2 * ONE, F32_BITS), 60, F32_BITS)
    } else {
        let q = name_quotient(float_sub(rf, gf, F32_BITS), d);
        float_mul(float_add(q, 4 * ONE, F32_BITS), 60, F32_BITS)
    };
    let hue = if raw < 0 { float_add(raw, 360 * ONE, F32_BITS) } else { raw };
    (hue, sat)
}

/// `pct / 100` as an `f32`.
fn percent_fraction(pct: i128) -> (x: i128)
    requires
        0 <= pct <= 100,
    ensures
        x == percent_f32(pct as int),
{
    assert(abs((pct * ONE) as int) * one() < abs((100 * ONE) as int) * 0x100_0000_0000_0000_0000_0000_0000_0000) by (nonlinear_arith)
        requires
            0 <= pct <= 100,
            one() == 0x4_0000_0000_0000_0000,
            ONE == one(),
    ;
    float_div(pct * ONE, 100 * ONE, F32_BITS)
}

fn in_degrees(hue: i128, lo: i128, hi: i128) -> (res: bool)
    requires
        0 <= lo <= 360,
        0 <= hi <= 360,
    ensures
        res == hue_within(hue as int, lo as int, hi as int),
{
    lo * ONE <= hue && hue <= hi * ONE
}

fn gray_level(light: u32) -> (c: ColorName)
    ensures
        c == gray_by_lightness(light as int),
{
    if light < 65 {
        ColorName::DarkGray
    } else if light < 155 {
        ColorName::Gray
    } else if light < 220 {
        ColorName::LightGray
    } else {
        ColorName::NearWhite
    }
}

fn pale(hue: i128, sat: i128, c12: i128) -> (c: Option<ColorName>)
    requires
        c12 == percent_f32(12),
    ensures
        c == pale_name(hue as int, sat as int),
{
    if in_degrees(hue, 315, 340) {
        Some(ColorName::LightPink)
    } else if hue > 340 * ONE || hue <= 10 * ONE {
        Some(ColorName::PinkishRed)
    } else if in_degrees(hue, 35, 78) {
        Some(ColorName::LightYellow)
    } else if in_degrees(hue, 79, 180) {
        Some(ColorName::LightGreen)
    } else if in_degrees(hue, 181, 250) {
        Some(if sat < c12 { ColorName::LightGrayBlue } else { ColorName::LightBlue })
    } else if 251 * ONE <= hue && hue < 315 * ONE {
        Some(if sat < c12 { ColorName::LightGrayPurple } else { ColorName::Lavender })
    } else if 11 * ONE <= hue && hue < 35 * ONE {
        Some(ColorName::LightOrange)
    } else {
        None
    }
}

fn dark(t: i32) -> (c: ColorName)
    ensures
        c == dark_name(t as int),
{
    if 15 <= t && t <= 55 {
        ColorName::DarkBrown
    } else if 56 <= t && t <= 175 {
        ColorName::DarkGreen
    } else if 176 <= t && t <= 260 {
        ColorName::DarkBlue
    } else if 261 <= t && t <= 335 {
        ColorName::DarkPurple
    } else {
        ColorName::DarkRed
    }
}

fn by_hue(t: i32, light: u32) -> (c: ColorName)
    ensures
        c == hue_name(t as int, light as int),
{
    if (0 <= t && t <= 10) || (350 <= t && t <= 359) {
        if light > 200 { ColorName::LightRed } else { ColorName::Red }
    } else if 11 <= t && t <= 24 {
        ColorName::OrangeRed
    } else if 25 <= t && t <= 44 {
        if light > 190 { ColorName::LightOrange } else { ColorName::Orange }
    } else if 45 <= t && t <= 69 {
        if light > 205 { ColorName::LightYellow } else { ColorName::Yellow }
    } else if 70 <= t && t <= 94 {
        ColorName::YellowGreen
    } else if 95 <= t && t <= 154 {
        if light > 195 { ColorName::LightGreen } else { ColorName::Green }
    } else if 155 <= t && t <= 184 {
        ColorName::Teal
    } else if 185 <= t && t <= 204 {
        ColorName::Cyan
    } else if 205 <= t && t <= 249 {
        if light > 190 { ColorName::LightBlue } else { ColorName::Blue }
    } else if 250 <= t && t <= 274 {
        ColorName::Violet
    } else if 275 <= t && t <= 314 {
        if light > 195 { ColorName::LightPurple } else { ColorName::Purple }
    } else if 315 <= t && t <= 339 {
        if light > 200 { ColorName::LightPink } else { ColorName::Pink }
    } else {
        ColorName::Rose
    }
}

/// Classifies a colour into one of the picker's names.
pub fn classify_color(r: u8, g: u8, b: u8) -> (c: ColorName)
    ensures
        c == color_class(r, g, b),
{
    let mx = channel_max(r, g, b) as u32;
    let mn = channel_min(r, g, b) as u32;
    let d = mx - mn;
    let light = (mx + mn) / 2;
    if mx < 25 {
        return ColorName::Black;
    }
    if d < 8 {
        return if mn > 242 { ColorName::White } else { gray_level(light) };
    }
    let (hue, sat) = hue_and_saturation(r, g, b);
    if light >= 200 {
        if let Some(c) = pale(hue, sat, percent_fraction(12)) {
            return c;
        }
    }
    let c35 = percent_fraction(35);
    let c14 = percent_fraction(14);
    if mn > 242 {
        ColorName::White
    } else if d < 10 {
        gray_level(light)
    } else if sat < c35 && in_degrees(hue, 190, 260) {
        ColorName::GrayBlue
    } else if sat < c35 && in_degrees(hue, 35, 75) {
        ColorName::GrayYellow
    } else if sat < c35 && sat < c14 {
        if light < 80 {
            ColorName::DarkGray
        } else if light > 210 {
            ColorName::LightGray
        } else {
            ColorName::Gray
        }
    } else if in_degrees(hue, 12, 48) && light < 145 && r < 190 && r > g && g >= b {
        if light < 70 { ColorName::DarkBrown } else { ColorName::Brown }
    } else {
        proof {
            lemma_name_bounds(r, g, b);
        }
        let t = to_i32(trunc_to_whole(hue));
        if light < 70 {
            dark(t)
        } else {
            by_hue(t, light)
        }
    }
}

/// The plain Chinese name of a colour.
pub fn color_name(r: u8, g: u8, b: u8) -> (s: &'static str)
    ensures
        s@ == name_text(color_class(r, g, b)),
{
    classify_color(r, g, b).text()
}


/// Whether a name is one of the gray scale names (white included).
pub open spec fn is_gray_name(c: ColorName) -> bool {
    c == ColorName::White || c == ColorName::DarkGray || c == ColorName::Gray || c
        == ColorName::LightGray || c == ColorName::NearWhite
}

/// Very dark colours are black, and colours whose channels lie within 8 of
/// each other get a gray scale name.
pub proof fn dark_and_near_gray_colors(r: u8, g: u8, b: u8)
    ensures
        max3(r, g, b) < 25 ==> color_class(r, g, b) == ColorName::Black,
        max3(r, g, b) >= 25 && max3(r, g, b) - min3(r, g, b) < 8 ==> is_gray_name(
            color_class(r, g, b),
        ),
{
}

/// A difference of `f32` channel fractions divided by the chroma lies within
/// `2^55 / dd` of `delta / dd`, for channel difference `delta` and chroma `dd`.
proof fn lemma_hue_quotient(x: int, d: int, delta: int, dd: int)
    requires
        8 <= dd <= 255,
        abs(delta) <= dd,
        abs(255 * x - delta * one()) <= 255 * 0x2000_0000_0000,
        abs(255 * d - dd * one()) <= 255 * (0x800_0000_0000 + 1),
    ensures
        abs(fl_div(x, d, 24)) <= 2 * one(),
        abs(dd * fl_div(x, d, 24) - delta * one()) <= 0x80_0000_0000_0000,
        x == 0 ==> fl_div(x, d, 24) == 0,
{
    lemma_pow2_bounds();
    assert(0 < d <= 2 * one());
    assert(abs(x) * one() < d * pow2(67)) by (nonlinear_arith)
        requires
            abs(255 * x - delta * one()) <= 255 * 0x2000_0000_0000,
            abs(255 * d - dd * one()) <= 255 * (0x800_0000_0000 + 1),
            abs(delta) <= dd,
            8 <= dd,
            one() == 0x4_0000_0000_0000_0000,
            pow2(67) == 2 * one(),
    ;
    lemma_fl_div(x, d, 24, 67);
    let q = fl_div(x, d, 24);
    let beta = 255 * d - dd * one();
    let gamma = 255 * x - delta * one();
    assert(abs(one() * (dd * q - delta * one())) <= one() * 0x80_0000_0000_0000) by (nonlinear_arith)
        requires
            abs(d * q - x * one()) <= d * (0x800_0000_0000 + 1),
            beta == 255 * d - dd * one(),
            gamma == 255 * x - delta * one(),
            abs(beta) <= 255 * (0x800_0000_0000 + 1),
            abs(gamma) <= 255 * 0x2000_0000_0000,
            abs(q) <= 2 * one(),
            0 < d <= 2 * one(),
            one() == 0x4_0000_0000_0000_0000,
    ;
    assert(abs(dd * q - delta * one()) <= 0x80_0000_0000_0000) by (nonlinear_arith)
        requires
            abs(one() * (dd * q - delta * one())) <= one() * 0x80_0000_0000_0000,
            one() == 0x4_0000_0000_0000_0000,
    ;
}

/// The `f32` hue lies within `2^-4` degrees, in the sense below, of the exact
/// hue `hue_times_chroma / (max - min)`.
proof fn lemma_name_hue_error(r: u8, g: u8, b: u8)
    requires
        max3(r, g, b) - min3(r, g, b) >= 8,
    ensures
        abs((max3(r, g, b) - min3(r, g, b)) * name_hue(r, g, b) - hue_times_chroma(r, g, b) * one())
            <= 0x4000_0000_0000_0000,
{
    lemma_pow2_bounds();
    vstd::arithmetic::power2::lemma2_to64();
    lemma_unit_channel(r, 24);
    lemma_unit_channel(g, 24);
    lemma_unit_channel(b, 24);
    let (rf, gf, bf) = (ch32(r), ch32(g), ch32(b));
    let mx = max3(r, g, b);
    let dd = mx - min3(r, g, b);
    assert(dd * one() * one() < 255 * one() * pow2(67)) by (nonlinear_arith)
        requires
            0 <= dd <= 255,
            one() == 0x4_0000_0000_0000_0000,
            pow2(67) == 2 * one(),
    ;
    lemma_fl_div(dd * one(), 255 * one(), 24, 67);
    let d = name_chroma(r, g, b);
    assert(abs(255 * d - dd * one()) <= 255 * (0x800_0000_0000 + 1)) by (nonlinear_arith)
        requires
            abs(255 * one() * d - dd * one() * one()) <= 255 * one() * (0x800_0000_0000 + 1),
            one() == 0x4_0000_0000_0000_0000,
    ;
    let h = hue_times_chroma(r, g, b);
    let hue = name_hue(r, g, b);
    if mx == r {
        let x = fl_sub(gf, bf, 24);
        lemma_fl_sub(gf, bf, 24, 67);
        lemma_hue_quotient(x, d, g - b, dd);
        let q = fl_div(x, d, 24);
        assert(fl_rem(q, 6 * one()) == q);
        lemma_fl_mul(q, 60, 24, 75);
        let raw = fl_mul(q, 60, 24);
        assert(raw == name_raw_hue(r, g, b));
        assert(((75 - 24) as nat) == 51nat);
        vstd::arithmetic::power2::lemma_pow2_adds(32, 19);
        assert(pow2(51) == 0x8_0000_0000_0000);
        assert(abs(dd * raw - 60 * (g - b) * one()) <= dd * 0x8_0000_0000_0000 + 60
            * 0x80_0000_0000_0000) by (nonlinear_arith)
            requires
                abs(raw - q * 60) <= 0x8_0000_0000_0000,
                abs(dd * q - (g - b) * one()) <= 0x80_0000_0000_0000,
                dd > 0,
        ;
        if g == b {
            assert(x == 0);
            assert(q == 0);
            assert(raw == 0);
            assert(hue == 0);
        } else if g > b {
            assert(raw > 0) by (nonlinear_arith)
                requires
                    abs(dd * raw - 60 * (g - b) * one()) <= dd * 0x8_0000_0000_0000 + 60
                        * 0x80_0000_0000_0000,
                    g - b >= 1,
                    0 < dd <= 255,
                    one() == 0x4_0000_0000_0000_0000,
            ;
            assert(hue == raw);
        } else {
            assert(raw < 0) by (nonlinear_arith)
                requires
                    abs(dd * raw - 60 * (g - b) * one()) <= dd * 0x8_0000_0000_0000 + 60
                        * 0x80_0000_0000_0000,
                    g - b <= -1,
                    0 < dd <= 255,
                    one() == 0x4_0000_0000_0000_0000,
            ;
            lemma_fl_add(raw, 360 * one(), 24, 75);
            assert(hue == fl_add(raw, 360 * one(), 24));
            assert(abs(dd * hue - h * one()) <= 0x4000_0000_0000_0000) by (nonlinear_arith)
                requires
                    abs(dd * raw - 60 * (g - b) * one()) <= dd * 0x8_0000_0000_0000 + 60
                        * 0x80_0000_0000_0000,
                    abs(hue - (raw + 360 * one())) <= 0x8_0000_0000_0000,
                    h == 360 * dd - 60 * (b - g),
                    0 < dd <= 255,
            ;
        }
    } else if mx == g {
        let x = fl_sub(bf, rf, 24);
        lemma_fl_sub(bf, rf, 24, 67);
        lemma_hue_quotient(x, d, b - r, dd);
        let q = fl_div(x, d, 24);
        lemma_fl_add(q, 2 * one(), 24, 69);
        let sx = fl_add(q, 2 * one(), 24);
        assert(abs(sx * 60) < pow2(75));
        lemma_fl_mul(sx, 60, 24, 75);
        assert(((75 - 24) as nat) == 51nat);
        assert(((69 - 24) as nat) == 45nat);
        vstd::arithmetic::power2::lemma_pow2_adds(32, 19);
        vstd::arithmetic::power2::lemma_pow2_adds(32, 13);
        assert(pow2(51) == 0x8_0000_0000_0000);
        assert(pow2(45) == 0x2000_0000_0000);
        let raw = fl_mul(sx, 60, 24);
        assert(sx >= 0) by (nonlinear_arith)
            requires
                abs(dd * q - (b - r) * one()) <= 0x80_0000_0000_0000,
                abs(sx - (q + 2 * one())) <= 0x2000_0000_0000,
                abs(b - r) <= dd,
                8 <= dd,
                one() == 0x4_0000_0000_0000_0000,
        ;
        assert(hue == raw);
        assert(abs(dd * hue - h * one()) <= 0x4000_0000_0000_0000) by (nonlinear_arith)
            requires
                abs(dd * q - (b - r) * one()) <= 0x80_0000_0000_0000,
                abs(sx - (q + 2 * one())) <= 0x2000_0000_0000,
                abs(raw - sx * 60) <= 0x8_0000_0000_0000,
                hue == raw,
                h == 60 * (b - r) + 120 * dd,
                0 < dd <= 255,
        ;
    } else {
        let x = fl_sub(rf, gf, 24);
        lemma_fl_sub(rf, gf, 24, 67);
        lemma_hue_quotient(x, d, r - g, dd);
        let q = fl_div(x, d, 24);
        lemma_fl_add(q, 4 * one(), 24, 69);
        let sx = fl_add(q, 4 * one(), 24);
        assert(abs(sx * 60) < pow2(75));
        lemma_fl_mul(sx, 60, 24, 75);
        assert(((75 - 24) as nat) == 51nat);
        assert(((69 - 24) as nat) == 45nat);
        vstd::arithmetic::power2::lemma_pow2_adds(32, 19);
        vstd::arithmetic::power2::lemma_pow2_adds(32, 13);
        assert(pow2(51) == 0x8_0000_0000_0000);
        assert(pow2(45) == 0x2000_0000_0000);
        let raw = fl_mul(sx, 60, 24);
        assert(sx >= 0) by (nonlinear_arith)
            requires
                abs(dd * q - (r - g) * one()) <= 0x80_0000_0000_0000,
                abs(sx - (q + 4 * one())) <= 0x2000_0000_0000,
                abs(r - g) <= dd,
                8 <= dd,
                one() == 0x4_0000_0000_0000_0000,
        ;
        assert(hue == raw);
        assert(abs(dd * hue - h * one()) <= 0x4000_0000_0000_0000) by (nonlinear_arith)
            requires
                abs(dd * q - (r - g) * one()) <= 0x80_0000_0000_0000,
                abs(sx - (q + 4 * one())) <= 0x2000_0000_0000,
                abs(raw - sx * 60) <= 0x8_0000_0000_0000,
                hue == raw,
                h == 60 * (r - g) + 240 * dd,
                0 < dd <= 255,
        ;
    }
}

/// The hue the names go by is the exact hue: `hue_times_chroma` lies in
/// `[0, 360 * (max - min))`, the `f32` hue lies within `1 / (16 * (max - min))`
/// degrees of `hue_times_chroma / (max - min)`, and its whole degrees are
/// that quotient's whole part wherever the exact hue is not a whole number
/// other than 0.
pub proof fn name_hue_follows_the_exact_hue(r: u8, g: u8, b: u8)
    requires
        max3(r, g, b) - min3(r, g, b) >= 8,
    ensures
        ({
            let dd = max3(r, g, b) - min3(r, g, b);
            let h = hue_times_chroma(r, g, b);
            &&& 0 <= h < 360 * dd
            &&& 0 <= h / dd < 360
            &&& abs(dd * name_hue(r, g, b) - h * one()) <= one() / 16
            &&& (h % dd != 0 || h == 0) ==> whole_degrees(name_hue(r, g, b)) == h / dd
        }),
{
    lemma_name_hue_error(r, g, b);
    let dd = max3(r, g, b) - min3(r, g, b);
    let h = hue_times_chroma(r, g, b);
    let hue = name_hue(r, g, b);
    assert(0 <= h < 360 * dd);
    let t = h / dd;
    vstd::arithmetic::div_mod::lemma_fundamental_div_mod(h, dd);
    assert(0 <= t < 360) by (nonlinear_arith)
        requires
            h == dd * t + h % dd,
            0 <= h % dd < dd,
            0 <= h < 360 * dd,
            dd > 0,
    ;
    if h % dd != 0 || h == 0 {
        if h == 0 {
            assert(t == 0);
            assert(-one() < hue < one()) by (nonlinear_arith)
                requires
                    abs(dd * hue) <= 0x4000_0000_0000_0000,
                    dd >= 8,
                    one() == 0x4_0000_0000_0000_0000,
            ;
        } else {
            assert(t * one() < hue < (t + 1) * one()) by (nonlinear_arith)
                requires
                    abs(dd * hue - h * one()) <= 0x4000_0000_0000_0000,
                    h == dd * t + h % dd,
                    0 < h % dd < dd,
                    dd >= 8,
                    one() == 0x4_0000_0000_0000_0000,
            ;
        }
        assert(trunc_units(hue) == t) by (nonlinear_arith)
            requires
                (t == 0 && -one() < hue < one()) || (t * one() < hue < (t + 1) * one() && t >= 0),
                one() == 0x4_0000_0000_0000_0000,
        ;
    }
}

/// The name of a fully saturated colour of medium lightness, by the whole
/// degrees of its hue.
pub open spec fn saturated_hue_name(t: int) -> ColorName {
    if t <= 10 || t >= 350 {
        ColorName::Red
    } else if t <= 24 {
        ColorName::OrangeRed
    } else if t <= 44 {
        ColorName::Orange
    } else if t <= 69 {
        ColorName::Yellow
    } else if t <= 94 {
        ColorName::YellowGreen
    } else if t <= 154 {
        ColorName::Green
    } else if t <= 184 {
        ColorName::Teal
    } else if t <= 204 {
        ColorName::Cyan
    } else if t <= 249 {
        ColorName::Blue
    } else if t <= 274 {
        ColorName::Violet
    } else if t <= 314 {
        ColorName::Purple
    } else if t <= 339 {
        ColorName::Pink
    } else {
        ColorName::Rose
    }
}

/// A fully saturated colour (one channel empty) whose largest channel is at
/// least 190 is named by its hue alone: red up to 10 degrees and from 350,
/// orange-red to 24, orange to 44, yellow to 69, yellow-green to 94, green to
/// 154, teal to 184, cyan to 204, blue to 249, violet to 274, purple to 314,
/// pink to 339 and rose between, the hue taken in whole degrees of the exact
/// `hue_times_chroma / (max - min)` (where that is not a whole number other
/// than 0).
pub proof fn saturated_colours_are_named_by_hue(r: u8, g: u8, b: u8)
    requires
        min3(r, g, b) == 0,
        max3(r, g, b) >= 190,
        hue_times_chroma(r, g, b) % max3(r, g, b) != 0 || hue_times_chroma(r, g, b) == 0,
    ensures
        color_class(r, g, b) == saturated_hue_name(hue_times_chroma(r, g, b) / max3(r, g, b)),
{
    name_hue_follows_the_exact_hue(r, g, b);
    let mx = max3(r, g, b);
    lemma_full_saturation(r, g, b);
    let t = whole_degrees(name_hue(r, g, b));
    assert(t == hue_times_chroma(r, g, b) / mx);
    assert(0 <= t < 360);
}

/// A colour with an empty channel has saturation (nearly) 1, above every
/// threshold the names use.
proof fn lemma_full_saturation(r: u8, g: u8, b: u8)
    requires
        min3(r, g, b) == 0,
        max3(r, g, b) >= 8,
    ensures
        name_saturation(r, g, b) >= percent_f32(35),
        name_saturation(r, g, b) >= percent_f32(14),
        name_saturation(r, g, b) >= percent_f32(12),
{
    lemma_pow2_bounds();
    vstd::arithmetic::power2::lemma2_to64();
    let mx = max3(r, g, b);
    assert(mx * one() * one() < mx * one() * pow2(67)) by (nonlinear_arith)
        requires
            mx >= 8,
            one() == 0x4_0000_0000_0000_0000,
            pow2(67) == 2 * one(),
    ;
    assert((mx - min3(r, g, b)) * one() == mx * one());
    lemma_fl_div(mx * one(), mx * one(), 24, 67);
    let sat = name_saturation(r, g, b);
    assert(sat >= one() - 0x1000_0000_0000) by (nonlinear_arith)
        requires
            abs(mx * one() * sat - mx * one() * one()) <= mx * one() * (0x800_0000_0000 + 1),
            mx >= 8,
            one() == 0x4_0000_0000_0000_0000,
    ;
    lemma_percent_below_half(35);
    lemma_percent_below_half(14);
    lemma_percent_below_half(12);
}

/// `pct / 100` in `f32` is at most one half for `pct` up to 40.
proof fn lemma_percent_below_half(pct: int)
    requires
        0 <= pct <= 40,
    ensures
        percent_f32(pct) <= one() / 2,
{
    lemma_pow2_bounds();
    vstd::arithmetic::power2::lemma2_to64();
    assert(pct * one() * one() < 100 * one() * pow2(67)) by (nonlinear_arith)
        requires
            0 <= pct <= 40,
            one() == 0x4_0000_0000_0000_0000,
            pow2(67) == 2 * one(),
    ;
    lemma_fl_div(pct * one(), 100 * one(), 24, 67);
    assert(percent_f32(pct) <= one() / 2) by (nonlinear_arith)
        requires
            abs(100 * one() * percent_f32(pct) - pct * one() * one()) <= 100 * one() * (0x800_0000_0000
                + 1),
            0 <= pct <= 40,
            one() == 0x4_0000_0000_0000_0000,
    ;
}

/// The name of a fully saturated dark colour by the whole degrees of its hue.
pub open spec fn dark_hue_name(t: int) -> ColorName {
    if 15 <= t <= 55 {
        ColorName::DarkBrown
    } else if 56 <= t <= 175 {
        ColorName::DarkGreen
    } else if 176 <= t <= 260 {
        ColorName::DarkBlue
    } else if 261 <= t <= 335 {
        ColorName::DarkPurple
    } else {
        ColorName::DarkRed
    }
}

/// A fully saturated dark colour (one channel empty, the largest between 25
/// and 139, so lightness below 70) is dark brown when red leads green and
/// green leads blue with the hue strictly between 12 and 48 degrees, and
/// otherwise named by its whole-degree hue: dark brown from 15 to 55, dark
/// green to 175, dark blue to 260, dark purple to 335, dark red elsewhere.
pub proof fn saturated_dark_colours_are_named_by_hue(r: u8, g: u8, b: u8)
    requires
        min3(r, g, b) == 0,
        25 <= max3(r, g, b) <= 139,
        hue_times_chroma(r, g, b) % max3(r, g, b) != 0 || hue_times_chroma(r, g, b) == 0,
        hue_times_chroma(r, g, b) != 12 * max3(r, g, b),
        hue_times_chroma(r, g, b) != 48 * max3(r, g, b),
    ensures
        color_class(r, g, b) == (if 12 * max3(r, g, b) < hue_times_chroma(r, g, b) < 48 * max3(r, g, b)
            && r > g && g >= b {
            ColorName::DarkBrown
        } else {
            dark_hue_name(hue_times_chroma(r, g, b) / max3(r, g, b))
        }),
{
    name_hue_follows_the_exact_hue(r, g, b);
    lemma_full_saturation(r, g, b);
    let mx = max3(r, g, b);
    let h = hue_times_chroma(r, g, b);
    let hue = name_hue(r, g, b);
    assert(hue_within(hue, 12, 48) <==> 12 * mx < h < 48 * mx) by (nonlinear_arith)
        requires
            abs(mx * hue - h * one()) <= one() / 16,
            h != 12 * mx,
            h != 48 * mx,
            25 <= mx,
            one() == 0x4_0000_0000_0000_0000,
            hue_within(hue, 12, 48) <==> 12 * one() <= hue <= 48 * one(),
    ;
    assert(whole_degrees(hue) == h / mx);
}

/// Where the exact hue `h / dd` is not `k` degrees, the `f32` hue compares
/// with `k` as the exact hue does.
proof fn lemma_compare_degrees(hue: int, h: int, dd: int, k: int)
    requires
        abs(dd * hue - h * one()) <= one() / 16,
        h != k * dd,
        8 <= dd <= 255,
        0 <= k <= 360,
    ensures
        (k * one() <= hue) == (k * dd < h),
        (hue <= k * one()) == (h < k * dd),
        (hue < k * one()) == (h < k * dd),
        (hue > k * one()) == (h > k * dd),
{
    if h > k * dd {
        assert(hue > k * one()) by (nonlinear_arith)
            requires
                abs(dd * hue - h * one()) <= one() / 16,
                h >= k * dd + 1,
                dd >= 8,
                one() == 0x4_0000_0000_0000_0000,
        ;
    } else {
        assert(hue < k * one()) by (nonlinear_arith)
            requires
                abs(dd * hue - h * one()) <= one() / 16,
                h <= k * dd - 1,
                dd >= 8,
                one() == 0x4_0000_0000_0000_0000,
        ;
    }
}

/// The pale name of a light colour by its exact hue `h / dd` and whether its
/// saturation is below 12%.
pub open spec fn exact_pale_name(h: int, dd: int, grayish: bool) -> Option<ColorName> {
    if 315 * dd <= h <= 340 * dd {
        Some(ColorName::LightPink)
    } else if h > 340 * dd || h <= 10 * dd {
        Some(ColorName::PinkishRed)
    } else if 35 * dd <= h <= 78 * dd {
        Some(ColorName::LightYellow)
    } else if 79 * dd <= h <= 180 * dd {
        Some(ColorName::LightGreen)
    } else if 181 * dd <= h <= 250 * dd {
        Some(if grayish { ColorName::LightGrayBlue } else { ColorName::LightBlue })
    } else if 251 * dd <= h < 315 * dd {
        Some(if grayish { ColorName::LightGrayPurple } else { ColorName::Lavender })
    } else if 11 * dd <= h < 35 * dd {
        Some(ColorName::LightOrange)
    } else {
        None
    }
}

/// The exact hue `h / dd` is none of the ends of the pale hue ranges.
pub open spec fn pale_range_end_free(h: int, dd: int) -> bool {
    &&& h != 10 * dd && h != 11 * dd && h != 35 * dd && h != 78 * dd && h != 79 * dd
    &&& h != 180 * dd && h != 181 * dd && h != 250 * dd && h != 251 * dd
    &&& h != 315 * dd && h != 340 * dd
}

/// Light colours (lightness at least 200, chroma at least 8) keep their hue:
/// light pink from 315 to 340 degrees, pinkish red above 340 and up to 10,
/// light yellow from 35 to 78, light green from 79 to 180, light blue from
/// 181 to 250 and lavender from 251 below 315 (their grayish forms when the
/// saturation `(max - min) / max` is below 12%), light orange from 11 below 35;
/// the hue is the exact `hue_times_chroma / (max - min)`, wherever it is not
/// one of the range ends and the saturation is not exactly 12%.
pub proof fn pale_colours_are_named_by_hue(r: u8, g: u8, b: u8)
    requires
        (max3(r, g, b) + min3(r, g, b)) / 2 >= 200,
        max3(r, g, b) - min3(r, g, b) >= 8,
        pale_range_end_free(hue_times_chroma(r, g, b), max3(r, g, b) - min3(r, g, b)),
        100 * (max3(r, g, b) - min3(r, g, b)) != 12 * max3(r, g, b),
    ensures
        ({
            let dd = max3(r, g, b) - min3(r, g, b);
            let p = exact_pale_name(hue_times_chroma(r, g, b), dd, 100 * dd < 12 * max3(r, g, b));
            p is Some ==> color_class(r, g, b) == p->0
        }),
{
    lemma_pow2_bounds();
    vstd::arithmetic::power2::lemma2_to64();
    name_hue_follows_the_exact_hue(r, g, b);
    let mx = max3(r, g, b);
    let dd = mx - min3(r, g, b);
    let h = hue_times_chroma(r, g, b);
    let hue = name_hue(r, g, b);
    lemma_compare_degrees(hue, h, dd, 10);
    lemma_compare_degrees(hue, h, dd, 11);
    lemma_compare_degrees(hue, h, dd, 35);
    lemma_compare_degrees(hue, h, dd, 78);
    lemma_compare_degrees(hue, h, dd, 79);
    lemma_compare_degrees(hue, h, dd, 180);
    lemma_compare_degrees(hue, h, dd, 181);
    lemma_compare_degrees(hue, h, dd, 250);
    lemma_compare_degrees(hue, h, dd, 251);
    lemma_compare_degrees(hue, h, dd, 315);
    lemma_compare_degrees(hue, h, dd, 340);
    lemma_saturation_below(r, g, b, 12);
    assert(pale_name(hue, name_saturation(r, g, b)) == exact_pale_name(h, dd, 100 * dd < 12 * mx));
}

/// The `f32` saturation is below `pct`% exactly when `(max - min) / max` is,
/// wherever that ratio is not exactly `pct`%.
proof fn lemma_saturation_below(r: u8, g: u8, b: u8, pct: int)
    requires
        max3(r, g, b) - min3(r, g, b) >= 8,
        0 <= pct <= 100,
        100 * (max3(r, g, b) - min3(r, g, b)) != pct * max3(r, g, b),
    ensures
        (name_saturation(r, g, b) < percent_f32(pct)) == (100 * (max3(r, g, b) - min3(r, g, b)) < pct
            * max3(r, g, b)),
{
    lemma_pow2_bounds();
    vstd::arithmetic::power2::lemma2_to64();
    let mx = max3(r, g, b);
    let dd = mx - min3(r, g, b);
    assert(dd * one() * one() < mx * one() * pow2(67)) by (nonlinear_arith)
        requires
            0 < dd <= mx,
            one() == 0x4_0000_0000_0000_0000,
            pow2(67) == 2 * one(),
    ;
    lemma_fl_div(dd * one(), mx * one(), 24, 67);
    let sat = name_saturation(r, g, b);
    assert(abs(mx * sat - dd * one()) <= mx * (0x800_0000_0000 + 1)) by (nonlinear_arith)
        requires
            abs(mx * one() * sat - dd * one() * one()) <= mx * one() * (0x800_0000_0000 + 1),
            one() == 0x4_0000_0000_0000_0000,
    ;
    assert(pct * one() * one() < 100 * one() * pow2(67)) by (nonlinear_arith)
        requires
            0 <= pct <= 100,
            one() == 0x4_0000_0000_0000_0000,
            pow2(67) == 2 * one(),
    ;
    lemma_fl_div(pct * one(), 100 * one(), 24, 67);
    let c = percent_f32(pct);
    assert(abs(100 * c - pct * one()) <= 100 * (0x800_0000_0000 + 1)) by (nonlinear_arith)
        requires
            abs(100 * one() * c - pct * one() * one()) <= 100 * one() * (0x800_0000_0000 + 1),
            one() == 0x4_0000_0000_0000_0000,
    ;
    if 100 * dd < pct * mx {
        assert(sat < c) by (nonlinear_arith)
            requires
                abs(mx * sat - dd * one()) <= mx * (0x800_0000_0000 + 1),
                abs(100 * c - pct * one()) <= 100 * (0x800_0000_0000 + 1),
                100 * dd <= pct * mx - 1,
                8 <= mx <= 255,
                one() == 0x4_0000_0000_0000_0000,
        ;
    } else {
        assert(sat > c) by (nonlinear_arith)
            requires
                abs(mx * sat - dd * one()) <= mx * (0x800_0000_0000 + 1),
                abs(100 * c - pct * one()) <= 100 * (0x800_0000_0000 + 1),
                100 * dd >= pct * mx + 1,
                8 <= mx <= 255,
                one() == 0x4_0000_0000_0000_0000,
        ;
    }
}

/// The name of a vivid colour by the whole degrees of its hue and its lightness.
pub open spec fn vivid_hue_name(t: int, light: int) -> ColorName {
    if t <= 10 || t >= 350 {
        if light > 200 { ColorName::LightRed } else { ColorName::Red }
    } else if t <= 24 {
        ColorName::OrangeRed
    } else if t <= 44 {
        if light > 190 { ColorName::LightOrange } else { ColorName::Orange }
    } else if t <= 69 {
        if light > 205 { ColorName::LightYellow } else { ColorName::Yellow }
    } else if t <= 94 {
        ColorName::YellowGreen
    } else if t <= 154 {
        if light > 195 { ColorName::LightGreen } else { ColorName::Green }
    } else if t <= 184 {
        ColorName::Teal
    } else if t <= 204 {
        ColorName::Cyan
    } else if t <= 249 {
        if light > 190 { ColorName::LightBlue } else { ColorName::Blue }
    } else if t <= 274 {
        ColorName::Violet
    } else if t <= 314 {
        if light > 195 { ColorName::LightPurple } else { ColorName::Purple }
    } else if t <= 339 {
        if light > 200 { ColorName::LightPink } else { ColorName::Pink }
    } else {
        ColorName::Rose
    }
}

/// A vivid colour (saturation `(max - min) / max` above 35%, chroma at least
/// 10, lightness from 70 below 200) is brown when red leads green, green leads
/// blue, red is below 190, the lightness below 145 and the hue strictly between
/// 12 and 48 degrees; otherwise it is named by its whole-degree hue and its
/// lightness: red to 10 and from 350, orange-red to 24, orange (light orange
/// above lightness 190) to 44, yellow to 69, yellow-green to 94, green (light
/// green above 195) to 154, teal to 184, cyan to 204, blue (light blue above
/// 190) to 249, violet to 274, purple (light purple above 195) to 314, pink to
/// 339 and rose between. The hue is the exact `hue_times_chroma / (max - min)`
/// where it is not a whole number other than 0, 12 or 48.
pub proof fn vivid_colours_are_named_by_hue_and_lightness(r: u8, g: u8, b: u8)
    requires
        max3(r, g, b) - min3(r, g, b) >= 10,
        70 <= (max3(r, g, b) + min3(r, g, b)) / 2 < 200,
        100 * (max3(r, g, b) - min3(r, g, b)) > 35 * max3(r, g, b),
        hue_times_chroma(r, g, b) % (max3(r, g, b) - min3(r, g, b)) != 0 || hue_times_chroma(r, g, b)
            == 0,
        hue_times_chroma(r, g, b) != 12 * (max3(r, g, b) - min3(r, g, b)),
        hue_times_chroma(r, g, b) != 48 * (max3(r, g, b) - min3(r, g, b)),
    ensures
        ({
            let dd = max3(r, g, b) - min3(r, g, b);
            let h = hue_times_chroma(r, g, b);
            let light = (max3(r, g, b) + min3(r, g, b)) / 2;
            color_class(r, g, b) == if 12 * dd < h < 48 * dd && light < 145 && r < 190 && r > g && g
                >= b {
                ColorName::Brown
            } else {
                vivid_hue_name(h / dd, light)
            }
        }),
{
    name_hue_follows_the_exact_hue(r, g, b);
    let dd = max3(r, g, b) - min3(r, g, b);
    let h = hue_times_chroma(r, g, b);
    let hue = name_hue(r, g, b);
    lemma_saturation_below(r, g, b, 35);
    lemma_compare_degrees(hue, h, dd, 12);
    lemma_compare_degrees(hue, h, dd, 48);
    assert(max3(r, g, b) >= 25);
    assert(whole_degrees(hue) == h / dd);
}

/// The gray name of a muted colour by its lightness.
pub open spec fn muted_gray_name(light: int) -> ColorName {
    if light < 80 {
        ColorName::DarkGray
    } else if light > 210 {
        ColorName::LightGray
    } else {
        ColorName::Gray
    }
}

/// A muted colour (saturation `(max - min) / max` below 35%, chroma at least
/// 10, lightness below 200, no channel above 242 as its smallest) is gray blue
/// when its hue is from 190 to 260 degrees, gray yellow from 35 to 75, and
/// otherwise, when its saturation is below 14%, dark gray (lightness below
/// 80), light gray (above 210) or gray. Hue and saturation are the exact
/// `hue_times_chroma / (max - min)` and `(max - min) / max`, away from those
/// range ends and thresholds.
pub proof fn muted_colours_are_gray_blue_gray_yellow_or_gray(r: u8, g: u8, b: u8)
    requires
        max3(r, g, b) - min3(r, g, b) >= 10,
        max3(r, g, b) >= 25,
        (max3(r, g, b) + min3(r, g, b)) / 2 < 200,
        100 * (max3(r, g, b) - min3(r, g, b)) < 35 * max3(r, g, b),
        100 * (max3(r, g, b) - min3(r, g, b)) != 14 * max3(r, g, b),
        ({
            let dd = max3(r, g, b) - min3(r, g, b);
            let h = hue_times_chroma(r, g, b);
            h != 190 * dd && h != 260 * dd && h != 35 * dd && h != 75 * dd
        }),
    ensures
        ({
            let dd = max3(r, g, b) - min3(r, g, b);
            let h = hue_times_chroma(r, g, b);
            let light = (max3(r, g, b) + min3(r, g, b)) / 2;
            &&& 190 * dd < h < 260 * dd ==> color_class(r, g, b) == ColorName::GrayBlue
            &&& 35 * dd < h < 75 * dd ==> color_class(r, g, b) == ColorName::GrayYellow
            &&& !(190 * dd < h < 260 * dd) && !(35 * dd < h < 75 * dd) && 100 * dd < 14 * max3(r, g, b)
                ==> color_class(r, g, b) == muted_gray_name(light)
        }),
{
    name_hue_follows_the_exact_hue(r, g, b);
    let dd = max3(r, g, b) - min3(r, g, b);
    let h = hue_times_chroma(r, g, b);
    let hue = name_hue(r, g, b);
    lemma_saturation_below(r, g, b, 35);
    lemma_saturation_below(r, g, b, 14);
    lemma_compare_degrees(hue, h, dd, 190);
    lemma_compare_degrees(hue, h, dd, 260);
    lemma_compare_degrees(hue, h, dd, 35);
    lemma_compare_degrees(hue, h, dd, 75);
}

/// Pale colours keep their hue instead of becoming gray: a light colour
/// (lightness at least 200, chroma at least 8) whose hue lies in one of the
/// pale ranges gets that hued name.
pub proof fn pale_colors_keep_their_hue(r: u8, g: u8, b: u8)
    requires
        max3(r, g, b) >= 25,
        max3(r, g, b) - min3(r, g, b) >= 8,
        (max3(r, g, b) + min3(r, g, b)) / 2 >= 200,
        pale_name(name_hue(r, g, b), name_saturation(r, g, b)) is Some,
    ensures
        !is_gray_name(color_class(r, g, b)),
        color_class(r, g, b) == pale_name(name_hue(r, g, b), name_saturation(r, g, b))->0,
{
}

} // verus!
