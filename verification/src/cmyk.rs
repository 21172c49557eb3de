//! The CMYK notation of a colour, `cmyk(C%, M%, Y%, K%)`, as `f64`
//! arithmetic computes it: the key is `1 - max` of the channel fractions,
//! each ink is `(1 - c - k) / (1 - k)` (no ink at all once the key reaches
//! `0.9999`), and each is scaled to percent and rounded to a whole number,
//! halves away from zero.

use vstd::prelude::*;
use vstd::arithmetic::power2::pow2;
use crate::color::max3;
use crate::float::{
    abs, channel_fraction, fl_div, fl_mul, fl_sub, float_div, float_sub, lemma_fl_div,
    lemma_fl_sub, lemma_percent_of_ratio, lemma_pow2_bounds, lemma_rounded_fraction, one, round_div, round_half_away, rounded_product, saturate_i32, F64_BITS,
    ONE,
};
use crate::hsl::{ch64, fmax3, lemma_ch64, lemma_ch64_order, lemma_extremes};
use crate::text::{push_signed_decimal, signed_decimal};

verus! {

/// The key (black) fraction, `1 - max`.
pub open spec fn key_fraction(r: u8, g: u8, b: u8) -> int {
    fl_sub(one(), fmax3(r, g, b), 53)
}

/// `0.9999` as an `f64`.
pub open spec fn key_limit() -> int {
    fl_div(9999 * one(), 10000 * one(), 53)
}

/// Whether the key is so high that no ink is used.
pub open spec fn all_key(r: u8, g: u8, b: u8) -> bool {
    key_fraction(r, g, b) >= key_limit()
}

/// The ink fraction of the channel with value `c`, `(1 - c - k) / (1 - k)`.
pub open spec fn ink_fraction(c: u8, r: u8, g: u8, b: u8) -> int {
    let k = key_fraction(r, g, b);
    if all_key(r, g, b) {
        0
    } else {
        fl_div(fl_sub(fl_sub(one(), ch64(c), 53), k, 53), fl_sub(one(), k, 53), 53)
    }
}

/// `(x * 100.0).round() as i32`.
pub open spec fn whole_percent(x: int) -> int {
    saturate_i32(round_half_away(fl_mul(x, 100, 53)))
}

/// The ink of the channel with value `c`, in whole percent.
pub open spec fn cmyk_ink(c: u8, r: u8, g: u8, b: u8) -> int {
    whole_percent(ink_fraction(c, r, g, b))
}

/// The key, in whole percent.
pub open spec fn cmyk_key(r: u8, g: u8, b: u8) -> int {
    whole_percent(key_fraction(r, g, b))
}

/// `cmyk(C%, M%, Y%, K%)`.
pub open spec fn cmyk_text(r: u8, g: u8, b: u8) -> Seq<char> {
    seq!['c', 'm', 'y', 'k', '('] + signed_decimal(cmyk_ink(r, r, g, b)) + seq!['%', ',', ' ']
        + signed_decimal(cmyk_ink(g, r, g, b)) + seq!['%', ',', ' ']
        + signed_decimal(cmyk_ink(b, r, g, b)) + seq!['%', ',', ' ']
        + signed_decimal(cmyk_key(r, g, b)) + seq!['%', ')']
}

/// The key lies within `2^14` of `1 - max`, and the limit within `2^14` of `0.9999`.
proof fn lemma_key(r: u8, g: u8, b: u8)
    ensures
        abs(key_fraction(r, g, b) - (one() - fmax3(r, g, b))) <= 0x4000,
        -0x8000 <= key_fraction(r, g, b) <= one() + 0x4000,
        10000 * key_limit() <= 9999 * one() + 10000 * 0x4001,
        10000 * key_limit() >= 9999 * one() - 10000 * 0x4001,
{
    lemma_pow2_bounds();
    vstd::arithmetic::power2::lemma2_to64();
    lemma_extremes(r, g, b);
    lemma_ch64(max3(r, g, b) as u8);
    lemma_fl_sub(one(), fmax3(r, g, b), 53, 67);
    assert(9999 * one() * one() < 10000 * one() * pow2(67)) by (nonlinear_arith)
        requires
            one() == 0x4_0000_0000_0000_0000,
            pow2(67) == 2 * one(),
    ;
    lemma_fl_div(9999 * one(), 10000 * one(), 53, 67);
}

/// Bounds of the ink of the channel `c` when there is ink at all: the
/// numerator lies in `[-2^16, den + 2^17]` for the divisor `den = 1 - k >= 2^52`.
proof fn lemma_ink_parts(c: u8, r: u8, g: u8, b: u8)
    requires
        !all_key(r, g, b),
        c <= max3(r, g, b),
    ensures
        ({
            let k = key_fraction(r, g, b);
            let x = fl_sub(fl_sub(one(), ch64(c), 53), k, 53);
            let den = fl_sub(one(), k, 53);
            &&& 0x10_0000_0000_0000 <= den <= 2 * one()
            &&& -0x1_0000 <= x <= den + 0x2_0000
            &&& abs(fl_sub(one(), ch64(c), 53)) <= 2 * one()
        }),
{
    lemma_pow2_bounds();
    vstd::arithmetic::power2::lemma2_to64();
    lemma_key(r, g, b);
    lemma_extremes(r, g, b);
    lemma_ch64(c);
    lemma_ch64(max3(r, g, b) as u8);
    lemma_ch64_order(c, max3(r, g, b) as u8);
    let k = key_fraction(r, g, b);
    let u = fl_sub(one(), ch64(c), 53);
    lemma_fl_sub(one(), ch64(c), 53, 67);
    lemma_fl_sub(u, k, 53, 68);
    lemma_fl_sub(one(), k, 53, 67);
}

/// The ink of the channel `c` as a fraction lies in `[-2^32, 1 + 2^32]`.
proof fn lemma_ink(c: u8, r: u8, g: u8, b: u8)
    requires
        c <= max3(r, g, b),
    ensures
        -0x1_0000_0000 <= ink_fraction(c, r, g, b) <= one() + 0x1_0000_0000,
{
    if !all_key(r, g, b) {
        lemma_pow2_bounds();
        vstd::arithmetic::power2::lemma2_to64();
        lemma_ink_parts(c, r, g, b);
        let k = key_fraction(r, g, b);
        let x = fl_sub(fl_sub(one(), ch64(c), 53), k, 53);
        let den = fl_sub(one(), k, 53);
        assert(abs(x) * one() < den * pow2(83)) by (nonlinear_arith)
            requires
                0x10_0000_0000_0000 <= den <= 2 * one(),
                -0x1_0000 <= x <= den + 0x2_0000,
                one() == 0x4_0000_0000_0000_0000,
                pow2(83) == 131072 * one(),
        ;
        lemma_fl_div(x, den, 53, 83);
        let q = fl_div(x, den, 53);
        assert(pow2(30) == 0x4000_0000);
        assert(q <= one() + 0x1_0000_0000) by (nonlinear_arith)
            requires
                den * q - x * one() <= den * (0x4000_0000 + 1),
                x <= den + 0x2_0000,
                den >= 0x10_0000_0000_0000,
                one() == 0x4_0000_0000_0000_0000,
        ;
        assert(q >= -0x1_0000_0000) by (nonlinear_arith)
            requires
                x * one() - den * q <= den * (0x4000_0000 + 1),
                x >= -0x1_0000,
                den >= 0x10_0000_0000_0000,
                one() == 0x4_0000_0000_0000_0000,
        ;
    }
}

fn push_str_lit(s: &mut String, lit: &str)
    ensures
        final(s)@ == old(s)@ + lit@,
{
    s.append(lit);
}

/// The ink fraction of a channel whose fraction is `cf`, given the key `k`.
fn ink(c: u8, r: u8, g: u8, b: u8, cf: i128, k: i128) -> (x: i128)
    requires
        c == r || c == g || c == b,
        cf == ch64(c),
        k == key_fraction(r, g, b),
        !all_key(r, g, b),
    ensures
        x == ink_fraction(c, r, g, b),
        abs(x as int) <= 2 * one(),
{
    proof {
        lemma_pow2_bounds();
        lemma_ch64(c);
        lemma_key(r, g, b);
        lemma_ink_parts(c, r, g, b);
        lemma_ink(c, r, g, b);
    }
    let num = float_sub(float_sub(ONE, cf, F64_BITS), k, F64_BITS);
    let den = float_sub(ONE, k, F64_BITS);
    assert(abs(num as int) * one() < abs(den as int) * 0x100_0000_0000_0000_0000_0000_0000_0000) by (nonlinear_arith)
        requires
            0x10_0000_0000_0000 <= den <= 2 * one(),
            -0x1_0000 <= num <= den + 0x2_0000,
            one() == 0x4_0000_0000_0000_0000,
    ;
    float_div(num, den, F64_BITS)
}

/// The CMYK notation of a colour, `cmyk(C%, M%, Y%, K%)`.
pub fn cmyk(r: u8, g: u8, b: u8) -> (s: String)
    ensures
        s@ == cmyk_text(r, g, b),
{
    proof {
        lemma_pow2_bounds();
        lemma_key(r, g, b);
        lemma_extremes(r, g, b);
        lemma_ch64(max3(r, g, b) as u8);
    }
    let rf = channel_fraction(r, F64_BITS);
    let gf = channel_fraction(g, F64_BITS);
    let bf = channel_fraction(b, F64_BITS);
    let mx0 = if rf >= gf { rf } else { gf };
    let mx = if mx0 >= bf { mx0 } else { bf };
    let k = float_sub(ONE, mx, F64_BITS);
    let limit = float_div(9999 * ONE, 10000 * ONE, F64_BITS);
    let (c, m, y) = if k >= limit {
        (0i128, 0i128, 0i128)
    } else {
        (ink(r, r, g, b, rf, k), ink(g, r, g, b, gf, k), ink(b, r, g, b, bf, k))
    };
    let c_pct = rounded_product(c, 100, F64_BITS);
    let m_pct = rounded_product(m, 100, F64_BITS);
    let y_pct = rounded_product(y, 100, F64_BITS);
    let k_pct = rounded_product(k, 100, F64_BITS);
    let mut s = String::new();
    proof { reveal_strlit("cmyk("); reveal_strlit("%, "); reveal_strlit("%)"); }
    push_str_lit(&mut s, "cmyk(");
    push_signed_decimal(&mut s, c_pct);
    push_str_lit(&mut s, "%, ");
    push_signed_decimal(&mut s, m_pct);
    push_str_lit(&mut s, "%, ");
    push_signed_decimal(&mut s, y_pct);
    push_str_lit(&mut s, "%, ");
    push_signed_decimal(&mut s, k_pct);
    push_str_lit(&mut s, "%)");
    s
}

/// CMYK components stay in `[0, 100]` percent, the brightest channel takes no
/// ink, and black is all key.
pub proof fn cmyk_components_in_range(r: u8, g: u8, b: u8)
    ensures
        0 <= cmyk_ink(r, r, g, b) <= 100,
        0 <= cmyk_ink(g, r, g, b) <= 100,
        0 <= cmyk_ink(b, r, g, b) <= 100,
        0 <= cmyk_key(r, g, b) <= 100,
        cmyk_ink(max3(r, g, b) as u8, r, g, b) == 0,
        max3(r, g, b) == 0 ==> cmyk_key(r, g, b) == 100,
{
    lemma_pow2_bounds();
    vstd::arithmetic::power2::lemma2_to64();
    lemma_key(r, g, b);
    lemma_ink(r, r, g, b);
    lemma_ink(g, r, g, b);
    lemma_ink(b, r, g, b);
    lemma_rounded_fraction(ink_fraction(r, r, g, b), 100);
    lemma_rounded_fraction(ink_fraction(g, r, g, b), 100);
    lemma_rounded_fraction(ink_fraction(b, r, g, b), 100);
    lemma_rounded_fraction(key_fraction(r, g, b), 100);
    lemma_brightest_no_ink(r, g, b);
    if max3(r, g, b) == 0 {
        lemma_extremes(r, g, b);
        lemma_ch64(0);
        assert(fmax3(r, g, b) == 0) by {
            lemma_fl_div(0, 255 * one(), 53, 66);
        }
    }
}

/// The key is `100 * (255 - max) / 255` rounded (there is never a tie);
/// every channel equal to the largest takes no ink, so a gray takes none.
pub proof fn cmyk_key_and_inks(r: u8, g: u8, b: u8)
    ensures
        cmyk_key(r, g, b) == round_div(100 * (255 - max3(r, g, b)), 255),
        r == max3(r, g, b) ==> cmyk_ink(r, r, g, b) == 0,
        g == max3(r, g, b) ==> cmyk_ink(g, r, g, b) == 0,
        b == max3(r, g, b) ==> cmyk_ink(b, r, g, b) == 0,
        r == g && g == b ==> cmyk_ink(r, r, g, b) == 0 && cmyk_ink(g, r, g, b) == 0 && cmyk_ink(
            b,
            r,
            g,
            b,
        ) == 0,
{
    lemma_pow2_bounds();
    lemma_key(r, g, b);
    lemma_extremes(r, g, b);
    lemma_ch64(max3(r, g, b) as u8);
    let t = 255 - max3(r, g, b);
    assert(abs(255 * key_fraction(r, g, b) - t * one()) <= 255 * 0x4000_0000);
    assert((200 * t + 255) % 510 != 0);
    lemma_percent_of_ratio(key_fraction(r, g, b), t, 255);
    lemma_brightest_no_ink(r, g, b);
    lemma_rounded_fraction(0, 100);
    let m = max3(r, g, b) as u8;
    assert(cmyk_ink(m, r, g, b) == 0);
    if r == max3(r, g, b) {
        assert(r == m);
    }
    if g == max3(r, g, b) {
        assert(g == m);
    }
    if b == max3(r, g, b) {
        assert(b == m);
    }
}

/// The ink fraction of the channel `c` lies within `2^-38` of `(max - c) / max`.
proof fn lemma_ink_error(c: u8, r: u8, g: u8, b: u8)
    requires
        c == r || c == g || c == b,
        max3(r, g, b) > 0,
    ensures
        !all_key(r, g, b),
        abs(max3(r, g, b) * ink_fraction(c, r, g, b) - (max3(r, g, b) - c) * one()) <= 0x1000_0000,
{
    lemma_pow2_bounds();
    vstd::arithmetic::power2::lemma2_to64();
    lemma_key(r, g, b);
    lemma_extremes(r, g, b);
    let hi = max3(r, g, b);
    lemma_ch64(hi as u8);
    lemma_ch64(c);
    let mx = fmax3(r, g, b);
    let k = key_fraction(r, g, b);
    assert(!all_key(r, g, b));
    let cf = ch64(c);
    let u = fl_sub(one(), cf, 53);
    lemma_fl_sub(one(), cf, 53, 67);
    lemma_fl_sub(u, k, 53, 68);
    lemma_fl_sub(one(), k, 53, 67);
    let x = fl_sub(u, k, 53);
    let den = fl_sub(one(), k, 53);
    assert(abs(255 * den - hi * one()) <= 255 * 0x1_0000);
    assert(abs(255 * x - (hi - c) * one()) <= 255 * 0x2_0000);
    assert(0 <= hi - c <= hi);
    assert(abs(x) * one() < den * pow2(67)) by (nonlinear_arith)
        requires
            abs(255 * x - (hi - c) * one()) <= 255 * 0x2_0000,
            abs(255 * den - hi * one()) <= 255 * 0x1_0000,
            0 <= hi - c <= hi,
            1 <= hi,
            one() == 0x4_0000_0000_0000_0000,
            pow2(67) == 2 * one(),
    ;
    lemma_fl_div(x, den, 53, 67);
    let q = fl_div(x, den, 53);
    assert(q == ink_fraction(c, r, g, b));
    let beta = 255 * den - hi * one();
    let gamma = 255 * x - (hi - c) * one();
    assert(abs(one() * (hi * q - (hi - c) * one())) <= one() * 0x1000_0000) by (nonlinear_arith)
        requires
            abs(den * q - x * one()) <= den * (0x4000 + 1),
            beta == 255 * den - hi * one(),
            gamma == 255 * x - (hi - c) * one(),
            abs(beta) <= 255 * 0x1_0000,
            abs(gamma) <= 255 * 0x2_0000,
            abs(q) <= 2 * one(),
            0 < den <= 2 * one(),
            one() == 0x4_0000_0000_0000_0000,
    ;
    assert(abs(hi * q - (hi - c) * one()) <= 0x1000_0000) by (nonlinear_arith)
        requires
            abs(one() * (hi * q - (hi - c) * one())) <= one() * 0x1000_0000,
            one() == 0x4_0000_0000_0000_0000,
    ;
}

/// Each ink is `100 * (max - c) / max` for its channel `c`, rounded wherever
/// that ratio is not a tie; black takes no ink at all.
pub proof fn cmyk_inks_are_rounded_ratios(r: u8, g: u8, b: u8)
    ensures
        max3(r, g, b) == 0 ==> cmyk_ink(r, r, g, b) == 0 && cmyk_ink(g, r, g, b) == 0 && cmyk_ink(
            b,
            r,
            g,
            b,
        ) == 0,
        max3(r, g, b) > 0 && (200 * (max3(r, g, b) - r) + max3(r, g, b)) % (2 * max3(r, g, b)) != 0
            ==> cmyk_ink(r, r, g, b) == round_div(100 * (max3(r, g, b) - r), max3(r, g, b)),
        max3(r, g, b) > 0 && (200 * (max3(r, g, b) - g) + max3(r, g, b)) % (2 * max3(r, g, b)) != 0
            ==> cmyk_ink(g, r, g, b) == round_div(100 * (max3(r, g, b) - g), max3(r, g, b)),
        max3(r, g, b) > 0 && (200 * (max3(r, g, b) - b) + max3(r, g, b)) % (2 * max3(r, g, b)) != 0
            ==> cmyk_ink(b, r, g, b) == round_div(100 * (max3(r, g, b) - b), max3(r, g, b)),
{
    let hi = max3(r, g, b);
    if hi == 0 {
        cmyk_key_and_inks(r, g, b);
    } else {
        lemma_ink_error(r, r, g, b);
        lemma_ink_error(g, r, g, b);
        lemma_ink_error(b, r, g, b);
        if (200 * (hi - r) + hi) % (2 * hi) != 0 {
            lemma_percent_of_ratio(ink_fraction(r, r, g, b), hi - r, hi);
        }
        if (200 * (hi - g) + hi) % (2 * hi) != 0 {
            lemma_percent_of_ratio(ink_fraction(g, r, g, b), hi - g, hi);
        }
        if (200 * (hi - b) + hi) % (2 * hi) != 0 {
            lemma_percent_of_ratio(ink_fraction(b, r, g, b), hi - b, hi);
        }
    }
}

/// The channel with the largest value takes no ink.
proof fn lemma_brightest_no_ink(r: u8, g: u8, b: u8)
    ensures
        ink_fraction(max3(r, g, b) as u8, r, g, b) == 0,
{
    if !all_key(r, g, b) {
        lemma_pow2_bounds();
        vstd::arithmetic::power2::lemma2_to64();
        lemma_extremes(r, g, b);
        let c = max3(r, g, b) as u8;
        lemma_ink_parts(c, r, g, b);
        let k = key_fraction(r, g, b);
        assert(fl_sub(one(), ch64(c), 53) == k);
        lemma_fl_sub(k, k, 53, 67);
        let den = fl_sub(one(), k, 53);
        assert(0 * one() < den * pow2(67)) by (nonlinear_arith)
            requires
                den >= 0x10_0000_0000_0000,
                pow2(67) > 0,
        ;
        lemma_fl_div(0, den, 53, 67);
    }
}

} // verus!
