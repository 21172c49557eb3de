//! Channel extremes, the exact hue, and the HEX and RGB notations of a
//! sampled pixel.

use vstd::prelude::*;
use crate::text::{decimal, hex2, hex_digit_value, lemma_hex2_round_trip, push_decimal, push_hex2};

verus! {

pub open spec fn max3(r: u8, g: u8, b: u8) -> int {
    if r >= g && r >= b { r as int } else if g >= b { g as int } else { b as int }
}

pub open spec fn min3(r: u8, g: u8, b: u8) -> int {
    if r <= g && r <= b { r as int } else if g <= b { g as int } else { b as int }
}

/// The exact hue in degrees times the chroma `max - min`, an integer in
/// `[0, 360 * (max - min))`: `60 * (g - b)` (plus a full turn when `g < b`)
/// when red is largest, `60 * (b - r) + 120 * (max - min)` when green is,
/// `60 * (r - g) + 240 * (max - min)` when blue is.
pub open spec fn hue_times_chroma(r: u8, g: u8, b: u8) -> int {
    let d = max3(r, g, b) - min3(r, g, b);
    if max3(r, g, b) == r {
        if g >= b { 60 * (g - b) } else { 360 * d - 60 * (b - g) }
    } else if max3(r, g, b) == g {
        60 * (b - r) + 120 * d
    } else {
        60 * (r - g) + 240 * d
    }
}

/// `#RRGGBB` in upper-case hexadecimal.
pub open spec fn hex_text(r: u8, g: u8, b: u8) -> Seq<char> {
    seq!['#'] + hex2(r) + hex2(g) + hex2(b)
}

/// `rgb(R, G, B)` in decimal.
pub open spec fn rgb_text(r: u8, g: u8, b: u8) -> Seq<char> {
    seq!['r', 'g', 'b', '('] + decimal(r as nat) + seq![',', ' '] + decimal(g as nat)
        + seq![',', ' '] + decimal(b as nat) + seq![')']
}

pub fn channel_max(r: u8, g: u8, b: u8) -> (m: u8)
    ensures
        m == max3(r, g, b),
{
    if r >= g && r >= b { r } else if g >= b { g } else { b }
}

pub fn channel_min(r: u8, g: u8, b: u8) -> (m: u8)
    ensures
        m == min3(r, g, b),
{
    if r <= g && r <= b { r } else if g <= b { g } else { b }
}

fn push_str_lit(s: &mut String, lit: &str)
    ensures
        final(s)@ == old(s)@ + lit@,
{
    s.append(lit);
}

/// The HEX notation of a colour, `#RRGGBB`.
pub fn hex(r: u8, g: u8, b: u8) -> (s: String)
    ensures
        s@ == hex_text(r, g, b),
{
    let mut s = String::new();
    proof { reveal_strlit("#"); }
    push_str_lit(&mut s, "#");
    push_hex2(&mut s, r);
    push_hex2(&mut s, g);
    push_hex2(&mut s, b);
    s
}

/// The RGB notation of a colour, `rgb(R, G, B)`.
pub fn rgb(r: u8, g: u8, b: u8) -> (s: String)
    ensures
        s@ == rgb_text(r, g, b),
{
    let mut s = String::new();
    proof { reveal_strlit("rgb("); reveal_strlit(", "); reveal_strlit(")"); }
    push_str_lit(&mut s, "rgb(");
    push_decimal(&mut s, r as u64);
    push_str_lit(&mut s, ", ");
    push_decimal(&mut s, g as u64);
    push_str_lit(&mut s, ", ");
    push_decimal(&mut s, b as u64);
    push_str_lit(&mut s, ")");
    s
}


/// The HEX notation is `#` and six digits that read back as the channels.
pub proof fn hex_text_reads_back(r: u8, g: u8, b: u8)
    ensures
        hex_text(r, g, b).len() == 7,
        hex_text(r, g, b)[0] == '#',
        forall|i: int| 1 <= i < 7 ==> hex_text(r, g, b)[i] != '#',
        hex_digit_value(hex_text(r, g, b)[1]) * 16 + hex_digit_value(hex_text(r, g, b)[2]) == r,
        hex_digit_value(hex_text(r, g, b)[3]) * 16 + hex_digit_value(hex_text(r, g, b)[4]) == g,
        hex_digit_value(hex_text(r, g, b)[5]) * 16 + hex_digit_value(hex_text(r, g, b)[6]) == b,
{
    lemma_hex2_round_trip(r);
    lemma_hex2_round_trip(g);
    lemma_hex2_round_trip(b);
    let t = hex_text(r, g, b);
    assert(t[1] == hex2(r)[0] && t[2] == hex2(r)[1]);
    assert(t[3] == hex2(g)[0] && t[4] == hex2(g)[1]);
    assert(t[5] == hex2(b)[0] && t[6] == hex2(b)[1]);
}

} // verus!
