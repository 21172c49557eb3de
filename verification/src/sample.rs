//! A sampled colour with all of its notations and its name.

use vstd::prelude::*;
use crate::cmyk::{cmyk, cmyk_text};
use crate::color::{hex, hex_text, rgb, rgb_text};
use crate::hsl::{hsl, hsl_text};
use crate::naming::{color_class, color_name, name_text};

verus! {

/// A sampled colour: its channels, its notations and its name.
pub struct SampleColor {
    pub r: u8,
    pub g: u8,
    pub b: u8,
    pub hex: String,
    pub rgb: String,
    pub hsl: String,
    pub cmyk: String,
    pub name: String,
}

/// The colour as `sample` describes it.
pub open spec fn describes(c: &SampleColor, r: u8, g: u8, b: u8) -> bool {
    &&& c.r == r
    &&& c.g == g
    &&& c.b == b
    &&& c.hex@ == hex_text(r, g, b)
    &&& c.rgb@ == rgb_text(r, g, b)
    &&& c.hsl@ == hsl_text(r, g, b)
    &&& c.cmyk@ == cmyk_text(r, g, b)
    &&& c.name@ == name_text(color_class(r, g, b))
}

/// Describes the colour `(r, g, b)`.
pub fn sample(r: u8, g: u8, b: u8) -> (c: SampleColor)
    ensures
        describes(&c, r, g, b),
        c.name@ == name_text(color_class(r, g, b)),
{
    SampleColor {
        r,
        g,
        b,
        hex: hex(r, g, b),
        rgb: rgb(r, g, b),
        hsl: hsl(r, g, b),
        cmyk: cmyk(r, g, b),
        name: String::from_str(color_name(r, g, b)),
    }
}

/// A sampled colour carries the name of its own channels, in their order,
/// and the notations of those channels.
pub proof fn a_sample_names_its_own_channels(c: &SampleColor, r: u8, g: u8, b: u8)
    requires
        describes(c, r, g, b),
    ensures
        c.name@ == name_text(color_class(r, g, b)),
        c.hex@ == hex_text(r, g, b),
        c.rgb@ == rgb_text(r, g, b),
        c.hsl@ == hsl_text(r, g, b),
        c.cmyk@ == cmyk_text(r, g, b),
        (c.r, c.g, c.b) == (r, g, b),
{
}

} // verus!
