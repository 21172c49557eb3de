//! Reading a pixel out of a captured RGBA frame.

use vstd::prelude::*;
use crate::sample::{describes, sample, SampleColor};

verus! {

/// Byte offset of the pixel `(x, y)` in an RGBA frame `width` pixels wide.
pub open spec fn pixel_offset(width: u32, x: u32, y: u32) -> int {
    (y * width + x) * 4
}

/// The colour of pixel `(x, y)` of an RGBA frame `width` pixels wide, or
/// `None` when the frame holds no such pixel.
pub fn sample_pixel(rgba: &[u8], width: u32, x: u32, y: u32) -> (c: Option<SampleColor>)
    requires
        pixel_offset(width, x, y) <= u32::MAX,
        pixel_offset(width, x, y) + 2 <= usize::MAX,
    ensures
        c is None <==> pixel_offset(width, x, y) + 2 >= rgba@.len(),
        c matches Some(c) ==> {
            let i = pixel_offset(width, x, y);
            describes(&c, rgba@[i], rgba@[i + 1], rgba@[i + 2])
        },
{
    let i = ((y as u64 * width as u64 + x as u64) * 4) as usize;
    assert(i == pixel_offset(width, x, y)) by (nonlinear_arith)
        requires
            i == (y as u64 * width as u64 + x as u64) * 4,
    ;
    if i + 2 >= rgba.len() {
        return None;
    }
    Some(sample(rgba[i], rgba[i + 1], rgba[i + 2]))
}

} // verus!
