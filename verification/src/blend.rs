//! Blending one pixel over another.

use vstd::prelude::*;
use image::Rgba;
use crate::rounding::round_half_up;

verus! {

/// One color channel of `over` laid over `base` with weight `alpha / 255`:
/// `over * a + base * (1 - a)`, rounded to the nearest integer.
pub open spec fn blend_channel(base: u8, over: u8, alpha: u8) -> int {
    round_half_up(over * alpha + base * (255 - alpha), 255)
}

/// The pixel that results from laying `overlay` over `base`: each color
/// channel is blended by the overlay's alpha, and the result is opaque.
pub open spec fn blended(base: Rgba<u8>, overlay: Rgba<u8>) -> Rgba<u8> {
    Rgba(
        [
            blend_channel(base.0[0], overlay.0[0], overlay.0[3]) as u8,
            blend_channel(base.0[1], overlay.0[1], overlay.0[3]) as u8,
            blend_channel(base.0[2], overlay.0[2], overlay.0[3]) as u8,
            255u8,
        ],
    )
}

/// A blended channel lies between the two channels it was made from, so it is
/// a byte again.
pub proof fn lemma_blend_channel_between(base: u8, over: u8, alpha: u8)
    ensures
        base <= over ==> base <= blend_channel(base, over, alpha) <= over,
        over <= base ==> over <= blend_channel(base, over, alpha) <= base,
        0 <= blend_channel(base, over, alpha) <= 255,
{
    let n = over * alpha + base * (255 - alpha);
    let lo: int = if base <= over { base as int } else { over as int };
    let hi: int = if base <= over { over as int } else { base as int };
    assert(255 * lo <= n <= 255 * hi) by (nonlinear_arith)
        requires
            n == over * alpha + base * (255 - alpha),
            0 <= alpha <= 255,
            lo <= base <= hi,
            lo <= over <= hi,
    ;
}

/// With full alpha the overlay's channel comes out unchanged, with none the
/// base's: rounding does not move either.
pub proof fn lemma_blend_channel_extremes(base: u8, over: u8)
    ensures
        blend_channel(base, over, 255) == over,
        blend_channel(base, over, 0) == base,
{
    let full: int = over * 255 + base * (255 - 255);
    assert(full == 255 * over);
    assert((2 * full + 255) / 510 == over);
    let none: int = over * 0 + base * (255 - 0);
    assert(none == 255 * base);
    assert((2 * none + 255) / 510 == base);
}

fn blend_one(base: u8, over: u8, alpha: u8) -> (out: u8)
    ensures
        out == blend_channel(base, over, alpha),
        alpha == 255 ==> out == over,
        alpha == 0 ==> out == base,
{
    proof {
        lemma_blend_channel_between(base, over, alpha);
        lemma_blend_channel_extremes(base, over);
    }
    let a: u32 = alpha as u32;
    assert(over * a <= 255 * 255 && base * (255 - a) <= 255 * 255) by (nonlinear_arith)
        requires
            0 <= a <= 255,
            0 <= over <= 255,
            0 <= base <= 255,
    ;
    let weighted: u32 = (over as u32) * a + (base as u32) * (255 - a);
    ((2 * weighted + 255) / 510) as u8
}

/// Lays `overlay` over `base`, weighting the overlay's color by its alpha
/// channel. The alpha channel of `base` is not read; the result is opaque.
pub fn blend_pixels(base: Rgba<u8>, overlay: Rgba<u8>) -> (out: Rgba<u8>)
    ensures
        out == blended(base, overlay),
        out.0[3] == 255,
        overlay.0[3] == 255 ==> out == Rgba([overlay.0[0], overlay.0[1], overlay.0[2], 255u8]),
        overlay.0[3] == 0 ==> out == Rgba([base.0[0], base.0[1], base.0[2], 255u8]),
{
    let alpha = overlay.0[3];
    let r = blend_one(base.0[0], overlay.0[0], alpha);
    let g = blend_one(base.0[1], overlay.0[1], alpha);
    let b = blend_one(base.0[2], overlay.0[2], alpha);
    Rgba([r, g, b, 255])
}

} // verus!
