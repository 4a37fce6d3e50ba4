//! The strength of the overlay as a function of the row.
//!
//! Rows are counted from the top. The overlay vanishes at 40 % of the height
//! and grows with the square of the distance from there; past a threshold
//! row its strength is multiplied by the fade factor.

use vstd::prelude::*;
use vstd::arithmetic::power2::{pow2, lemma2_to64_rest, lemma_pow2_adds, lemma_pow2_pos, lemma_pow2_strictly_increases};
use vstd::arithmetic::div_mod::lemma_basic_div;
use vstd::bits::lemma_u128_shr_is_div;
use crate::fade::Fade;
use crate::rounding::{round_half_up, lemma_round_half_up_shifted};

verus! {

/// The last row that is overlaid at full strength: `0.3 * height`, rounded to
/// the nearest integer, halves away from zero. Rows below it are faded.
pub open spec fn threshold_row(height: int) -> int {
    (3 * height + 5) / 10
}

/// Numerator of the unfaded strength of row `y`, on the scale of a byte. With
/// `d = |y / height - 0.4| * 2`, the distance from the anchor, the strength
/// is `255 * d * d`, which is `strength_numerator / strength_denominator`.
pub open spec fn strength_numerator(y: int, height: int) -> int {
    1020 * ((5 * y - 2 * height) * (5 * y - 2 * height))
}

/// Denominator of the unfaded strength of a row; see `strength_numerator`.
pub open spec fn strength_denominator(height: int) -> int {
    25 * (height * height)
}

/// The alpha byte of the overlay in row `y` of an image of `height` rows: the
/// strength of the row, times `fade` if the row lies below the threshold row,
/// rounded to the nearest integer and capped at 255.
pub open spec fn row_alpha(y: int, height: int, fade: Fade) -> int {
    let faded = y > threshold_row(height);
    let factor_numerator = if faded { fade.numerator() } else { 1 };
    let factor_denominator = if faded { fade.denominator() } else { 1 };
    let rounded = round_half_up(
        factor_numerator * strength_numerator(y, height),
        factor_denominator * strength_denominator(height),
    );
    if rounded > 255 {
        255
    } else {
        rounded
    }
}

/// The alpha byte of the overlay in row `y` of an image of `height` rows.
pub fn alpha_for_row(y: u32, height: u32, fade: Fade) -> (alpha: u8)
    requires
        y < height,
    ensures
        alpha == row_alpha(y as int, height as int, fade),
{
    let threshold: u64 = (3 * (height as u64) + 5) / 10;
    let down: u64 = 5 * (y as u64);
    let anchor: u64 = 2 * (height as u64);
    let distance: u128 = if down >= anchor {
        (down - anchor) as u128
    } else {
        (anchor - down) as u128
    };
    let h: u128 = height as u128;
    assert(distance * distance == (5 * y - 2 * height) * (5 * y - 2 * height)
        && distance * distance <= 0x1_0000_0000_0000_0000_0000 && 0 < h * h
        <= 0x1_0000_0000_0000_0000) by (nonlinear_arith)
        requires
            distance == 5 * y - 2 * height || distance == 2 * height - 5 * y,
            0 <= distance <= 0x10_0000_0000,
            0 < h <= 0x1_0000_0000,
            h == height,
    ;
    let numerator: u128 = 1020 * (distance * distance);
    let denominator: u128 = 25 * (h * h);
    let rounded: u128 = if (y as u64) > threshold {
        let m: u128 = fade.mantissa() as u128;
        let k: u32 = fade.shift();
        assert(2 * m * numerator == 2 * (m * numerator) && 2 * m * numerator
            <= 0xFFFF_FFFF_FFFF_FFFF_FFFF_FFFF_FFFF_FFFF) by (nonlinear_arith)
            requires
                0 <= m < 0x100_0000,
                0 <= numerator <= 1020 * 0x1_0000_0000_0000_0000_0000,
        ;
        let quotient: u128 = (2 * m * numerator) / denominator;
        proof {
            lemma_pow2_pos(k as nat);
            lemma_round_half_up_shifted(
                m * numerator,
                denominator as int,
                pow2(k as nat) as int,
            );
        }
        if k >= 128 {
            proof {
                lemma2_to64_rest();
                lemma_pow2_adds(64, 64);
                assert(pow2(128) == 0x1_0000_0000_0000_0000 * 0x1_0000_0000_0000_0000);
                if k > 128 {
                    lemma_pow2_strictly_increases(128, k as nat);
                }
                lemma_basic_div(quotient as int, pow2(k as nat) as int);
            }
            0
        } else {
            proof {
                lemma_u128_shr_is_div(quotient, k as u128);
            }
            ((quotient >> (k as u128)) + 1) / 2
        }
    } else {
        (2 * numerator + denominator) / (2 * denominator)
    };
    if rounded > 255 {
        255
    } else {
        rounded as u8
    }
}

} // verus!
