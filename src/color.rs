//! Turning an accumulated pixel color into bytes.
use vstd::prelude::*;
use crate::fixed::{floor_div, isqrt, ONE};
use crate::vec3::{lemma_isqrt_unique, sqrt_floor, Color};

verus! {

/// The largest gamma-corrected channel value kept, in fixed point (about 0.999).
pub const CHANNEL_CAP: i64 = 65470;

/// One 8-bit channel of a pixel: the sum of `spp` samples is averaged, gamma-corrected
/// with a square root, capped at `CHANNEL_CAP`, scaled by 255.99 and truncated. An average
/// of zero or below gives zero.
pub open spec fn channel_byte(sum: int, spp: int) -> int {
    let avg = sum / spp;
    if avg <= 0 {
        0
    } else {
        let g = sqrt_floor(avg * ONE);
        let capped = if g > CHANNEL_CAP {
            CHANNEL_CAP as int
        } else {
            g
        };
        (25599 * capped) / (100 * ONE)
    }
}

/// The RGBA bytes of a pixel whose channels sum `spp` samples.
pub open spec fn pixel_bytes(sum: Color, spp: int) -> Seq<u8> {
    seq![
        channel_byte(sum.x as int, spp) as u8,
        channel_byte(sum.y as int, spp) as u8,
        channel_byte(sum.z as int, spp) as u8,
        255u8,
    ]
}

fn channel(sum: i64, samples_per_pixel: u32) -> (b: u8)
    requires
        samples_per_pixel > 0,
    ensures
        b == channel_byte(sum as int, samples_per_pixel as int),
{
    let avg = floor_div(sum as i128, samples_per_pixel as i128);
    if avg <= 0 {
        return 0;
    }
    proof {
        if sum < 0 {
            vstd::arithmetic::div_mod::lemma_div_is_ordered(sum as int, 0, samples_per_pixel as int);
        }
        vstd::arithmetic::div_mod::lemma_div_is_ordered_by_denominator(sum as int, 1, samples_per_pixel as int);
        assert(sum as int / 1 == sum);
    }
    let g = isqrt(avg * ONE as i128);
    proof {
        lemma_isqrt_unique(avg * ONE, g as int);
    }
    let capped: i128 = if g > CHANNEL_CAP as i128 {
        CHANNEL_CAP as i128
    } else {
        g
    };
    let scaled = (25599 * capped) / (100 * ONE as i128);
    proof {
        vstd::arithmetic::div_mod::lemma_div_is_ordered(25599 * capped, 25599 * CHANNEL_CAP, 100 * ONE);
        vstd::arithmetic::div_mod::lemma_div_is_ordered(0, 25599 * capped, 100 * ONE);
    }
    scaled as u8
}

/// The RGBA bytes of a pixel whose color is the sum of `samples_per_pixel` samples; the
/// alpha byte is always 255.
pub fn write_color(pixel_color: Color, samples_per_pixel: u32) -> (bytes: Vec<u8>)
    requires
        samples_per_pixel > 0,
    ensures
        bytes@ == pixel_bytes(pixel_color, samples_per_pixel as int),
{
    let r = channel(pixel_color.x, samples_per_pixel);
    let g = channel(pixel_color.y, samples_per_pixel);
    let b = channel(pixel_color.z, samples_per_pixel);
    let bytes = vec![r, g, b, 255];
    assert(bytes@ =~= seq![r, g, b, 255u8]);
    bytes
}

} // verus!
