//! Vertical placement of a dispatched comment: a uniform draw scaled to
//! leave the bottom tenth of the screen clear.

use vstd::arithmetic::div_mod::lemma_multiply_divide_lt;
use vstd::prelude::*;

verus! {

/// Upper bound of the placement ratio, in parts per million of screen
/// height.
pub const TOP_RATIO_LIMIT_PPM: u32 = 900_000;

/// Relies on `rand::random`: a uniformly distributed `u32`; nothing is
/// assumed of the value drawn.
#[verifier::external_body]
fn random_u32() -> u32 {
    rand::random::<u32>()
}

/// Scale a uniform sample over all of `u32` to a placement ratio in parts
/// per million, strictly below nine tenths.
pub fn offset_top_ratio_ppm(sample: u32) -> (r: u32)
    ensures
        r == sample as int * 900_000 / 4_294_967_296,
        r < TOP_RATIO_LIMIT_PPM,
{
    let wide: u64 = (sample as u64) * 900_000;
    let scaled: u64 = wide / 4_294_967_296;
    proof {
        assert(sample as int * 900_000 < 4_294_967_296 * 900_000);
        lemma_multiply_divide_lt(sample as int * 900_000, 4_294_967_296, 900_000);
    }
    scaled as u32
}

/// Draw an independent placement for one comment.
pub fn draw_offset_top_ppm() -> (r: u32)
    ensures
        r < TOP_RATIO_LIMIT_PPM,
{
    offset_top_ratio_ppm(random_u32())
}

} // verus!
