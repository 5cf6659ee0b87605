//! Groups of adjacent bits ("lanes") inside a 64-bit word, and their sums.
//!
//! A word of the counter table packs sixteen 4-bit lanes; the population count
//! works on lanes of 1, 2, 4 and 8 bits in turn.

use vstd::prelude::*;

verus! {

/// The group of `width` bits of `x` that starts at bit `offset`.
pub open spec fn lane(x: u64, width: u64, offset: u64) -> u64 {
    (x >> offset) & (((1u64 << width) - 1) as u64)
}

/// The sum of the groups of `width` bits of `x` at `offset`, `offset + width`
/// and so on, as far as they fit below bit 64.
pub open spec fn lane_sum(x: u64, width: u64, offset: u64) -> nat
    decreases 64 - offset,
{
    if width == 0 || offset + width > 64 {
        0
    } else {
        lane(x, width, offset) as nat + lane_sum(x, width, (offset + width) as u64)
    }
}

/// Whether `offset` is a multiple of `width`, for a `width` that is a power of two.
pub open spec fn aligned(offset: u64, width: u64) -> bool {
    offset & ((width - 1) as u64) == 0
}

/// Offset 0 is aligned to every width.
pub proof fn lemma_aligned_zero(width: u64)
    by (bit_vector)
    ensures
        aligned(0, width),
{
}

proof fn lemma_aligned_step(offset: u64, width: u64)
    by (bit_vector)
    requires
        width == 1 || width == 2 || width == 4,
        offset < 64,
        aligned(offset, (2 * width) as u64),
    ensures
        offset + 2 * width <= 64,
        aligned((offset + 2 * width) as u64, (2 * width) as u64),
{
}

/// Where each aligned group of `2 * width` bits of `y` holds the sum of the two
/// groups of `width` bits of `x` in the same place, the groups of `y` and those
/// of `x` have the same sum.
pub proof fn lemma_lane_sum_pairs(x: u64, y: u64, width: u64, offset: u64)
    requires
        width == 1 || width == 2 || width == 4,
        offset <= 64,
        aligned(offset, (2 * width) as u64),
        forall|o: u64|
            o < 64 && aligned(o, (2 * width) as u64) ==> #[trigger] lane(y, (2 * width) as u64, o)
                == lane(x, width, o) + lane(x, width, (o + width) as u64),
    ensures
        lane_sum(y, (2 * width) as u64, offset) == lane_sum(x, width, offset),
    decreases 64 - offset,
{
    if offset < 64 {
        lemma_aligned_step(offset, width);
        lemma_lane_sum_pairs(x, y, width, (offset + 2 * width) as u64);
        reveal_with_fuel(lane_sum, 3);
    }
}

} // verus!
