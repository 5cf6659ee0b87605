//! How the table packs sixteen 4-bit counters into each 64-bit word, and what
//! the word-level operations of the sketch do to the counters of a word.

use crate::bits::{count_ones, lemma_count_ones_is_bit_sum};
use crate::lanes::{aligned, lane, lane_sum, lemma_aligned_zero, lemma_lane_sum_pairs};
use crate::model::odd_in_word;
use crate::sums::{halves, lemma_range_sum_split, parities, range_sum};
use vstd::prelude::*;

verus! {

/// The bits that are the lowest bit of a counter.
pub const ONE_MASK: u64 = 0x1111_1111_1111_1111;

/// The bits that a counter keeps when it is halved in place.
pub const RESET_MASK: u64 = 0x7777_7777_7777_7777;

/// Counter `j` of the word `w`.
pub open spec fn counter_of(w: u64, j: int) -> nat {
    lane(w, 4, (4 * j) as u64) as nat
}

/// The counters that a table packs, sixteen to a word, lowest bits first.
pub open spec fn unpack(table: Seq<u64>) -> Seq<nat> {
    Seq::new(16 * table.len(), |p: int| counter_of(table[p / 16], p % 16))
}

/// Every counter of the zero word is zero.
pub proof fn lemma_zero_word(j: u64)
    by (bit_vector)
    ensures
        lane(0, 4, (4 * j) as u64) == 0,
{
}

/// Reading a counter: shift it down and mask it. A counter is at most 15.
pub proof fn lemma_counter_read(w: u64, j: usize)
    by (bit_vector)
    requires
        j < 16,
    ensures
        j << 2 == 4 * j,
        (w >> (j << 2)) & 0xf == lane(w, 4, (4 * j) as u64),
        lane(w, 4, (4 * j) as u64) <= 15,
{
}

/// Adding one at the lowest bit of a counter that is below 15 raises that
/// counter by one and leaves the other counters of the word as they are; a
/// counter is at 15 exactly when all four of its bits are set.
pub proof fn lemma_counter_bump(w: u64, j: usize, k: u64)
    by (bit_vector)
    requires
        j < 16,
        k < 16,
    ensures
        (j as u64) << 2 == 4 * j,
        (w & (0xfu64 << ((j as u64) << 2)) != 0xfu64 << ((j as u64) << 2)) == (lane(
            w,
            4,
            (4 * j) as u64,
        ) != 15),
        lane(w, 4, (4 * j) as u64) <= 15,
        lane(w, 4, (4 * j) as u64) != 15 ==> w + (1u64 << ((j as u64) << 2))
            <= 0xffff_ffff_ffff_ffff && lane((w + (1u64 << ((j as u64) << 2))) as u64, 4, (4 * k) as u64) == if k == j {
            lane(w, 4, (4 * j) as u64) + 1
        } else {
            lane(w, 4, (4 * k) as u64) as int
        },
{
}

/// Shifting a word down by one bit and clearing the top bit of every counter
/// halves each counter.
pub proof fn lemma_counter_halved(w: u64, k: u64)
    by (bit_vector)
    requires
        k < 16,
    ensures
        lane((w >> 1) & RESET_MASK, 4, (4 * k) as u64) == lane(w, 4, (4 * k) as u64) / 2,
{
}

proof fn lemma_low_bits_alone(w: u64, o: u64)
    by (bit_vector)
    requires
        o < 64,
    ensures
        aligned(o, 2) ==> lane(w & ONE_MASK, 2, o) == lane(w & ONE_MASK, 1, o) + lane(
            w & ONE_MASK,
            1,
            (o + 1) as u64,
        ),
        aligned(o, 4) ==> lane(w & ONE_MASK, 4, o) == lane(w & ONE_MASK, 2, o) + lane(
            w & ONE_MASK,
            2,
            (o + 2) as u64,
        ),
        aligned(o, 4) ==> lane(w & ONE_MASK, 4, o) == lane(w, 4, o) % 2,
{
}

/// The population count of the lowest bits of the counters of a word is the
/// number of odd counters in it.
pub proof fn lemma_count_of_low_bits(table: Seq<u64>, i: int)
    requires
        0 <= i < table.len(),
    ensures
        count_ones((table[i] & ONE_MASK) as nat) == odd_in_word(unpack(table), i),
{
    let w = table[i];
    let m = w & ONE_MASK;
    lemma_count_ones_is_bit_sum(m);
    assert forall|o: u64| o < 64 && aligned(o, 2) implies #[trigger] lane(m, 2, o) == lane(m, 1, o)
        + lane(m, 1, (o + 1) as u64) by {
        lemma_low_bits_alone(w, o);
    }
    lemma_aligned_zero(2);
    lemma_lane_sum_pairs(m, m, 1, 0);
    assert forall|o: u64| o < 64 && aligned(o, 4) implies #[trigger] lane(m, 4, o) == lane(m, 2, o)
        + lane(m, 2, (o + 2) as u64) by {
        lemma_low_bits_alone(w, o);
    }
    lemma_aligned_zero(4);
    lemma_lane_sum_pairs(m, m, 2, 0);
    let odd = parities(unpack(table));
    assert forall|j: int| 0 <= j < 16 implies lane(m, 4, (4 * j) as u64) == #[trigger] odd[16 * i
        + j] by {
        lemma_low_bits_alone(w, (4 * j) as u64);
        lemma_aligned_at_counter(j as u64);
        assert((16 * i + j) / 16 == i && (16 * i + j) % 16 == j);
    }
    lemma_counter_sum(m, odd, 16 * i, 0);
}

/// The sum of the counters of a word from counter `j` on is the sum of the
/// stretch of a sequence that holds them.
proof fn lemma_counter_sum(w: u64, s: Seq<nat>, base: int, j: int)
    requires
        0 <= j <= 16,
        forall|k: int| 0 <= k < 16 ==> lane(w, 4, (4 * k) as u64) == #[trigger] s[base + k],
    ensures
        lane_sum(w, 4, (4 * j) as u64) == range_sum(s, base + j, base + 16),
    decreases 16 - j,
{
    if j < 16 {
        lemma_counter_sum(w, s, base, j + 1);
        lemma_range_sum_split(s, base + j, base + j + 1, base + 16);
        assert(range_sum(s, base + j, base + j + 1) == s[base + j]) by {
            reveal_with_fuel(range_sum, 2);
        }
    }
}

proof fn lemma_aligned_at_counter(j: u64)
    by (bit_vector)
    requires
        j < 16,
    ensures
        aligned((4 * j) as u64, 4),
{
}

/// A table whose words are the halved words of another holds the halved counters.
pub proof fn lemma_unpack_halved(before: Seq<u64>, after: Seq<u64>)
    requires
        after.len() == before.len(),
        forall|i: int|
            0 <= i < before.len() ==> after[i] == (#[trigger] before[i] >> 1) & RESET_MASK,
    ensures
        unpack(after) == halves(unpack(before)),
{
    assert forall|p: int| 0 <= p < 16 * before.len() implies unpack(after)[p] == halves(
        unpack(before),
    )[p] by {
        let w = before[p / 16];
        assert(after[p / 16] == (w >> 1) & RESET_MASK);
        lemma_counter_halved(w, (p % 16) as u64);
    }
    assert(unpack(after) =~= halves(unpack(before)));
}

} // verus!
