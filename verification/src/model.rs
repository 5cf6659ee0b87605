//! The mathematical model of the sketch: a sequence of counters, sixteen per
//! table word, and what estimating, incrementing and aging do to it.

use crate::bits::{ceiling_power_of_two_spec, is_power_of_two, lemma_ceiling_power_of_two_is_least};
use crate::hashing::{rehash_spec, spread_spec};
use crate::sums::{
    halves, lemma_range_sum_halves, lemma_range_sum_ordered, lemma_range_sum_split,
    lemma_range_sum_update, parities, range_sum,
};
use vstd::arithmetic::power2::{
    lemma2_to64, lemma_pow2_strictly_increases, lemma_pow2_unfold, pow2,
};
use vstd::prelude::*;

verus! {

/// The largest cache size that a sketch is laid out for; larger requests are
/// clamped to it.
pub const MAXIMUM_CAPACITY: usize = 0x3fff_ffff;

/// The value at which a counter stops counting.
pub const SATURATION: u8 = 15;

/// The number of counters that one item owns.
pub const DEPTH: usize = 4;

/// The number of 64-bit words in the table of a sketch made for `max_size` entries.
pub open spec fn table_len_for(max_size: nat) -> nat {
    let rounded = ceiling_power_of_two_spec(max_size as i32);
    if rounded < 8 {
        8
    } else {
        rounded
    }
}

/// The number of counted increments after which a sketch made for `max_size`
/// entries ages its counters.
pub open spec fn sample_size_for(max_size: nat) -> nat {
    if max_size > 0 {
        10 * max_size
    } else {
        10
    }
}

/// The hash that selects the counter of `hash_code` in row `row`: the counter
/// hash, shifted down by eight bits per row.
pub open spec fn row_hash(hash_code: u64, row: int) -> usize {
    rehash_spec(spread_spec(hash_code)) >> ((8 * row) as usize)
}

/// The first word of the block of eight words that holds the counters of `hash_code`.
pub open spec fn block_start(block_mask: usize, hash_code: u64) -> usize {
    (spread_spec(hash_code) & block_mask) << 3
}

/// The table word that holds the counter of `hash_code` in row `row`: two words
/// per row, inside the block of `hash_code`.
pub open spec fn word_index(block_mask: usize, hash_code: u64, row: int) -> int {
    block_start(block_mask, hash_code) + (row_hash(hash_code, row) & 1) + 2 * row
}

/// Which of the sixteen counters of its word the counter of `hash_code` in row
/// `row` is.
pub open spec fn lane_index(hash_code: u64, row: int) -> int {
    ((row_hash(hash_code, row) >> 1) & 15) as int
}

/// The smaller of two numbers.
pub open spec fn min2(a: nat, b: nat) -> nat {
    if a <= b {
        a
    } else {
        b
    }
}

/// How often `hash_code` occurs in `hash_codes`.
pub open spec fn occurrences(hash_codes: Seq<u64>, hash_code: u64) -> nat
    decreases hash_codes.len(),
{
    if hash_codes.len() == 0 {
        0
    } else if hash_codes.last() == hash_code {
        occurrences(hash_codes.drop_last(), hash_code) + 1
    } else {
        occurrences(hash_codes.drop_last(), hash_code)
    }
}

/// The counters after the one at position `p` has gone up by one, unless it is
/// saturated.
pub open spec fn bump_at(counters: Seq<nat>, p: int) -> Seq<nat> {
    if counters[p] < SATURATION {
        counters.update(p, counters[p] + 1)
    } else {
        counters
    }
}

/// The number of odd counters among the sixteen of word `word`.
pub open spec fn odd_in_word(counters: Seq<nat>, word: int) -> nat {
    range_sum(parities(counters), 16 * word, 16 * word + 16)
}

/// What an aging pass counts over the first `words` words: per word the number
/// of odd counters, of which the population count keeps the low three bits.
pub open spec fn odd_tally(counters: Seq<nat>, words: int) -> nat
    decreases words,
{
    if words <= 0 {
        0
    } else {
        odd_tally(counters, words - 1) + odd_in_word(counters, words - 1) % 8
    }
}

/// The state of a sketch.
pub struct SketchView {
    /// The cache size that the sketch was made for.
    pub max_size: nat,
    /// The number of counted increments since the last aging pass, as aging left it.
    pub size: nat,
    /// The counters: those of table word `w` at `16 * w`, ..., `16 * w + 15`.
    pub counters: Seq<nat>,
}

impl SketchView {
    /// The number of table words.
    pub open spec fn table_len(self) -> nat {
        table_len_for(self.max_size)
    }

    /// The aging threshold.
    pub open spec fn sample_size(self) -> nat {
        sample_size_for(self.max_size)
    }

    /// The mask that cuts a block hash down to a block number.
    pub open spec fn block_mask(self) -> usize {
        (self.table_len() / 8 - 1) as usize
    }

    /// The position, among all counters, of the counter of `hash_code` in row `row`.
    pub open spec fn slot(self, hash_code: u64, row: int) -> int {
        16 * word_index(self.block_mask(), hash_code, row) + lane_index(hash_code, row)
    }

    /// Whether position `p` holds one of the four counters of `hash_code`.
    pub open spec fn hits(self, hash_code: u64, p: int) -> bool {
        exists|row: int| 0 <= row < DEPTH && p == #[trigger] self.slot(hash_code, row)
    }

    /// The sum of all counters.
    pub open spec fn total(self) -> nat {
        range_sum(self.counters, 0, self.counters.len() as int)
    }

    /// What holds of a sketch at any time, also at the moment when `size` has
    /// reached the aging threshold and the aging pass has not yet run.
    pub open spec fn inv(self) -> bool {
        &&& self.max_size <= MAXIMUM_CAPACITY
        &&& self.counters.len() == 16 * self.table_len()
        &&& forall|p: int|
            0 <= p < self.counters.len() ==> #[trigger] self.counters[p] <= SATURATION
        &&& self.size <= self.sample_size()
        &&& self.total() <= 4 * self.size + 3
    }

    /// What holds of a sketch between two operations.
    pub open spec fn valid(self) -> bool {
        &&& self.inv()
        &&& self.size < self.sample_size()
    }

    /// The sketch as `new` makes it: every counter zero.
    pub open spec fn fresh(max_size: nat) -> SketchView {
        SketchView {
            max_size,
            size: 0,
            counters: Seq::new(16 * table_len_for(max_size), |p: int| 0nat),
        }
    }

    /// The estimate for `hash_code`: the smallest of its four counters.
    pub open spec fn frequency(self, hash_code: u64) -> nat {
        min2(
            min2(self.counters[self.slot(hash_code, 0)], self.counters[self.slot(hash_code, 1)]),
            min2(self.counters[self.slot(hash_code, 2)], self.counters[self.slot(hash_code, 3)]),
        )
    }

    /// The counters after each of the four counters of `hash_code` that is not
    /// saturated has gone up by one.
    pub open spec fn bumped(self, hash_code: u64) -> Seq<nat> {
        Seq::new(
            self.counters.len(),
            |p: int|
                if self.hits(hash_code, p) && self.counters[p] < SATURATION {
                    self.counters[p] + 1
                } else {
                    self.counters[p]
                },
        )
    }

    /// The sketch after an aging pass: every counter halved, and `size` halved
    /// after a quarter of the tally of odd counters has been taken off.
    pub open spec fn aged(self) -> SketchView {
        SketchView {
            max_size: self.max_size,
            size: ((self.size - odd_tally(self.counters, self.table_len() as int) / 4) / 2) as nat,
            counters: halves(self.counters),
        }
    }

    /// Whether an increment of `hash_code` ends in an aging pass.
    pub open spec fn ages_on(self, hash_code: u64) -> bool {
        self.frequency(hash_code) < SATURATION && self.size + 1 == self.sample_size()
    }

    /// The sketch after one increment of `hash_code`. Where all four counters are
    /// saturated nothing changes; else `size` goes up by one, and an aging pass
    /// follows where it has reached the threshold.
    pub open spec fn increment(self, hash_code: u64) -> SketchView {
        if self.frequency(hash_code) >= SATURATION {
            self
        } else {
            let grown = SketchView {
                max_size: self.max_size,
                size: self.size + 1,
                counters: self.bumped(hash_code),
            };
            if grown.size == self.sample_size() {
                grown.aged()
            } else {
                grown
            }
        }
    }

    /// The sketch after one increment of each of `hash_codes`, in their order.
    pub open spec fn increment_all(self, hash_codes: Seq<u64>) -> SketchView
        decreases hash_codes.len(),
    {
        if hash_codes.len() == 0 {
            self
        } else {
            self.increment_all(hash_codes.drop_last()).increment(hash_codes.last())
        }
    }

    /// The sketch after `n` increments of `hash_code`.
    pub open spec fn increment_n(self, hash_code: u64, n: nat) -> SketchView
        decreases n,
    {
        if n == 0 {
            self
        } else {
            self.increment_n(hash_code, (n - 1) as nat).increment(hash_code)
        }
    }
}

proof fn lemma_block_in_table(block_hash: usize, len: usize)
    by (bit_vector)
    requires
        8 <= len <= 0x4000_0000,
        len % 8 == 0,
    ensures
        ((block_hash & ((len / 8 - 1) as usize)) << 3) + 8 <= len,
{
}

/// The word selector of a row hash is 0 or 1, and its counter selector is below 16.
pub proof fn lemma_selectors_in_range(h: usize)
    by (bit_vector)
    ensures
        h & 1 <= 1,
        (h >> 1) & 15 <= 15,
{
}

/// The counter of an item in a row lies in one of the two words of that row
/// inside the item's block, and the block lies inside the table.
pub proof fn lemma_slot_in_table(s: SketchView, hash_code: u64, row: int)
    requires
        s.max_size <= MAXIMUM_CAPACITY,
        0 <= row < DEPTH,
    ensures
        block_start(s.block_mask(), hash_code) + 8 <= s.table_len(),
        block_start(s.block_mask(), hash_code) + 2 * row <= word_index(
            s.block_mask(),
            hash_code,
            row,
        ) <= block_start(s.block_mask(), hash_code) + 2 * row + 1,
        0 <= lane_index(hash_code, row) < 16,
        0 <= s.slot(hash_code, row) < 16 * s.table_len(),
{
    lemma_table_len_for(s.max_size);
    lemma_block_in_table(spread_spec(hash_code), s.table_len() as usize);
    lemma_selectors_in_range(row_hash(hash_code, row));
}

proof fn lemma_bump_at_total(counters: Seq<nat>, p: int)
    requires
        0 <= p < counters.len(),
    ensures
        range_sum(bump_at(counters, p), 0, counters.len() as int) <= range_sum(
            counters,
            0,
            counters.len() as int,
        ) + 1,
{
    if counters[p] < SATURATION {
        lemma_range_sum_update(counters, p, counters[p] + 1, 0, counters.len() as int);
    }
}

/// Raising the four counters of an item one row after the other gives
/// `bumped`: the four are different counters, so each is raised at most once,
/// and the sum of all counters grows by at most four.
pub proof fn lemma_bumped_by_rows(s: SketchView, hash_code: u64)
    requires
        s.inv(),
    ensures
        bump_at(
            bump_at(
                bump_at(bump_at(s.counters, s.slot(hash_code, 0)), s.slot(hash_code, 1)),
                s.slot(hash_code, 2),
            ),
            s.slot(hash_code, 3),
        ) == s.bumped(hash_code),
        bump_at(s.counters, s.slot(hash_code, 0))[s.slot(hash_code, 1)] == s.counters[s.slot(
            hash_code,
            1,
        )],
        bump_at(bump_at(s.counters, s.slot(hash_code, 0)), s.slot(hash_code, 1))[s.slot(
            hash_code,
            2,
        )] == s.counters[s.slot(hash_code, 2)],
        bump_at(
            bump_at(bump_at(s.counters, s.slot(hash_code, 0)), s.slot(hash_code, 1)),
            s.slot(hash_code, 2),
        )[s.slot(hash_code, 3)] == s.counters[s.slot(hash_code, 3)],
        range_sum(s.bumped(hash_code), 0, s.counters.len() as int) <= s.total() + 4,
        forall|p: int|
            0 <= p < s.counters.len() ==> #[trigger] s.bumped(hash_code)[p] <= SATURATION,
        s.frequency(hash_code) >= SATURATION ==> s.bumped(hash_code) == s.counters,
{
    let slot0 = s.slot(hash_code, 0);
    let slot1 = s.slot(hash_code, 1);
    let slot2 = s.slot(hash_code, 2);
    let slot3 = s.slot(hash_code, 3);
    lemma_slot_in_table(s, hash_code, 0);
    lemma_slot_in_table(s, hash_code, 1);
    lemma_slot_in_table(s, hash_code, 2);
    lemma_slot_in_table(s, hash_code, 3);
    let c1 = bump_at(s.counters, slot0);
    let c2 = bump_at(c1, slot1);
    let c3 = bump_at(c2, slot2);
    let c4 = bump_at(c3, slot3);
    lemma_bump_at_total(s.counters, slot0);
    lemma_bump_at_total(c1, slot1);
    lemma_bump_at_total(c2, slot2);
    lemma_bump_at_total(c3, slot3);
    assert forall|p: int| 0 <= p < s.counters.len() implies c4[p] == #[trigger] s.bumped(
        hash_code,
    )[p] by {
        if s.hits(hash_code, p) {
            let row = choose|row: int| 0 <= row < DEPTH && p == #[trigger] s.slot(hash_code, row);
            assert(row == 0 || row == 1 || row == 2 || row == 3);
        } else {
            assert(p != slot0 && p != slot1 && p != slot2 && p != slot3);
        }
    }
    assert(c4 =~= s.bumped(hash_code));
    if s.frequency(hash_code) >= SATURATION {
        assert(s.bumped(hash_code) =~= s.counters);
    }
}

/// The tally over the first `words` words is at most the number of odd counters
/// in them.
pub proof fn lemma_odd_tally_bound(counters: Seq<nat>, words: int)
    requires
        0 <= words,
    ensures
        odd_tally(counters, words) <= range_sum(parities(counters), 0, 16 * words),
        odd_tally(counters, words) <= 7 * words,
    decreases words,
{
    if words > 0 {
        lemma_odd_tally_bound(counters, words - 1);
        lemma_range_sum_split(parities(counters), 0, 16 * (words - 1), 16 * words);
    }
}

/// An aging pass never takes more off `size` than is there, and it leaves a
/// sketch that is valid.
pub proof fn lemma_aged_valid(s: SketchView)
    requires
        s.inv(),
    ensures
        odd_tally(s.counters, s.table_len() as int) / 4 <= s.size,
        s.aged().valid(),
{
    let len = s.counters.len() as int;
    let odd = parities(s.counters);
    lemma_odd_tally_bound(s.counters, s.table_len() as int);
    lemma_range_sum_ordered(odd, s.counters, 0, len);
    lemma_range_sum_halves(s.counters, 0, len);
    assert(s.aged().total() == range_sum(halves(s.counters), 0, len));
}

/// The table of a sketch has a power of two of words, at least 8 and at most
/// two to the power of 30, for every `max_size` that a sketch can have.
pub proof fn lemma_table_len_for(max_size: nat)
    requires
        max_size <= MAXIMUM_CAPACITY,
    ensures
        is_power_of_two(table_len_for(max_size) as int),
        8 <= table_len_for(max_size) <= 0x4000_0000,
        table_len_for(max_size) % 8 == 0,
        table_len_for(max_size) >= max_size,
{
    lemma2_to64();
    let num = max_size as i32;
    let rounded = ceiling_power_of_two_spec(num);
    lemma_ceiling_power_of_two_is_least(num);
    assert(is_power_of_two(pow2(30) as int));
    if rounded < 8 {
        assert(8 == pow2(3));
    } else {
        let k = choose|k: nat| rounded as int == #[trigger] pow2(k);
        if k < 3 {
            if k < 2 {
                lemma_pow2_strictly_increases(k, 2);
            }
            assert(false);
        }
        lemma_pow2_unfold(k);
        lemma_pow2_unfold((k - 1) as nat);
        lemma_pow2_unfold((k - 2) as nat);
    }
}

} // verus!
