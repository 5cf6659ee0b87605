//! The sketch itself: a table of 64-bit words, sixteen 4-bit counters to a word.

use crate::bits::{bit_count, ceiling_power_of_two, is_power_of_two};
use crate::hashing::{default_hash_code, rehash, spread};
use crate::model::{
    lemma_aged_valid, lemma_bumped_by_rows, lemma_selectors_in_range, lemma_slot_in_table,
    lemma_table_len_for, min2, odd_tally, sample_size_for, table_len_for, SketchView,
    MAXIMUM_CAPACITY,
};
use crate::packing::{
    lemma_count_of_low_bits, lemma_counter_bump, lemma_counter_read, lemma_unpack_halved,
    lemma_zero_word, unpack, ONE_MASK, RESET_MASK,
};
use crate::sums::lemma_range_sum_zero;
use std::hash::Hash;
use vstd::prelude::*;

verus! {

/// A 4-bit count-min sketch with periodic aging. It estimates how often an item
/// was seen in a stream of accesses, with four counters per item that all lie
/// in one block of eight table words.
#[derive(Debug)]
pub struct FrequencyCountSketch {
    sample_size: u64,
    block_mask: usize,
    table: Vec<u64>,
    table_len: usize,
    size: u64,
    max_size: usize,
}

impl View for FrequencyCountSketch {
    type V = SketchView;

    closed spec fn view(&self) -> SketchView {
        SketchView {
            max_size: self.max_size as nat,
            size: self.size as nat,
            counters: unpack(self.table@),
        }
    }
}

proof fn lemma_mask_of_len(len: usize)
    by (bit_vector)
    requires
        8 <= len <= 0x4000_0000,
    ensures
        len >> 3 == len / 8,
{
}

proof fn lemma_aging_shifts(count: u64, size: u64)
    by (bit_vector)
    ensures
        count >> 2 == count / 4,
        size >> 1 == size / 2,
{
}

proof fn lemma_row_shifts(row: usize)
    by (bit_vector)
    requires
        row < 4,
    ensures
        row << 3 == 8 * row,
        row << 1 == 2 * row,
{
}

/// Finds the counter of a counter hash in row `row` of the block that starts at
/// word `block`: its word, and its place in that word.
fn locate(block: usize, counter_hash: usize, row: usize) -> (at: (usize, usize))
    requires
        row < 4,
        block + 8 <= usize::MAX,
    ensures
        at.0 == block + ((counter_hash >> ((8 * row) as usize)) & 1) + 2 * row,
        at.1 == ((counter_hash >> ((8 * row) as usize)) >> 1) & 15,
{
    proof {
        lemma_row_shifts(row);
        lemma_selectors_in_range(counter_hash >> ((8 * row) as usize));
    }
    let h = counter_hash >> (row << 3);
    let index = (h >> 1) & 15;
    let offset = h & 1;
    (block + offset + (row << 1), index)
}

/// The smaller of two counts.
fn min_count(a: u8, b: u8) -> (m: u8)
    ensures
        m == min2(a as nat, b as nat),
{
    if a <= b {
        a
    } else {
        b
    }
}

impl FrequencyCountSketch {
    /// Whether the fields agree with each other: the table has the length, and
    /// the mask and the threshold the values, that belong to `max_size`.
    pub closed spec fn consistent(&self) -> bool {
        &&& self.max_size <= MAXIMUM_CAPACITY
        &&& self.table_len == table_len_for(self.max_size as nat)
        &&& self.table@.len() == self.table_len
        &&& self.block_mask == self@.block_mask()
        &&& self.sample_size == sample_size_for(self.max_size as nat)
    }

    /// What holds of a sketch at any time, also when `size` has just reached the
    /// aging threshold.
    pub open spec fn inv(&self) -> bool {
        &&& self.consistent()
        &&& self@.inv()
    }

    /// What holds of a sketch between two operations.
    pub open spec fn wf(&self) -> bool {
        &&& self.consistent()
        &&& self@.valid()
    }

    /// Makes a sketch for a cache of `maximum_size` entries, clamped to
    /// `MAXIMUM_CAPACITY`, with all counters at zero.
    pub fn new(maximum_size: usize) -> (sketch: Self)
        ensures
            sketch.wf(),
            sketch@ == SketchView::fresh(
                if maximum_size < MAXIMUM_CAPACITY {
                    maximum_size as nat
                } else {
                    MAXIMUM_CAPACITY as nat
                },
            ),
    {
        let maximum = if maximum_size < MAXIMUM_CAPACITY {
            maximum_size
        } else {
            MAXIMUM_CAPACITY
        };
        let sample_size: u64 = if maximum > 0 {
            10 * (maximum as u64)
        } else {
            10
        };
        let rounded = ceiling_power_of_two(maximum as i32) as usize;
        let table_len = if rounded < 8 {
            8
        } else {
            rounded
        };
        proof {
            lemma_table_len_for(maximum as nat);
            lemma_mask_of_len(table_len);
        }
        let sketch = FrequencyCountSketch {
            sample_size,
            block_mask: (table_len >> 3) - 1,
            table: vec![0; table_len],
            table_len,
            size: 0,
            max_size: maximum,
        };
        proof {
            let fresh = SketchView::fresh(maximum as nat);
            assert forall|p: int| 0 <= p < 16 * table_len implies unpack(sketch.table@)[p] == 0 by {
                lemma_zero_word((p % 16) as u64);
            }
            assert(sketch@.counters =~= fresh.counters);
            lemma_range_sum_zero(fresh.counters, 0, fresh.counters.len() as int);
        }
        sketch
    }

    /// Reads counter `j` of word `i`.
    fn counter_at(&self, i: usize, j: usize) -> (count: u8)
        requires
            i < self.table@.len(),
            j < 16,
        ensures
            count == unpack(self.table@)[16 * i + j],
            count <= 15,
    {
        proof {
            lemma_counter_read(self.table@[i as int], j);
        }
        ((self.table[i] >> (j << 2)) & 0xf) as u8
    }

    /// Increments counter `j` of word `i` by 1 if it is not already at the maximum
    /// value (15).
    fn increment_at(&mut self, i: usize, j: usize) -> (added: bool)
        requires
            i < old(self).table@.len(),
            j < 16,
        ensures
            added == (unpack(old(self).table@)[16 * i + j] < 15),
            unpack(final(self).table@) == if added {
                unpack(old(self).table@).update(
                    16 * i + j,
                    unpack(old(self).table@)[16 * i + j] + 1,
                )
            } else {
                unpack(old(self).table@)
            },
            final(self).table@.len() == old(self).table@.len(),
            final(self).sample_size == old(self).sample_size,
            final(self).block_mask == old(self).block_mask,
            final(self).table_len == old(self).table_len,
            final(self).size == old(self).size,
            final(self).max_size == old(self).max_size,
    {
        let word = self.table[i];
        proof {
            lemma_counter_bump(word, j, 0);
        }
        let offset = (j as u64) << 2u64;
        let mask = 0xfu64 << offset;
        if (word & mask) != mask {
            self.table[i] = word + (1u64 << offset);
            proof {
                let before = unpack(old(self).table@);
                let after = unpack(self.table@);
                assert forall|p: int| 0 <= p < before.len() implies after[p] == before.update(
                    16 * i + j,
                    before[16 * i + j] + 1,
                )[p] by {
                    if p / 16 == i {
                        lemma_counter_bump(word, j, (p % 16) as u64);
                    }
                }
                assert(after =~= before.update(16 * i + j, before[16 * i + j] + 1));
            }
            return true;
        }
        false
    }

    /// Returns the estimated number of occurrences of the item with hash code
    /// `hash_code`, up to the maximum (15).
    pub fn frequency_of_hash_code(&self, hash_code: u64) -> (count: u8)
        requires
            self.wf(),
        ensures
            count == self@.frequency(hash_code),
            count <= 15,
    {
        let block_hash = spread(hash_code);
        let counter_hash = rehash(block_hash);
        let block = (block_hash & self.block_mask) << 3;
        proof {
            lemma_slot_in_table(self@, hash_code, 0);
            lemma_slot_in_table(self@, hash_code, 1);
            lemma_slot_in_table(self@, hash_code, 2);
            lemma_slot_in_table(self@, hash_code, 3);
        }
        let at0 = locate(block, counter_hash, 0);
        let at1 = locate(block, counter_hash, 1);
        let at2 = locate(block, counter_hash, 2);
        let at3 = locate(block, counter_hash, 3);
        let c0 = self.counter_at(at0.0, at0.1);
        let c1 = self.counter_at(at1.0, at1.1);
        let c2 = self.counter_at(at2.0, at2.1);
        let c3 = self.counter_at(at3.0, at3.1);
        min_count(min_count(c0, c1), min_count(c2, c3))
    }

    /// Returns the estimated number of occurrences of an element, up to the
    /// maximum (15).
    pub fn frequency<E: Hash>(&self, e: E) -> (count: u8)
        requires
            self.wf(),
        ensures
            exists|hash_code: u64| count == self@.frequency(hash_code),
            count <= 15,
    {
        let hash_code = default_hash_code(e);
        self.frequency_of_hash_code(hash_code)
    }

    /// Increments the popularity of the item with hash code `hash_code`, if it
    /// does not exceed the maximum (15), and ages all counters when the counted
    /// increments reach the threshold.
    pub fn increment_hash_code(&mut self, hash_code: u64)
        requires
            old(self).wf(),
        ensures
            final(self).wf(),
            final(self)@ == old(self)@.increment(hash_code),
    {
        let block_hash = spread(hash_code);
        let counter_hash = rehash(block_hash);
        let block = (block_hash & self.block_mask) << 3;
        proof {
            lemma_slot_in_table(self@, hash_code, 0);
            lemma_slot_in_table(self@, hash_code, 1);
            lemma_slot_in_table(self@, hash_code, 2);
            lemma_slot_in_table(self@, hash_code, 3);
            lemma_bumped_by_rows(self@, hash_code);
        }
        let at0 = locate(block, counter_hash, 0);
        let at1 = locate(block, counter_hash, 1);
        let at2 = locate(block, counter_hash, 2);
        let at3 = locate(block, counter_hash, 3);
        let added0 = self.increment_at(at0.0, at0.1);
        let added1 = self.increment_at(at1.0, at1.1);
        let added2 = self.increment_at(at2.0, at2.1);
        let added3 = self.increment_at(at3.0, at3.1);
        if added0 || added1 || added2 || added3 {
            self.size += 1;
            if self.size == self.sample_size {
                self.reset();
            }
        }
    }

    /// Increments the popularity of the element if it does not exceed the maximum
    /// (15). The popularity of all elements is down sampled whenever the counted
    /// increments reach a threshold, so that long-gone entries fade away.
    pub fn increment<E: Hash>(&mut self, e: E)
        requires
            old(self).wf(),
        ensures
            final(self).wf(),
            exists|hash_code: u64| final(self)@ == old(self)@.increment(hash_code),
    {
        let hash_code = default_hash_code(e);
        self.increment_hash_code(hash_code);
    }

    /// Reduces every counter to half of its value, rounded down, and `size` with
    /// them.
    pub fn reset(&mut self)
        requires
            old(self).inv(),
        ensures
            final(self).wf(),
            final(self)@ == old(self)@.aged(),
    {
        let ghost before = self.table@;
        let mut count: u64 = 0;
        let mut i: usize = 0;
        proof {
            lemma_table_len_for(self.max_size as nat);
        }
        while i < self.table.len()
            invariant
                i <= before.len() <= 0x4000_0000,
                self.table@.len() == before.len(),
                forall|k: int|
                    0 <= k < i ==> self.table@[k] == (#[trigger] before[k] >> 1) & RESET_MASK,
                forall|k: int| i <= k < before.len() ==> self.table@[k] == before[k],
                count == odd_tally(unpack(before), i as int),
                count <= 7 * i,
                self.sample_size == old(self).sample_size,
                self.block_mask == old(self).block_mask,
                self.table_len == old(self).table_len,
                self.size == old(self).size,
                self.max_size == old(self).max_size,
            decreases before.len() - i,
        {
            let word = self.table[i];
            proof {
                lemma_count_of_low_bits(before, i as int);
            }
            count += bit_count(word & ONE_MASK) as u64;
            self.table[i] = (word >> 1) & RESET_MASK;
            i += 1;
        }
        proof {
            lemma_unpack_halved(before, self.table@);
            lemma_aged_valid(old(self)@);
            lemma_aging_shifts(count, (self.size - count / 4) as u64);
        }
        self.size = (self.size - (count >> 2)) >> 1;
    }

    /// Returns the cache size that this sketch was made for.
    pub fn get_max_size(&self) -> (max_size: usize)
        ensures
            max_size == self@.max_size,
    {
        self.max_size
    }

    /// Returns the number of words in the table of this sketch.
    pub fn get_table_len(&self) -> (table_len: usize)
        requires
            self.wf(),
        ensures
            table_len == self@.table_len(),
            is_power_of_two(table_len as int),
            table_len >= 8,
    {
        proof {
            lemma_table_len_for(self.max_size as nat);
        }
        self.table_len
    }
}

} // verus!
