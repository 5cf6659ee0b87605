//! What holds of the sketch over whole runs of operations, stated over its model.

use crate::model::{
    lemma_aged_valid, lemma_bumped_by_rows, lemma_slot_in_table, min2, occurrences,
    sample_size_for, SketchView, DEPTH, MAXIMUM_CAPACITY, SATURATION,
};
use crate::sums::lemma_range_sum_zero;
use vstd::prelude::*;

verus! {

/// The four counters of an item are four different counters.
pub proof fn lemma_slots_differ(s: SketchView, hash_code: u64, row: int, other: int)
    requires
        s.max_size <= MAXIMUM_CAPACITY,
        0 <= row < DEPTH,
        0 <= other < DEPTH,
        row != other,
    ensures
        s.slot(hash_code, row) != s.slot(hash_code, other),
{
    lemma_slot_in_table(s, hash_code, row);
    lemma_slot_in_table(s, hash_code, other);
}

/// A fresh sketch is valid, and estimates zero for every item.
pub proof fn lemma_fresh_is_valid(max_size: nat, hash_code: u64)
    requires
        max_size <= MAXIMUM_CAPACITY,
    ensures
        SketchView::fresh(max_size).valid(),
        SketchView::fresh(max_size).frequency(hash_code) == 0,
{
    let s = SketchView::fresh(max_size);
    lemma_range_sum_zero(s.counters, 0, s.counters.len() as int);
    lemma_slot_in_table(s, hash_code, 0);
    lemma_slot_in_table(s, hash_code, 1);
    lemma_slot_in_table(s, hash_code, 2);
    lemma_slot_in_table(s, hash_code, 3);
}

/// An increment of any item leaves a valid sketch valid.
pub proof fn lemma_increment_keeps_valid(s: SketchView, hash_code: u64)
    requires
        s.valid(),
    ensures
        s.increment(hash_code).valid(),
{
    lemma_bumped_by_rows(s, hash_code);
    if s.frequency(hash_code) < SATURATION {
        let grown = SketchView {
            max_size: s.max_size,
            size: s.size + 1,
            counters: s.bumped(hash_code),
        };
        assert(grown.inv());
        if grown.size == s.sample_size() {
            lemma_aged_valid(grown);
        }
    }
}

/// The estimate for any item is at most 15, in every sketch that a run of
/// increments and aging passes can reach.
pub proof fn lemma_frequency_is_bounded(s: SketchView, hash_code: u64)
    requires
        s.inv(),
    ensures
        s.frequency(hash_code) <= SATURATION,
{
    lemma_slot_in_table(s, hash_code, 0);
    lemma_slot_in_table(s, hash_code, 1);
    lemma_slot_in_table(s, hash_code, 2);
    lemma_slot_in_table(s, hash_code, 3);
}

/// An increment that does not end in an aging pass lowers the estimate of no
/// item, and raises the estimate of the incremented item by one, up to 15.
pub proof fn lemma_increment_is_monotone(s: SketchView, incremented: u64, observed: u64)
    requires
        s.valid(),
        !s.ages_on(incremented),
    ensures
        s.increment(incremented).frequency(observed) >= s.frequency(observed),
        s.increment(incremented).frequency(incremented) == min2(
            s.frequency(incremented) + 1,
            SATURATION as nat,
        ),
{
    lemma_bumped_by_rows(s, incremented);
    lemma_slot_in_table(s, observed, 0);
    lemma_slot_in_table(s, observed, 1);
    lemma_slot_in_table(s, observed, 2);
    lemma_slot_in_table(s, observed, 3);
    lemma_slot_in_table(s, incremented, 0);
    lemma_slot_in_table(s, incremented, 1);
    lemma_slot_in_table(s, incremented, 2);
    lemma_slot_in_table(s, incremented, 3);
}

/// `n` increments of one item on a fresh sketch, with `n` at most 15 and below
/// the aging threshold, give the estimate `n` for that item.
pub proof fn lemma_fresh_counts_exactly(max_size: nat, hash_code: u64, n: nat)
    requires
        max_size <= MAXIMUM_CAPACITY,
        n <= SATURATION,
        n < sample_size_for(max_size),
    ensures
        SketchView::fresh(max_size).increment_n(hash_code, n).valid(),
        SketchView::fresh(max_size).increment_n(hash_code, n).max_size == max_size,
        SketchView::fresh(max_size).increment_n(hash_code, n).size == n,
        SketchView::fresh(max_size).increment_n(hash_code, n).frequency(hash_code) == n,
    decreases n,
{
    let fresh = SketchView::fresh(max_size);
    if n == 0 {
        lemma_fresh_is_valid(max_size, hash_code);
    } else {
        let before = fresh.increment_n(hash_code, (n - 1) as nat);
        lemma_fresh_counts_exactly(max_size, hash_code, (n - 1) as nat);
        lemma_increment_keeps_valid(before, hash_code);
        lemma_increment_is_monotone(before, hash_code, hash_code);
    }
}

/// Whatever items are incremented on a fresh sketch, in whatever order and
/// number, the sketch stays valid and the estimate of every item is at most 15.
pub proof fn lemma_every_run_is_bounded(max_size: nat, hash_codes: Seq<u64>, observed: u64)
    requires
        max_size <= MAXIMUM_CAPACITY,
    ensures
        SketchView::fresh(max_size).increment_all(hash_codes).valid(),
        SketchView::fresh(max_size).increment_all(hash_codes).frequency(observed) <= SATURATION,
    decreases hash_codes.len(),
{
    let fresh = SketchView::fresh(max_size);
    if hash_codes.len() == 0 {
        lemma_fresh_is_valid(max_size, observed);
    } else {
        lemma_every_run_is_bounded(max_size, hash_codes.drop_last(), observed);
        lemma_increment_keeps_valid(fresh.increment_all(hash_codes.drop_last()), hash_codes.last());
    }
    lemma_frequency_is_bounded(fresh.increment_all(hash_codes), observed);
}

/// As long as a fresh sketch has seen fewer increments than its aging
/// threshold, it underestimates no item: the estimate is at least the number
/// of increments of the item, up to 15.
pub proof fn lemma_no_underestimate_before_aging(
    max_size: nat,
    hash_codes: Seq<u64>,
    observed: u64,
)
    requires
        max_size <= MAXIMUM_CAPACITY,
        hash_codes.len() < sample_size_for(max_size),
    ensures
        SketchView::fresh(max_size).increment_all(hash_codes).valid(),
        SketchView::fresh(max_size).increment_all(hash_codes).max_size == max_size,
        SketchView::fresh(max_size).increment_all(hash_codes).size <= hash_codes.len(),
        SketchView::fresh(max_size).increment_all(hash_codes).frequency(observed) >= min2(
            occurrences(hash_codes, observed),
            SATURATION as nat,
        ),
    decreases hash_codes.len(),
{
    let fresh = SketchView::fresh(max_size);
    if hash_codes.len() == 0 {
        lemma_fresh_is_valid(max_size, observed);
    } else {
        let before = fresh.increment_all(hash_codes.drop_last());
        lemma_no_underestimate_before_aging(max_size, hash_codes.drop_last(), observed);
        lemma_increment_keeps_valid(before, hash_codes.last());
        lemma_increment_is_monotone(before, hash_codes.last(), observed);
    }
}

/// An aging pass halves the estimate of every item, rounding down; so the new
/// estimate is at most half of the old one, rounded up.
pub proof fn lemma_aging_halves_frequency(s: SketchView, hash_code: u64)
    requires
        s.inv(),
    ensures
        s.aged().frequency(hash_code) == s.frequency(hash_code) / 2,
        s.aged().frequency(hash_code) <= (s.frequency(hash_code) + 1) / 2,
{
    lemma_slot_in_table(s, hash_code, 0);
    lemma_slot_in_table(s, hash_code, 1);
    lemma_slot_in_table(s, hash_code, 2);
    lemma_slot_in_table(s, hash_code, 3);
}

} // verus!
