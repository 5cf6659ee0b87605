//! Sums over a stretch of a sequence of natural numbers.

use vstd::prelude::*;

verus! {

/// The sum of `s[lo]`, ..., `s[hi - 1]`.
pub open spec fn range_sum(s: Seq<nat>, lo: int, hi: int) -> nat
    decreases hi - lo,
{
    if hi <= lo {
        0
    } else {
        range_sum(s, lo, hi - 1) + s[hi - 1]
    }
}

/// A stretch can be summed in two parts.
pub proof fn lemma_range_sum_split(s: Seq<nat>, lo: int, mid: int, hi: int)
    requires
        lo <= mid <= hi,
    ensures
        range_sum(s, lo, hi) == range_sum(s, lo, mid) + range_sum(s, mid, hi),
    decreases hi - mid,
{
    if mid < hi {
        lemma_range_sum_split(s, lo, mid, hi - 1);
    }
}

/// Sequences that agree on a stretch have the same sum there.
pub proof fn lemma_range_sum_agree(s: Seq<nat>, t: Seq<nat>, lo: int, hi: int)
    requires
        forall|i: int| lo <= i < hi ==> s[i] == t[i],
    ensures
        range_sum(s, lo, hi) == range_sum(t, lo, hi),
    decreases hi - lo,
{
    if lo < hi {
        lemma_range_sum_agree(s, t, lo, hi - 1);
    }
}

/// Where `s` is nowhere above `t` on a stretch, its sum there is not above that of `t`.
pub proof fn lemma_range_sum_ordered(s: Seq<nat>, t: Seq<nat>, lo: int, hi: int)
    requires
        forall|i: int| lo <= i < hi ==> s[i] <= t[i],
    ensures
        range_sum(s, lo, hi) <= range_sum(t, lo, hi),
    decreases hi - lo,
{
    if lo < hi {
        lemma_range_sum_ordered(s, t, lo, hi - 1);
    }
}

/// A stretch of zeros sums to zero.
pub proof fn lemma_range_sum_zero(s: Seq<nat>, lo: int, hi: int)
    requires
        forall|i: int| lo <= i < hi ==> s[i] == 0,
    ensures
        range_sum(s, lo, hi) == 0,
    decreases hi - lo,
{
    if lo < hi {
        lemma_range_sum_zero(s, lo, hi - 1);
    }
}

/// Replacing one element inside a stretch moves the sum by the difference.
pub proof fn lemma_range_sum_update(s: Seq<nat>, p: int, v: nat, lo: int, hi: int)
    requires
        0 <= lo <= p < hi <= s.len(),
    ensures
        range_sum(s.update(p, v), lo, hi) + s[p] == range_sum(s, lo, hi) + v,
{
    let t = s.update(p, v);
    lemma_range_sum_split(s, lo, p, hi);
    lemma_range_sum_split(s, p, p + 1, hi);
    lemma_range_sum_split(t, lo, p, hi);
    lemma_range_sum_split(t, p, p + 1, hi);
    lemma_range_sum_agree(s, t, lo, p);
    lemma_range_sum_agree(s, t, p + 1, hi);
    reveal_with_fuel(range_sum, 2);
}

/// The halves of the elements, rounded down.
pub open spec fn halves(s: Seq<nat>) -> Seq<nat> {
    Seq::new(s.len(), |i: int| s[i] / 2)
}

/// The parities of the elements: 1 for an odd one, 0 for an even one.
pub open spec fn parities(s: Seq<nat>) -> Seq<nat> {
    Seq::new(s.len(), |i: int| s[i] % 2)
}

/// Twice the sum of the halves, plus the number of odd elements, is the sum.
pub proof fn lemma_range_sum_halves(s: Seq<nat>, lo: int, hi: int)
    requires
        0 <= lo <= hi <= s.len(),
    ensures
        2 * range_sum(halves(s), lo, hi) + range_sum(parities(s), lo, hi) == range_sum(s, lo, hi),
    decreases hi - lo,
{
    if lo < hi {
        lemma_range_sum_halves(s, lo, hi - 1);
    }
}

} // verus!
