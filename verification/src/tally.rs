//! Counting and summing over sequences of iteration counts and bins.

use rayon::iter::IntoParallelRefIterator;
use rayon::iter::ParallelIterator;
use vstd::prelude::*;

verus! {

/// How many entries `v` of `counts` satisfy `lo <= v < hi`.
pub open spec fn count_where(counts: Seq<u64>, lo: int, hi: int) -> nat
    decreases counts.len(),
{
    if counts.len() == 0 {
        0
    } else {
        let rest = count_where(counts.drop_last(), lo, hi);
        if lo <= counts.last() < hi {
            rest + 1
        } else {
            rest
        }
    }
}

/// The sum of the first `n` entries of `bins`.
pub open spec fn prefix_sum(bins: Seq<u64>, n: int) -> int
    decreases n,
{
    if n <= 0 {
        0
    } else {
        prefix_sum(bins, n - 1) + bins[n - 1]
    }
}

/// The sum of all entries of `bins`.
pub open spec fn total_of(bins: Seq<u64>) -> int {
    prefix_sum(bins, bins.len() as int)
}

/// No range holds more entries than the sequence has.
pub proof fn lemma_count_where_bounded(counts: Seq<u64>, lo: int, hi: int)
    ensures
        count_where(counts, lo, hi) <= counts.len(),
    decreases counts.len(),
{
    if counts.len() > 0 {
        lemma_count_where_bounded(counts.drop_last(), lo, hi);
    }
}

/// Appending one entry adds it to exactly the ranges that contain it.
pub proof fn lemma_count_where_push(counts: Seq<u64>, v: u64, lo: int, hi: int)
    ensures
        count_where(counts.push(v), lo, hi) == count_where(counts, lo, hi) + if lo <= v < hi {
            1nat
        } else {
            0nat
        },
{
    assert(counts.push(v).drop_last() =~= counts);
}

/// Counting over a concatenation adds the two counts.
pub proof fn lemma_count_where_concat(a: Seq<u64>, b: Seq<u64>, lo: int, hi: int)
    ensures
        count_where(a + b, lo, hi) == count_where(a, lo, hi) + count_where(b, lo, hi),
    decreases b.len(),
{
    if b.len() == 0 {
        assert(a + b =~= a);
    } else {
        assert((a + b).drop_last() =~= a + b.drop_last());
        lemma_count_where_concat(a, b.drop_last(), lo, hi);
    }
}

/// A range split at `mid` counts as its two halves together.
pub proof fn lemma_count_where_split(counts: Seq<u64>, lo: int, mid: int, hi: int)
    requires
        lo <= mid <= hi,
    ensures
        count_where(counts, lo, hi) == count_where(counts, lo, mid) + count_where(counts, mid, hi),
    decreases counts.len(),
{
    if counts.len() > 0 {
        lemma_count_where_split(counts.drop_last(), lo, mid, hi);
    }
}

/// An empty range holds no entry.
pub proof fn lemma_count_where_empty_range(counts: Seq<u64>, at: int)
    ensures
        count_where(counts, at, at) == 0,
    decreases counts.len(),
{
    if counts.len() > 0 {
        lemma_count_where_empty_range(counts.drop_last(), at);
    }
}

/// A range that holds every entry counts them all.
pub proof fn lemma_count_where_all(counts: Seq<u64>, lo: int, hi: int)
    requires
        forall|i: int| 0 <= i < counts.len() ==> lo <= #[trigger] counts[i] < hi,
    ensures
        count_where(counts, lo, hi) == counts.len(),
    decreases counts.len(),
{
    if counts.len() > 0 {
        lemma_count_where_all(counts.drop_last(), lo, hi);
    }
}

/// A range that holds no entry counts none.
pub proof fn lemma_count_where_none(counts: Seq<u64>, lo: int, hi: int)
    requires
        forall|i: int| 0 <= i < counts.len() ==> !(lo <= #[trigger] counts[i] < hi),
    ensures
        count_where(counts, lo, hi) == 0,
    decreases counts.len(),
{
    if counts.len() > 0 {
        lemma_count_where_none(counts.drop_last(), lo, hi);
    }
}

/// The count of a single value is its multiplicity in the multiset of entries.
pub proof fn lemma_count_where_is_multiplicity(counts: Seq<u64>, v: u64)
    ensures
        count_where(counts, v as int, v + 1) == counts.to_multiset().count(v),
    decreases counts.len(),
{
    broadcast use vstd::multiset::group_multiset_axioms;

    if counts.len() == 0 {
        counts.to_multiset_ensures();
        assert(counts.to_multiset().len() == 0);
    } else {
        let front = counts.drop_last();
        lemma_count_where_is_multiplicity(front, v);
        front.to_multiset_ensures();
        assert(front.push(counts.last()) =~= counts);
    }
}

/// Prefix sums grow with the prefix.
pub proof fn lemma_prefix_sum_monotone(bins: Seq<u64>, i: int, j: int)
    requires
        i <= j,
    ensures
        prefix_sum(bins, i) <= prefix_sum(bins, j),
    decreases j - i,
{
    if i < j {
        lemma_prefix_sum_monotone(bins, i, j - 1);
        if j <= 0 {
        }
    }
}

/// Entries that are zero add nothing to a prefix sum.
pub proof fn lemma_prefix_sum_zero_tail(bins: Seq<u64>, from: int, to: int)
    requires
        0 <= from <= to <= bins.len(),
        forall|k: int| from <= k < to ==> bins[k] == 0,
    ensures
        prefix_sum(bins, to) == prefix_sum(bins, from),
    decreases to - from,
{
    if from < to {
        lemma_prefix_sum_zero_tail(bins, from, to - 1);
    }
}

/// Replacing entry `at` changes every prefix sum that covers it by the difference.
pub proof fn lemma_prefix_sum_update(bins: Seq<u64>, at: int, value: u64, n: int)
    requires
        0 <= at < bins.len(),
        n <= bins.len(),
    ensures
        prefix_sum(bins.update(at, value), n) == prefix_sum(bins, n) + if at < n {
            value - bins[at]
        } else {
            0
        },
    decreases n,
{
    if n > 0 {
        lemma_prefix_sum_update(bins, at, value, n - 1);
    }
}

/// Calls rayon's `ParallelIterator::sum` on the parallel iterator over `bins`.
///
/// Trusted: the result is the arithmetic sum of the entries. Rayon reduces the
/// items with `+` in an unspecified grouping, which for unsigned integers
/// whose total fits the type is the plain sum; a total beyond `u64::MAX` is
/// excluded because the addition would overflow.
#[verifier::external_body]
pub(crate) fn parallel_sum(bins: &Vec<u64>) -> (total: u64)
    requires
        total_of(bins@) <= u64::MAX,
    ensures
        total == total_of(bins@),
{
    bins.par_iter().sum()
}

} // verus!
