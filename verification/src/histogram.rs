//! The frequency histogram of iteration counts.
//!
//! Bin `c` holds how many pixels stopped at exactly `c` iterations, for every
//! `c` below the cap. Pixels that reached the cap never escaped; they are not
//! counted, and the bin at the cap itself always stays empty.

use crate::tally::{
    count_where, lemma_count_where_all, lemma_count_where_bounded, lemma_count_where_concat,
    lemma_count_where_empty_range, lemma_count_where_is_multiplicity, lemma_count_where_none,
    lemma_count_where_split, lemma_count_where_push, lemma_prefix_sum_monotone,
    lemma_prefix_sum_update, parallel_sum, prefix_sum, total_of,
};
use vstd::prelude::*;

verus! {

/// What bin `c` must hold for the pixels `counts` under the cap `max_iter`.
pub open spec fn bin_of(counts: Seq<u64>, max_iter: int, c: int) -> nat {
    if 0 <= c < max_iter {
        count_where(counts, c, c + 1)
    } else {
        0
    }
}

/// How many pixels sit at the cap: those whose orbit never escaped.
pub open spec fn capped_pixels(counts: Seq<u64>, max_iter: int) -> nat {
    count_where(counts, max_iter, max_iter + 1)
}

/// `bins` is the histogram of `counts` under the cap `max_iter`: one bin for
/// each count from 0 to the cap, each holding `bin_of`.
pub open spec fn is_histogram_of(bins: Seq<u64>, counts: Seq<u64>, max_iter: int) -> bool {
    &&& bins.len() == max_iter + 1
    &&& forall|c: int| 0 <= c <= max_iter ==> #[trigger] bins[c] == bin_of(counts, max_iter, c)
}

/// `merged` is the bin-by-bin sum of `a` and `b`.
pub open spec fn is_merge_of(merged: Seq<u64>, a: Seq<u64>, b: Seq<u64>) -> bool {
    &&& a.len() == b.len()
    &&& merged.len() == a.len()
    &&& forall|c: int| 0 <= c < merged.len() ==> #[trigger] merged[c] == a[c] + b[c]
}

/// A dense histogram with one bin per iteration count from 0 to the cap.
pub struct Histogram {
    bins: Vec<u64>,
}

impl View for Histogram {
    type V = Seq<u64>;

    closed spec fn view(&self) -> Seq<u64> {
        self.bins@
    }
}

impl Histogram {
    #[verifier::type_invariant]
    spec fn inv(self) -> bool {
        &&& self.bins@.len() >= 1
        &&& self.bins@.last() == 0
        &&& total_of(self.bins@) <= u64::MAX
    }

    /// The properties every histogram value has.
    pub open spec fn valid(bins: Seq<u64>) -> bool {
        &&& bins.len() >= 1
        &&& bins.last() == 0
        &&& total_of(bins) <= u64::MAX
    }

    /// The histogram with every bin empty: the neutral element of `merge`.
    pub fn empty(max_iter: u64) -> (h: Histogram)
        requires
            max_iter < usize::MAX,
        ensures
            Self::valid(h@),
            is_histogram_of(h@, Seq::<u64>::empty(), max_iter as int),
    {
        let bins: Vec<u64> = vec![0u64; max_iter as usize + 1];
        proof {
            lemma_prefix_sum_zero(bins@, bins@.len() as int);
        }
        Histogram { bins }
    }

    /// Counts the pixels of one partition of the field.
    pub fn of_counts(counts: &[u64], max_iter: u64) -> (h: Histogram)
        requires
            max_iter < usize::MAX,
        ensures
            Self::valid(h@),
            is_histogram_of(h@, counts@, max_iter as int),
            total_of(h@) == count_where(counts@, 0, max_iter as int),
    {
        let mut bins: Vec<u64> = vec![0u64; max_iter as usize + 1];
        proof {
            lemma_prefix_sum_zero(bins@, bins@.len() as int);
            assert(counts@.take(0) =~= Seq::<u64>::empty());
        }
        let n: usize = counts.len();
        let mut i: usize = 0;
        while i < n
            invariant
                i <= n,
                n == counts@.len(),
                max_iter < usize::MAX,
                is_histogram_of(bins@, counts@.take(i as int), max_iter as int),
                total_of(bins@) == count_where(counts@.take(i as int), 0, max_iter as int),
            decreases n - i,
        {
            let v: u64 = counts[i];
            proof {
                let seen = counts@.take(i as int);
                assert(counts@.take(i + 1) =~= seen.push(v));
                lemma_count_where_push(seen, v, 0, max_iter as int);
                lemma_count_where_bounded(seen, 0, max_iter as int);
                assert forall|c: int| 0 <= c <= max_iter implies bin_of(
                    seen.push(v),
                    max_iter as int,
                    c,
                ) == bin_of(seen, max_iter as int, c) + if c == v && v < max_iter {
                    1nat
                } else {
                    0nat
                } by {
                    lemma_count_where_push(seen, v, c, c + 1);
                }
            }
            if v < max_iter {
                let at: usize = v as usize;
                let before: u64 = bins[at];
                proof {
                    lemma_entry_at_most_total(bins@, at as int);
                    lemma_prefix_sum_update(
                        bins@,
                        at as int,
                        (before + 1) as u64,
                        bins@.len() as int,
                    );
                }
                bins.set(at, before + 1);
            }
            i += 1;
        }
        proof {
            assert(counts@.take(n as int) =~= counts@);
            lemma_count_where_bounded(counts@, 0, max_iter as int);
            assert(bins@[max_iter as int] == bin_of(counts@, max_iter as int, max_iter as int));
        }
        Histogram { bins }
    }

    /// The cap: the highest index a bin has.
    pub fn max_iter(&self) -> (cap: u64)
        ensures
            cap == self@.len() - 1,
            cap < usize::MAX,
            Self::valid(self@),
    {
        proof {
            use_type_invariant(self);
        }
        (self.bins.len() - 1) as u64
    }

    /// The number of pixels that stopped at exactly `c` iterations; 0 beyond the cap.
    pub fn bin(&self, c: u64) -> (n: u64)
        ensures
            n == if c < self@.len() {
                self@[c as int]
            } else {
                0
            },
    {
        if c < self.bins.len() as u64 {
            self.bins[c as usize]
        } else {
            0
        }
    }

    /// The number of pixels counted: all those that escaped below the cap.
    pub fn total(&self) -> (total: u64)
        ensures
            total == total_of(self@),
            Self::valid(self@),
    {
        proof {
            use_type_invariant(self);
        }
        parallel_sum(&self.bins)
    }

    /// Adds two partial histograms bin by bin.
    ///
    /// Returns `None` when the caps differ or the combined total would not fit.
    pub fn merge(&self, other: &Histogram) -> (merged: Option<Histogram>)
        ensures
            merged is Some <==> self@.len() == other@.len() && total_of(self@) + total_of(other@)
                <= u64::MAX,
            merged matches Some(m) ==> is_merge_of(m@, self@, other@) && Self::valid(m@)
                && total_of(m@) == total_of(self@) + total_of(other@),
    {
        proof {
            use_type_invariant(self);
            use_type_invariant(other);
        }
        let n: usize = self.bins.len();
        if n != other.bins.len() {
            return None;
        }
        let left: u64 = parallel_sum(&self.bins);
        let right: u64 = parallel_sum(&other.bins);
        if left > u64::MAX - right {
            return None;
        }
        let mut bins: Vec<u64> = Vec::new();
        let mut c: usize = 0;
        while c < n
            invariant
                c <= n,
                n == self.bins@.len(),
                n == other.bins@.len(),
                bins@.len() == c,
                total_of(self.bins@) + total_of(other.bins@) <= u64::MAX,
                forall|k: int| 0 <= k < c ==> #[trigger] bins@[k] == self.bins@[k] + other.bins@[k],
            decreases n - c,
        {
            proof {
                lemma_entry_at_most_total(self.bins@, c as int);
                lemma_entry_at_most_total(other.bins@, c as int);
            }
            bins.push(self.bins[c] + other.bins[c]);
            c += 1;
        }
        proof {
            lemma_total_of_merge(bins@, self.bins@, other.bins@);
        }
        Some(Histogram { bins })
    }
}

/// A sequence of zeros sums to zero.
pub proof fn lemma_prefix_sum_zero(bins: Seq<u64>, n: int)
    requires
        n <= bins.len(),
        forall|i: int| 0 <= i < n ==> bins[i] == 0,
    ensures
        prefix_sum(bins, n) == 0,
    decreases n,
{
    if n > 0 {
        lemma_prefix_sum_zero(bins, n - 1);
    }
}

/// No bin holds more than the whole histogram.
pub proof fn lemma_entry_at_most_total(bins: Seq<u64>, at: int)
    requires
        0 <= at < bins.len(),
    ensures
        bins[at] <= total_of(bins),
{
    lemma_prefix_sum_monotone(bins, at + 1, bins.len() as int);
    lemma_prefix_sum_monotone(bins, 0, at);
}

/// Every prefix of a merged histogram sums to the two prefixes together.
pub proof fn lemma_prefix_sum_of_merge(merged: Seq<u64>, a: Seq<u64>, b: Seq<u64>, n: int)
    requires
        is_merge_of(merged, a, b),
        n <= merged.len(),
    ensures
        prefix_sum(merged, n) == prefix_sum(a, n) + prefix_sum(b, n),
    decreases n,
{
    if n > 0 {
        lemma_prefix_sum_of_merge(merged, a, b, n - 1);
        assert(merged[n - 1] == a[n - 1] + b[n - 1]);
    }
}

/// Merging adds the totals.
pub proof fn lemma_total_of_merge(merged: Seq<u64>, a: Seq<u64>, b: Seq<u64>)
    requires
        is_merge_of(merged, a, b),
    ensures
        total_of(merged) == total_of(a) + total_of(b),
{
    lemma_prefix_sum_of_merge(merged, a, b, merged.len() as int);
}

/// The bins up to `k` together hold the pixels whose count is below `k`.
pub proof fn lemma_histogram_prefix(bins: Seq<u64>, counts: Seq<u64>, max_iter: int, k: int)
    requires
        is_histogram_of(bins, counts, max_iter),
        0 <= k <= max_iter,
    ensures
        prefix_sum(bins, k) == count_where(counts, 0, k),
    decreases k,
{
    if k > 0 {
        lemma_histogram_prefix(bins, counts, max_iter, k - 1);
        lemma_count_where_split(counts, 0, k - 1, k);
        assert(bins[k - 1] == bin_of(counts, max_iter, k - 1));
    } else {
        lemma_count_where_empty_range(counts, 0);
    }
}

/// The histogram's total is the number of pixels that escaped below the cap.
pub proof fn lemma_histogram_total(bins: Seq<u64>, counts: Seq<u64>, max_iter: int)
    requires
        is_histogram_of(bins, counts, max_iter),
        0 <= max_iter,
    ensures
        total_of(bins) == count_where(counts, 0, max_iter),
{
    lemma_histogram_prefix(bins, counts, max_iter, max_iter);
    assert(bins[max_iter] == bin_of(counts, max_iter, max_iter));
}

/// Conservation: when no count exceeds the cap, the pixels counted in the
/// histogram and the pixels that sit at the cap are all the pixels there are.
pub proof fn lemma_histogram_conservation(bins: Seq<u64>, counts: Seq<u64>, max_iter: int)
    requires
        is_histogram_of(bins, counts, max_iter),
        0 <= max_iter,
        forall|i: int| 0 <= i < counts.len() ==> #[trigger] counts[i] <= max_iter,
    ensures
        total_of(bins) + capped_pixels(counts, max_iter) == counts.len(),
{
    lemma_histogram_total(bins, counts, max_iter);
    lemma_count_where_split(counts, 0, max_iter, max_iter + 1);
    lemma_count_where_all(counts, 0, max_iter + 1);
}

/// Partition independence: the histograms of two parts, merged, are the
/// histogram of the parts laid end to end, however the pixels were divided.
pub proof fn lemma_merge_is_histogram_of_concat(
    merged: Seq<u64>,
    a: Seq<u64>,
    b: Seq<u64>,
    part_a: Seq<u64>,
    part_b: Seq<u64>,
    max_iter: int,
)
    requires
        is_histogram_of(a, part_a, max_iter),
        is_histogram_of(b, part_b, max_iter),
        is_merge_of(merged, a, b),
    ensures
        is_histogram_of(merged, part_a + part_b, max_iter),
{
    assert forall|c: int| 0 <= c <= max_iter implies #[trigger] merged[c] == bin_of(
        part_a + part_b,
        max_iter,
        c,
    ) by {
        lemma_count_where_concat(part_a, part_b, c, c + 1);
        assert(a[c] == bin_of(part_a, max_iter, c));
        assert(b[c] == bin_of(part_b, max_iter, c));
    }
}

/// Merging is commutative: the order of the two parts does not matter.
pub proof fn lemma_merge_commutes(x: Seq<u64>, y: Seq<u64>, a: Seq<u64>, b: Seq<u64>)
    requires
        is_merge_of(x, a, b),
        is_merge_of(y, b, a),
    ensures
        x == y,
{
    assert(x =~= y);
}

/// Merging is associative: three parts may be merged in either grouping.
pub proof fn lemma_merge_associates(
    x: Seq<u64>,
    y: Seq<u64>,
    ab: Seq<u64>,
    bc: Seq<u64>,
    a: Seq<u64>,
    b: Seq<u64>,
    c: Seq<u64>,
)
    requires
        is_merge_of(ab, a, b),
        is_merge_of(x, ab, c),
        is_merge_of(bc, b, c),
        is_merge_of(y, a, bc),
    ensures
        x == y,
{
    assert forall|k: int| 0 <= k < x.len() implies x[k] == y[k] by {
        assert(ab[k] == a[k] + b[k]);
        assert(bc[k] == b[k] + c[k]);
    }
    assert(x =~= y);
}

/// The empty histogram is neutral: merging it in changes nothing.
pub proof fn lemma_merge_with_empty(merged: Seq<u64>, a: Seq<u64>, zeros: Seq<u64>)
    requires
        is_merge_of(merged, a, zeros),
        forall|k: int| 0 <= k < zeros.len() ==> zeros[k] == 0,
    ensures
        merged == a,
{
    assert(merged =~= a);
}

/// Order independence: two pixel sequences that hold the same counts, in any
/// order, have the same histogram.
pub proof fn lemma_histogram_ignores_order(
    a: Seq<u64>,
    b: Seq<u64>,
    counts_a: Seq<u64>,
    counts_b: Seq<u64>,
    max_iter: int,
)
    requires
        is_histogram_of(a, counts_a, max_iter),
        is_histogram_of(b, counts_b, max_iter),
        counts_a.to_multiset() == counts_b.to_multiset(),
    ensures
        a == b,
{
    assert forall|c: int| 0 <= c < a.len() implies a[c] == b[c] by {
        assert(a[c] == bin_of(counts_a, max_iter, c));
        assert(b[c] == bin_of(counts_b, max_iter, c));
        if c < max_iter && c <= u64::MAX {
            lemma_count_where_is_multiplicity(counts_a, c as u64);
            lemma_count_where_is_multiplicity(counts_b, c as u64);
        } else if c < max_iter {
            lemma_count_where_none(counts_a, c, c + 1);
            lemma_count_where_none(counts_b, c, c + 1);
        }
    }
    assert(a =~= b);
}

} // verus!
