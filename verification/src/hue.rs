//! The cumulative hue table.
//!
//! A hue is a fraction of a full turn around the colour wheel. The hue of an
//! iteration count `c` is the share of escaped pixels whose count is at most
//! `c`, so that colours spread evenly over the pixels rather than over the
//! counts. Fractions are kept exact, as a numerator over a denominator.

use crate::histogram::{
    bin_of, is_histogram_of, lemma_histogram_prefix, lemma_histogram_total, Histogram,
};
use crate::tally::{
    count_where, lemma_count_where_all, lemma_count_where_none, lemma_prefix_sum_monotone,
    lemma_prefix_sum_zero_tail, prefix_sum, total_of,
};
use vstd::arithmetic::div_mod::{lemma_mod_add_multiples_vanish, lemma_small_mod};
use vstd::prelude::*;

verus! {

/// How often the colour wheel is cycled over the whole distribution.
pub const HUE_CYCLES: u64 = 2;

/// A fraction of a full turn: `numer / denom`.
#[derive(Clone, Copy, Debug, PartialEq, Eq, Structural)]
pub struct Hue {
    pub numer: u64,
    pub denom: u64,
}

impl Hue {
    /// A proper hue has a positive denominator and is at most one full turn.
    pub open spec fn valid(self) -> bool {
        0 < self.denom && self.numer <= self.denom
    }

    /// `self <= other` as fractions.
    pub open spec fn at_most(self, other: Hue) -> bool {
        self.numer * other.denom <= other.numer * self.denom
    }

    /// The fraction is exactly one full turn.
    pub open spec fn is_full_turn(self) -> bool {
        self.numer == self.denom
    }
}

/// The hue of zero turns.
pub open spec fn zero_hue() -> Hue {
    Hue { numer: 0, denom: 1 }
}

/// How many counted pixels have an iteration count of at most `c`.
pub open spec fn pixels_up_to(bins: Seq<u64>, c: int) -> int {
    if c + 1 < bins.len() {
        prefix_sum(bins, c + 1)
    } else {
        total_of(bins)
    }
}

/// The hue of count `c` before any cycling: the cumulative share of the
/// histogram up to and including `c`, or zero when nothing was counted.
pub open spec fn hue_of(bins: Seq<u64>, c: int) -> Hue {
    if total_of(bins) == 0 {
        zero_hue()
    } else {
        Hue { numer: pixels_up_to(bins, c) as u64, denom: total_of(bins) as u64 }
    }
}

/// Brings `x` parts of a turn of `whole` parts back into one turn by taking
/// whole turns off for as long as it exceeds one.
pub open spec fn wrap_turns(x: nat, whole: nat) -> nat
    decreases x,
{
    if whole == 0 || x <= whole {
        x
    } else {
        wrap_turns((x - whole) as nat, whole)
    }
}

/// The hue of count `c` after the wheel is cycled `cycles` times.
pub open spec fn cycled_hue_of(bins: Seq<u64>, c: int, cycles: nat) -> Hue {
    if total_of(bins) == 0 {
        zero_hue()
    } else {
        Hue {
            numer: wrap_turns((cycles * pixels_up_to(bins, c)) as nat, total_of(bins) as nat) as u64,
            denom: total_of(bins) as u64,
        }
    }
}

/// Taking whole turns off one at a time is a remainder that maps exact
/// multiples to a full turn instead of to zero.
pub proof fn lemma_wrap_turns_closed_form(x: nat, whole: nat)
    requires
        whole > 0,
    ensures
        wrap_turns(x, whole) == if x == 0 {
            0
        } else {
            (x - 1) % (whole as int) + 1
        },
        wrap_turns(x, whole) <= whole,
    decreases x,
{
    if x == 0 {
    } else if x <= whole {
        lemma_small_mod((x - 1) as nat, whole);
    } else {
        lemma_wrap_turns_closed_form((x - whole) as nat, whole);
        lemma_mod_add_multiples_vanish(x - 1 - whole, whole as int);
    }
}

/// The numerator of a hue counts pixels: those that escaped with a count of
/// at most `c`.
pub proof fn lemma_pixels_up_to_counts_pixels(
    bins: Seq<u64>,
    counts: Seq<u64>,
    max_iter: int,
    c: int,
)
    requires
        is_histogram_of(bins, counts, max_iter),
        0 <= max_iter,
        0 <= c,
    ensures
        pixels_up_to(bins, c) == count_where(
            counts,
            0,
            if c + 1 < max_iter {
                c + 1
            } else {
                max_iter
            },
        ),
{
    lemma_histogram_total(bins, counts, max_iter);
    if c + 1 < bins.len() {
        lemma_histogram_prefix(bins, counts, max_iter, c + 1);
    }
}

/// Monotonicity: before cycling, a higher count never has a lower hue.
pub proof fn lemma_hue_monotone(bins: Seq<u64>, c1: int, c2: int)
    requires
        Histogram::valid(bins),
        0 <= c1 <= c2,
    ensures
        pixels_up_to(bins, c1) <= pixels_up_to(bins, c2),
        hue_of(bins, c1).at_most(hue_of(bins, c2)),
{
    let n = bins.len() as int;
    let k1 = if c1 + 1 < n { c1 + 1 } else { n };
    let k2 = if c2 + 1 < n { c2 + 1 } else { n };
    lemma_prefix_sum_monotone(bins, k1, k2);
    lemma_prefix_sum_monotone(bins, 0, k1);
    lemma_prefix_sum_monotone(bins, k2, n);
    let low = pixels_up_to(bins, c1);
    let high = pixels_up_to(bins, c2);
    let t = total_of(bins);
    if t != 0 {
        assert(low * t <= high * t) by (nonlinear_arith)
            requires
                low <= high,
                0 <= t,
        ;
    }
}

/// Where some bin between two counts is not empty, the hue strictly grows.
pub proof fn lemma_hue_strictly_grows(bins: Seq<u64>, c1: int, c2: int, between: int)
    requires
        Histogram::valid(bins),
        0 <= c1 < between <= c2,
        between < bins.len(),
        bins[between] > 0,
    ensures
        pixels_up_to(bins, c1) < pixels_up_to(bins, c2),
        !hue_of(bins, c2).at_most(hue_of(bins, c1)),
{
    let n = bins.len() as int;
    let k2 = if c2 + 1 < n { c2 + 1 } else { n };
    lemma_prefix_sum_monotone(bins, c1 + 1, between);
    lemma_prefix_sum_monotone(bins, between + 1, k2);
    lemma_prefix_sum_monotone(bins, 0, c1 + 1);
    lemma_prefix_sum_monotone(bins, k2, n);
    let low = pixels_up_to(bins, c1);
    let high = pixels_up_to(bins, c2);
    let t = total_of(bins);
    assert(low * t < high * t) by (nonlinear_arith)
        requires
            low < high,
            0 < t,
    ;
}

/// Boundary: from the highest count that any counted pixel has, the hue
/// before cycling is one full turn.
pub proof fn lemma_hue_reaches_full_turn(bins: Seq<u64>, c: int)
    requires
        Histogram::valid(bins),
        total_of(bins) > 0,
        0 <= c,
        forall|k: int| c < k < bins.len() ==> bins[k] == 0,
    ensures
        hue_of(bins, c).is_full_turn(),
{
    if c + 1 < bins.len() {
        lemma_prefix_sum_zero_tail(bins, c + 1, bins.len() as int);
    }
}

/// Boundary at the cap: the count just below the cap always has the full turn.
pub proof fn lemma_hue_below_cap_is_full_turn(bins: Seq<u64>)
    requires
        Histogram::valid(bins),
        total_of(bins) > 0,
    ensures
        bins.len() >= 2,
        hue_of(bins, bins.len() - 2).is_full_turn(),
{
    if bins.len() == 1 {
        assert(prefix_sum(bins, 1) == prefix_sum(bins, 0) + bins[0]);
    }
    lemma_hue_reaches_full_turn(bins, bins.len() - 2);
}

/// Degenerate field, nothing escaped: every hue is zero, cycled or not.
pub proof fn lemma_no_escape_gives_zero_hues(
    bins: Seq<u64>,
    counts: Seq<u64>,
    max_iter: int,
    c: int,
    cycles: nat,
)
    requires
        is_histogram_of(bins, counts, max_iter),
        0 <= max_iter,
        forall|i: int| 0 <= i < counts.len() ==> #[trigger] counts[i] >= max_iter,
    ensures
        total_of(bins) == 0,
        hue_of(bins, c) == zero_hue(),
        cycled_hue_of(bins, c, cycles) == zero_hue(),
{
    lemma_histogram_total(bins, counts, max_iter);
    lemma_count_where_none(counts, 0, max_iter);
}

/// Degenerate field, everything escaped at once: the distribution is a single
/// bucket and every count has the full turn.
pub proof fn lemma_immediate_escape_gives_full_turn(
    bins: Seq<u64>,
    counts: Seq<u64>,
    max_iter: int,
    c: int,
)
    requires
        is_histogram_of(bins, counts, max_iter),
        0 < max_iter,
        counts.len() > 0,
        forall|i: int| 0 <= i < counts.len() ==> #[trigger] counts[i] == 0,
        0 <= c,
    ensures
        total_of(bins) == counts.len(),
        bins[0] == counts.len(),
        hue_of(bins, c).is_full_turn(),
{
    lemma_histogram_total(bins, counts, max_iter);
    lemma_count_where_all(counts, 0, max_iter);
    lemma_count_where_all(counts, 0, 1);
    assert(bins[0] == bin_of(counts, max_iter, 0));
    assert(prefix_sum(bins, 1) == prefix_sum(bins, 0) + bins[0]);
    if c + 1 < bins.len() {
        lemma_prefix_sum_monotone(bins, 1, c + 1);
        lemma_prefix_sum_monotone(bins, c + 1, bins.len() as int);
    }
}

/// The cumulative hue table of one histogram.
pub struct HueTable {
    cumulative: Vec<u64>,
    total: u64,
    bins: Ghost<Seq<u64>>,
}

impl HueTable {
    #[verifier::type_invariant]
    spec fn inv(self) -> bool {
        &&& Histogram::valid(self.bins@)
        &&& self.total == total_of(self.bins@)
        &&& self.cumulative@.len() == self.bins@.len()
        &&& forall|c: int|
            0 <= c < self.cumulative@.len() ==> #[trigger] self.cumulative@[c] == prefix_sum(
                self.bins@,
                c + 1,
            )
    }

    /// The histogram the table was built from.
    pub closed spec fn histogram(&self) -> Seq<u64> {
        self.bins@
    }

    /// Builds the table by one ascending pass of running sums over the bins.
    pub fn from_histogram(h: &Histogram) -> (table: HueTable)
        ensures
            table.histogram() == h@,
            Histogram::valid(table.histogram()),
    {
        let total: u64 = h.total();
        let cap: u64 = h.max_iter();
        let n: usize = cap as usize + 1;
        let mut cumulative: Vec<u64> = Vec::new();
        let mut running: u64 = 0;
        let mut c: usize = 0;
        while c < n
            invariant
                c <= n,
                n == h@.len(),
                total == total_of(h@),
                cumulative@.len() == c,
                running == prefix_sum(h@, c as int),
                forall|k: int| 0 <= k < c ==> #[trigger] cumulative@[k] == prefix_sum(h@, k + 1),
            decreases n - c,
        {
            proof {
                lemma_prefix_sum_monotone(h@, c + 1, n as int);
            }
            running = running + h.bin(c as u64);
            cumulative.push(running);
            c += 1;
        }
        HueTable { cumulative, total, bins: Ghost(h@) }
    }

    /// The iteration cap of the histogram behind the table.
    pub fn max_iter(&self) -> (cap: u64)
        ensures
            cap == self.histogram().len() - 1,
            Histogram::valid(self.histogram()),
    {
        proof {
            use_type_invariant(self);
        }
        (self.cumulative.len() - 1) as u64
    }

    /// The number of pixels counted: the denominator of every hue.
    pub fn total(&self) -> (total: u64)
        ensures
            total == total_of(self.histogram()),
    {
        proof {
            use_type_invariant(self);
        }
        self.total
    }

    /// The number of counted pixels whose iteration count is at most `c`.
    pub fn cumulative(&self, c: u64) -> (n: u64)
        ensures
            n == pixels_up_to(self.histogram(), c as int),
            n <= total_of(self.histogram()),
    {
        proof {
            use_type_invariant(self);
        }
        let last: usize = self.cumulative.len() - 1;
        if c < last as u64 {
            proof {
                lemma_prefix_sum_monotone(self.bins@, c + 1, self.bins@.len() as int);
            }
            self.cumulative[c as usize]
        } else {
            self.total
        }
    }

    /// The hue of count `c` before cycling.
    pub fn hue(&self, c: u64) -> (hue: Hue)
        ensures
            hue == hue_of(self.histogram(), c as int),
            hue.valid(),
    {
        let total: u64 = self.total();
        if total == 0 {
            Hue { numer: 0, denom: 1 }
        } else {
            Hue { numer: self.cumulative(c), denom: total }
        }
    }

    /// The hue of count `c` after the wheel is cycled `cycles` times: the
    /// plain hue multiplied by `cycles` and wrapped back into one turn.
    pub fn cycled_hue(&self, c: u64, cycles: u64) -> (hue: Hue)
        ensures
            hue == cycled_hue_of(self.histogram(), c as int, cycles as nat),
            hue.valid(),
    {
        let total: u64 = self.total();
        if total == 0 {
            return Hue { numer: 0, denom: 1 };
        }
        let share: u64 = self.cumulative(c);
        assert(cycles * share <= u128::MAX) by (nonlinear_arith)
            requires
                cycles <= u64::MAX,
                share <= u64::MAX,
        ;
        let parts: u128 = (cycles as u128) * (share as u128);
        proof {
            lemma_wrap_turns_closed_form(parts as nat, total as nat);
        }
        if parts == 0 {
            Hue { numer: 0, denom: total }
        } else {
            let wrapped: u128 = (parts - 1) % (total as u128) + 1;
            Hue { numer: wrapped as u64, denom: total }
        }
    }
}

} // verus!
