//! The control of the escape-time loop.
//!
//! The orbit itself is floating-point work that the caller does. What is
//! decided here is when the loop ends and which count it reports: before
//! each iteration the caller says whether the orbit is still within the
//! divergence threshold, and the counter answers whether to iterate again.

use vstd::prelude::*;

verus! {

/// The number of leading observations, from `from` on, that found the orbit
/// within the threshold, counted no further than `max_iter`.
pub open spec fn bounded_run(within: Seq<bool>, max_iter: nat, from: nat) -> nat
    decreases within.len() - from,
{
    if from < within.len() && from < max_iter && within[from as int] {
        bounded_run(within, max_iter, from + 1)
    } else {
        from
    }
}

/// The escape time of an orbit whose `i`-th point was within the threshold
/// exactly when `within[i]`: the index of the first point outside, or the
/// cap if that comes first.
pub open spec fn escape_time(within: Seq<bool>, max_iter: nat) -> nat {
    bounded_run(within, max_iter, 0)
}

/// The escape time never exceeds the cap.
pub proof fn lemma_escape_time_bounded(within: Seq<bool>, max_iter: nat, from: nat)
    requires
        from <= max_iter,
    ensures
        bounded_run(within, max_iter, from) <= max_iter,
    decreases within.len() - from,
{
    if from < within.len() && from < max_iter && within[from as int] {
        lemma_escape_time_bounded(within, max_iter, from + 1);
    }
}

/// A run that is within the threshold up to `stop`, and ends there, has
/// `stop` as its escape time.
pub proof fn lemma_escape_time_is(within: Seq<bool>, max_iter: nat, from: nat, stop: nat)
    requires
        from <= stop <= max_iter,
        stop <= within.len(),
        forall|i: int| 0 <= i < stop ==> within[i],
        stop == max_iter || stop == within.len() || !within[stop as int],
    ensures
        bounded_run(within, max_iter, from) == stop,
    decreases stop - from,
{
    if from < stop {
        lemma_escape_time_is(within, max_iter, from + 1, stop);
    }
}

/// Which recurrence an orbit follows. Both square the current point and add
/// a constant; they differ in where the orbit starts and in what is added.
#[derive(Debug)]
pub enum OrbitKind<C> {
    /// Starts at the origin and adds the pixel's own point.
    Mandelbrot,
    /// Starts at the pixel's point and adds this fixed parameter.
    Julia(C),
}

/// The starting point of the orbit of `pixel` and the constant added at
/// each iteration, in this order.
pub fn orbit_seed<C: Copy>(kind: &OrbitKind<C>, pixel: C, origin: C) -> (seed: (C, C))
    ensures
        seed == match *kind {
            OrbitKind::Mandelbrot => (origin, pixel),
            OrbitKind::Julia(parameter) => (pixel, parameter),
        },
{
    match kind {
        OrbitKind::Mandelbrot => (origin, pixel),
        OrbitKind::Julia(parameter) => (pixel, *parameter),
    }
}

/// Counts the iterations of one orbit up to the cap.
pub struct EscapeCounter {
    count: u64,
    max_iter: u64,
    finished: bool,
    seen: Ghost<Seq<bool>>,
}

impl EscapeCounter {
    #[verifier::type_invariant]
    spec fn inv(self) -> bool {
        &&& self.count <= self.max_iter
        &&& self.count == escape_time(self.seen@, self.max_iter as nat)
        &&& !self.finished ==> self.seen@.len() == self.count && forall|i: int|
            0 <= i < self.seen@.len() ==> self.seen@[i]
        &&& self.finished ==> self.seen@.len() == self.count + 1
    }

    /// The iterations counted so far.
    pub closed spec fn spec_count(&self) -> nat {
        self.count as nat
    }

    /// The iteration cap.
    pub closed spec fn spec_max_iter(&self) -> nat {
        self.max_iter as nat
    }

    /// Whether the loop has ended.
    pub closed spec fn is_finished(&self) -> bool {
        self.finished
    }

    /// What the caller reported of the orbit, point by point.
    pub closed spec fn observed(&self) -> Seq<bool> {
        self.seen@
    }

    /// A counter at zero, before the first point of the orbit is tested.
    pub fn start(max_iter: u64) -> (counter: EscapeCounter)
        ensures
            counter.spec_count() == 0,
            counter.spec_max_iter() == max_iter,
            !counter.is_finished(),
            counter.observed() == Seq::<bool>::empty(),
    {
        EscapeCounter { count: 0, max_iter, finished: false, seen: Ghost(Seq::empty()) }
    }

    /// Takes the test of the current point and says whether to iterate once
    /// more. The loop goes on while the point is within the threshold and the
    /// cap is not reached; once it has ended, it stays ended.
    pub fn step(&mut self, within_threshold: bool) -> (go_on: bool)
        ensures
            go_on == (!old(self).is_finished() && within_threshold && old(self).spec_count() < old(
                self,
            ).spec_max_iter()),
            final(self).spec_max_iter() == old(self).spec_max_iter(),
            final(self).spec_count() == old(self).spec_count() + if go_on {
                1nat
            } else {
                0nat
            },
            final(self).is_finished() == !go_on,
            final(self).observed() == if old(self).is_finished() {
                old(self).observed()
            } else {
                old(self).observed().push(within_threshold)
            },
            final(self).spec_count() == escape_time(
                final(self).observed(),
                final(self).spec_max_iter(),
            ),
            final(self).spec_count() <= final(self).spec_max_iter(),
    {
        proof {
            use_type_invariant(&*self);
        }
        if self.finished {
            return false;
        }
        let go_on: bool = within_threshold && self.count < self.max_iter;
        let ghost next = self.seen@.push(within_threshold);
        let count: u64 = if go_on {
            self.count + 1
        } else {
            self.count
        };
        proof {
            lemma_escape_time_is(next, self.max_iter as nat, 0, count as nat);
        }
        *self = EscapeCounter {
            count,
            max_iter: self.max_iter,
            finished: !go_on,
            seen: Ghost(next),
        };
        go_on
    }

    /// The iterations counted: once the loop has ended, the escape time of
    /// the orbit, which equals the cap when the orbit never left.
    pub fn count(&self) -> (count: u64)
        ensures
            count == self.spec_count(),
            count == escape_time(self.observed(), self.spec_max_iter()),
            count <= self.spec_max_iter(),
    {
        proof {
            use_type_invariant(self);
        }
        self.count
    }

    /// Whether the counted orbit stayed within the threshold up to the cap.
    pub fn reached_cap(&self) -> (capped: bool)
        ensures
            capped == (self.spec_count() == self.spec_max_iter()),
    {
        self.count == self.max_iter
    }
}

} // verus!
