//! The dense field of iteration counts, one per pixel, in row-major order.
//!
//! The field is allocated whole before any pixel is evaluated. Workers then
//! fill disjoint spans of it, so that no two of them ever write the same slot
//! and the result does not depend on the order in which they finish.

use crate::config::RenderConfig;
use crate::histogram::{
    capped_pixels, is_histogram_of, lemma_histogram_conservation, Histogram,
};
use crate::hue::HueTable;
use crate::tally::total_of;
use vstd::prelude::*;

verus! {

/// Why counts were not accepted into a field.
#[derive(Clone, Copy, Debug, PartialEq, Eq, Structural)]
pub enum FieldError {
    /// The counts do not fill the span they were meant for.
    OutOfBounds,
    /// The count at this position of the input exceeds the iteration cap.
    AboveCap(usize),
}

/// The slot of pixel `(x, y)` in a row-major grid of the given width.
pub open spec fn slot_of(width: nat, x: int, y: int) -> int {
    y * width + x
}

/// No count of `counts` exceeds the cap.
pub open spec fn within_cap(counts: Seq<u64>, max_iter: nat) -> bool {
    forall|i: int| 0 <= i < counts.len() ==> #[trigger] counts[i] <= max_iter
}

/// The position of the first count above the cap.
pub open spec fn first_above_cap(counts: Seq<u64>, max_iter: nat, at: int) -> bool {
    &&& 0 <= at < counts.len()
    &&& counts[at] > max_iter
    &&& within_cap(counts.take(at), max_iter)
}

/// `field` with the slots from `start` on overwritten by `values`.
pub open spec fn with_span(field: Seq<u64>, start: int, values: Seq<u64>) -> Seq<u64> {
    Seq::new(
        field.len(),
        |i: int|
            if start <= i < start + values.len() {
                values[i - start]
            } else {
                field[i]
            },
    )
}

/// The iteration counts of every pixel of one render.
pub struct IterationField {
    width: usize,
    height: usize,
    max_iter: u64,
    counts: Vec<u64>,
}

impl View for IterationField {
    type V = Seq<u64>;

    closed spec fn view(&self) -> Seq<u64> {
        self.counts@
    }
}

impl IterationField {
    #[verifier::type_invariant]
    spec fn inv(self) -> bool {
        &&& 0 < self.width
        &&& 0 < self.height
        &&& 0 < self.max_iter < usize::MAX
        &&& self.width * self.height <= usize::MAX
        &&& self.counts@.len() == self.width * self.height
        &&& within_cap(self.counts@, self.max_iter as nat)
    }

    /// The number of pixel columns.
    pub closed spec fn spec_width(&self) -> nat {
        self.width as nat
    }

    /// The number of pixel rows.
    pub closed spec fn spec_height(&self) -> nat {
        self.height as nat
    }

    /// The iteration cap.
    pub closed spec fn spec_max_iter(&self) -> nat {
        self.max_iter as nat
    }

    /// What holds of every field: it has a slot for each pixel and no count
    /// in it exceeds the cap.
    pub open spec fn well_formed(&self) -> bool {
        &&& 0 < self.spec_width()
        &&& 0 < self.spec_height()
        &&& 0 < self.spec_max_iter() < usize::MAX
        &&& self.spec_width() * self.spec_height() <= usize::MAX
        &&& self@.len() == self.spec_width() * self.spec_height()
        &&& within_cap(self@, self.spec_max_iter())
    }

    /// Allocates the whole field, every count at zero.
    pub fn new(config: &RenderConfig) -> (field: IterationField)
        ensures
            field.well_formed(),
            field.spec_width() == config.spec_width(),
            field.spec_height() == config.spec_height(),
            field.spec_max_iter() == config.spec_max_iter(),
            forall|i: int| 0 <= i < field@.len() ==> field@[i] == 0,
    {
        let n: usize = config.pixel_count();
        let counts: Vec<u64> = vec![0u64; n];
        IterationField {
            width: config.width(),
            height: config.height(),
            max_iter: config.max_iter(),
            counts,
        }
    }

    /// Takes the counts of all pixels at once, in row-major order.
    ///
    /// Rejects counts that do not fill the grid exactly, then the first
    /// count above the cap.
    pub fn from_counts(config: &RenderConfig, counts: Vec<u64>) -> (made: Result<
        IterationField,
        FieldError,
    >)
        ensures
            match made {
                Ok(field) => {
                    &&& field.well_formed()
                    &&& field@ == counts@
                    &&& field.spec_width() == config.spec_width()
                    &&& field.spec_height() == config.spec_height()
                    &&& field.spec_max_iter() == config.spec_max_iter()
                },
                Err(FieldError::OutOfBounds) => counts@.len() != config.spec_width()
                    * config.spec_height(),
                Err(FieldError::AboveCap(at)) => {
                    &&& counts@.len() == config.spec_width() * config.spec_height()
                    &&& first_above_cap(counts@, config.spec_max_iter(), at as int)
                },
            },
            made is Ok <==> counts@.len() == config.spec_width() * config.spec_height()
                && within_cap(counts@, config.spec_max_iter()),
    {
        if counts.len() != config.pixel_count() {
            return Err(FieldError::OutOfBounds);
        }
        match first_above(&counts, config.max_iter()) {
            Some(at) => Err(FieldError::AboveCap(at)),
            None => Ok(
                IterationField {
                    width: config.width(),
                    height: config.height(),
                    max_iter: config.max_iter(),
                    counts,
                },
            ),
        }
    }

    /// The number of pixel columns.
    pub fn width(&self) -> (w: usize)
        ensures
            w == self.spec_width(),
            self.well_formed(),
    {
        proof {
            use_type_invariant(self);
        }
        self.width
    }

    /// The number of pixel rows.
    pub fn height(&self) -> (h: usize)
        ensures
            h == self.spec_height(),
            self.well_formed(),
    {
        proof {
            use_type_invariant(self);
        }
        self.height
    }

    /// The iteration cap.
    pub fn max_iter(&self) -> (cap: u64)
        ensures
            cap == self.spec_max_iter(),
            self.well_formed(),
    {
        proof {
            use_type_invariant(self);
        }
        self.max_iter
    }

    /// All counts, in row-major order.
    pub fn counts(&self) -> (all: &[u64])
        ensures
            all@ == self@,
            self.well_formed(),
    {
        proof {
            use_type_invariant(self);
        }
        self.counts.as_slice()
    }

    /// The slot of pixel `(x, y)`.
    pub fn slot(&self, x: usize, y: usize) -> (i: usize)
        requires
            x < self.spec_width(),
            y < self.spec_height(),
        ensures
            i == slot_of(self.spec_width(), x as int, y as int),
            i < self@.len(),
    {
        proof {
            use_type_invariant(self);
            lemma_slot_in_grid(self.width as int, self.height as int, x as int, y as int);
        }
        y * self.width + x
    }

    /// The iteration count of pixel `(x, y)`, which never exceeds the cap.
    pub fn get(&self, x: usize, y: usize) -> (count: u64)
        requires
            x < self.spec_width(),
            y < self.spec_height(),
        ensures
            count == self@[slot_of(self.spec_width(), x as int, y as int)],
            count <= self.spec_max_iter(),
    {
        proof {
            use_type_invariant(self);
        }
        let i: usize = self.slot(x, y);
        self.counts[i]
    }

    /// Writes one worker's results into its span of slots, starting at
    /// `start`. Nothing is written unless the span lies inside the field and
    /// no value exceeds the cap.
    pub fn write_span(&mut self, start: usize, values: &[u64]) -> (done: Result<(), FieldError>)
        ensures
            final(self).spec_width() == old(self).spec_width(),
            final(self).spec_height() == old(self).spec_height(),
            final(self).spec_max_iter() == old(self).spec_max_iter(),
            final(self).well_formed(),
            match done {
                Ok(()) => final(self)@ == with_span(old(self)@, start as int, values@),
                Err(FieldError::OutOfBounds) => {
                    &&& start + values@.len() > old(self)@.len()
                    &&& final(self)@ == old(self)@
                },
                Err(FieldError::AboveCap(at)) => {
                    &&& start + values@.len() <= old(self)@.len()
                    &&& first_above_cap(values@, old(self).spec_max_iter(), at as int)
                    &&& final(self)@ == old(self)@
                },
            },
            done is Ok <==> start + values@.len() <= old(self)@.len() && within_cap(
                values@,
                old(self).spec_max_iter(),
            ),
    {
        proof {
            use_type_invariant(&*self);
        }
        let n: usize = values.len();
        let len: usize = self.counts.len();
        if start > len || n > len - start {
            return Err(FieldError::OutOfBounds);
        }
        match first_above(values, self.max_iter) {
            Some(at) => {
                return Err(FieldError::AboveCap(at));
            },
            None => {},
        }
        let mut filled: Vec<u64> = Vec::new();
        let mut i: usize = 0;
        while i < len
            invariant
                i <= len,
                len == self.counts@.len(),
                n == values@.len(),
                start + n <= len,
                filled@.len() == i,
                forall|k: int|
                    0 <= k < i ==> #[trigger] filled@[k] == with_span(
                        self.counts@,
                        start as int,
                        values@,
                    )[k],
            decreases len - i,
        {
            if start <= i && i - start < n {
                filled.push(values[i - start]);
            } else {
                filled.push(self.counts[i]);
            }
            i += 1;
        }
        proof {
            assert(filled@ =~= with_span(self.counts@, start as int, values@));
        }
        self.counts = filled;
        Ok(())
    }

    /// The histogram of the whole field.
    ///
    /// Conservation: the pixels it counts and the pixels at the cap together
    /// are all the pixels of the grid.
    pub fn histogram(&self) -> (h: Histogram)
        ensures
            is_histogram_of(h@, self@, self.spec_max_iter() as int),
            total_of(h@) + capped_pixels(self@, self.spec_max_iter() as int) == self.spec_width()
                * self.spec_height(),
    {
        proof {
            use_type_invariant(self);
        }
        let h = Histogram::of_counts(self.counts.as_slice(), self.max_iter);
        proof {
            lemma_histogram_conservation(h@, self.counts@, self.max_iter as int);
        }
        h
    }

    /// The hue table of the whole field.
    pub fn hue_table(&self) -> (table: HueTable)
        ensures
            is_histogram_of(table.histogram(), self@, self.spec_max_iter() as int),
    {
        let h = self.histogram();
        HueTable::from_histogram(&h)
    }
}

/// The position of the first count above the cap, if there is one.
pub fn first_above(counts: &[u64], max_iter: u64) -> (found: Option<usize>)
    ensures
        match found {
            Some(at) => first_above_cap(counts@, max_iter as nat, at as int),
            None => within_cap(counts@, max_iter as nat),
        },
{
    let n: usize = counts.len();
    let mut i: usize = 0;
    while i < n
        invariant
            i <= n,
            n == counts@.len(),
            within_cap(counts@.take(i as int), max_iter as nat),
        decreases n - i,
    {
        if counts[i] > max_iter {
            return Some(i);
        }
        proof {
            assert forall|k: int| 0 <= k < i + 1 implies #[trigger] counts@.take(i + 1)[k]
                <= max_iter by {
                if k < i {
                    assert(counts@.take(i as int)[k] <= max_iter);
                }
            }
        }
        i += 1;
    }
    proof {
        assert(counts@.take(n as int) =~= counts@);
    }
    None
}

/// The pixels of the grid in row-major order: slot `i` holds `(x, y)` with
/// `i == y * width + x`.
pub fn pixel_coords(config: &RenderConfig) -> (coords: Vec<(usize, usize)>)
    ensures
        coords@.len() == config.spec_width() * config.spec_height(),
        forall|i: int|
            0 <= i < coords@.len() ==> {
                &&& (#[trigger] coords@[i]).0 < config.spec_width()
                &&& coords@[i].1 < config.spec_height()
                &&& slot_of(config.spec_width(), coords@[i].0 as int, coords@[i].1 as int) == i
            },
{
    let width: usize = config.width();
    let height: usize = config.height();
    let total: usize = config.pixel_count();
    let mut coords: Vec<(usize, usize)> = Vec::new();
    let mut y: usize = 0;
    while y < height
        invariant
            y <= height,
            0 < width,
            total == width * height,
            coords@.len() == y * width,
            forall|i: int|
                0 <= i < coords@.len() ==> {
                    &&& (#[trigger] coords@[i]).0 < width
                    &&& coords@[i].1 < height
                    &&& slot_of(width as nat, coords@[i].0 as int, coords@[i].1 as int) == i
                },
        decreases height - y,
    {
        let mut x: usize = 0;
        while x < width
            invariant
                x <= width,
                y < height,
                total == width * height,
                coords@.len() == y * width + x,
                forall|i: int|
                    0 <= i < coords@.len() ==> {
                        &&& (#[trigger] coords@[i]).0 < width
                        &&& coords@[i].1 < height
                        &&& slot_of(width as nat, coords@[i].0 as int, coords@[i].1 as int) == i
                    },
            decreases width - x,
        {
            coords.push((x, y));
            x += 1;
        }
        proof {
            assert((y + 1) * width == y * width + width) by (nonlinear_arith);
        }
        y += 1;
    }
    proof {
        assert(height * width == width * height) by (nonlinear_arith);
    }
    coords
}

/// Order independence: two workers that write spans which do not overlap
/// leave the same field whichever of them writes first.
pub proof fn lemma_disjoint_spans_commute(
    field: Seq<u64>,
    first_start: int,
    first: Seq<u64>,
    second_start: int,
    second: Seq<u64>,
)
    requires
        first_start + first.len() <= second_start || second_start + second.len() <= first_start,
    ensures
        with_span(with_span(field, first_start, first), second_start, second) == with_span(
            with_span(field, second_start, second),
            first_start,
            first,
        ),
{
    assert(with_span(with_span(field, first_start, first), second_start, second) =~= with_span(
        with_span(field, second_start, second),
        first_start,
        first,
    ));
}

/// Partition independence: a span written in two adjoining pieces is the
/// span written at once, wherever it is cut.
pub proof fn lemma_adjoining_spans_join(
    field: Seq<u64>,
    start: int,
    head: Seq<u64>,
    tail: Seq<u64>,
)
    ensures
        with_span(with_span(field, start, head), start + head.len(), tail) == with_span(
            field,
            start,
            head + tail,
        ),
{
    assert(with_span(with_span(field, start, head), start + head.len(), tail) =~= with_span(
        field,
        start,
        head + tail,
    ));
}

/// A span that covers the whole field leaves exactly the values written,
/// whatever the field held before.
pub proof fn lemma_full_span_replaces(field: Seq<u64>, values: Seq<u64>)
    requires
        values.len() == field.len(),
    ensures
        with_span(field, 0, values) == values,
{
    assert(with_span(field, 0, values) =~= values);
}

/// A pixel inside the grid has its slot inside the field.
pub proof fn lemma_slot_in_grid(width: int, height: int, x: int, y: int)
    requires
        0 <= x < width,
        0 <= y < height,
    ensures
        0 <= y * width + x < width * height,
        0 <= y * width <= y * width + x,
{
    assert(y * width + x < width * height) by (nonlinear_arith)
        requires
            0 <= x < width,
            0 <= y < height,
    ;
    assert(0 <= y * width) by (nonlinear_arith)
        requires
            0 <= y,
            0 <= width,
    ;
}

} // verus!
