//! The colour policy: which HSL colour a pixel gets for its iteration count.
//!
//! Pixels whose orbit never escaped all get one fixed colour of zero
//! lightness. Every other pixel gets its cycled hue from the table at full
//! saturation and a fixed lightness. Turning HSL into RGB is left to the
//! caller.

use crate::field::IterationField;
use crate::hue::{cycled_hue_of, zero_hue, Hue, HueTable, HUE_CYCLES};
use vstd::prelude::*;

verus! {

/// The saturation of every pixel, in percent.
pub const SATURATION_PERCENT: u8 = 100;

/// The lightness of a pixel whose orbit escaped, in percent.
pub const ESCAPED_LIGHTNESS_PERCENT: u8 = 40;

/// The lightness of a pixel whose orbit never escaped, in percent.
pub const INSIDE_LIGHTNESS_PERCENT: u8 = 0;

/// A colour in HSL space: the hue as a fraction of a turn, saturation and
/// lightness in percent.
#[derive(Clone, Copy, Debug, PartialEq, Eq, Structural)]
pub struct Hsl {
    pub hue: Hue,
    pub saturation_percent: u8,
    pub lightness_percent: u8,
}

/// The one colour of all pixels inside the set.
pub open spec fn inside_color() -> Hsl {
    Hsl {
        hue: zero_hue(),
        saturation_percent: SATURATION_PERCENT,
        lightness_percent: INSIDE_LIGHTNESS_PERCENT,
    }
}

/// The colour of a pixel with iteration count `count`, for the histogram
/// `bins` and the wheel cycled `cycles` times. The cap is the last index of
/// `bins`.
pub open spec fn color_of(bins: Seq<u64>, count: int, cycles: nat) -> Hsl {
    if count >= bins.len() - 1 {
        inside_color()
    } else {
        Hsl {
            hue: cycled_hue_of(bins, count, cycles),
            saturation_percent: SATURATION_PERCENT,
            lightness_percent: ESCAPED_LIGHTNESS_PERCENT,
        }
    }
}

/// The colour of one pixel with the wheel cycled `cycles` times.
pub fn pixel_color_cycled(table: &HueTable, count: u64, cycles: u64) -> (color: Hsl)
    ensures
        color == color_of(table.histogram(), count as int, cycles as nat),
        color.hue.valid(),
{
    if count >= table.max_iter() {
        Hsl {
            hue: Hue { numer: 0, denom: 1 },
            saturation_percent: SATURATION_PERCENT,
            lightness_percent: INSIDE_LIGHTNESS_PERCENT,
        }
    } else {
        Hsl {
            hue: table.cycled_hue(count, cycles),
            saturation_percent: SATURATION_PERCENT,
            lightness_percent: ESCAPED_LIGHTNESS_PERCENT,
        }
    }
}

/// The colour of one pixel under the standard policy.
pub fn pixel_color(table: &HueTable, count: u64) -> (color: Hsl)
    ensures
        color == color_of(table.histogram(), count as int, HUE_CYCLES as nat),
        color.hue.valid(),
{
    pixel_color_cycled(table, count, HUE_CYCLES)
}

/// The colours of all pixels of a field, in row-major order.
pub fn color_field(field: &IterationField, table: &HueTable) -> (colors: Vec<Hsl>)
    ensures
        colors@.len() == field@.len(),
        forall|i: int|
            0 <= i < colors@.len() ==> #[trigger] colors@[i] == color_of(
                table.histogram(),
                field@[i] as int,
                HUE_CYCLES as nat,
            ),
{
    let counts = field.counts();
    let n: usize = counts.len();
    let mut colors: Vec<Hsl> = Vec::new();
    let mut i: usize = 0;
    while i < n
        invariant
            i <= n,
            n == counts@.len(),
            counts@ == field@,
            colors@.len() == i,
            forall|k: int|
                0 <= k < i ==> #[trigger] colors@[k] == color_of(
                    table.histogram(),
                    field@[k] as int,
                    HUE_CYCLES as nat,
                ),
        decreases n - i,
    {
        colors.push(pixel_color(table, counts[i]));
        i += 1;
    }
    colors
}

/// Colour boundary: a pixel at or beyond the cap gets the inside colour
/// whatever the histogram holds and however often the wheel is cycled.
pub proof fn lemma_cap_is_inside(bins: Seq<u64>, count: int, cycles: nat)
    requires
        count >= bins.len() - 1,
    ensures
        color_of(bins, count, cycles) == inside_color(),
{
}

} // verus!
