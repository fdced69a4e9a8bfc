use escape_time::config::{ConfigError, RenderConfig};
use escape_time::field::{first_above, pixel_coords, FieldError, IterationField};

fn config(width: i64, height: i64, max_iter: u64) -> RenderConfig {
    RenderConfig::validate(width, height, true, max_iter).unwrap()
}

#[test]
fn validate_accepts_positive_parameters() {
    let c = RenderConfig::validate(15000, 12000, true, 10000).unwrap();
    assert_eq!(c.width(), 15000);
    assert_eq!(c.height(), 12000);
    assert_eq!(c.max_iter(), 10000);
    assert_eq!(c.pixel_count(), 180_000_000);
}

#[test]
fn validate_rejects_each_wrong_parameter() {
    assert_eq!(RenderConfig::validate(0, 4, true, 10).err(), Some(ConfigError::NonPositiveWidth));
    assert_eq!(RenderConfig::validate(-3, 4, true, 10).err(), Some(ConfigError::NonPositiveWidth));
    assert_eq!(RenderConfig::validate(4, 0, true, 10).err(), Some(ConfigError::NonPositiveHeight));
    assert_eq!(RenderConfig::validate(4, -1, true, 10).err(), Some(ConfigError::NonPositiveHeight));
    assert_eq!(RenderConfig::validate(4, 4, false, 10).err(), Some(ConfigError::NonPositiveZoom));
    assert_eq!(RenderConfig::validate(4, 4, true, 0).err(), Some(ConfigError::ZeroMaxIter));
    assert_eq!(
        RenderConfig::validate(i64::MAX, i64::MAX, true, 10).err(),
        Some(ConfigError::TooLarge)
    );
    assert_eq!(RenderConfig::validate(4, 4, true, u64::MAX).err(), Some(ConfigError::TooLarge));
}

#[test]
fn validate_reports_the_first_wrong_parameter() {
    assert_eq!(RenderConfig::validate(0, 0, false, 0).err(), Some(ConfigError::NonPositiveWidth));
    assert_eq!(RenderConfig::validate(1, 0, false, 0).err(), Some(ConfigError::NonPositiveHeight));
    assert_eq!(RenderConfig::validate(1, 1, false, 0).err(), Some(ConfigError::NonPositiveZoom));
    assert_eq!(RenderConfig::validate(1, 1, true, 0).err(), Some(ConfigError::ZeroMaxIter));
}

#[test]
fn config_errors_have_messages() {
    assert_eq!(ConfigError::NonPositiveWidth.message(), "the width must be positive");
    assert_eq!(ConfigError::NonPositiveHeight.message(), "the height must be positive");
    assert_eq!(ConfigError::NonPositiveZoom.message(), "the zoom factor must be positive");
    assert_eq!(ConfigError::ZeroMaxIter.message(), "the iteration cap must be positive");
    assert_eq!(ConfigError::TooLarge.message(), "the grid is too large for this machine");
}

#[test]
fn new_field_is_all_zero() {
    let field = IterationField::new(&config(3, 2, 7));
    assert_eq!(field.width(), 3);
    assert_eq!(field.height(), 2);
    assert_eq!(field.max_iter(), 7);
    assert_eq!(field.counts(), &[0, 0, 0, 0, 0, 0]);
}

#[test]
fn from_counts_keeps_the_counts_in_row_major_order() {
    let field = IterationField::from_counts(&config(3, 2, 7), vec![0, 1, 2, 3, 4, 7]).unwrap();
    assert_eq!(field.counts(), &[0, 1, 2, 3, 4, 7]);
    assert_eq!(field.get(0, 0), 0);
    assert_eq!(field.get(2, 0), 2);
    assert_eq!(field.get(0, 1), 3);
    assert_eq!(field.get(2, 1), 7);
    assert_eq!(field.slot(0, 0), 0);
    assert_eq!(field.slot(2, 0), 2);
    assert_eq!(field.slot(0, 1), 3);
    assert_eq!(field.slot(1, 1), 4);
}

#[test]
fn every_count_of_a_field_is_within_the_cap() {
    let field = IterationField::from_counts(&config(2, 2, 3), vec![0, 3, 1, 2]).unwrap();
    for y in 0..2 {
        for x in 0..2 {
            assert!(field.get(x, y) <= field.max_iter());
        }
    }
}

#[test]
fn from_counts_rejects_a_wrong_length() {
    let short = IterationField::from_counts(&config(3, 2, 7), vec![0, 1, 2, 3, 4]);
    assert_eq!(short.err(), Some(FieldError::OutOfBounds));
    let long = IterationField::from_counts(&config(3, 2, 7), vec![0; 7]);
    assert_eq!(long.err(), Some(FieldError::OutOfBounds));
}

#[test]
fn from_counts_rejects_the_first_count_above_the_cap() {
    let made = IterationField::from_counts(&config(3, 2, 7), vec![0, 7, 8, 3, 9, 7]);
    assert_eq!(made.err(), Some(FieldError::AboveCap(2)));
}

#[test]
fn first_above_finds_the_first_or_nothing() {
    assert_eq!(first_above(&[0, 5, 6, 7], 5), Some(2));
    assert_eq!(first_above(&[0, 5, 5], 5), None);
    assert_eq!(first_above(&[], 5), None);
    assert_eq!(first_above(&[9], 5), Some(0));
}

#[test]
fn write_span_overwrites_only_its_slots() {
    let mut field = IterationField::new(&config(3, 2, 7));
    assert_eq!(field.write_span(2, &[5, 6, 7]), Ok(()));
    assert_eq!(field.counts(), &[0, 0, 5, 6, 7, 0]);
    assert_eq!(field.write_span(6, &[]), Ok(()));
    assert_eq!(field.counts(), &[0, 0, 5, 6, 7, 0]);
}

#[test]
fn write_span_rejects_a_span_outside_the_field() {
    let mut field = IterationField::new(&config(3, 2, 7));
    assert_eq!(field.write_span(4, &[1, 2, 3]), Err(FieldError::OutOfBounds));
    assert_eq!(field.write_span(7, &[]), Err(FieldError::OutOfBounds));
    assert_eq!(field.write_span(usize::MAX, &[1, 2]), Err(FieldError::OutOfBounds));
    assert_eq!(field.counts(), &[0, 0, 0, 0, 0, 0]);
}

#[test]
fn write_span_rejects_a_count_above_the_cap_and_writes_nothing() {
    let mut field = IterationField::new(&config(3, 2, 7));
    assert_eq!(field.write_span(0, &[1, 8, 9]), Err(FieldError::AboveCap(1)));
    assert_eq!(field.counts(), &[0, 0, 0, 0, 0, 0]);
}

#[test]
fn disjoint_spans_give_the_same_field_in_any_order() {
    let rows: [[u64; 3]; 3] = [[1, 2, 3], [4, 5, 6], [7, 7, 0]];
    let orders: [[usize; 3]; 6] =
        [[0, 1, 2], [0, 2, 1], [1, 0, 2], [1, 2, 0], [2, 0, 1], [2, 1, 0]];
    for order in orders {
        let mut field = IterationField::new(&config(3, 3, 7));
        for row in order {
            assert_eq!(field.write_span(row * 3, &rows[row]), Ok(()));
        }
        assert_eq!(field.counts(), &[1, 2, 3, 4, 5, 6, 7, 7, 0]);
    }
}

#[test]
fn a_span_written_in_pieces_equals_the_span_written_at_once() {
    let values: [u64; 6] = [1, 2, 3, 4, 5, 6];
    let mut at_once = IterationField::new(&config(4, 2, 7));
    assert_eq!(at_once.write_span(1, &values), Ok(()));
    for cut in 0..=values.len() {
        let mut pieces = IterationField::new(&config(4, 2, 7));
        assert_eq!(pieces.write_span(1, &values[..cut]), Ok(()));
        assert_eq!(pieces.write_span(1 + cut, &values[cut..]), Ok(()));
        assert_eq!(pieces.counts(), at_once.counts());
    }
}

#[test]
fn filling_every_row_equals_taking_all_counts_at_once() {
    let counts: Vec<u64> = vec![0, 1, 2, 3, 4, 5, 6, 7];
    let cfg = config(4, 2, 7);
    let whole = IterationField::from_counts(&cfg, counts.clone()).unwrap();
    let mut filled = IterationField::new(&cfg);
    assert_eq!(filled.write_span(4, &counts[4..]), Ok(()));
    assert_eq!(filled.write_span(0, &counts[..4]), Ok(()));
    assert_eq!(filled.counts(), whole.counts());
}

#[test]
fn pixel_coords_run_row_by_row() {
    let coords = pixel_coords(&config(3, 2, 7));
    assert_eq!(coords, vec![(0, 0), (1, 0), (2, 0), (0, 1), (1, 1), (2, 1)]);
    let field = IterationField::new(&config(3, 2, 7));
    for (i, &(x, y)) in coords.iter().enumerate() {
        assert_eq!(field.slot(x, y), i);
    }
}
