use escape_time::config::RenderConfig;
use escape_time::field::IterationField;
use escape_time::histogram::Histogram;

fn bins_of(h: &Histogram) -> Vec<u64> {
    (0..=h.max_iter()).map(|c| h.bin(c)).collect()
}

fn scenario_counts() -> Vec<u64> {
    vec![1, 2, 3, 10, 1, 2, 3, 10, 1, 2, 3, 10, 1, 2, 3, 10]
}

#[test]
fn scenario_histogram_has_four_pixels_in_each_of_three_bins() {
    let h = Histogram::of_counts(&scenario_counts(), 10);
    assert_eq!(h.max_iter(), 10);
    assert_eq!(bins_of(&h), vec![0, 4, 4, 4, 0, 0, 0, 0, 0, 0, 0]);
    assert_eq!(h.total(), 12);
}

#[test]
fn scenario_conserves_all_sixteen_pixels() {
    let config = RenderConfig::validate(4, 4, true, 10).unwrap();
    let field = IterationField::from_counts(&config, scenario_counts()).unwrap();
    let h = field.histogram();
    let capped = field.counts().iter().filter(|&&c| c == field.max_iter()).count() as u64;
    assert_eq!(capped, 4);
    assert_eq!(h.total() + capped, 4 * 4);
}

#[test]
fn capped_pixels_are_not_counted() {
    let h = Histogram::of_counts(&[5, 5, 5], 5);
    assert_eq!(bins_of(&h), vec![0, 0, 0, 0, 0, 0]);
    assert_eq!(h.total(), 0);
}

#[test]
fn counts_beyond_the_cap_are_not_counted() {
    let h = Histogram::of_counts(&[0, 7, 9, 2], 3);
    assert_eq!(bins_of(&h), vec![1, 0, 1, 0]);
    assert_eq!(h.total(), 2);
}

#[test]
fn empty_partition_has_an_empty_histogram() {
    let h = Histogram::of_counts(&[], 4);
    assert_eq!(bins_of(&h), vec![0, 0, 0, 0, 0]);
    assert_eq!(h.total(), 0);
    let e = Histogram::empty(4);
    assert_eq!(bins_of(&e), vec![0, 0, 0, 0, 0]);
    assert_eq!(e.max_iter(), 4);
}

#[test]
fn bin_beyond_the_cap_is_zero() {
    let h = Histogram::of_counts(&[0, 1, 1], 2);
    assert_eq!(h.bin(1), 2);
    assert_eq!(h.bin(2), 0);
    assert_eq!(h.bin(3), 0);
    assert_eq!(h.bin(u64::MAX), 0);
}

#[test]
fn conservation_counted_plus_capped_is_width_times_height() {
    let config = RenderConfig::validate(3, 2, true, 4).unwrap();
    let counts: Vec<u64> = vec![0, 4, 2, 4, 4, 1];
    let field = IterationField::from_counts(&config, counts.clone()).unwrap();
    let h = field.histogram();
    let capped = counts.iter().filter(|&&c| c == 4).count() as u64;
    assert_eq!(h.total(), 3);
    assert_eq!(capped, 3);
    assert_eq!(h.total() + capped, 3 * 2);
}

#[test]
fn total_is_the_sum_of_all_bins() {
    let counts: Vec<u64> = (0..10_000u64).map(|i| (i * 7919) % 257).collect();
    let h = Histogram::of_counts(&counts, 200);
    let by_hand: u64 = bins_of(&h).iter().sum();
    let escaped = counts.iter().filter(|&&c| c < 200).count() as u64;
    assert_eq!(h.total(), by_hand);
    assert_eq!(h.total(), escaped);
    assert_ne!(h.total(), h.bin(0));
}

#[test]
fn merged_parts_equal_the_whole_wherever_the_cut() {
    let counts = scenario_counts();
    let whole = Histogram::of_counts(&counts, 10);
    for cut in 0..=counts.len() {
        let left = Histogram::of_counts(&counts[..cut], 10);
        let right = Histogram::of_counts(&counts[cut..], 10);
        let merged = left.merge(&right).unwrap();
        assert_eq!(bins_of(&merged), bins_of(&whole));
        assert_eq!(merged.total(), whole.total());
    }
}

#[test]
fn merge_adds_bin_by_bin() {
    let a = Histogram::of_counts(&[0, 0, 1], 3);
    let b = Histogram::of_counts(&[1, 2, 2, 2, 3], 3);
    let m = a.merge(&b).unwrap();
    assert_eq!(bins_of(&m), vec![2, 2, 3, 0]);
    assert_eq!(m.total(), 7);
}

#[test]
fn merge_is_commutative() {
    let a = Histogram::of_counts(&[0, 2, 2], 3);
    let b = Histogram::of_counts(&[1, 2], 3);
    let ab = a.merge(&b).unwrap();
    let ba = b.merge(&a).unwrap();
    assert_eq!(bins_of(&ab), bins_of(&ba));
}

#[test]
fn merge_with_the_empty_histogram_changes_nothing() {
    let a = Histogram::of_counts(&[0, 2, 2], 3);
    let m = a.merge(&Histogram::empty(3)).unwrap();
    assert_eq!(bins_of(&m), bins_of(&a));
}

#[test]
fn merge_rejects_different_caps() {
    let a = Histogram::of_counts(&[0, 2, 2], 3);
    let b = Histogram::of_counts(&[0, 2, 2], 4);
    assert!(a.merge(&b).is_none());
    assert!(b.merge(&a).is_none());
}

#[test]
fn histogram_ignores_the_order_of_pixels() {
    let forward: Vec<u64> = vec![3, 1, 4, 1, 5, 9, 2, 6, 5, 3];
    let mut backward = forward.clone();
    backward.reverse();
    let mut sorted = forward.clone();
    sorted.sort();
    let h = Histogram::of_counts(&forward, 9);
    assert_eq!(bins_of(&h), vec![0, 2, 1, 2, 1, 2, 1, 0, 0, 0]);
    assert_eq!(bins_of(&Histogram::of_counts(&backward, 9)), bins_of(&h));
    assert_eq!(bins_of(&Histogram::of_counts(&sorted, 9)), bins_of(&h));
}

#[test]
fn same_field_gives_the_same_histogram_twice() {
    let counts = scenario_counts();
    let first = Histogram::of_counts(&counts, 10);
    let second = Histogram::of_counts(&counts, 10);
    assert_eq!(bins_of(&first), bins_of(&second));
    assert_eq!(first.total(), second.total());
}
