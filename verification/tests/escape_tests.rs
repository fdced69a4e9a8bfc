use escape_time::escape::{orbit_seed, EscapeCounter, OrbitKind};

fn escape(kind: &OrbitKind<(f64, f64)>, pixel: (f64, f64), threshold: f64, max_iter: u64) -> u64 {
    let ((mut re, mut im), (add_re, add_im)) = orbit_seed(kind, pixel, (0.0, 0.0));
    let mut counter = EscapeCounter::start(max_iter);
    while counter.step(re * re + im * im <= threshold) {
        let next_re = re * re - im * im + add_re;
        let next_im = 2.0 * re * im + add_im;
        re = next_re;
        im = next_im;
    }
    counter.count()
}

#[test]
fn counter_stops_at_the_first_point_outside() {
    let mut counter = EscapeCounter::start(10);
    assert!(counter.step(true));
    assert!(counter.step(true));
    assert!(counter.step(true));
    assert!(!counter.step(false));
    assert_eq!(counter.count(), 3);
    assert!(!counter.reached_cap());
}

#[test]
fn counter_stops_at_the_cap() {
    let mut counter = EscapeCounter::start(3);
    assert!(counter.step(true));
    assert!(counter.step(true));
    assert!(counter.step(true));
    assert!(!counter.step(true));
    assert_eq!(counter.count(), 3);
    assert!(counter.reached_cap());
}

#[test]
fn counter_that_starts_outside_counts_zero() {
    let mut counter = EscapeCounter::start(5);
    assert_eq!(counter.count(), 0);
    assert!(!counter.step(false));
    assert_eq!(counter.count(), 0);
}

#[test]
fn counter_stays_ended() {
    let mut counter = EscapeCounter::start(5);
    assert!(counter.step(true));
    assert!(!counter.step(false));
    assert!(!counter.step(true));
    assert!(!counter.step(true));
    assert_eq!(counter.count(), 1);
}

#[test]
fn counter_with_cap_zero_never_iterates() {
    let mut counter = EscapeCounter::start(0);
    assert!(!counter.step(true));
    assert_eq!(counter.count(), 0);
    assert!(counter.reached_cap());
}

#[test]
fn count_never_exceeds_the_cap() {
    for cap in 0..20u64 {
        let mut counter = EscapeCounter::start(cap);
        for _ in 0..40 {
            counter.step(true);
            assert!(counter.count() <= cap);
        }
        assert_eq!(counter.count(), cap);
    }
}

#[test]
fn orbit_seed_of_each_kind() {
    let pixel = (0.25, -0.5);
    let origin = (0.0, 0.0);
    assert_eq!(orbit_seed(&OrbitKind::Mandelbrot, pixel, origin), (origin, pixel));
    let parameter = (0.29565408252853365, -0.4495171202809482);
    assert_eq!(orbit_seed(&OrbitKind::Julia(parameter), pixel, origin), (pixel, parameter));
}

#[test]
fn mandelbrot_origin_never_escapes() {
    assert_eq!(escape(&OrbitKind::Mandelbrot, (0.0, 0.0), 4.0, 10000), 10000);
    assert_eq!(escape(&OrbitKind::Mandelbrot, (-1.0, 0.0), 4.0, 500), 500);
}

#[test]
fn mandelbrot_far_point_escapes_after_one_iteration() {
    assert_eq!(escape(&OrbitKind::Mandelbrot, (2.0, 2.0), 4.0, 10000), 1);
    assert_eq!(escape(&OrbitKind::Mandelbrot, (1.0, 0.0), 4.0, 10000), 3);
}

#[test]
fn julia_point_outside_the_threshold_escapes_at_zero() {
    let kind = OrbitKind::Julia((0.0, 0.0));
    assert_eq!(escape(&kind, (3.0, 0.0), 4.0, 100), 0);
    assert_eq!(escape(&kind, (0.5, 0.0), 4.0, 100), 100);
    assert_eq!(escape(&kind, (1.5, 0.0), 4.0, 100), 1);
}

#[test]
fn not_a_number_counts_as_divergence_at_once() {
    assert_eq!(escape(&OrbitKind::Mandelbrot, (f64::NAN, 0.0), 4.0, 100), 1);
    let kind = OrbitKind::Julia((0.0, 0.0));
    assert_eq!(escape(&kind, (f64::NAN, 0.0), 4.0, 100), 0);
    assert_eq!(escape(&kind, (f64::INFINITY, 0.0), 4.0, 100), 0);
}

#[test]
fn evaluating_twice_gives_the_same_count() {
    let pixel = (-0.7435, 0.1314);
    let first = escape(&OrbitKind::Mandelbrot, pixel, 4.0, 2000);
    let second = escape(&OrbitKind::Mandelbrot, pixel, 4.0, 2000);
    assert_eq!(first, second);
    assert!(first <= 2000);
}
