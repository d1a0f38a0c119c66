use mandelbrot::escape_time;
use num_complex::Complex64;

fn mandel(c: Complex64, iters: usize) -> Option<usize> {
    escape_time(
        Complex64::new(0.0, 0.0),
        iters,
        &|z: Complex64| z.norm_sqr() > 4.0,
        &|z: Complex64| z * z + c,
    )
}

#[test]
fn origin_never_escapes() {
    for n in [0usize, 1, 2, 10, 255, 1000] {
        assert_eq!(mandel(Complex64::new(0.0, 0.0), n), None);
    }
}

#[test]
fn far_point_escapes_after_one_step() {
    assert_eq!(mandel(Complex64::new(100.0, 0.0), 255), Some(1));
    assert_eq!(mandel(Complex64::new(0.0, -3.0), 255), Some(1));
    assert_eq!(mandel(Complex64::new(100.0, 0.0), 1), None);
}

#[test]
fn escape_counts_first_divergent_step() {
    // Orbit of 1: 0, 1, 2, 5; the first value beyond 2 in magnitude is the third.
    assert_eq!(mandel(Complex64::new(1.0, 0.0), 255), Some(3));
    assert_eq!(mandel(Complex64::new(1.0, 0.0), 3), None);
    assert_eq!(mandel(Complex64::new(1.0, 0.0), 4), Some(3));
    // Orbit of -2 settles at 2, exactly on the boundary, and never exceeds it.
    assert_eq!(mandel(Complex64::new(-2.0, 0.0), 255), None);
    assert_eq!(mandel(Complex64::new(-1.0, 0.0), 255), None);
}

#[test]
fn escape_time_on_integers() {
    let over_five = |z: u64| z > 5;
    let succ = |z: u64| z + 1;
    assert_eq!(escape_time(0u64, 10, &over_five, &succ), Some(6));
    assert_eq!(escape_time(0u64, 6, &over_five, &succ), None);
    assert_eq!(escape_time(0u64, 7, &over_five, &succ), Some(6));
    assert_eq!(escape_time(9u64, 7, &over_five, &succ), Some(0));
    assert_eq!(escape_time(9u64, 0, &over_five, &succ), None);
}
