use mandelbrot::escape::{escape_time, escape_time_from};
use mandelbrot::fixed::{floor_div, Complex, ONE};

#[test]
fn origin_never_escapes() {
    assert_eq!(escape_time(Complex::new(0, 0), 50), 50);
    assert_eq!(escape_time(Complex::new(0, 0), 0), 0);
    assert_eq!(escape_time(Complex::new(0, 0), 1000), 1000);
}

#[test]
fn far_parameter_escapes_after_one_step() {
    assert_eq!(escape_time(Complex::new(3 * ONE, 0), 50), 1);
    assert_eq!(escape_time(Complex::new(0, -3 * ONE), 50), 1);
    assert_eq!(escape_time(Complex::new(2 * ONE, ONE), 2), 1);
}

#[test]
fn far_parameter_with_cap_one_reaches_the_cap() {
    assert_eq!(escape_time(Complex::new(3 * ONE, 0), 1), 1);
}

#[test]
fn interior_and_boundary_parameters() {
    assert_eq!(escape_time(Complex::new(-ONE, 0), 50), 50);
    assert_eq!(escape_time(Complex::new(ONE / 4, 0), 50), 50);
    assert_eq!(escape_time(Complex::new(ONE / 2, 0), 50), 5);
}

#[test]
fn escape_time_grows_with_the_cap() {
    let c = Complex::new(ONE / 2, 0);
    let mut last = 0;
    for n in 0..20u32 {
        let e = escape_time(c, n);
        assert!(e >= last);
        assert!(e <= n);
        last = e;
    }
    assert_eq!(escape_time(c, 3), 3);
    assert_eq!(escape_time(c, 10), 5);
}

#[test]
fn julia_orbit_from_outside_escapes_at_once() {
    let z0 = Complex::new(-2 * ONE, -2 * ONE);
    assert_eq!(escape_time_from(z0, Complex::new(0, 0), 50), 0);
    assert_eq!(escape_time_from(Complex::new(0, 0), Complex::new(0, 0), 50), 50);
    assert_eq!(escape_time_from(Complex::new(ONE / 2, 0), Complex::new(0, 0), 50), 50);
}

#[test]
fn floor_div_rounds_down() {
    assert_eq!(floor_div(7, 2), 3);
    assert_eq!(floor_div(-7, 2), -4);
    assert_eq!(floor_div(-8, 2), -4);
    assert_eq!(floor_div(-1, 4), -1);
    assert_eq!(floor_div(0, 4), 0);
}
