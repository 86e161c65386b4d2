use mandelbrot::color::{color_of, Rgba};
use mandelbrot::escape::{escape_time, ITERATIONS};
use mandelbrot::fixed::{Complex, ONE};
use mandelbrot::render::{render_julia, render_mandelbrot};
use mandelbrot::view::ViewState;

fn black() -> Rgba {
    Rgba { r: 0, g: 0, b: 0, a: 255 }
}

#[test]
fn mandelbrot_panel_centre_is_interior_and_edge_escapes() {
    let v = ViewState::new();
    let panel = 400u32;
    let buf = render_mandelbrot(&v, panel, ITERATIONS);
    assert_eq!(buf.len(), 400 * 400);

    let (cx, cy) = v.complex_to_pixel(Complex::new(0, 0), panel);
    assert_eq!((cx, cy), (250, 200));
    assert_eq!(buf[(cy * 400 + cx) as usize], black());

    let (fx, fy) = v.complex_to_pixel(Complex::new(3 * ONE, 0), panel);
    let (ex, ey) = (fx.min(399), fy);
    let c = v.pixel_to_complex(ex as i32, ey as i32, panel);
    let e = escape_time(c, ITERATIONS);
    assert!(e < ITERATIONS);
    assert_eq!(e, 2);
    assert_ne!(buf[(ey * 400 + ex) as usize], black());
    assert_eq!(escape_time(Complex::new(3 * ONE, 0), ITERATIONS), 1);
}

#[test]
fn mandelbrot_panel_is_row_major() {
    let v = ViewState::new();
    let panel = 9u32;
    let buf = render_mandelbrot(&v, panel, 20);
    assert_eq!(buf.len(), 81);
    for y in 0..9i32 {
        for x in 0..9i32 {
            let c = v.pixel_to_complex(x, y, panel);
            assert_eq!(buf[(y * 9 + x) as usize], color_of(escape_time(c, 20), 20));
        }
    }
}

#[test]
fn single_pixel_panel() {
    let v = ViewState::new();
    let buf = render_mandelbrot(&v, 1, 50);
    assert_eq!(buf.len(), 1);
    assert_eq!(buf[0], color_of(escape_time(Complex::new(-10737418240, -8589934592), 50), 50));
}

#[test]
fn julia_panel_at_zero_constant() {
    let buf = render_julia(Complex::new(0, 0), 400, ITERATIONS);
    assert_eq!(buf.len(), 160000);
    assert_eq!(buf[200 * 400 + 200], black());
    assert_eq!(buf[0], color_of(0, ITERATIONS));
    assert_eq!(buf[0], Rgba { r: 255, g: 0, b: 0, a: 255 });
}

#[test]
fn julia_panel_depends_on_the_constant_alone() {
    let c = Complex::new(-ONE / 2, ONE / 2);
    let a = render_julia(c, 32, 30);
    let b = render_julia(c, 32, 30);
    assert_eq!(a, b);
    assert_ne!(a, render_julia(Complex::new(ONE, ONE), 32, 30));
}
