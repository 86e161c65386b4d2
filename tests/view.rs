use mandelbrot::fixed::{Complex, ONE};
use mandelbrot::view::{
    panel_size, Pan, Signals, ViewState, Zoom, BASE_SCALE, MAX_OFFSET, MAX_PANEL, MAX_SCALE,
    MIN_SCALE,
};

fn hold() -> Signals {
    Signals { zoom: Zoom::Hold, left: false, right: false, up: false, down: false }
}

#[test]
fn starts_at_base_scale_without_offset() {
    let v = ViewState::new();
    assert_eq!(v.scale, 4 * ONE);
    assert_eq!(v.scale, BASE_SCALE);
    assert_eq!(v.offset, Complex::new(0, 0));
}

#[test]
fn zoom_in_halves_until_the_floor() {
    let mut v = ViewState::new();
    let mut last = v.scale;
    let mut steps = 0;
    loop {
        v.zoom_in();
        if v.scale == last {
            break;
        }
        assert!(v.scale < last);
        assert_eq!(v.scale * 2, last);
        last = v.scale;
        steps += 1;
    }
    assert_eq!(v.scale, MIN_SCALE);
    assert_eq!(steps, 18);
}

#[test]
fn zoom_out_doubles_until_the_ceiling() {
    let mut v = ViewState::new();
    let mut last = v.scale;
    for _ in 0..8 {
        v.zoom_out();
        assert_eq!(v.scale, last * 2);
        last = v.scale;
    }
    assert_eq!(v.scale, MAX_SCALE);
    v.zoom_out();
    assert_eq!(v.scale, MAX_SCALE);
}

#[test]
fn pan_moves_by_an_eighth_of_the_scale() {
    let mut v = ViewState::new();
    v.pan(Pan::Right);
    assert_eq!(v.offset, Complex::new(ONE / 2, 0));
    v.pan(Pan::Down);
    assert_eq!(v.offset, Complex::new(ONE / 2, ONE / 2));
    v.pan(Pan::Left);
    v.pan(Pan::Up);
    assert_eq!(v.offset, Complex::new(0, 0));
}

#[test]
fn pan_after_zoom_in_moves_half_as_far() {
    let mut v = ViewState::new();
    v.pan(Pan::Left);
    let far = v.offset.re;
    let mut w = ViewState::new();
    w.zoom_in();
    w.pan(Pan::Left);
    assert_eq!(far, 2 * w.offset.re);
    assert_eq!(w.offset.re, -ONE / 4);
}

#[test]
fn pan_stops_at_the_offset_bound() {
    let mut v = ViewState::new();
    for _ in 0..20 {
        v.zoom_out();
    }
    for _ in 0..100 {
        v.pan(Pan::Right);
    }
    assert_eq!(v.offset.re, MAX_OFFSET);
    for _ in 0..200 {
        v.pan(Pan::Up);
    }
    assert_eq!(v.offset.im, -MAX_OFFSET);
}

#[test]
fn signals_zoom_first_and_prefer_left_and_up() {
    let mut v = ViewState::new();
    v.apply(&Signals { zoom: Zoom::In, left: true, right: true, up: true, down: true });
    assert_eq!(v.scale, 2 * ONE);
    assert_eq!(v.offset, Complex::new(-ONE / 4, -ONE / 4));
    v.apply(&Signals { zoom: Zoom::Out, left: false, right: true, up: false, down: true });
    assert_eq!(v.scale, 4 * ONE);
    assert_eq!(v.offset, Complex::new(ONE / 4, ONE / 4));
    let before = v;
    v.apply(&hold());
    assert_eq!(v, before);
}

#[test]
fn pixel_mapping_at_base_scale() {
    let v = ViewState::new();
    assert_eq!(v.pixel_to_complex(0, 0, 400), Complex::new(-10737418240, -8589934592));
    assert_eq!(v.pixel_to_complex(250, 200, 400), Complex::new(0, 0));
    assert_eq!(v.pixel_to_complex(399, 200, 400), Complex::new(6399501271, 0));
    assert_eq!(v.pixel_to_complex(-7, 13, 400), Complex::new(-11038065951, -8031588844));
}

#[test]
fn pixel_mapping_follows_the_offset() {
    let mut v = ViewState::new();
    v.pan(Pan::Right);
    assert_eq!(v.pixel_to_complex(250, 200, 400), Complex::new(ONE / 2, 0));
    assert_eq!(v.complex_to_pixel(Complex::new(ONE / 2, 0), 400), (250, 200));
}

#[test]
fn pixel_round_trip() {
    let mut v = ViewState::new();
    for (zoom, pan) in [(0, 0), (3, 2), (18, 5), (0, 9)] {
        for _ in 0..zoom {
            v.zoom_in();
        }
        for _ in 0..pan {
            v.pan(Pan::Down);
            v.pan(Pan::Left);
        }
        for panel in [1u32, 7, 400, MAX_PANEL] {
            for (px, py) in [(0, 0), (1, 2), (-5, 17), (399, 398), (1048576, -1048576)] {
                let c = v.pixel_to_complex(px, py, panel);
                assert_eq!(v.complex_to_pixel(c, panel), (px as i64, py as i64));
            }
        }
    }
}

#[test]
fn origin_lies_at_the_biased_centre() {
    let v = ViewState::new();
    assert_eq!(v.complex_to_pixel(Complex::new(0, 0), 400), (250, 200));
    assert_eq!(v.complex_to_pixel(Complex::new(3 * ONE, 0), 400), (550, 200));
}

#[test]
fn panel_side_from_window() {
    assert_eq!(panel_size(800, 400), 400);
    assert_eq!(panel_size(800, 300), 300);
    assert_eq!(panel_size(601, 600), 300);
    assert_eq!(panel_size(0, 0), 1);
    assert_eq!(panel_size(1, 500), 1);
    assert_eq!(panel_size(u32::MAX, u32::MAX), MAX_PANEL);
}

#[test]
fn pixel_mapping_accepts_any_bounded_scale() {
    let v = ViewState { scale: 3 * ONE, offset: Complex::new(ONE, -ONE) };
    let c = v.pixel_to_complex(100, 50, 300);
    assert_eq!(c, Complex::new(ONE - 3 * ONE / 2 - 3 * ONE / 8 + ONE, ONE / 2 - 3 * ONE / 2 - ONE));
    assert_eq!(v.complex_to_pixel(c, 300), (100, 50));
}
