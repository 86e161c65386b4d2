use mandelbrot::cache::{FrameCache, Recomputed};
use mandelbrot::escape::ITERATIONS;
use mandelbrot::render::{render_julia, render_mandelbrot};
use mandelbrot::view::{Pan, ViewState};

fn both(m: bool, j: bool) -> Recomputed {
    Recomputed { mandelbrot: m, julia: j }
}

#[test]
fn first_frame_renders_both_panels() {
    let mut cache = FrameCache::new();
    let v = ViewState::new();
    assert_eq!(cache.refresh(&v, 16, 3, 4), both(true, true));
    assert_eq!(cache.renders, 2);
    assert_eq!(cache.mandelbrot, render_mandelbrot(&v, 16, ITERATIONS));
    let c = v.pixel_to_complex(3, 4, 16);
    assert_eq!(cache.julia, render_julia(c, 16, ITERATIONS));
}

#[test]
fn static_frames_render_nothing() {
    let mut cache = FrameCache::new();
    let v = ViewState::new();
    cache.refresh(&v, 16, 3, 4);
    let m = cache.mandelbrot.clone();
    let j = cache.julia.clone();
    for _ in 0..5 {
        assert_eq!(cache.refresh(&v, 16, 3, 4), both(false, false));
    }
    assert_eq!(cache.renders, 2);
    assert_eq!(cache.mandelbrot, m);
    assert_eq!(cache.julia, j);
}

#[test]
fn pointer_move_renders_only_julia() {
    let mut cache = FrameCache::new();
    let v = ViewState::new();
    cache.refresh(&v, 16, 3, 4);
    assert_eq!(cache.refresh(&v, 16, 5, 4), both(false, true));
    assert_eq!(cache.renders, 3);
    let c = v.pixel_to_complex(5, 4, 16);
    assert_eq!(cache.julia, render_julia(c, 16, ITERATIONS));
}

#[test]
fn view_or_panel_change_renders_both() {
    let mut cache = FrameCache::new();
    let mut v = ViewState::new();
    cache.refresh(&v, 16, 3, 4);
    v.pan(Pan::Left);
    assert_eq!(cache.refresh(&v, 16, 3, 4), both(true, true));
    v.zoom_in();
    assert_eq!(cache.refresh(&v, 16, 3, 4), both(true, true));
    assert_eq!(cache.refresh(&v, 12, 3, 4), both(true, true));
    assert_eq!(cache.renders, 8);
    assert_eq!(cache.mandelbrot, render_mandelbrot(&v, 12, ITERATIONS));
}

#[test]
fn pointer_outside_the_panel_still_sets_the_constant() {
    let mut cache = FrameCache::new();
    let v = ViewState::new();
    cache.refresh(&v, 16, -40, 100);
    let c = v.pixel_to_complex(-40, 100, 16);
    assert_eq!(cache.julia, render_julia(c, 16, ITERATIONS));
}
