//! Whole panels of colors: every pixel's escape time, colored, row by row.
use vstd::prelude::*;
use vstd::arithmetic::div_mod::lemma_fundamental_div_mod;
use crate::fixed::Complex;
use crate::escape::{escape_time, escape_time_from, mandelbrot_escape, orbit_escape};
use crate::color::{Rgba, color_of, hue_color};
use crate::view::{ViewState, BASE_SCALE, MAX_PANEL, panel_in_range};

verus! {

/// Where the Julia orbit of pixel `(px, py)` starts: the pixel mapped at the
/// base scale, centred on the origin, whatever the current zoom and pan.
pub open spec fn julia_start(px: int, py: int, panel: int) -> Complex {
    let b = BASE_SCALE as int;
    Complex { re: (px * b / panel - b / 2) as i64, im: (py * b / panel - b / 2) as i64 }
}

/// The Mandelbrot panel of side `panel` for view `v`, in row-major order:
/// pixel `k` is column `k % panel` of row `k / panel`.
pub open spec fn mandelbrot_pixels(v: ViewState, panel: nat, n: nat) -> Seq<Rgba> {
    Seq::new(
        panel * panel,
        |k: int|
            hue_color(
                mandelbrot_escape(v.point_at(k % panel as int, k / panel as int, panel as int), n),
                n,
            ),
    )
}

/// The Julia panel of side `panel` for the constant `c`, in row-major order.
pub open spec fn julia_pixels(c: Complex, panel: nat, n: nat) -> Seq<Rgba> {
    Seq::new(
        panel * panel,
        |k: int|
            hue_color(
                orbit_escape(julia_start(k % panel as int, k / panel as int, panel as int), c, n),
                n,
            ),
    )
}

proof fn lemma_pixel_of_index(k: int, panel: int)
    requires
        1 <= panel,
        0 <= k < panel * panel,
    ensures
        0 <= k % panel < panel,
        0 <= k / panel < panel,
{
    lemma_fundamental_div_mod(k, panel);
    let q = k / panel;
    assert(0 <= q < panel) by (nonlinear_arith)
        requires
            k == panel * q + k % panel,
            0 <= k % panel < panel,
            0 <= k < panel * panel,
    ;
}

fn pixel_count(panel: u32) -> (r: usize)
    requires
        panel_in_range(panel as int),
    ensures
        r == panel * panel,
{
    proof {
        assert(panel * panel <= MAX_PANEL * MAX_PANEL) by (nonlinear_arith)
            requires
                1 <= panel <= MAX_PANEL,
        ;
    }
    (panel as usize) * (panel as usize)
}

fn julia_start_point(px: u32, py: u32, panel: u32) -> (r: Complex)
    requires
        panel_in_range(panel as int),
        px < panel,
        py < panel,
    ensures
        r == julia_start(px as int, py as int, panel as int),
{
    proof {
        assert(px * BASE_SCALE <= MAX_PANEL * BASE_SCALE) by (nonlinear_arith)
            requires
                px <= MAX_PANEL,
        ;
        assert(py * BASE_SCALE <= MAX_PANEL * BASE_SCALE) by (nonlinear_arith)
            requires
                py <= MAX_PANEL,
        ;
    }
    let b: u64 = BASE_SCALE as u64;
    let x: u64 = (px as u64) * b / (panel as u64);
    let y: u64 = (py as u64) * b / (panel as u64);
    Complex::new(x as i64 - BASE_SCALE / 2, y as i64 - BASE_SCALE / 2)
}

/// Renders the Mandelbrot panel: pixel `(x, y)` is colored by the escape time
/// of the parameter `view.point_at(x, y)`, with the orbit starting at 0.
pub fn render_mandelbrot(view: &ViewState, panel: u32, n: u32) -> (r: Vec<Rgba>)
    requires
        view.wf(),
        panel_in_range(panel as int),
    ensures
        r@ == mandelbrot_pixels(*view, panel as nat, n as nat),
{
    let total: usize = pixel_count(panel);
    let mut buf: Vec<Rgba> = Vec::new();
    let mut k: usize = 0;
    while k < total
        invariant
            panel_in_range(panel as int),
            view.wf(),
            total == panel * panel,
            k <= total,
            buf@.len() == k,
            forall|j: int|
                0 <= j < k ==> buf@[j] == #[trigger] mandelbrot_pixels(*view, panel as nat, n as nat)[j],
        decreases total - k,
    {
        proof {
            lemma_pixel_of_index(k as int, panel as int);
        }
        let x: usize = k % (panel as usize);
        let y: usize = k / (panel as usize);
        let c: Complex = view.pixel_to_complex(x as i32, y as i32, panel);
        let i: u32 = escape_time(c, n);
        buf.push(color_of(i, n));
        k = k + 1;
    }
    buf
}

/// Renders the Julia panel for the constant `c`: pixel `(x, y)` is colored by
/// the escape time of the orbit that starts at `julia_start(x, y)`.
pub fn render_julia(c: Complex, panel: u32, n: u32) -> (r: Vec<Rgba>)
    requires
        panel_in_range(panel as int),
    ensures
        r@ == julia_pixels(c, panel as nat, n as nat),
{
    let total: usize = pixel_count(panel);
    let mut buf: Vec<Rgba> = Vec::new();
    let mut k: usize = 0;
    while k < total
        invariant
            panel_in_range(panel as int),
            total == panel * panel,
            k <= total,
            buf@.len() == k,
            forall|j: int|
                0 <= j < k ==> buf@[j] == #[trigger] julia_pixels(c, panel as nat, n as nat)[j],
        decreases total - k,
    {
        proof {
            lemma_pixel_of_index(k as int, panel as int);
        }
        let x: usize = k % (panel as usize);
        let y: usize = k / (panel as usize);
        let z0: Complex = julia_start_point(x as u32, y as u32, panel);
        let i: u32 = escape_time_from(z0, c, n);
        buf.push(color_of(i, n));
        k = k + 1;
    }
    buf
}

} // verus!
