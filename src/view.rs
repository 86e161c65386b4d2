//! The view of the complex plane: zoom, pan, and the mapping between pixels
//! of a square panel and points of the plane.
use vstd::prelude::*;
use vstd::arithmetic::power2::is_pow2;
use vstd::arithmetic::div_mod::{lemma_fundamental_div_mod, lemma_fundamental_div_mod_converse};
use crate::fixed::{Complex, floor_div};

verus! {

/// Raw scale at startup: the visible window is 4.0 wide.
pub const BASE_SCALE: i64 = 17179869184;

/// Smallest raw scale that zooming in reaches.
pub const MIN_SCALE: i64 = 65536;

/// Largest raw scale that zooming out reaches.
pub const MAX_SCALE: i64 = 4398046511104;

/// Bound on each raw part of the pan offset.
pub const MAX_OFFSET: i64 = 17592186044416;

/// Divisor of the scale that gives both the pan step and the leftward bias
/// of the Mandelbrot panel.
pub const MOVE_SCALE: i64 = 8;

/// Bound on `c - offset + scale / 2 + scale / MOVE_SCALE` for any point `c`.
const SHIFTED_BOUND: i128 = 9223407221226864640;

/// Bound on the pixel coordinates that `complex_to_pixel` can return, less one.
const PIXEL_BOUND: i128 = 4611703610613432320;

/// Largest side of a panel, in pixels.
pub const MAX_PANEL: u32 = 32768;

/// Bound on each coordinate of a pixel handed to the mapping (the pointer may
/// lie outside the panel).
pub const MAX_PIXEL: i32 = 1048576;

/// Width of the visible window (`scale`, raw) and the pan translation.
#[derive(Clone, Copy, Debug, PartialEq, Eq, Structural)]
pub struct ViewState {
    pub scale: i64,
    pub offset: Complex,
}

/// A cardinal pan direction; up and down follow screen rows.
#[derive(Clone, Copy, Debug, PartialEq, Eq, Structural)]
pub enum Pan {
    Left,
    Right,
    Up,
    Down,
}

/// A zoom signal of one frame.
#[derive(Clone, Copy, Debug, PartialEq, Eq, Structural)]
pub enum Zoom {
    In,
    Out,
    Hold,
}

/// The decoded input of one frame: a zoom signal and the held pan keys.
#[derive(Clone, Copy, Debug, PartialEq, Eq, Structural)]
pub struct Signals {
    pub zoom: Zoom,
    pub left: bool,
    pub right: bool,
    pub up: bool,
    pub down: bool,
}

/// Keeps a pan offset within `[-MAX_OFFSET, MAX_OFFSET]`.
pub open spec fn clamp_offset(v: int) -> i64 {
    if v < -MAX_OFFSET {
        (-MAX_OFFSET) as i64
    } else if v > MAX_OFFSET {
        MAX_OFFSET
    } else {
        v as i64
    }
}

/// Rounds `a / b` up, for `b > 0`.
pub open spec fn ceil_div(a: int, b: int) -> int {
    -((-a) / b)
}

/// A valid pixel coordinate.
pub open spec fn pixel_in_range(p: int) -> bool {
    -MAX_PIXEL <= p <= MAX_PIXEL
}

/// A valid panel side.
pub open spec fn panel_in_range(panel: int) -> bool {
    1 <= panel <= MAX_PANEL
}

/// Side of the square panels for a window: half the width or the height,
/// whichever is smaller, kept within `[1, MAX_PANEL]`.
pub open spec fn panel_side(width: int, height: int) -> int {
    let side = if width / 2 <= height { width / 2 } else { height };
    if side < 1 {
        1
    } else if side > MAX_PANEL {
        MAX_PANEL as int
    } else {
        side
    }
}

impl ViewState {
    /// The scale and the offset lie within their bounds: all that the
    /// mapping between pixels and points needs.
    pub open spec fn bounded(&self) -> bool {
        &&& MIN_SCALE <= self.scale <= MAX_SCALE
        &&& -MAX_OFFSET <= self.offset.re <= MAX_OFFSET
        &&& -MAX_OFFSET <= self.offset.im <= MAX_OFFSET
    }

    /// A bounded view whose scale is a power of two, as zooming keeps it.
    pub open spec fn wf(&self) -> bool {
        &&& self.bounded()
        &&& is_pow2(self.scale as int)
    }

    /// Halves the scale unless that would go below `MIN_SCALE`.
    pub open spec fn zoomed_in(self) -> ViewState {
        if self.scale / 2 >= MIN_SCALE {
            ViewState { scale: (self.scale / 2) as i64, offset: self.offset }
        } else {
            self
        }
    }

    /// Doubles the scale unless that would go above `MAX_SCALE`.
    pub open spec fn zoomed_out(self) -> ViewState {
        if self.scale * 2 <= MAX_SCALE {
            ViewState { scale: (self.scale * 2) as i64, offset: self.offset }
        } else {
            self
        }
    }

    /// Distance of one pan step: it shrinks with the scale.
    pub open spec fn pan_step(self) -> int {
        self.scale as int / (MOVE_SCALE as int)
    }

    /// Moves the offset one pan step in `dir`, kept within its bounds.
    pub open spec fn panned(self, dir: Pan) -> ViewState {
        let (re, im) = (self.offset.re as int, self.offset.im as int);
        let step = self.pan_step();
        let offset = match dir {
            Pan::Left => Complex { re: clamp_offset(re - step), im: self.offset.im },
            Pan::Right => Complex { re: clamp_offset(re + step), im: self.offset.im },
            Pan::Up => Complex { re: self.offset.re, im: clamp_offset(im - step) },
            Pan::Down => Complex { re: self.offset.re, im: clamp_offset(im + step) },
        };
        ViewState { scale: self.scale, offset }
    }

    /// The view after one frame's signals: the zoom first, then at most one
    /// horizontal pan (left before right) and one vertical pan (up before down).
    pub open spec fn after(self, s: Signals) -> ViewState {
        let z = match s.zoom {
            Zoom::In => self.zoomed_in(),
            Zoom::Out => self.zoomed_out(),
            Zoom::Hold => self,
        };
        let h = if s.left {
            z.panned(Pan::Left)
        } else if s.right {
            z.panned(Pan::Right)
        } else {
            z
        };
        if s.up {
            h.panned(Pan::Up)
        } else if s.down {
            h.panned(Pan::Down)
        } else {
            h
        }
    }

    /// The point of the plane at pixel `(px, py)` of a panel of side `panel`:
    /// `px / panel * scale - scale / 2 - scale / MOVE_SCALE + offset.re` and
    /// `py / panel * scale - scale / 2 + offset.im`, rounded down.
    pub open spec fn point_at(self, px: int, py: int, panel: int) -> Complex {
        let s = self.scale as int;
        Complex {
            re: (px * s / panel - s / 2 - s / (MOVE_SCALE as int) + self.offset.re) as i64,
            im: (py * s / panel - s / 2 + self.offset.im) as i64,
        }
    }

    /// The pixel of a panel of side `panel` at which the point `c` lies; the
    /// inverse of `point_at`, rounded up.
    pub open spec fn pixel_of(self, c: Complex, panel: int) -> (int, int) {
        let s = self.scale as int;
        (
            ceil_div((c.re - self.offset.re + s / 2 + s / (MOVE_SCALE as int)) * panel, s),
            ceil_div((c.im - self.offset.im + s / 2) * panel, s),
        )
    }
}

proof fn lemma_base_scale_is_pow2()
    ensures
        is_pow2(BASE_SCALE as int),
{
    reveal_with_fuel(is_pow2, 36);
}

proof fn lemma_half_is_pow2(s: int)
    requires
        is_pow2(s),
        s >= 2,
    ensures
        is_pow2(s / 2),
{
    reveal(is_pow2);
}

proof fn lemma_double_is_pow2(s: int)
    requires
        is_pow2(s),
    ensures
        is_pow2(s * 2),
{
    reveal(is_pow2);
    assert((s * 2) / 2 == s);
}

fn clamp_offset_exec(v: i64) -> (r: i64)
    ensures
        r == clamp_offset(v as int),
{
    if v < -MAX_OFFSET {
        -MAX_OFFSET
    } else if v > MAX_OFFSET {
        MAX_OFFSET
    } else {
        v
    }
}

/// Side of the square panels for a window of `width` by `height` pixels:
/// the two panels stand side by side, so half the width or the height,
/// whichever is smaller, kept within `[1, MAX_PANEL]`.
pub fn panel_size(width: u32, height: u32) -> (r: u32)
    ensures
        r == panel_side(width as int, height as int),
        panel_in_range(r as int),
{
    let half: u32 = width / 2;
    let side: u32 = if half <= height { half } else { height };
    if side < 1 {
        1
    } else if side > MAX_PANEL {
        MAX_PANEL
    } else {
        side
    }
}

impl ViewState {
    /// The view at startup: scale `BASE_SCALE` (a window 4.0 wide), no offset.
    pub fn new() -> (r: ViewState)
        ensures
            r.wf(),
            r.scale == BASE_SCALE,
            r.offset == (Complex { re: 0, im: 0 }),
    {
        proof {
            lemma_base_scale_is_pow2();
        }
        ViewState { scale: BASE_SCALE, offset: Complex::new(0, 0) }
    }

    /// Zoom in: the scale is halved, down to `MIN_SCALE`.
    pub fn zoom_in(&mut self)
        requires
            old(self).wf(),
        ensures
            final(self).wf(),
            *final(self) == old(self).zoomed_in(),
    {
        if self.scale / 2 >= MIN_SCALE {
            proof {
                lemma_half_is_pow2(self.scale as int);
            }
            self.scale = self.scale / 2;
        }
    }

    /// Zoom out: the scale is doubled, up to `MAX_SCALE`.
    pub fn zoom_out(&mut self)
        requires
            old(self).wf(),
        ensures
            final(self).wf(),
            *final(self) == old(self).zoomed_out(),
    {
        if self.scale <= MAX_SCALE / 2 {
            proof {
                lemma_double_is_pow2(self.scale as int);
            }
            self.scale = self.scale * 2;
        }
    }

    /// Pan one step of `scale / MOVE_SCALE` in `dir`; the offset stays within
    /// `MAX_OFFSET`.
    pub fn pan(&mut self, dir: Pan)
        requires
            old(self).wf(),
        ensures
            final(self).wf(),
            *final(self) == old(self).panned(dir),
    {
        let step: i64 = self.scale / MOVE_SCALE;
        match dir {
            Pan::Left => {
                self.offset.re = clamp_offset_exec(self.offset.re - step);
            },
            Pan::Right => {
                self.offset.re = clamp_offset_exec(self.offset.re + step);
            },
            Pan::Up => {
                self.offset.im = clamp_offset_exec(self.offset.im - step);
            },
            Pan::Down => {
                self.offset.im = clamp_offset_exec(self.offset.im + step);
            },
        }
    }

    /// Applies one frame's signals: the zoom first, then the pans, whose step
    /// follows the new scale.
    pub fn apply(&mut self, s: &Signals)
        requires
            old(self).wf(),
        ensures
            final(self).wf(),
            *final(self) == old(self).after(*s),
    {
        match s.zoom {
            Zoom::In => self.zoom_in(),
            Zoom::Out => self.zoom_out(),
            Zoom::Hold => {},
        }
        if s.left {
            self.pan(Pan::Left);
        } else if s.right {
            self.pan(Pan::Right);
        }
        if s.up {
            self.pan(Pan::Up);
        } else if s.down {
            self.pan(Pan::Down);
        }
    }

    /// The point of the plane at pixel `(px, py)` of a panel of side `panel`.
    pub fn pixel_to_complex(&self, px: i32, py: i32, panel: u32) -> (r: Complex)
        requires
            self.bounded(),
            panel_in_range(panel as int),
            pixel_in_range(px as int),
            pixel_in_range(py as int),
        ensures
            r == self.point_at(px as int, py as int, panel as int),
    {
        let s: i128 = self.scale as i128;
        let p: i128 = panel as i128;
        proof {
            lemma_product_bound(px as int, s as int, MAX_PIXEL as int, MAX_SCALE as int);
            lemma_product_bound(py as int, s as int, MAX_PIXEL as int, MAX_SCALE as int);
        }
        let xs: i128 = px as i128 * s;
        let ys: i128 = py as i128 * s;
        let qx: i128 = floor_div(xs, p);
        let qy: i128 = floor_div(ys, p);
        proof {
            lemma_quotient_bound(xs as int, p as int, MAX_PIXEL * MAX_SCALE);
            lemma_quotient_bound(ys as int, p as int, MAX_PIXEL * MAX_SCALE);
        }
        let re: i128 = qx - s / 2 - s / (MOVE_SCALE as i128) + self.offset.re as i128;
        let im: i128 = qy - s / 2 + self.offset.im as i128;
        Complex::new(re as i64, im as i64)
    }

    /// The pixel of a panel of side `panel` at which the point `c` lies.
    pub fn complex_to_pixel(&self, c: Complex, panel: u32) -> (r: (i64, i64))
        requires
            self.bounded(),
            panel_in_range(panel as int),
        ensures
            (r.0 as int, r.1 as int) == self.pixel_of(c, panel as int),
    {
        let s: i128 = self.scale as i128;
        let p: i128 = panel as i128;
        let ax: i128 = c.re as i128 - self.offset.re as i128 + s / 2 + s / (MOVE_SCALE as i128);
        let ay: i128 = c.im as i128 - self.offset.im as i128 + s / 2;
        proof {
            lemma_product_bound(ax as int, p as int, SHIFTED_BOUND as int, MAX_PANEL as int);
            lemma_product_bound(ay as int, p as int, SHIFTED_BOUND as int, MAX_PANEL as int);
        }
        let qx: i128 = floor_div(-(ax * p), s);
        let qy: i128 = floor_div(-(ay * p), s);
        proof {
            lemma_quotient_bound_scaled(-(ax * p), s as int, MIN_SCALE as int, PIXEL_BOUND as int);
            lemma_quotient_bound_scaled(-(ay * p), s as int, MIN_SCALE as int, PIXEL_BOUND as int);
        }
        (-qx as i64, -qy as i64)
    }
}

/// `x / d` stays within `[-b, b]` when `x` does and `d >= 1`.
proof fn lemma_quotient_bound(x: int, d: int, b: int)
    requires
        d >= 1,
        b >= 0,
        -b <= x <= b,
    ensures
        -b <= x / d <= b,
{
    lemma_fundamental_div_mod(x, d);
    let q = x / d;
    let r = x % d;
    assert(-b <= q <= b) by (nonlinear_arith)
        requires
            x == d * q + r,
            0 <= r < d,
            d >= 1,
            -b <= x <= b,
    ;
}

/// `x * y` stays within `[-bx * by, bx * by]` when `|x| <= bx` and `0 <= y <= by`.
proof fn lemma_product_bound(x: int, y: int, bx: int, by: int)
    requires
        -bx <= x <= bx,
        0 <= y <= by,
    ensures
        -bx * by <= x * y <= bx * by,
{
    assert(-bx * by <= x * y <= bx * by) by (nonlinear_arith)
        requires
            -bx <= x <= bx,
            0 <= y <= by,
    ;
}

/// A quotient by at least `dmin` of a numerator within `dmin * b` lies in `[-b - 1, b]`.
proof fn lemma_quotient_bound_scaled(x: int, d: int, dmin: int, b: int)
    requires
        dmin >= 1,
        b >= 0,
        d >= dmin,
        -dmin * b <= x <= dmin * b,
    ensures
        -b - 1 <= x / d <= b,
{
    lemma_fundamental_div_mod(x, d);
    let q = x / d;
    let r = x % d;
    assert(x == d * q + r && 0 <= r < d);
    if q > b {
        assert(d * q >= dmin * (b + 1)) by (nonlinear_arith)
            requires
                q >= b + 1,
                d >= dmin >= 1,
                b >= 0,
        ;
        assert(dmin * (b + 1) == dmin * b + dmin) by (nonlinear_arith);
        assert(false);
    }
    if q < -b - 1 {
        assert(d * (q + 1) <= -dmin * b - dmin) by (nonlinear_arith)
            requires
                q + 1 <= -b - 1,
                d >= dmin >= 1,
                b >= 0,
        ;
        assert(d * (q + 1) == d * q + d) by (nonlinear_arith);
        assert(false);
    }
}

/// Mapping a pixel to the plane and back returns the same pixel, for every
/// valid view, panel and pixel: a pixel step is at least one raw unit, so the
/// rounding down of `point_at` is undone by the rounding up of `pixel_of`.
/// Any scale within the bounds will do, a power of two or not.
pub proof fn lemma_pixel_round_trip(v: ViewState, px: int, py: int, panel: int)
    requires
        v.bounded(),
        panel_in_range(panel),
        pixel_in_range(px),
        pixel_in_range(py),
    ensures
        v.pixel_of(v.point_at(px, py, panel), panel) == (px, py),
{
    let s = v.scale as int;
    lemma_axis_round_trip(px, s, panel);
    lemma_axis_round_trip(py, s, panel);
    lemma_product_bound(px, s, MAX_PIXEL as int, MAX_SCALE as int);
    lemma_product_bound(py, s, MAX_PIXEL as int, MAX_SCALE as int);
    lemma_quotient_bound(px * s, panel, MAX_PIXEL * MAX_SCALE);
    lemma_quotient_bound(py * s, panel, MAX_PIXEL * MAX_SCALE);
}

/// Along one axis: `ceil(floor(p * s / panel) * panel / s) == p` when `panel <= s`.
proof fn lemma_axis_round_trip(p: int, s: int, panel: int)
    requires
        1 <= panel <= s,
    ensures
        ceil_div((p * s / panel) * panel, s) == p,
{
    let q = p * s / panel;
    let r = (p * s) % panel;
    lemma_fundamental_div_mod(p * s, panel);
    assert(p * s == panel * q + r && 0 <= r < panel);
    assert(-(q * panel) == s * (-p) + r) by (nonlinear_arith)
        requires
            p * s == panel * q + r,
    ;
    lemma_fundamental_div_mod_converse(-(q * panel), s, -p, r);
}

proof fn lemma_pow2_divides(s: int, d: int)
    requires
        is_pow2(s),
        is_pow2(d),
        d <= s,
    ensures
        s % d == 0,
    decreases s,
{
    reveal(is_pow2);
    if d == 1 || s == d {
        assert(s % s == 0) by (nonlinear_arith)
            requires
                s >= 1,
        ;
    } else {
        lemma_pow2_divides(s / 2, d / 2);
        let k = (s / 2) / (d / 2);
        lemma_fundamental_div_mod(s / 2, d / 2);
        assert(s == k * d) by (nonlinear_arith)
            requires
                s / 2 == (d / 2) * k,
                s % 2 == 0,
                d % 2 == 0,
                s == 2 * (s / 2),
                d == 2 * (d / 2),
        ;
        lemma_fundamental_div_mod_converse(s, d, k, 0);
    }
}

/// Zooming in strictly shrinks the scale until the floor `MIN_SCALE`, where it
/// stays; zooming out strictly grows it until the ceiling `MAX_SCALE`.
pub proof fn lemma_zoom_monotone(v: ViewState)
    requires
        v.wf(),
    ensures
        v.zoomed_in().wf(),
        v.zoomed_out().wf(),
        v.scale / 2 >= MIN_SCALE ==> v.zoomed_in().scale < v.scale,
        v.scale / 2 < MIN_SCALE ==> v.zoomed_in() == v,
        v.scale * 2 <= MAX_SCALE ==> v.zoomed_out().scale > v.scale,
        v.scale * 2 > MAX_SCALE ==> v.zoomed_out() == v,
{
    lemma_half_is_pow2(v.scale as int);
    lemma_double_is_pow2(v.scale as int);
}

/// Panning after one zoom in moves the offset by exactly half the distance
/// that the same pan moves it at the scale before, away from the offset bounds.
pub proof fn lemma_pan_scales_with_zoom(v: ViewState, dir: Pan)
    requires
        v.wf(),
        v.scale / 2 >= MIN_SCALE,
        -MAX_OFFSET <= v.offset.re - v.pan_step() && v.offset.re + v.pan_step() <= MAX_OFFSET,
        -MAX_OFFSET <= v.offset.im - v.pan_step() && v.offset.im + v.pan_step() <= MAX_OFFSET,
    ensures
        ({
            let h = v.zoomed_in();
            &&& 2 * h.pan_step() == v.pan_step()
            &&& 2 * (h.panned(dir).offset.re - h.offset.re) == v.panned(dir).offset.re
                - v.offset.re
            &&& 2 * (h.panned(dir).offset.im - h.offset.im) == v.panned(dir).offset.im
                - v.offset.im
        }),
{
    let s = v.scale as int;
    reveal_with_fuel(is_pow2, 6);
    assert(is_pow2(16));
    lemma_pow2_divides(s, 16);
    let k = s / 16;
    lemma_fundamental_div_mod(s, 16);
    assert(s / 2 == 8 * k);
    assert((s / 2) / 8 == k);
    assert(s / 8 == 2 * k);
}

} // verus!
