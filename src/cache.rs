//! Per-frame change detection: a panel is re-rendered only when something it
//! depends on changed since the previous frame.
use vstd::prelude::*;
use crate::fixed::Complex;
use crate::escape::ITERATIONS;
use crate::color::Rgba;
use crate::view::{ViewState, panel_in_range, pixel_in_range};
use crate::render::{julia_pixels, mandelbrot_pixels, render_julia, render_mandelbrot};

verus! {

/// Everything the Mandelbrot panel depends on.
#[derive(Clone, Copy, Debug, PartialEq, Eq, Structural)]
pub struct MandelbrotKey {
    pub view: ViewState,
    pub panel: u32,
}

/// Everything the Julia panel depends on: its constant is the point under the
/// pointer in the Mandelbrot view.
#[derive(Clone, Copy, Debug, PartialEq, Eq, Structural)]
pub struct JuliaKey {
    pub view: ViewState,
    pub panel: u32,
    pub pointer_x: i32,
    pub pointer_y: i32,
}

/// Which panels one frame rendered anew.
#[derive(Clone, Copy, Debug, PartialEq, Eq, Structural)]
pub struct Recomputed {
    pub mandelbrot: bool,
    pub julia: bool,
}

/// The two panels, the keys they were rendered for, and how many panel
/// renders have run (saturating).
pub struct FrameCache {
    pub mandelbrot_key: Option<MandelbrotKey>,
    pub julia_key: Option<JuliaKey>,
    pub mandelbrot: Vec<Rgba>,
    pub julia: Vec<Rgba>,
    pub renders: u64,
}

/// The constant of the Julia panel for a key.
pub open spec fn julia_constant(k: JuliaKey) -> Complex {
    k.view.point_at(k.pointer_x as int, k.pointer_y as int, k.panel as int)
}

/// The Mandelbrot panel that a key stands for.
pub open spec fn mandelbrot_panel(k: MandelbrotKey) -> Seq<Rgba> {
    mandelbrot_pixels(k.view, k.panel as nat, ITERATIONS as nat)
}

/// The Julia panel that a key stands for.
pub open spec fn julia_panel(k: JuliaKey) -> Seq<Rgba> {
    julia_pixels(julia_constant(k), k.panel as nat, ITERATIONS as nat)
}

/// `a + b`, held at `u64::MAX`.
pub open spec fn saturating_sum(a: int, b: int) -> int {
    if a + b > u64::MAX {
        u64::MAX as int
    } else {
        a + b
    }
}

impl FrameCache {
    /// Each panel that has a key is the panel that its key stands for.
    pub open spec fn wf(&self) -> bool {
        &&& match self.mandelbrot_key {
            Some(k) => self.mandelbrot@ == mandelbrot_panel(k),
            None => true,
        }
        &&& match self.julia_key {
            Some(k) => self.julia@ == julia_panel(k),
            None => true,
        }
    }

    /// `next` and `r` are what one frame with the given view, panel side and
    /// pointer makes of `self`: a panel is rendered anew exactly when its key
    /// differs from the recorded one, and kept otherwise; both keys are
    /// recorded; each render is counted.
    pub open spec fn refreshed(
        self,
        next: FrameCache,
        r: Recomputed,
        view: ViewState,
        panel: u32,
        px: i32,
        py: i32,
    ) -> bool {
        let mk = MandelbrotKey { view, panel };
        let jk = JuliaKey { view, panel, pointer_x: px, pointer_y: py };
        &&& r.mandelbrot == (self.mandelbrot_key != Some(mk))
        &&& r.julia == (self.julia_key != Some(jk))
        &&& next.mandelbrot_key == Some(mk)
        &&& next.julia_key == Some(jk)
        &&& next.mandelbrot@ == if r.mandelbrot {
            mandelbrot_panel(mk)
        } else {
            self.mandelbrot@
        }
        &&& next.julia@ == if r.julia {
            julia_panel(jk)
        } else {
            self.julia@
        }
        &&& next.renders == saturating_sum(
            self.renders as int,
            (if r.mandelbrot { 1int } else { 0int }) + (if r.julia { 1int } else { 0int }),
        )
    }

    /// A cache that has rendered nothing yet: the first frame renders both panels.
    pub fn new() -> (r: FrameCache)
        ensures
            r.wf(),
            r.mandelbrot_key.is_none(),
            r.julia_key.is_none(),
            r.mandelbrot@.len() == 0,
            r.julia@.len() == 0,
            r.renders == 0,
    {
        FrameCache {
            mandelbrot_key: None,
            julia_key: None,
            mandelbrot: Vec::new(),
            julia: Vec::new(),
            renders: 0,
        }
    }

    fn count_render(&mut self)
        ensures
            final(self).renders == saturating_sum(old(self).renders as int, 1),
            final(self).mandelbrot_key == old(self).mandelbrot_key,
            final(self).julia_key == old(self).julia_key,
            final(self).mandelbrot@ == old(self).mandelbrot@,
            final(self).julia@ == old(self).julia@,
    {
        if self.renders < u64::MAX {
            self.renders = self.renders + 1;
        }
    }

    /// Runs the cache for one frame: compares each panel's key with the one
    /// recorded, renders a panel anew only when they differ, then records both.
    pub fn refresh(&mut self, view: &ViewState, panel: u32, px: i32, py: i32) -> (r: Recomputed)
        requires
            old(self).wf(),
            view.wf(),
            panel_in_range(panel as int),
            pixel_in_range(px as int),
            pixel_in_range(py as int),
        ensures
            final(self).wf(),
            old(self).refreshed(*final(self), r, *view, panel, px, py),
    {
        let mk = MandelbrotKey { view: *view, panel };
        let jk = JuliaKey { view: *view, panel, pointer_x: px, pointer_y: py };
        let mandelbrot_stale: bool = match self.mandelbrot_key {
            Some(k) => k != mk,
            None => true,
        };
        let julia_stale: bool = match self.julia_key {
            Some(k) => k != jk,
            None => true,
        };
        if mandelbrot_stale {
            self.mandelbrot = render_mandelbrot(view, panel, ITERATIONS);
            self.count_render();
        }
        if julia_stale {
            let c: Complex = view.pixel_to_complex(px, py, panel);
            self.julia = render_julia(c, panel, ITERATIONS);
            self.count_render();
        }
        self.mandelbrot_key = Some(mk);
        self.julia_key = Some(jk);
        Recomputed { mandelbrot: mandelbrot_stale, julia: julia_stale }
    }
}

/// Two consecutive frames with the same view, panel side and pointer: the
/// second renders nothing, keeps both panels and leaves the render count as
/// it was.
pub proof fn lemma_static_frame_renders_nothing(
    c0: FrameCache,
    c1: FrameCache,
    c2: FrameCache,
    r1: Recomputed,
    r2: Recomputed,
    view: ViewState,
    panel: u32,
    px: i32,
    py: i32,
)
    requires
        c0.refreshed(c1, r1, view, panel, px, py),
        c1.refreshed(c2, r2, view, panel, px, py),
    ensures
        !r2.mandelbrot,
        !r2.julia,
        c2.renders == c1.renders,
        c2.mandelbrot@ == c1.mandelbrot@,
        c2.julia@ == c1.julia@,
{
}

} // verus!
