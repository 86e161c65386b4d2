//! A color that walks the hue wheel one degree per step.
use vstd::prelude::*;
use crate::color::{Rgba, opaque};

verus! {

/// Degrees in a full turn of the hue wheel.
pub const HUE_TURN: u16 = 360;

/// The current hue, in degrees.
#[derive(Clone, Copy, Debug, PartialEq, Eq, Structural)]
pub struct Raimbow {
    pub hue: u16,
}

/// The hue after one step: one degree further, back to 0 at a full turn.
pub open spec fn next_hue(h: int) -> int {
    if h + 1 >= HUE_TURN {
        0
    } else {
        h + 1
    }
}

/// The color of hue `h` (in `[0, 360)`): six sectors of 60 degrees, in each of
/// which one channel rises or falls by 4 per degree.
pub open spec fn rainbow_color(h: int) -> Rgba {
    if h < 60 {
        opaque(255, h * 4, 0)
    } else if h < 120 {
        opaque(255 - (h - 60) * 4, 255, 0)
    } else if h < 180 {
        opaque(0, 255, (h - 120) * 4)
    } else if h < 240 {
        opaque(0, 255 - (h - 180) * 4, 255)
    } else if h < 300 {
        opaque((h - 240) * 4, 0, 255)
    } else {
        opaque(255, 0, 255 - (h - 300) * 4)
    }
}

impl Raimbow {
    pub fn new(hue: u16) -> (r: Raimbow)
        ensures
            r.hue == hue,
    {
        Raimbow { hue }
    }

    /// Steps the hue one degree and returns the color of the new hue; the
    /// sequence never ends.
    pub fn next(&mut self) -> (r: Option<Rgba>)
        requires
            old(self).hue < u16::MAX,
        ensures
            final(self).hue == next_hue(old(self).hue as int),
            r == Some(rainbow_color(final(self).hue as int)),
    {
        self.hue = self.hue + 1;
        if self.hue >= HUE_TURN {
            self.hue = 0;
        }
        let h: u16 = self.hue;
        let c: Rgba = if h < 60 {
            Rgba { r: 255, g: (h * 4) as u8, b: 0, a: 255 }
        } else if h < 120 {
            Rgba { r: (255 - (h - 60) * 4) as u8, g: 255, b: 0, a: 255 }
        } else if h < 180 {
            Rgba { r: 0, g: 255, b: ((h - 120) * 4) as u8, a: 255 }
        } else if h < 240 {
            Rgba { r: 0, g: (255 - (h - 180) * 4) as u8, b: 255, a: 255 }
        } else if h < 300 {
            Rgba { r: ((h - 240) * 4) as u8, g: 0, b: 255, a: 255 }
        } else {
            Rgba { r: 255, g: 0, b: (255 - (h - 300) * 4) as u8, a: 255 }
        };
        Some(c)
    }
}

/// Every step lands on a hue in `[0, 360)`, and 360 steps from such a hue
/// return to it: the colors repeat with period 360.
pub proof fn lemma_hue_cycles(h: int)
    requires
        0 <= h < HUE_TURN,
    ensures
        0 <= next_hue(h) < HUE_TURN,
        hue_after(h, HUE_TURN as nat) == h,
{
    lemma_hue_after(h, HUE_TURN as nat);
}

/// The hue after `k` steps from `h`.
pub open spec fn hue_after(h: int, k: nat) -> int
    decreases k,
{
    if k == 0 {
        h
    } else {
        next_hue(hue_after(h, (k - 1) as nat))
    }
}

proof fn lemma_hue_after(h: int, k: nat)
    requires
        0 <= h < HUE_TURN,
    ensures
        hue_after(h, k) == (h + k) % (HUE_TURN as int),
    decreases k,
{
    if k > 0 {
        lemma_hue_after(h, (k - 1) as nat);
    }
}

} // verus!
