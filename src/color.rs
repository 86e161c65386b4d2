//! Hue-cyclic coloring of escape times.
use vstd::prelude::*;
use vstd::arithmetic::div_mod::{lemma_div_is_ordered, lemma_div_multiples_vanish};

verus! {

/// A color with one byte per channel: red, green, blue, alpha.
#[derive(Clone, Copy, Debug, PartialEq, Eq, Structural)]
pub struct Rgba {
    pub r: u8,
    pub g: u8,
    pub b: u8,
    pub a: u8,
}

/// Fully opaque black, the color of points that never escaped.
pub open spec fn black() -> Rgba {
    Rgba { r: 0, g: 0, b: 0, a: 255 }
}

/// A fully opaque color from three channel values in `[0, 255]`.
pub open spec fn opaque(r: int, g: int, b: int) -> Rgba {
    Rgba { r: r as u8, g: g as u8, b: b as u8, a: 255 }
}

/// The color of escape time `i` under the cap `n`. The cap itself (interior)
/// is black. Any other count gets hue `i / n * 360` degrees at full saturation
/// and value: the hue circle falls into six sectors, in each of which one
/// channel rises or falls linearly, and each channel is rounded down to 8 bits.
pub open spec fn hue_color(i: nat, n: nat) -> Rgba {
    if i >= n {
        black()
    } else {
        let t: int = 6 * (i as int);
        let sector: int = t / (n as int);
        let f: int = t % (n as int);
        let rise: int = 255 * f / (n as int);
        let fall: int = 255 * (n - f) / (n as int);
        if sector == 0 {
            opaque(255, rise, 0)
        } else if sector == 1 {
            opaque(fall, 255, 0)
        } else if sector == 2 {
            opaque(0, 255, rise)
        } else if sector == 3 {
            opaque(0, fall, 255)
        } else if sector == 4 {
            opaque(rise, 0, 255)
        } else {
            opaque(255, 0, fall)
        }
    }
}

/// Color of escape time `i` under the cap `n`; it depends on `(i, n)` alone.
pub fn color_of(i: u32, n: u32) -> (r: Rgba)
    requires
        i <= n,
    ensures
        r == hue_color(i as nat, n as nat),
        i == n ==> r == black(),
{
    if i == n {
        return Rgba { r: 0, g: 0, b: 0, a: 255 };
    }
    let n64: u64 = n as u64;
    let t: u64 = 6 * (i as u64);
    let sector: u64 = t / n64;
    let f: u64 = t % n64;
    proof {
        lemma_div_is_ordered(255 * f as int, 255 * n as int, n as int);
        lemma_div_is_ordered(255 * (n - f) as int, 255 * n as int, n as int);
        lemma_div_multiples_vanish(255, n as int);
    }
    let rise: u8 = (255 * f / n64) as u8;
    let fall: u8 = (255 * (n64 - f) / n64) as u8;
    if sector == 0 {
        Rgba { r: 255, g: rise, b: 0, a: 255 }
    } else if sector == 1 {
        Rgba { r: fall, g: 255, b: 0, a: 255 }
    } else if sector == 2 {
        Rgba { r: 0, g: 255, b: rise, a: 255 }
    } else if sector == 3 {
        Rgba { r: 0, g: fall, b: 255, a: 255 }
    } else if sector == 4 {
        Rgba { r: rise, g: 0, b: 255, a: 255 }
    } else {
        Rgba { r: 255, g: 0, b: fall, a: 255 }
    }
}

/// A color is black exactly for the interior: the cap maps to opaque black
/// whatever the cap, and every smaller count has a channel at full intensity.
pub proof fn lemma_black_iff_interior(i: nat, n: nat)
    requires
        i <= n,
    ensures
        hue_color(i, n) == black() <==> i == n,
        hue_color(n, n) == black(),
{
}

} // verus!
