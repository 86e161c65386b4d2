//! Escape-time explorer for the Mandelbrot set and the Julia set linked to it.
//!
//! Coordinates in the complex plane are fixed-point numbers: a raw integer
//! `v` stands for `v / ONE`. The modules, leaf first:
//! - `fixed`: the fixed-point complex point and its arithmetic helpers;
//! - `escape`: the escape-time count of the quadratic recurrence;
//! - `color`: hue-cyclic coloring of escape counts;
//! - `view`: the zoom/pan state and the pixel <-> complex mapping;
//! - `render`: whole panels of colors, Mandelbrot and Julia;
//! - `cache`: per-frame change detection that gates re-rendering.
//!
//! Beside the explorer stand smaller pieces of integer drawing logic:
//! - `rainbow`: a color that walks the hue wheel;
//! - `animation`: the index of a chain of animations;
//! - `motion`: points drifting on a canvas, their speeds, nearest-first order,
//!   and drip colors;
//! - `texture`: textures as rows of pixels, cut, turned, painted and flattened.

pub mod fixed;
pub mod escape;
pub mod color;
pub mod view;
pub mod render;
pub mod cache;
pub mod rainbow;
pub mod animation;
pub mod motion;
pub mod texture;
