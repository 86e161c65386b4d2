//! Escape time of the quadratic recurrence `z <- z^2 + c`.
use vstd::prelude::*;
use vstd::arithmetic::div_mod::lemma_div_is_ordered;
use crate::fixed::{Complex, ONE, floor_div};

verus! {

/// Iteration cap of both panels.
pub const ITERATIONS: u32 = 50;

/// Raw value of the escape radius, 2.0.
pub const RADIUS: i128 = 8589934592;

/// Raw value of the squared escape radius, 4.0, as a product of two raw values.
pub const RADIUS_SQ: i128 = 73786976294838206464;

/// Bound on the raw parts of every point an orbit reaches before it escapes.
pub const ORBIT_BOUND: i128 = 18446744073709551616;

/// The orbit point `(zr, zi)` lies at distance 2 or more from the origin.
pub open spec fn escaped(zr: int, zi: int) -> bool {
    zr * zr + zi * zi >= 4 * ONE * ONE
}

/// Real part of `z^2 + c` in fixed point (the product is rounded down).
pub open spec fn next_re(zr: int, zi: int, cr: int) -> int {
    (zr * zr - zi * zi) / (ONE as int) + cr
}

/// Imaginary part of `z^2 + c` in fixed point (the product is rounded down).
pub open spec fn next_im(zr: int, zi: int, ci: int) -> int {
    (2 * (zr * zi)) / (ONE as int) + ci
}

/// The escape time of an orbit that stands at `(zr, zi)` after `i` steps:
/// the first step index `k` with `i <= k < n` whose point has escaped, or `n`.
pub open spec fn escape_count(zr: int, zi: int, cr: int, ci: int, i: nat, n: nat) -> nat
    decreases n - i,
{
    if i >= n || escaped(zr, zi) {
        i
    } else {
        escape_count(next_re(zr, zi, cr), next_im(zr, zi, ci), cr, ci, i + 1, n)
    }
}

/// Escape time of the orbit of `z0` under `z <- z^2 + c`, capped at `n`.
pub open spec fn orbit_escape(z0: Complex, c: Complex, n: nat) -> nat {
    escape_count(z0.re as int, z0.im as int, c.re as int, c.im as int, 0, n)
}

/// Escape time of the Mandelbrot orbit of the parameter `c`, which starts at 0.
pub open spec fn mandelbrot_escape(c: Complex, n: nat) -> nat {
    escape_count(0, 0, c.re as int, c.im as int, 0, n)
}

fn has_escaped(zr: i128, zi: i128) -> (r: bool)
    requires
        -ORBIT_BOUND <= zr <= ORBIT_BOUND,
        -ORBIT_BOUND <= zi <= ORBIT_BOUND,
    ensures
        r == escaped(zr as int, zi as int),
{
    if zr >= RADIUS || zr <= -RADIUS || zi >= RADIUS || zi <= -RADIUS {
        proof {
            assert(zr * zr + zi * zi >= 4 * ONE * ONE) by (nonlinear_arith)
                requires
                    zr >= RADIUS || zr <= -RADIUS || zi >= RADIUS || zi <= -RADIUS,
                    RADIUS == 2 * ONE,
            ;
        }
        true
    } else {
        proof {
            assert(0 <= zr * zr < RADIUS_SQ && 0 <= zi * zi < RADIUS_SQ) by (nonlinear_arith)
                requires
                    -RADIUS < zr < RADIUS,
                    -RADIUS < zi < RADIUS,
                    RADIUS_SQ == RADIUS * RADIUS,
            ;
        }
        zr * zr + zi * zi >= RADIUS_SQ
    }
}

/// Escape time of the orbit of `z0` under `z <- z^2 + c`: the smallest
/// `i <= n` whose point `z_i` lies at distance 2 or more from 0, or `n`.
/// This is the Julia-set form: `c` is fixed and `z0` varies.
pub fn escape_time_from(z0: Complex, c: Complex, n: u32) -> (r: u32)
    ensures
        r == orbit_escape(z0, c, n as nat),
        r <= n,
{
    let mut zr: i128 = z0.re as i128;
    let mut zi: i128 = z0.im as i128;
    let mut i: u32 = 0;
    while i < n && !has_escaped(zr, zi)
        invariant
            i <= n,
            -ORBIT_BOUND <= zr <= ORBIT_BOUND,
            -ORBIT_BOUND <= zi <= ORBIT_BOUND,
            escape_count(zr as int, zi as int, c.re as int, c.im as int, i as nat, n as nat)
                == orbit_escape(z0, c, n as nat),
        decreases n - i,
    {
        proof {
            assert(-RADIUS < zr < RADIUS && -RADIUS < zi < RADIUS) by (nonlinear_arith)
                requires
                    zr * zr + zi * zi < 4 * ONE * ONE,
                    RADIUS == 2 * ONE,
            ;
            assert(0 <= zr * zr < RADIUS_SQ && 0 <= zi * zi < RADIUS_SQ && -RADIUS_SQ < zr * zi
                < RADIUS_SQ)
                by (nonlinear_arith)
                requires
                    -RADIUS < zr < RADIUS,
                    -RADIUS < zi < RADIUS,
                    RADIUS_SQ == RADIUS * RADIUS,
            ;
        }
        let sq: i128 = zr * zr - zi * zi;
        let cross: i128 = 2 * (zr * zi);
        let dr: i128 = floor_div(sq, ONE as i128);
        let di: i128 = floor_div(cross, ONE as i128);
        proof {
            let one = ONE as int;
            lemma_div_is_ordered(-RADIUS_SQ as int, sq as int, one);
            lemma_div_is_ordered(sq as int, RADIUS_SQ as int, one);
            lemma_div_is_ordered(-2 * RADIUS_SQ as int, cross as int, one);
            lemma_div_is_ordered(cross as int, 2 * RADIUS_SQ as int, one);
            assert(RADIUS_SQ as int / one == 4 * one);
            assert(-RADIUS_SQ as int / one == -4 * one);
            assert(2 * RADIUS_SQ as int / one == 8 * one);
            assert(-2 * RADIUS_SQ as int / one == -8 * one);
        }
        zr = dr + c.re as i128;
        zi = di + c.im as i128;
        i = i + 1;
    }
    i
}

/// Escape time of the Mandelbrot orbit of `c`: `z0 = 0`, then `z <- z^2 + c`.
pub fn escape_time(c: Complex, n: u32) -> (r: u32)
    ensures
        r == mandelbrot_escape(c, n as nat),
        r <= n,
{
    escape_time_from(Complex::new(0, 0), c, n)
}

proof fn lemma_count_at_least(zr: int, zi: int, cr: int, ci: int, i: nat, n: nat)
    ensures
        escape_count(zr, zi, cr, ci, i, n) >= i,
    decreases n - i,
{
    if i < n && !escaped(zr, zi) {
        lemma_count_at_least(next_re(zr, zi, cr), next_im(zr, zi, ci), cr, ci, i + 1, n);
    }
}

proof fn lemma_count_monotone(zr: int, zi: int, cr: int, ci: int, i: nat, n: nat, m: nat)
    requires
        n <= m,
    ensures
        escape_count(zr, zi, cr, ci, i, n) <= escape_count(zr, zi, cr, ci, i, m),
    decreases m - i,
{
    if i >= n {
        lemma_count_at_least(zr, zi, cr, ci, i, m);
    } else if !escaped(zr, zi) {
        lemma_count_monotone(next_re(zr, zi, cr), next_im(zr, zi, ci), cr, ci, i + 1, n, m);
    }
}

/// Raising the iteration cap never lowers the escape time of a parameter.
pub proof fn lemma_escape_monotone_in_cap(c: Complex, n: nat, m: nat)
    requires
        n <= m,
    ensures
        mandelbrot_escape(c, n) <= mandelbrot_escape(c, m),
{
    lemma_count_monotone(0, 0, c.re as int, c.im as int, 0, n, m);
}

/// A parameter farther than 2 from the origin escapes before the cap, for any
/// cap of at least 2: its orbit reaches `c` itself after one step.
pub proof fn lemma_far_parameter_escapes(c: Complex, n: nat)
    requires
        n >= 2,
        c.re * c.re + c.im * c.im > 4 * ONE * ONE,
    ensures
        mandelbrot_escape(c, n) < n,
{
    let (cr, ci) = (c.re as int, c.im as int);
    assert(!escaped(0, 0));
    assert(next_re(0, 0, cr) == cr);
    assert(next_im(0, 0, ci) == ci);
    assert(escaped(cr, ci));
    assert(escape_count(cr, ci, cr, ci, 1, n) == 1);
}

proof fn lemma_fixed_origin(i: nat, n: nat)
    requires
        i <= n,
    ensures
        escape_count(0, 0, 0, 0, i, n) == n,
    decreases n - i,
{
    if i < n {
        assert(!escaped(0, 0));
        assert(next_re(0, 0, 0) == 0 && next_im(0, 0, 0) == 0);
        lemma_fixed_origin(i + 1, n);
    }
}

/// The origin belongs to the Mandelbrot set: its orbit stays at 0, so its
/// escape time is the cap.
pub proof fn lemma_origin_never_escapes(n: nat)
    ensures
        mandelbrot_escape(Complex { re: 0, im: 0 }, n) == n,
{
    lemma_fixed_origin(0, n);
}

} // verus!
