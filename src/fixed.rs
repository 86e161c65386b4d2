//! Fixed-point complex points.
use vstd::prelude::*;
use vstd::arithmetic::div_mod::{lemma_fundamental_div_mod, lemma_fundamental_div_mod_converse};

verus! {

/// The raw value that stands for 1.0: coordinates carry 32 fractional bits.
pub const ONE: i64 = 4294967296;

/// A point of the complex plane; `re` and `im` are raw fixed-point values.
#[derive(Clone, Copy, Debug, PartialEq, Eq, Structural)]
pub struct Complex {
    pub re: i64,
    pub im: i64,
}

impl Complex {
    pub fn new(re: i64, im: i64) -> (r: Complex)
        ensures
            r.re == re,
            r.im == im,
    {
        Complex { re, im }
    }
}

/// Division rounded toward negative infinity (Euclidean for a positive divisor).
pub fn floor_div(a: i128, b: i128) -> (q: i128)
    requires
        b > 0,
    ensures
        q == a / b,
{
    if a >= 0 {
        a / b
    } else {
        let n: i128 = -(a + 1);
        let t: i128 = n / b;
        proof {
            let m: int = n as int % b as int;
            lemma_fundamental_div_mod(n as int, b as int);
            assert(a as int == (-t - 1) * b + (b - m - 1)) by (nonlinear_arith)
                requires
                    n == b * t + m,
                    a == -n - 1,
            ;
            lemma_fundamental_div_mod_converse(a as int, b as int, -t - 1, b - m - 1);
        }
        -t - 1
    }
}

} // verus!
