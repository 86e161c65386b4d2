//! Chaining of animations: an index that advances once per frame.
use vstd::prelude::*;
use vstd::arithmetic::div_mod::lemma_fundamental_div_mod_converse;

verus! {

/// The index of the running animation, with an optional end and whether the
/// chain starts over on reaching it.
#[derive(Clone, Copy, Debug, PartialEq, Eq, Structural)]
pub struct AnimationIndex {
    pub index: usize,
    pub max: Option<usize>,
    pub looping: bool,
}

/// The index after one frame: one further, back to 0 when it reaches the end
/// of a looping chain.
pub open spec fn advanced(a: AnimationIndex) -> AnimationIndex {
    let next = a.index + 1;
    AnimationIndex {
        index: if a.max == Some((next) as usize) && a.looping {
            0
        } else {
            next as usize
        },
        ..a
    }
}

/// Advances the index by one frame.
pub fn update_animation_index(a: &mut AnimationIndex)
    requires
        old(a).index < usize::MAX,
    ensures
        *final(a) == advanced(*old(a)),
{
    a.index = a.index + 1;
    match a.max {
        Some(max) => {
            if a.index == max && a.looping {
                a.index = 0;
            }
        },
        None => {},
    }
}

/// A looping chain with end `m > 0` that starts within it stays within it
/// and returns to its start after `m` frames.
pub proof fn lemma_looping_index_wraps(a: AnimationIndex, m: usize)
    requires
        a.max == Some(m),
        a.looping,
        a.index < m,
    ensures
        advanced(a).index < m,
        advanced(a).index == (a.index + 1) % (m as int),
{
    if a.index + 1 == m {
        lemma_fundamental_div_mod_converse(m as int, m as int, 1, 0);
    } else {
        lemma_fundamental_div_mod_converse(a.index + 1, m as int, 0, a.index + 1);
    }
}

} // verus!
