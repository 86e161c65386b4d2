//! Points that drift across a bounded canvas with slowly changing speeds, and
//! the palette of falling drips.
use vstd::prelude::*;
use vstd::seq_lib::{to_multiset_build, to_multiset_insert};

verus! {

/// Width of the canvas the points move on.
pub const WIDTH: i32 = 800;

/// Height of the canvas the points move on.
pub const HEIGHT: i32 = 600;

/// Bound on each component of a speed.
pub const MAX_SPEED: i32 = 3;

/// `v` kept within `[lo, hi]`.
pub open spec fn clamp(v: int, lo: int, hi: int) -> int {
    if v < lo {
        lo
    } else if v > hi {
        hi
    } else {
        v
    }
}

/// A pair of `i32` whose componentwise sum with another fits `i32`.
pub open spec fn sum_fits(a: (i32, i32), b: (i32, i32)) -> bool {
    &&& i32::MIN <= a.0 + b.0 <= i32::MAX
    &&& i32::MIN <= a.1 + b.1 <= i32::MAX
}

/// Point `p` moved by speed `s`, kept on the canvas.
pub open spec fn moved(p: (i32, i32), s: (i32, i32)) -> (i32, i32) {
    (clamp(p.0 + s.0, 0, WIDTH as int) as i32, clamp(p.1 + s.1, 0, HEIGHT as int) as i32)
}

/// Speed `v` changed by the draw `d`, kept within `[-MAX_SPEED, MAX_SPEED]`.
pub open spec fn jittered(v: (i32, i32), d: (i32, i32)) -> (i32, i32) {
    (
        clamp(v.0 + d.0, -MAX_SPEED as int, MAX_SPEED as int) as i32,
        clamp(v.1 + d.1, -MAX_SPEED as int, MAX_SPEED as int) as i32,
    )
}

fn clamp_i32(v: i32, lo: i32, hi: i32) -> (r: i32)
    requires
        lo <= hi,
    ensures
        r == clamp(v as int, lo as int, hi as int),
{
    if v < lo {
        lo
    } else if v > hi {
        hi
    } else {
        v
    }
}

/// Moves each point by the speed at the same index and keeps it on the canvas.
pub fn move_points(points: &mut Vec<(i32, i32)>, speeds: &Vec<(i32, i32)>)
    requires
        speeds@.len() >= old(points)@.len(),
        forall|i: int| 0 <= i < old(points)@.len() ==> sum_fits(old(points)@[i], speeds@[i]),
    ensures
        final(points)@.len() == old(points)@.len(),
        forall|i: int|
            0 <= i < old(points)@.len() ==> final(points)@[i] == moved(old(points)@[i], speeds@[i]),
{
    let n: usize = points.len();
    let mut i: usize = 0;
    while i < n
        invariant
            n == old(points)@.len(),
            points@.len() == n,
            speeds@.len() >= n,
            i <= n,
            forall|k: int| 0 <= k < n ==> sum_fits(old(points)@[k], speeds@[k]),
            forall|k: int| 0 <= k < i ==> points@[k] == moved(old(points)@[k], speeds@[k]),
            forall|k: int| i <= k < n ==> points@[k] == old(points)@[k],
        decreases n - i,
    {
        let (px, py) = points[i];
        let (sx, sy) = speeds[i];
        let p: (i32, i32) = (clamp_i32(px + sx, 0, WIDTH), clamp_i32(py + sy, 0, HEIGHT));
        points.set(i, p);
        i = i + 1;
    }
}

/// Changes each speed by the random draw at the same index (a draw from
/// `-1..=1` per component) and keeps it within `[-MAX_SPEED, MAX_SPEED]`.
pub fn random_speeds(list: &mut Vec<(i32, i32)>, draws: &Vec<(i32, i32)>)
    requires
        draws@.len() >= old(list)@.len(),
        forall|i: int| 0 <= i < old(list)@.len() ==> sum_fits(old(list)@[i], draws@[i]),
    ensures
        final(list)@.len() == old(list)@.len(),
        forall|i: int|
            0 <= i < old(list)@.len() ==> final(list)@[i] == jittered(old(list)@[i], draws@[i]),
{
    let n: usize = list.len();
    let mut i: usize = 0;
    while i < n
        invariant
            n == old(list)@.len(),
            list@.len() == n,
            draws@.len() >= n,
            i <= n,
            forall|k: int| 0 <= k < n ==> sum_fits(old(list)@[k], draws@[k]),
            forall|k: int| 0 <= k < i ==> list@[k] == jittered(old(list)@[k], draws@[k]),
            forall|k: int| i <= k < n ==> list@[k] == old(list)@[k],
        decreases n - i,
    {
        let (vx, vy) = list[i];
        let (dx, dy) = draws[i];
        let v: (i32, i32) = (
            clamp_i32(vx + dx, -MAX_SPEED, MAX_SPEED),
            clamp_i32(vy + dy, -MAX_SPEED, MAX_SPEED),
        );
        list.set(i, v);
        i = i + 1;
    }
}

/// Moved points lie on the canvas, and jittered speeds within their bound,
/// whatever the point, speed or draw.
pub proof fn lemma_motion_stays_bounded(p: (i32, i32), s: (i32, i32), d: (i32, i32))
    ensures
        0 <= moved(p, s).0 <= WIDTH,
        0 <= moved(p, s).1 <= HEIGHT,
        -MAX_SPEED <= jittered(s, d).0 <= MAX_SPEED,
        -MAX_SPEED <= jittered(s, d).1 <= MAX_SPEED,
{
}

/// A terminal color for a falling drip.
#[derive(Clone, Copy, Debug, PartialEq, Eq, Structural)]
pub enum DripColor {
    White,
    Red,
    Blue,
    Green,
    Magenta,
    Cyan,
    Yellow,
}

/// The color for a random draw from `0..7`: 1 to 6 pick a color, any other
/// draw white.
pub open spec fn drip_color(draw: u32) -> DripColor {
    if draw == 1 {
        DripColor::Red
    } else if draw == 2 {
        DripColor::Blue
    } else if draw == 3 {
        DripColor::Green
    } else if draw == 4 {
        DripColor::Magenta
    } else if draw == 5 {
        DripColor::Cyan
    } else if draw == 6 {
        DripColor::Yellow
    } else {
        DripColor::White
    }
}

/// Picks the color of a drip from a random draw.
pub fn random_color(draw: u32) -> (r: DripColor)
    ensures
        r == drip_color(draw),
{
    match draw {
        1 => DripColor::Red,
        2 => DripColor::Blue,
        3 => DripColor::Green,
        4 => DripColor::Magenta,
        5 => DripColor::Cyan,
        6 => DripColor::Yellow,
        _ => DripColor::White,
    }
}

/// Squared distance between two points.
pub open spec fn dist_sq(p: (i32, i32), q: (i32, i32)) -> int {
    (q.0 - p.0) * (q.0 - p.0) + (q.1 - p.1) * (q.1 - p.1)
}

/// The points of `s` come in order of distance from `p`, nearest first.
pub open spec fn by_distance(p: (i32, i32), s: Seq<(i32, i32)>) -> bool {
    forall|i: int, j: int| 0 <= i < j < s.len() ==> dist_sq(p, s[i]) <= dist_sq(p, s[j])
}

fn dist_sq_exec(p: (i32, i32), q: (i32, i32)) -> (r: i128)
    ensures
        r == dist_sq(p, q),
{
    let dx: i128 = q.0 as i128 - p.0 as i128;
    let dy: i128 = q.1 as i128 - p.1 as i128;
    proof {
        assert(0 <= dx * dx <= 0x1_0000_0000 * 0x1_0000_0000) by (nonlinear_arith)
            requires
                -0x1_0000_0000 <= dx <= 0x1_0000_0000,
        ;
        assert(0 <= dy * dy <= 0x1_0000_0000 * 0x1_0000_0000) by (nonlinear_arith)
            requires
                -0x1_0000_0000 <= dy <= 0x1_0000_0000,
        ;
    }
    dx * dx + dy * dy
}

/// `r` takes its points from `list` at the distinct indices `idx`, and two
/// points at equal distance from `p` keep the order they had in `list`.
pub open spec fn stable_pick(
    p: (i32, i32),
    list: Seq<(i32, i32)>,
    r: Seq<(i32, i32)>,
    idx: Seq<int>,
) -> bool {
    &&& idx.len() == r.len()
    &&& forall|k: int| 0 <= k < r.len() ==> 0 <= #[trigger] idx[k] < list.len()
    &&& forall|k: int| 0 <= k < r.len() ==> #[trigger] r[k] == list[idx[k]]
    &&& forall|k: int, l: int| 0 <= k < l < r.len() ==> idx[k] != idx[l]
    &&& forall|k: int, l: int|
        0 <= k < l < r.len() && dist_sq(p, r[k]) == dist_sq(p, r[l]) ==> idx[k] < idx[l]
}

/// The points of `list` ordered by distance from `p`, nearest first; points at
/// equal distance keep their order in `list`.
pub fn nearest(p: (i32, i32), list: &Vec<(i32, i32)>) -> (r: Vec<(i32, i32)>)
    ensures
        r@.to_multiset() == list@.to_multiset(),
        by_distance(p, r@),
        exists|idx: Seq<int>| stable_pick(p, list@, r@, idx),
{
    let ghost mut idx: Seq<int> = Seq::empty();
    let mut out: Vec<(i32, i32)> = Vec::new();
    let mut i: usize = 0;
    assert(list@.take(0) =~= out@);
    while i < list.len()
        invariant
            i <= list@.len(),
            out@.to_multiset() == list@.take(i as int).to_multiset(),
            by_distance(p, out@),
            stable_pick(p, list@, out@, idx),
            forall|k: int| 0 <= k < idx.len() ==> #[trigger] idx[k] < i,
        decreases list@.len() - i,
    {
        let q: (i32, i32) = list[i];
        let d: i128 = dist_sq_exec(p, q);
        let mut pos: usize = 0;
        while pos < out.len() && dist_sq_exec(p, out[pos]) <= d
            invariant
                pos <= out@.len(),
                d == dist_sq(p, q),
                forall|k: int| 0 <= k < pos ==> dist_sq(p, #[trigger] out@[k]) <= d,
            decreases out@.len() - pos,
        {
            pos = pos + 1;
        }
        let ghost before = out@;
        let ghost idx0 = idx;
        out.insert(pos, q);
        proof {
            idx = idx0.insert(pos as int, i as int);
            assert forall|k: int| 0 <= k < out@.len() implies #[trigger] out@[k] == list@[idx[k]]
                && 0 <= idx[k] < list@.len() && idx[k] < i + 1 by {
                if k < pos {
                    assert(out@[k] == before[k] && idx[k] == idx0[k]);
                } else if k > pos {
                    assert(out@[k] == before[k - 1] && idx[k] == idx0[k - 1]);
                }
            }
            assert forall|k: int, l: int| 0 <= k < l < out@.len() implies idx[k] != idx[l] && (
            dist_sq(p, out@[k]) == dist_sq(p, out@[l]) ==> idx[k] < idx[l]) by {
                if pos < before.len() {
                    assert(dist_sq(p, before[pos as int]) > d);
                }
                if k < pos && l < pos {
                    assert(idx[k] == idx0[k] && idx[l] == idx0[l]);
                    assert(out@[k] == before[k] && out@[l] == before[l]);
                } else if k < pos && l == pos {
                    assert(idx[k] == idx0[k] && idx[l] == i);
                } else if k < pos && l > pos {
                    assert(idx[k] == idx0[k] && idx[l] == idx0[l - 1]);
                    assert(out@[k] == before[k] && out@[l] == before[l - 1]);
                } else if k == pos && l > pos {
                    assert(idx[k] == i && idx[l] == idx0[l - 1]);
                    assert(out@[l] == before[l - 1]);
                    assert(l - 1 == pos || dist_sq(p, before[pos as int]) <= dist_sq(p, before[l - 1]));
                } else if k > pos {
                    assert(idx[k] == idx0[k - 1] && idx[l] == idx0[l - 1]);
                    assert(out@[k] == before[k - 1] && out@[l] == before[l - 1]);
                }
            }
            assert forall|a: int, b: int| 0 <= a < b < out@.len() implies dist_sq(p, out@[a])
                <= dist_sq(p, out@[b]) by {
                if pos < before.len() {
                    assert(dist_sq(p, before[pos as int]) > d);
                }
                if a < pos && b > pos {
                    assert(out@[b] == before[b - 1]);
                    assert(out@[a] == before[a]);
                } else if a == pos && b > pos {
                    assert(out@[b] == before[b - 1]);
                    assert(b - 1 == pos || dist_sq(p, before[pos as int]) <= dist_sq(
                        p,
                        before[b - 1],
                    ));
                } else if a > pos {
                    assert(out@[a] == before[a - 1] && out@[b] == before[b - 1]);
                } else if b < pos {
                    assert(out@[a] == before[a] && out@[b] == before[b]);
                }
            }
            to_multiset_insert(before, pos as int, q);
            assert(list@.take(i + 1) =~= list@.take(i as int).push(q));
            to_multiset_build(list@.take(i as int), q);
        }
        i = i + 1;
    }
    assert(list@.take(list@.len() as int) =~= list@);
    assert(stable_pick(p, list@, out@, idx));
    out
}

} // verus!
