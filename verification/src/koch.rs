//! Koch curve generation by recursive segment subdivision.
//!
//! A segment (A, B) at depth 0 yields its two endpoints. At depth d > 0 it
//! splits at one third and two thirds of the way from A to B, with an apex
//! obtained by rotating the middle third by 60 degrees, and recurses on the
//! four sub-segments at depth d - 1. The radial variant runs the same rule
//! over the sides of a seed polygon.
//!
//! Coordinates are fixed-point integers; the 60-degree rotation uses the
//! scaled constants below, and every division rounds toward negative
//! infinity.

use vstd::prelude::*;
use crate::geom::{Point, within, npow, points_view, div_floor, lemma_mul_div_bounds, lemma_npow_pos};

verus! {

/// Denominator of the fixed-point rotation constants.
pub const ROT_SCALE: i64 = 65536;

/// cos 60 degrees, scaled by `ROT_SCALE` (exactly 1/2).
pub const COS_60: i64 = 32768;

/// sin 60 degrees, scaled by `ROT_SCALE` (nearest integer to
/// `ROT_SCALE` times sqrt(3)/2).
pub const SIN_60: i64 = 56756;

/// Deepest recursion the generators accept; keeps every intermediate
/// coordinate far inside the machine integer range.
pub const MAX_DEPTH: u32 = 8;

/// Largest coordinate magnitude allowed for seed points.
pub const SEED_CAP: i64 = 0x4000_0000;

/// The point one third of the way from `a` to `b`.
pub open spec fn koch_one_third(a: (int, int), b: (int, int)) -> (int, int) {
    (a.0 + (b.0 - a.0) / 3, a.1 + (b.1 - a.1) / 3)
}

/// The point two thirds of the way from `a` to `b`.
pub open spec fn koch_two_thirds(a: (int, int), b: (int, int)) -> (int, int) {
    (a.0 + (2 * (b.0 - a.0)) / 3, a.1 + (2 * (b.1 - a.1)) / 3)
}

/// The apex of the equilateral bump: the middle third of (a, b), rotated
/// by 60 degrees and attached at the one-third point.
pub open spec fn koch_apex(a: (int, int), b: (int, int)) -> (int, int) {
    let dx = (b.0 - a.0) / 3;
    let dy = (b.1 - a.1) / 3;
    (
        a.0 + dx + (dx * (COS_60 as int) - dy * (SIN_60 as int)) / (ROT_SCALE as int),
        a.1 + dy + (dx * (SIN_60 as int) + dy * (COS_60 as int)) / (ROT_SCALE as int),
    )
}

/// The ordered endpoint sequence of the Koch curve over segment (a, b):
/// two points per leaf segment, leaves ordered from a to b.
pub open spec fn spec_koch_points(a: (int, int), b: (int, int), depth: nat) -> Seq<(int, int)>
    decreases depth,
{
    if depth == 0 {
        seq![a, b]
    } else {
        let p = koch_one_third(a, b);
        let q = koch_apex(a, b);
        let t = koch_two_thirds(a, b);
        spec_koch_points(a, p, (depth - 1) as nat) + spec_koch_points(p, q, (depth - 1) as nat)
            + spec_koch_points(q, t, (depth - 1) as nat) + spec_koch_points(
            t,
            b,
            (depth - 1) as nat,
        )
    }
}

/// Coordinate cap that holds at recursion depth `depth`: seeds start at
/// `SEED_CAP` and the cap doubles with each level of subdivision.
pub open spec fn koch_cap(depth: nat) -> int
    recommends
        depth <= MAX_DEPTH,
{
    (SEED_CAP as int) * (npow(2, (MAX_DEPTH - depth) as nat) as int)
}

proof fn lemma_koch_cap_bounds(depth: nat)
    requires
        depth <= 8,
    ensures
        0x4000_0000 <= koch_cap(depth) <= 0x40_0000_0000,
        depth >= 1 ==> koch_cap((depth - 1) as nat) == 2 * koch_cap(depth),
{
    assert(npow(2, 0) == 1 && npow(2, 1) == 2 && npow(2, 2) == 4 && npow(2, 3) == 8 && npow(2, 4)
        == 16 && npow(2, 5) == 32 && npow(2, 6) == 64 && npow(2, 7) == 128 && npow(2, 8)
        == 256) by {
        reveal_with_fuel(npow, 9);
    }
}

/// One subdivision step keeps all three new points within twice the cap
/// that bounded the segment's endpoints.
proof fn lemma_koch_children_within(a: (int, int), b: (int, int), cap: int)
    requires
        within(a, cap),
        within(b, cap),
        cap >= 64,
    ensures
        within(koch_one_third(a, b), 2 * cap),
        within(koch_two_thirds(a, b), 2 * cap),
        within(koch_apex(a, b), 2 * cap),
{
    let dxw = b.0 - a.0;
    let dyw = b.1 - a.1;
    lemma_mul_div_bounds(dxw, 3);
    lemma_mul_div_bounds(dyw, 3);
    lemma_mul_div_bounds(2 * dxw, 3);
    lemma_mul_div_bounds(2 * dyw, 3);
    let dx = dxw / 3;
    let dy = dyw / 3;
    // The one-third and two-thirds points lie (up to rounding) between
    // a and b, so they stay within cap + 1.
    assert(-cap - 1 <= a.0 + dx <= cap + 1);
    assert(-cap - 1 <= a.1 + dy <= cap + 1);
    assert(-cap - 1 <= a.0 + (2 * dxw) / 3 <= cap + 1);
    assert(-cap - 1 <= a.1 + (2 * dyw) / 3 <= cap + 1);
    // The rotated middle third adds at most about 0.92 * cap more.
    let rx = dx * (COS_60 as int) - dy * (SIN_60 as int);
    let ry = dx * (SIN_60 as int) + dy * (COS_60 as int);
    lemma_mul_div_bounds(rx, ROT_SCALE as int);
    lemma_mul_div_bounds(ry, ROT_SCALE as int);
    assert(3 * rx == (3 * dx) * 32768 - (3 * dy) * 56756) by (nonlinear_arith)
        requires
            rx == dx * 32768 - dy * 56756,
    ;
    assert(3 * ry == (3 * dx) * 56756 + (3 * dy) * 32768) by (nonlinear_arith)
        requires
            ry == dx * 56756 + dy * 32768,
    ;
    assert(-(2 * cap + 3) <= 3 * dx <= 2 * cap + 3);
    assert(-(2 * cap + 3) <= 3 * dy <= 2 * cap + 3);
    assert(-(2 * cap + 3) * 89524 <= 3 * rx <= (2 * cap + 3) * 89524);
    assert(-(2 * cap + 3) * 89524 <= 3 * ry <= (2 * cap + 3) * 89524);
    assert(-2 * cap <= a.0 + dx + rx / 65536 <= 2 * cap);
    assert(-2 * cap <= a.1 + dy + ry / 65536 <= 2 * cap);
}

fn koch_rec(start: Point, end: Point, depth: u32) -> (points: Vec<Point>)
    requires
        depth <= MAX_DEPTH,
        within(start@, koch_cap(depth as nat)),
        within(end@, koch_cap(depth as nat)),
    ensures
        points_view(points@) == spec_koch_points(start@, end@, depth as nat),
    decreases depth,
{
    proof {
        lemma_koch_cap_bounds(depth as nat);
    }
    if depth == 0 {
        let mut points: Vec<Point> = Vec::new();
        points.push(start);
        points.push(end);
        proof {
            assert(points_view(points@) =~= spec_koch_points(start@, end@, 0));
        }
        points
    } else {
        proof {
            lemma_koch_children_within(start@, end@, koch_cap(depth as nat));
        }
        let dx = end.x - start.x;
        let dy = end.y - start.y;
        let dx3 = div_floor(dx, 3);
        let dy3 = div_floor(dy, 3);
        let p = Point { x: start.x + dx3, y: start.y + dy3 };
        let t = Point { x: start.x + div_floor(2 * dx, 3), y: start.y + div_floor(2 * dy, 3) };
        let q = Point {
            x: p.x + div_floor(dx3 * COS_60 - dy3 * SIN_60, ROT_SCALE),
            y: p.y + div_floor(dx3 * SIN_60 + dy3 * COS_60, ROT_SCALE),
        };
        assert(p@ == koch_one_third(start@, end@));
        assert(t@ == koch_two_thirds(start@, end@));
        assert(q@ == koch_apex(start@, end@));
        let mut points = koch_rec(start, p, depth - 1);
        let mut part2 = koch_rec(p, q, depth - 1);
        let mut part3 = koch_rec(q, t, depth - 1);
        let mut part4 = koch_rec(t, end, depth - 1);
        points.append(&mut part2);
        points.append(&mut part3);
        points.append(&mut part4);
        proof {
            assert(points_view(points@) =~= spec_koch_points(start@, end@, depth as nat));
        }
        points
    }
}

/// Generates the Koch curve over segment (start, end): the ordered endpoint
/// sequence of its `4^depth` leaf segments, as `spec_koch_points` states.
pub fn koch_points(start: Point, end: Point, depth: u32) -> (points: Vec<Point>)
    requires
        depth <= MAX_DEPTH,
        within(start@, SEED_CAP as int),
        within(end@, SEED_CAP as int),
    ensures
        points_view(points@) == spec_koch_points(start@, end@, depth as nat),
{
    proof {
        lemma_koch_cap_bounds(depth as nat);
    }
    koch_rec(start, end, depth)
}

/// The Koch curve over (a, b) has exactly `2 * 4^depth` points: two per
/// leaf segment, and each subdivision multiplies the leaf count by four.
pub proof fn lemma_koch_point_count(a: (int, int), b: (int, int), depth: nat)
    ensures
        spec_koch_points(a, b, depth).len() == 2 * npow(4, depth),
    decreases depth,
{
    if depth == 0 {
    } else {
        let p = koch_one_third(a, b);
        let q = koch_apex(a, b);
        let t = koch_two_thirds(a, b);
        lemma_koch_point_count(a, p, (depth - 1) as nat);
        lemma_koch_point_count(p, q, (depth - 1) as nat);
        lemma_koch_point_count(q, t, (depth - 1) as nat);
        lemma_koch_point_count(t, b, (depth - 1) as nat);
    }
}

/// The first `count` sides of the radial Koch curve over the seed polygon
/// `seeds`: side `i` is the Koch curve from `seeds[i]` to the next seed,
/// wrapping around to `seeds[0]` after the last one.
pub open spec fn spec_radial_prefix(seeds: Seq<(int, int)>, depth: nat, count: nat) -> Seq<
    (int, int),
>
    recommends
        count <= seeds.len(),
    decreases count,
{
    if count == 0 {
        Seq::empty()
    } else {
        spec_radial_prefix(seeds, depth, (count - 1) as nat) + spec_koch_points(
            seeds[count - 1],
            seeds[(count as int) % (seeds.len() as int)],
            depth,
        )
    }
}

/// The radial Koch curve over the seed polygon `seeds`: one linear Koch
/// curve per side, all at the same depth, concatenated in order.
pub open spec fn spec_radial(seeds: Seq<(int, int)>, depth: nat) -> Seq<(int, int)> {
    spec_radial_prefix(seeds, depth, seeds.len())
}

/// Generates the radial Koch curve: for each consecutive pair of seed
/// points (wrapping around), the linear Koch curve at the given depth.
pub fn koch_radial(seeds: &Vec<Point>, depth: u32) -> (points: Vec<Point>)
    requires
        depth <= MAX_DEPTH,
        forall|i: int| 0 <= i < seeds@.len() ==> within((#[trigger] seeds@[i])@, SEED_CAP as int),
    ensures
        points_view(points@) == spec_radial(points_view(seeds@), depth as nat),
{
    let n = seeds.len();
    let mut points: Vec<Point> = Vec::new();
    proof {
        assert(points_view(points@) =~= spec_radial_prefix(points_view(seeds@), depth as nat, 0));
    }
    for i in 0..n
        invariant
            n == seeds@.len(),
            depth <= MAX_DEPTH,
            forall|j: int|
                0 <= j < seeds@.len() ==> within((#[trigger] seeds@[j])@, SEED_CAP as int),
            points_view(points@) == spec_radial_prefix(points_view(seeds@), depth as nat, i as nat),
    {
        let next = if i + 1 == n {
            0
        } else {
            i + 1
        };
        let mut side = koch_points(seeds[i], seeds[next], depth);
        points.append(&mut side);
        proof {
            let sv = points_view(seeds@);
            assert(next as int == (i + 1) % (sv.len() as int)) by {
                if i + 1 == n {
                    vstd::arithmetic::div_mod::lemma_mod_self_0(n as int);
                } else {
                    vstd::arithmetic::div_mod::lemma_small_mod((i + 1) as nat, n as nat);
                }
            }
            assert(points_view(points@) =~= spec_radial_prefix(sv, depth as nat, (i + 1) as nat));
        }
    }
    points
}

/// The radial Koch curve over `n` seeds at depth `d` has exactly
/// `n * (2 * 4^d)` points: `n` sides of `2 * 4^d` points each.
pub proof fn lemma_radial_count(seeds: Seq<(int, int)>, depth: nat)
    ensures
        spec_radial(seeds, depth).len() == seeds.len() * (2 * npow(4, depth)),
{
    lemma_radial_prefix_count(seeds, depth, seeds.len());
}

proof fn lemma_radial_prefix_count(seeds: Seq<(int, int)>, depth: nat, count: nat)
    requires
        count <= seeds.len(),
    ensures
        spec_radial_prefix(seeds, depth, count).len() == count * (2 * npow(4, depth)),
    decreases count,
{
    if count == 0 {
    } else {
        let l = 2 * npow(4, depth);
        let prev = spec_radial_prefix(seeds, depth, (count - 1) as nat);
        let side = spec_koch_points(
            seeds[count - 1],
            seeds[(count as int) % (seeds.len() as int)],
            depth,
        );
        lemma_radial_prefix_count(seeds, depth, (count - 1) as nat);
        lemma_koch_point_count(
            seeds[count - 1],
            seeds[(count as int) % (seeds.len() as int)],
            depth,
        );
        assert(spec_radial_prefix(seeds, depth, count).len() == prev.len() + side.len());
        assert(((count - 1) as nat) * l + l == count * l) by (nonlinear_arith)
            requires
                count >= 1,
        ;
    }
}

/// The radial Koch curve is `n` independent linear Koch curves: side `i`
/// occupies the `i`-th block of `2 * 4^depth` points, and that block is
/// exactly the linear Koch curve from `seeds[i]` to the next seed, at the
/// same depth and by the same rule.
pub proof fn lemma_radial_sides(seeds: Seq<(int, int)>, depth: nat, i: int)
    requires
        0 <= i < seeds.len(),
    ensures
        spec_radial(seeds, depth).subrange(
            i * (2 * npow(4, depth)),
            (i + 1) * (2 * npow(4, depth)),
        ) == spec_koch_points(seeds[i], seeds[(i + 1) % (seeds.len() as int)], depth),
{
    lemma_radial_prefix_sides(seeds, depth, seeds.len(), i);
}

proof fn lemma_radial_prefix_sides(seeds: Seq<(int, int)>, depth: nat, count: nat, i: int)
    requires
        0 <= i < count <= seeds.len(),
    ensures
        spec_radial_prefix(seeds, depth, count).subrange(
            i * (2 * npow(4, depth)),
            (i + 1) * (2 * npow(4, depth)),
        ) == spec_koch_points(seeds[i], seeds[(i + 1) % (seeds.len() as int)], depth),
    decreases count,
{
    let ll = 2 * npow(4, depth);
    lemma_npow_pos(4, depth);
    let side = spec_koch_points(seeds[count - 1], seeds[(count as int) % (seeds.len() as int)], depth);
    let prev = spec_radial_prefix(seeds, depth, (count - 1) as nat);
    lemma_radial_prefix_count(seeds, depth, (count - 1) as nat);
    lemma_koch_point_count(seeds[count - 1], seeds[(count as int) % (seeds.len() as int)], depth);
    if i == count - 1 {
        assert((prev + side).subrange(i * (ll as int), (i + 1) * (ll as int)) =~= side) by {
            assert(i * (ll as int) == prev.len() && (i + 1) * (ll as int) == prev.len()
                + side.len()) by (nonlinear_arith)
                requires
                    prev.len() == i * (ll as int) && side.len() == ll,
            ;
        }
    } else {
        lemma_radial_prefix_sides(seeds, depth, (count - 1) as nat, i);
        assert(0 <= i * (ll as int) && i * (ll as int) + ll == (i + 1) * (ll as int) && (i + 1) * (
        ll as int) <= prev.len()) by (nonlinear_arith)
            requires
                prev.len() == (count - 1) * (ll as int) && 0 <= i && i + 1 <= count - 1 && ll >= 1,
        ;
        assert((prev + side).subrange(i * (ll as int), (i + 1) * (ll as int)) =~= prev.subrange(
            i * (ll as int),
            (i + 1) * (ll as int),
        ));
    }
}

/// With at least one seed, the radial curve closes: its last point is the
/// first seed, since the final side wraps around to `seeds[0]`.
pub proof fn lemma_radial_closes(seeds: Seq<(int, int)>, depth: nat)
    requires
        seeds.len() >= 1,
    ensures
        spec_radial(seeds, depth).len() >= 2,
        spec_radial(seeds, depth).first() == seeds[0],
        spec_radial(seeds, depth).last() == seeds[0],
    decreases seeds.len(),
{
    let n = seeds.len();
    let side = spec_koch_points(seeds[n - 1], seeds[(n as int) % (seeds.len() as int)], depth);
    let prev = spec_radial_prefix(seeds, depth, (n - 1) as nat);
    lemma_koch_endpoints(seeds[n - 1], seeds[(n as int) % (seeds.len() as int)], depth);
    lemma_radial_prefix_first(seeds, depth, n);
    assert((n as int) % (n as int) == 0) by {
        vstd::arithmetic::div_mod::lemma_mod_self_0(n as int);
    }
    assert(spec_radial(seeds, depth) == prev + side);
    assert((prev + side).last() == side.last());
}

proof fn lemma_radial_prefix_first(seeds: Seq<(int, int)>, depth: nat, count: nat)
    requires
        1 <= count <= seeds.len(),
    ensures
        spec_radial_prefix(seeds, depth, count).len() >= 2,
        spec_radial_prefix(seeds, depth, count).first() == seeds[0],
    decreases count,
{
    let side = spec_koch_points(seeds[count - 1], seeds[(count as int) % (seeds.len() as int)], depth);
    let prev = spec_radial_prefix(seeds, depth, (count - 1) as nat);
    lemma_koch_endpoints(seeds[count - 1], seeds[(count as int) % (seeds.len() as int)], depth);
    if count == 1 {
        assert(prev.len() == 0);
        assert((prev + side).first() == side[0]);
    } else {
        lemma_radial_prefix_first(seeds, depth, (count - 1) as nat);
        assert((prev + side).first() == prev[0]);
    }
}

/// A Koch curve starts at its segment's first endpoint and ends at the
/// second, at every depth.
pub proof fn lemma_koch_endpoints(a: (int, int), b: (int, int), depth: nat)
    ensures
        spec_koch_points(a, b, depth).len() >= 2,
        spec_koch_points(a, b, depth).first() == a,
        spec_koch_points(a, b, depth).last() == b,
    decreases depth,
{
    if depth == 0 {
    } else {
        let p = koch_one_third(a, b);
        let q = koch_apex(a, b);
        let t = koch_two_thirds(a, b);
        lemma_koch_endpoints(a, p, (depth - 1) as nat);
        lemma_koch_endpoints(p, q, (depth - 1) as nat);
        lemma_koch_endpoints(q, t, (depth - 1) as nat);
        lemma_koch_endpoints(t, b, (depth - 1) as nat);
    }
}

} // verus!
