//! Sierpinski triangle generation by recursive midpoint subdivision.
//!
//! A triangle (start, top, end) at depth 0 is emitted as a leaf; at depth
//! d > 0 it splits into the three corner triangles defined by the midpoints
//! of its sides, each recursed at depth d - 1. Midpoints round toward
//! negative infinity, so no coordinate ever leaves the seed's range.

use vstd::prelude::*;
use crate::geom::{Point, within, npow, div_floor, lemma_mul_div_bounds};
use crate::koch::{MAX_DEPTH, SEED_CAP};

verus! {

/// A filled triangle to render, given by its three corners.
#[derive(Clone, Copy, Debug, PartialEq, Eq, Structural)]
pub struct Tri {
    pub a: Point,
    pub b: Point,
    pub c: Point,
}

impl View for Tri {
    type V = ((int, int), (int, int), (int, int));

    open spec fn view(&self) -> ((int, int), (int, int), (int, int)) {
        (self.a@, self.b@, self.c@)
    }
}

/// The corner triples of a sequence of triangles.
pub open spec fn tris_view(s: Seq<Tri>) -> Seq<((int, int), (int, int), (int, int))> {
    s.map_values(|t: Tri| t@)
}

/// The midpoint of `p` and `q`, each coordinate rounded toward negative
/// infinity.
pub open spec fn midpoint(p: (int, int), q: (int, int)) -> (int, int) {
    ((p.0 + q.0) / 2, (p.1 + q.1) / 2)
}

/// The leaf triangles of the Sierpinski subdivision of (start, top, end),
/// in recursion order. A leaf records its corners as (start, end, top).
pub open spec fn spec_sierpinski(
    start: (int, int),
    top: (int, int),
    end: (int, int),
    depth: nat,
) -> Seq<((int, int), (int, int), (int, int))>
    decreases depth,
{
    if depth == 0 {
        seq![(start, end, top)]
    } else {
        let mid_start_top = midpoint(start, top);
        let mid_top_end = midpoint(top, end);
        let mid_end_start = midpoint(end, start);
        spec_sierpinski(start, mid_start_top, mid_end_start, (depth - 1) as nat)
            + spec_sierpinski(mid_start_top, top, mid_top_end, (depth - 1) as nat)
            + spec_sierpinski(mid_end_start, mid_top_end, end, (depth - 1) as nat)
    }
}

/// Midpoints never leave the coordinate range of their endpoints.
proof fn lemma_midpoint_within(p: (int, int), q: (int, int), cap: int)
    requires
        within(p, cap),
        within(q, cap),
        cap >= 0,
    ensures
        within(midpoint(p, q), cap),
{
    lemma_mul_div_bounds(p.0 + q.0, 2);
    lemma_mul_div_bounds(p.1 + q.1, 2);
}

fn mid_point(p: Point, q: Point) -> (m: Point)
    requires
        within(p@, SEED_CAP as int),
        within(q@, SEED_CAP as int),
    ensures
        m@ == midpoint(p@, q@),
        within(m@, SEED_CAP as int),
{
    proof {
        lemma_midpoint_within(p@, q@, SEED_CAP as int);
    }
    Point { x: div_floor(p.x + q.x, 2), y: div_floor(p.y + q.y, 2) }
}

/// Generates the leaf triangles of the Sierpinski subdivision of the
/// triangle (start, top, end), as `spec_sierpinski` states.
pub fn sierpinski_triangles(start: Point, top: Point, end: Point, depth: u32) -> (tris: Vec<Tri>)
    requires
        depth <= MAX_DEPTH,
        within(start@, SEED_CAP as int),
        within(top@, SEED_CAP as int),
        within(end@, SEED_CAP as int),
    ensures
        tris_view(tris@) == spec_sierpinski(start@, top@, end@, depth as nat),
    decreases depth,
{
    if depth == 0 {
        let mut tris: Vec<Tri> = Vec::new();
        tris.push(Tri { a: start, b: end, c: top });
        proof {
            assert(tris_view(tris@) =~= spec_sierpinski(start@, top@, end@, 0));
        }
        tris
    } else {
        let mid_start_top = mid_point(start, top);
        let mid_top_end = mid_point(top, end);
        let mid_end_start = mid_point(end, start);
        let mut tris = sierpinski_triangles(start, mid_start_top, mid_end_start, depth - 1);
        let mut part2 = sierpinski_triangles(mid_start_top, top, mid_top_end, depth - 1);
        let mut part3 = sierpinski_triangles(mid_end_start, mid_top_end, end, depth - 1);
        tris.append(&mut part2);
        tris.append(&mut part3);
        proof {
            assert(tris_view(tris@) =~= spec_sierpinski(start@, top@, end@, depth as nat));
        }
        tris
    }
}

/// The Sierpinski subdivision at depth d has exactly `3^d` leaf triangles.
pub proof fn lemma_sierpinski_count(start: (int, int), top: (int, int), end: (int, int), depth: nat)
    ensures
        spec_sierpinski(start, top, end, depth).len() == npow(3, depth),
    decreases depth,
{
    if depth == 0 {
    } else {
        let mid_start_top = midpoint(start, top);
        let mid_top_end = midpoint(top, end);
        let mid_end_start = midpoint(end, start);
        lemma_sierpinski_count(start, mid_start_top, mid_end_start, (depth - 1) as nat);
        lemma_sierpinski_count(mid_start_top, top, mid_top_end, (depth - 1) as nat);
        lemma_sierpinski_count(mid_end_start, mid_top_end, end, (depth - 1) as nat);
    }
}

} // verus!
