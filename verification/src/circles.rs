//! Recursive circle packing.
//!
//! A circle whose radius is above the minimum-radius threshold draws
//! itself, unfilled, and spawns four children of half its radius, offset
//! by half its radius in the four cardinal directions; a circle at or
//! below the threshold draws nothing. Termination is size-bounded: the
//! radius halves at every generation.

use vstd::prelude::*;
use crate::geom::{div_floor, lemma_mul_div_bounds};

verus! {

/// An unfilled circle to draw.
#[derive(Clone, Copy, Debug, PartialEq, Eq, Structural)]
pub struct Circle {
    pub x: i64,
    pub y: i64,
    pub radius: i64,
}

impl View for Circle {
    type V = (int, int, int);

    open spec fn view(&self) -> (int, int, int) {
        (self.x as int, self.y as int, self.radius as int)
    }
}

/// The `(x, y, radius)` triples of a sequence of circles.
pub open spec fn circles_view(s: Seq<Circle>) -> Seq<(int, int, int)> {
    s.map_values(|c: Circle| c@)
}

/// `r` clamped below at zero.
pub open spec fn pos_part(r: int) -> int {
    if r < 0 {
        0
    } else {
        r
    }
}

/// The circles of the packing rooted at `(x, y, r)`, in recursion order:
/// nothing if `r` is at or below the threshold; otherwise the circle
/// itself, then the packings of its four half-radius children to the
/// right, left, top and bottom, each offset by half the radius. Halves
/// round toward negative infinity.
pub open spec fn spec_pack(x: int, y: int, r: int, min_r: int) -> Seq<(int, int, int)>
    decreases r,
{
    if min_r < 1 || r <= min_r {
        Seq::empty()
    } else {
        let h = r / 2;
        seq![(x, y, r)] + spec_pack(x + h, y, h, min_r) + spec_pack(x - h, y, h, min_r)
            + spec_pack(x, y + h, h, min_r) + spec_pack(x, y - h, h, min_r)
    }
}

fn pack_rec(x: i64, y: i64, r: i64, min_r: i64) -> (circles: Vec<Circle>)
    requires
        1 <= min_r,
        -0x4000_0000_0000_0000 <= x - 2 * pos_part(r as int),
        x + 2 * pos_part(r as int) <= 0x4000_0000_0000_0000,
        -0x4000_0000_0000_0000 <= y - 2 * pos_part(r as int),
        y + 2 * pos_part(r as int) <= 0x4000_0000_0000_0000,
    ensures
        circles_view(circles@) == spec_pack(x as int, y as int, r as int, min_r as int),
    decreases r,
{
    let mut circles: Vec<Circle> = Vec::new();
    if r > min_r {
        proof {
            lemma_mul_div_bounds(r as int, 2);
        }
        circles.push(Circle { x, y, radius: r });
        let h = div_floor(r, 2);
        let mut right = pack_rec(x + h, y, h, min_r);
        let mut left = pack_rec(x - h, y, h, min_r);
        let mut above = pack_rec(x, y + h, h, min_r);
        let mut below = pack_rec(x, y - h, h, min_r);
        circles.append(&mut right);
        circles.append(&mut left);
        circles.append(&mut above);
        circles.append(&mut below);
    }
    proof {
        assert(circles_view(circles@) =~= spec_pack(x as int, y as int, r as int, min_r as int));
    }
    circles
}

/// Generates the packing rooted at `(x, y, radius)`, as `spec_pack`
/// states: a circle above `min_radius` draws itself and spawns four
/// half-radius children in the cardinal directions; one at or below the
/// threshold draws nothing.
pub fn pack_circles(x: i64, y: i64, radius: i64, min_radius: i64) -> (circles: Vec<Circle>)
    requires
        1 <= min_radius,
        -0x100_0000_0000 <= x <= 0x100_0000_0000,
        -0x100_0000_0000 <= y <= 0x100_0000_0000,
        radius <= 0x100_0000_0000,
    ensures
        circles_view(circles@) == spec_pack(x as int, y as int, radius as int, min_radius as int),
        radius <= min_radius ==> circles@.len() == 0,
        radius > min_radius ==> (circles@.len() >= 1 && circles@[0]@ == (
            x as int,
            y as int,
            radius as int,
        )),
{
    let circles = pack_rec(x, y, radius, min_radius);
    proof {
        let v = circles_view(circles@);
        let s = spec_pack(x as int, y as int, radius as int, min_radius as int);
        assert(v.len() == circles@.len());
        if radius > min_radius {
            assert(s[0] == seq![(x as int, y as int, radius as int)][0]);
            assert(v[0] == circles@[0]@);
        }
    }
    circles
}

} // verus!
