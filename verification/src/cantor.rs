//! Cantor set generation by recursive thirds.
//!
//! A horizontal segment of length `len` at row height `y` is drawn if its
//! length is at least `min_len`; one row below (`gap` further down the
//! axis), its left and right thirds recurse. Termination is size-bounded,
//! not depth-bounded: the length shrinks strictly at every row, so the
//! recursion is finite for any starting length, and a starting length
//! below the threshold draws nothing.

use vstd::prelude::*;
use crate::geom::{npow, div_floor, lemma_mul_div_bounds};

verus! {

/// A horizontal segment to draw: from `(x, y)` to `(x + len, y)`.
#[derive(Clone, Copy, Debug, PartialEq, Eq, Structural)]
pub struct CantorSeg {
    pub x: i64,
    pub y: i64,
    pub len: i64,
}

impl View for CantorSeg {
    type V = (int, int, int);

    open spec fn view(&self) -> (int, int, int) {
        (self.x as int, self.y as int, self.len as int)
    }
}

/// The `(x, y, len)` triples of a sequence of segments.
pub open spec fn segs_view(s: Seq<CantorSeg>) -> Seq<(int, int, int)> {
    s.map_values(|g: CantorSeg| g@)
}

/// The segments of the Cantor set construction, in recursion order:
/// the segment itself if it is long enough, then the rows below it,
/// left third first. Thirds round toward negative infinity.
pub open spec fn spec_cantor(x: int, y: int, len: int, min_len: int, gap: int) -> Seq<
    (int, int, int),
>
    decreases len,
{
    if min_len < 1 || len < min_len {
        Seq::empty()
    } else {
        seq![(x, y, len)] + spec_cantor(x, y + gap, len / 3, min_len, gap) + spec_cantor(
            x + (2 * len) / 3,
            y + gap,
            len / 3,
            min_len,
            gap,
        )
    }
}

/// How many rows the construction descends before the length falls below
/// the threshold.
pub open spec fn cantor_levels(len: int, min_len: int) -> nat
    decreases len,
{
    if min_len < 1 || len < min_len {
        0
    } else {
        1 + cantor_levels(len / 3, min_len)
    }
}

/// A length below `min_len * 3^k` is exhausted within `k` rows.
proof fn lemma_levels_bound(len: int, min_len: int, k: nat)
    requires
        1 <= min_len,
        len < min_len * npow(3, k),
    ensures
        cantor_levels(len, min_len) <= k,
    decreases k,
{
    if len < min_len {
    } else {
        assert(k >= 1) by {
            if k == 0 {
                assert(min_len * npow(3, 0) == min_len) by (nonlinear_arith)
                    requires
                        npow(3, 0) == 1,
                ;
            }
        }
        let p = npow(3, (k - 1) as nat);
        assert(min_len * npow(3, k) == 3 * (min_len * p)) by (nonlinear_arith)
            requires
                npow(3, k) == 3 * p,
        ;
        lemma_mul_div_bounds(len, 3);
        lemma_levels_bound(len / 3, min_len, (k - 1) as nat);
    }
}

fn cantor_rec(x: i64, y: i64, len: i64, min_len: i64, gap: i64) -> (segs: Vec<CantorSeg>)
    requires
        1 <= min_len,
        0 <= gap,
        -0x4000_0000_0000_0000 <= x,
        len <= 0x1000_0000_0000_0000,
        x + len <= 0x4000_0000_0000_0000,
        -0x4000_0000_0000_0000 <= y,
        y + gap * cantor_levels(len as int, min_len as int) <= 0x4000_0000_0000_0000,
    ensures
        segs_view(segs@) == spec_cantor(x as int, y as int, len as int, min_len as int, gap as int),
    decreases len,
{
    if len < min_len {
        let segs: Vec<CantorSeg> = Vec::new();
        proof {
            assert(segs_view(segs@) =~= spec_cantor(
                x as int,
                y as int,
                len as int,
                min_len as int,
                gap as int,
            ));
        }
        segs
    } else {
        proof {
            lemma_mul_div_bounds(len as int, 3);
            lemma_mul_div_bounds(2 * (len as int), 3);
            let lv = cantor_levels((len as int) / 3, min_len as int);
            assert(cantor_levels(len as int, min_len as int) == 1 + lv);
            assert(gap + gap * lv == gap * (1 + lv)) by (nonlinear_arith);
            assert(gap * lv >= 0) by (nonlinear_arith)
                requires
                    gap >= 0,
            ;
        }
        let mut segs: Vec<CantorSeg> = Vec::new();
        segs.push(CantorSeg { x, y, len });
        let row = y + gap;
        let third = div_floor(len, 3);
        let mut left = cantor_rec(x, row, third, min_len, gap);
        let mut right = cantor_rec(x + div_floor(2 * len, 3), row, third, min_len, gap);
        segs.append(&mut left);
        segs.append(&mut right);
        proof {
            assert(segs_view(segs@) =~= spec_cantor(
                x as int,
                y as int,
                len as int,
                min_len as int,
                gap as int,
            ));
        }
        segs
    }
}

/// Generates the segments of the Cantor set construction starting from the
/// segment of length `len` at `(x, y)`, descending `gap` per row, with
/// threshold `min_len`, as `spec_cantor` states. A starting length below
/// the threshold yields no segments; the recursion always terminates since
/// the length strictly shrinks at every row.
pub fn cantor_segments(x: i64, y: i64, len: i64, min_len: i64, gap: i64) -> (segs: Vec<CantorSeg>)
    requires
        1 <= min_len,
        0 <= gap <= 0x10_0000,
        -0x100_0000_0000 <= x <= 0x100_0000_0000,
        -0x100_0000_0000 <= y <= 0x100_0000_0000,
        len <= 0x100_0000_0000,
    ensures
        segs_view(segs@) == spec_cantor(x as int, y as int, len as int, min_len as int, gap as int),
        len < min_len ==> segs@.len() == 0,
{
    proof {
        assert(npow(3, 26) == 2541865828329) by {
            reveal_with_fuel(npow, 27);
        }
        assert((len as int) < (min_len as int) * npow(3, 26)) by (nonlinear_arith)
            requires
                min_len >= 1 && npow(3, 26) == 2541865828329 && len <= 0x100_0000_0000,
        ;
        lemma_levels_bound(len as int, min_len as int, 26);
        let lv = cantor_levels(len as int, min_len as int);
        assert(gap * lv <= 0x10_0000 * 26) by (nonlinear_arith)
            requires
                0 <= gap <= 0x10_0000 && 0 <= lv <= 26,
        ;
    }
    let segs = cantor_rec(x, y, len, min_len, gap);
    proof {
        if len < min_len {
            assert(spec_cantor(x as int, y as int, len as int, min_len as int, gap as int)
                =~= Seq::<(int, int, int)>::empty());
            assert(segs_view(segs@).len() == segs@.len());
        }
    }
    segs
}

} // verus!
