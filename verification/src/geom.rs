//! Fixed-point plane geometry shared by the fractal generators.

use vstd::prelude::*;

verus! {

/// A 2D point with fixed-point integer coordinates.
#[derive(Clone, Copy, Debug, PartialEq, Eq, Structural)]
pub struct Point {
    pub x: i64,
    pub y: i64,
}

impl View for Point {
    type V = (int, int);

    open spec fn view(&self) -> (int, int) {
        (self.x as int, self.y as int)
    }
}

impl Point {
    /// Builds the point `(x, y)`.
    pub fn new(x: i64, y: i64) -> (p: Point)
        ensures
            p@ == (x as int, y as int),
    {
        Point { x, y }
    }
}

/// Both coordinates of `p` lie in `[-cap, cap]`.
pub open spec fn within(p: (int, int), cap: int) -> bool {
    &&& -cap <= p.0 <= cap
    &&& -cap <= p.1 <= cap
}

/// The coordinate pairs of a sequence of points.
pub open spec fn points_view(s: Seq<Point>) -> Seq<(int, int)> {
    s.map_values(|p: Point| p@)
}

/// For a positive divisor, `d * (v / d)` lands in the half-open
/// interval `(v - d, v]`; the workhorse for bounding floor divisions.
pub proof fn lemma_mul_div_bounds(v: int, d: int)
    requires
        1 <= d,
    ensures
        v - d < d * (v / d) <= v,
{
    vstd::arithmetic::div_mod::lemma_fundamental_div_mod(v, d);
    vstd::arithmetic::div_mod::lemma_mod_bound(v, d);
}

/// `base` raised to the power `exp`.
pub open spec fn npow(base: nat, exp: nat) -> nat
    decreases exp,
{
    if exp == 0 {
        1
    } else {
        base * npow(base, (exp - 1) as nat)
    }
}

/// Powers of a positive base are positive.
pub proof fn lemma_npow_pos(base: nat, exp: nat)
    requires
        base >= 1,
    ensures
        npow(base, exp) >= 1,
    decreases exp,
{
    if exp > 0 {
        lemma_npow_pos(base, (exp - 1) as nat);
        assert(base * npow(base, (exp - 1) as nat) >= 1) by (nonlinear_arith)
            requires
                base >= 1 && npow(base, (exp - 1) as nat) >= 1,
        ;
    }
}

/// Floor division of `n` by a positive divisor `d`. It agrees with the
/// Euclidean `/` of specifications, which rounds toward negative infinity
/// when the divisor is positive.
pub fn div_floor(n: i64, d: i64) -> (q: i64)
    requires
        1 <= d <= 100_000,
        i64::MIN < n,
    ensures
        q == n as int / d as int,
{
    if n >= 0 {
        let qu: u64 = (n as u64) / (d as u64);
        proof {
            vstd::arithmetic::div_mod::lemma_div_nonincreasing(n as int, d as int);
        }
        qu as i64
    } else {
        let m: u64 = (-n) as u64;
        let qu: u64 = (m + (d as u64) - 1) / (d as u64);
        proof {
            lemma_ceil_div_of_neg(n as int, d as int);
        }
        -(qu as i64)
    }
}

/// For `n < 0 < d`, the floor quotient `n / d` is the negated ceiling
/// quotient of `-n` by `d`, computed as `(-n + d - 1) / d`.
proof fn lemma_ceil_div_of_neg(n: int, d: int)
    requires
        n < 0,
        1 <= d,
    ensures
        ((-n) + d - 1) / d <= -n,
        n / d == -(((-n) + d - 1) / d),
{
    let m = -n;
    let a = m / d;
    let b = m % d;
    vstd::arithmetic::div_mod::lemma_fundamental_div_mod(m, d);
    assert(m == d * a + b);
    assert(0 <= b < d) by {
        vstd::arithmetic::div_mod::lemma_mod_bound(m, d);
    }
    assert(a >= 0) by {
        vstd::arithmetic::div_mod::lemma_div_pos_is_pos(m, d);
    }
    if b == 0 {
        // m + d - 1 = a * d + (d - 1), so the ceiling quotient is a.
        assert(m + d - 1 == a * d + (d - 1)) by {
            assert(d * a == a * d) by (nonlinear_arith);
        }
        vstd::arithmetic::div_mod::lemma_fundamental_div_mod_converse_div(m + d - 1, d, a, d - 1);
        // n = (-a) * d + 0, so n / d == -a.
        assert(n == (-a) * d + 0) by {
            assert(d * a == a * d && (-a) * d == -(a * d)) by (nonlinear_arith);
        }
        vstd::arithmetic::div_mod::lemma_fundamental_div_mod_converse_div(n, d, -a, 0);
        assert(a <= m) by {
            vstd::arithmetic::div_mod::lemma_div_nonincreasing(m, d);
        }
    } else {
        // m + d - 1 = (a + 1) * d + (b - 1), so the ceiling quotient is a + 1.
        assert(m + d - 1 == (a + 1) * d + (b - 1)) by {
            assert(d * a == a * d && (a + 1) * d == a * d + d) by (nonlinear_arith);
        }
        vstd::arithmetic::div_mod::lemma_fundamental_div_mod_converse_div(
            m + d - 1,
            d,
            a + 1,
            b - 1,
        );
        // n = (-(a + 1)) * d + (d - b), so n / d == -(a + 1).
        assert(n == (-(a + 1)) * d + (d - b)) by {
            assert(d * a == a * d && (-(a + 1)) * d == -(a * d) - d) by (nonlinear_arith);
        }
        vstd::arithmetic::div_mod::lemma_fundamental_div_mod_converse_div(n, d, -(a + 1), d - b);
        assert(a + 1 <= m) by {
            assert(d * a == a * d) by (nonlinear_arith);
            assert(a * d + b == m);
            if a + 1 > m {
                assert(a >= m);
                assert(a * d >= a) by (nonlinear_arith)
                    requires a >= 0 && d >= 1;
                assert(b >= 1);
                assert(false);
            }
        }
    }
}

} // verus!
