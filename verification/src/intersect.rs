//! Parametric intersection of two directed lines.
//!
//! Two lines are written as `a_p + t * a_d` and `b_p + u * b_d`; the solver
//! inverts the 2x2 system for `(t, u)` by Cramer's rule. A zero determinant
//! means the lines are parallel (or one is degenerate): that is a normal
//! "no intersection" outcome, not an error.

use vstd::prelude::*;

use crate::geom::COORD_LIMIT;
use crate::geom::Segment;
use crate::ratio::Ratio;

verus! {

/// Determinant of the 2x2 system for segments `a` and `b`:
/// `a_d.x * (-b_d.y) - (-b_d.x) * a_d.y`.
pub open spec fn det_spec(a: Segment, b: Segment) -> int {
    a.dir_x() * (-b.dir_y()) - (-b.dir_x()) * a.dir_y()
}

/// Numerator of the parameter `t` along `a`, before division by the
/// determinant: `-b_d.y * (b_p.x - a_p.x) + b_d.x * (b_p.y - a_p.y)`.
pub open spec fn t_num_spec(a: Segment, b: Segment) -> int {
    -b.dir_y() * (b.start.x - a.start.x) + b.dir_x() * (b.start.y - a.start.y)
}

/// Numerator of the parameter `u` along `b`, before division by the
/// determinant: `-a_d.y * (b_p.x - a_p.x) + a_d.x * (b_p.y - a_p.y)`.
pub open spec fn u_num_spec(a: Segment, b: Segment) -> int {
    -a.dir_y() * (b.start.x - a.start.x) + a.dir_x() * (b.start.y - a.start.y)
}

/// The returned ratios represent exactly `t == t_num_spec / det` and
/// `u == u_num_spec / det`: both share the positive denominator `|det|`,
/// with the numerators negated when the determinant is negative.
pub open spec fn is_solution(t: Ratio, u: Ratio, a: Segment, b: Segment) -> bool {
    let d = det_spec(a, b);
    &&& t.den == if d > 0 { d } else { -d }
    &&& u.den == t.den
    &&& t.num == if d > 0 { t_num_spec(a, b) } else { -t_num_spec(a, b) }
    &&& u.num == if d > 0 { u_num_spec(a, b) } else { -u_num_spec(a, b) }
}

proof fn lemma_mul_bound(a: int, b: int, m: int, n: int)
    by (nonlinear_arith)
    requires
        -m <= a <= m,
        -n <= b <= n,
        0 <= m,
        0 <= n,
    ensures
        -(m * n) <= a * b <= m * n,
{
}

impl Segment {
    /// Solves `self.start + t * self.direction() == other.start + u *
    /// other.direction()` for the line parameters `(t, u)`. Returns `None`
    /// exactly when the determinant of the system is zero, which covers
    /// parallel and collinear lines and any degenerate segment; values of
    /// `t` and `u` are unconstrained reals, so callers decide segment
    /// containment (`u` in `[0, 1]`) and ray-forwardness (`t >= 0`).
    pub fn intersect(&self, other: &Segment) -> (r: Option<(Ratio, Ratio)>)
        requires
            self.in_bounds(2 * COORD_LIMIT as int),
            other.in_bounds(2 * COORD_LIMIT as int),
        ensures
            (r is None) == (det_spec(*self, *other) == 0),
            r matches Some((t, u)) ==> {
                &&& is_solution(t, u, *self, *other)
                &&& t.wf()
                &&& u.wf()
            },
    {
        let a_p = self.start;
        let a_d = self.direction();
        let b_p = other.start;
        let b_d = other.direction();

        let adx: i128 = a_d.x as i128;
        let ady: i128 = a_d.y as i128;
        let bdx: i128 = b_d.x as i128;
        let bdy: i128 = b_d.y as i128;

        proof {
            let m = 4 * COORD_LIMIT as int;
            lemma_mul_bound(adx as int, -bdy as int, m, m);
            lemma_mul_bound(-bdx as int, ady as int, m, m);
        }
        let det: i128 = adx * (-bdy) - (-bdx) * ady;
        if det == 0 {
            return None;
        }

        let cx: i128 = (b_p.x as i128) - (a_p.x as i128);
        let cy: i128 = (b_p.y as i128) - (a_p.y as i128);
        proof {
            let m = 4 * COORD_LIMIT as int;
            lemma_mul_bound(-bdy as int, cx as int, m, m);
            lemma_mul_bound(bdx as int, cy as int, m, m);
            lemma_mul_bound(-ady as int, cx as int, m, m);
            lemma_mul_bound(adx as int, cy as int, m, m);
        }
        let t_num: i128 = -bdy * cx + bdx * cy;
        let u_num: i128 = -ady * cx + adx * cy;

        if det > 0 {
            Some((Ratio { num: t_num, den: det }, Ratio { num: u_num, den: det }))
        } else {
            Some((Ratio { num: -t_num, den: -det }, Ratio { num: -u_num, den: -det }))
        }
    }
}

/// Parallel, collinear, or degenerate input always yields "no intersection":
/// whenever the two direction vectors have a zero cross product - which
/// holds in particular when either segment has zero length - the determinant
/// is zero, so `intersect` returns `None`.
pub proof fn lemma_parallel_or_degenerate_no_intersection(a: Segment, b: Segment)
    requires
        ({
            ||| a.dir_x() * b.dir_y() - a.dir_y() * b.dir_x() == 0
            ||| a.is_degenerate()
            ||| b.is_degenerate()
        }),
    ensures
        det_spec(a, b) == 0,
{
    assert(det_spec(a, b) == -(a.dir_x() * b.dir_y() - a.dir_y() * b.dir_x()))
        by (nonlinear_arith);
    if a.is_degenerate() {
        assert(a.dir_x() == 0 && a.dir_y() == 0);
        assert(a.dir_x() * b.dir_y() == 0) by (nonlinear_arith)
            requires
                a.dir_x() == 0,
        ;
        assert(a.dir_y() * b.dir_x() == 0) by (nonlinear_arith)
            requires
                a.dir_y() == 0,
        ;
    } else if b.is_degenerate() {
        assert(b.dir_x() == 0 && b.dir_y() == 0);
        assert(a.dir_x() * b.dir_y() == 0) by (nonlinear_arith)
            requires
                b.dir_y() == 0,
        ;
        assert(a.dir_y() * b.dir_x() == 0) by (nonlinear_arith)
            requires
                b.dir_x() == 0,
        ;
    }
}

} // verus!
