//! Winding number of a path around a sample point, by ray casting.
//!
//! A horizontal test ray is shot from the sample point toward negative `x`
//! (from `p` to `p - (SUBPIXEL, 0)`, one pixel long; only its direction
//! matters). Every segment that the forward ray crosses within its finite
//! extent contributes `+1` when it trends upward in `y` and `-1` otherwise;
//! the sum over the path is the winding number. Endpoint containment is
//! inclusive (`u` in `[0, 1]`), so a crossing shared by two adjacent
//! segments meeting exactly at the ray's height can be counted once per
//! segment; that boundary ambiguity is deliberate, not corrected here.

use vstd::prelude::*;

use crate::geom::COORD_LIMIT;
use crate::geom::SUBPIXEL;
use crate::geom::Segment;
use crate::geom::Vector2;
use crate::geom::wf_path;
use crate::intersect::det_spec;
use crate::intersect::is_solution;
use crate::intersect::t_num_spec;
use crate::intersect::u_num_spec;

verus! {

/// The horizontal test ray cast from `p`: one pixel toward negative `x`.
pub open spec fn ray_of(p: Vector2) -> Segment {
    Segment { start: p, end: Vector2 { x: (p.x - SUBPIXEL) as i64, y: p.y } }
}

/// Determinant of the (ray, segment) system, simplified: `SUBPIXEL * dir_y`.
pub open spec fn ray_det(s: Segment) -> int {
    SUBPIXEL * s.dir_y()
}

/// Numerator of the ray parameter `t` for the (ray, segment) system.
pub open spec fn ray_t_num(s: Segment, p: Vector2) -> int {
    -s.dir_y() * (s.start.x - p.x) + s.dir_x() * (s.start.y - p.y)
}

/// Numerator of the segment parameter `u` for the (ray, segment) system.
pub open spec fn ray_u_num(s: Segment, p: Vector2) -> int {
    SUBPIXEL * (p.y - s.start.y)
}

/// The test ray from `p` crosses segment `s`: the lines intersect
/// (`ray_det != 0`), the crossing lies on the forward ray (`t >= 0`), and
/// it lies within the finite segment (`u` in `[0, 1]`). The parameter
/// conditions are stated over the numerators, with the comparisons flipped
/// when the determinant is negative.
pub open spec fn crossing_accepted(s: Segment, p: Vector2) -> bool {
    let d = ray_det(s);
    if d > 0 {
        &&& ray_t_num(s, p) >= 0
        &&& 0 <= ray_u_num(s, p) <= d
    } else if d < 0 {
        &&& ray_t_num(s, p) <= 0
        &&& d <= ray_u_num(s, p) <= 0
    } else {
        false
    }
}

/// Signed contribution of one segment: `+1` for an accepted crossing of a
/// segment trending upward in `y` (`end.y >= start.y`), `-1` for one
/// trending downward, `0` when the ray misses the segment.
pub open spec fn crossing_sign(s: Segment, p: Vector2) -> int {
    if crossing_accepted(s, p) {
        if s.end.y >= s.start.y {
            1
        } else {
            -1
        }
    } else {
        0
    }
}

/// Winding number of `path` around `p`: the sum of the signed crossings.
pub open spec fn winding_spec(path: Seq<Segment>, p: Vector2) -> int
    decreases path.len(),
{
    if path.len() == 0 {
        0
    } else {
        winding_spec(path.drop_last(), p) + crossing_sign(path.last(), p)
    }
}

/// The general Cramer quantities of the (ray, segment) system reduce to the
/// specialized `ray_*` forms above.
proof fn lemma_ray_formulas(p: Vector2, s: Segment)
    requires
        p.wf(),
    ensures
        det_spec(ray_of(p), s) == ray_det(s),
        t_num_spec(ray_of(p), s) == ray_t_num(s, p),
        u_num_spec(ray_of(p), s) == ray_u_num(s, p),
{
    let ray = ray_of(p);
    assert(ray.end.x == p.x - SUBPIXEL);
    assert(ray.dir_x() == -SUBPIXEL && ray.dir_y() == 0);
    assert((-SUBPIXEL) * (-s.dir_y()) - (-s.dir_x()) * 0 == SUBPIXEL * s.dir_y())
        by (nonlinear_arith);
    assert(-0 * (s.start.x - p.x) + (-SUBPIXEL) * (s.start.y - p.y)
        == SUBPIXEL * (p.y - s.start.y)) by (nonlinear_arith);
}

/// Winding number of `path` around the sample point `p`, by casting a
/// horizontal ray from `p` toward negative `x` and summing the signed
/// crossings of the path's segments.
pub fn compute_winding(path: &Vec<Segment>, p: Vector2) -> (w: i64)
    requires
        wf_path(path@),
        p.wf(),
        path@.len() <= 0x7fff_ffff_ffff_ffff,
    ensures
        w as int == winding_spec(path@, p),
{
    let ray = Segment { start: p, end: Vector2 { x: p.x - SUBPIXEL, y: p.y } };
    assert(ray == ray_of(p));

    let mut winding: i64 = 0;
    let mut i: usize = 0;
    while i < path.len()
        invariant
            wf_path(path@),
            p.wf(),
            path@.len() <= 0x7fff_ffff_ffff_ffff,
            i <= path@.len(),
            ray == ray_of(p),
            winding as int == winding_spec(path@.take(i as int), p),
            -(i as int) <= winding as int <= i as int,
        decreases path@.len() - i,
    {
        let line = path[i];
        proof {
            assert(path@[i as int].wf());
            lemma_ray_formulas(p, line);
        }
        if let Some((t, u)) = ray.intersect(&line) {
            let ray_hit: bool = t.nonneg();
            let segment_hit: bool = u.in_unit_interval();
            if ray_hit && segment_hit {
                let delta: i64 = if line.end.y >= line.start.y {
                    1
                } else {
                    -1
                };
                assert(crossing_sign(line, p) == delta);
                winding = winding + delta;
            } else {
                assert(!crossing_accepted(line, p));
            }
        } else {
            assert(!crossing_accepted(line, p));
        }
        proof {
            assert(path@.take(i as int + 1).drop_last() =~= path@.take(i as int));
            assert(path@.take(i as int + 1).last() == path@[i as int]);
        }
        i = i + 1;
    }
    proof {
        assert(path@.take(path@.len() as int) =~= path@);
    }
    winding
}

/// Appending a zero-length segment never changes the winding number: a
/// degenerate segment has a zero direction, so the intersection test
/// against it reports no crossing at every sample point.
pub proof fn lemma_degenerate_appended(path: Seq<Segment>, s: Segment, p: Vector2)
    requires
        s.is_degenerate(),
    ensures
        winding_spec(path.push(s), p) == winding_spec(path, p),
{
    assert(s.dir_y() == 0);
    assert(ray_det(s) == 0);
    assert(crossing_sign(s, p) == 0);
    assert(path.push(s).drop_last() =~= path);
    assert(path.push(s).last() == s);
}

} // verus!
