//! Geometric laws of the rasterizer, stated and proved over the winding
//! and fill specifications.

use vstd::prelude::*;

use crate::geom::COORD_LIMIT;
use crate::geom::SUBPIXEL;
use crate::geom::Segment;
use crate::geom::Vector2;
use crate::raster::FillRule;
use crate::raster::Grid;
use crate::raster::grid_matches;
use crate::raster::pixel_center;
use crate::raster::rule_fills;
use crate::stroke::expand_path;
use crate::stroke::expand_quad;
use crate::stroke::is_sqrt;
use crate::stroke::lemma_sqrt_unique;
use crate::stroke::offset_component;
use crate::stroke::sqrt_spec;
use crate::winding::crossing_accepted;
use crate::winding::crossing_sign;
use crate::winding::ray_det;
use crate::winding::ray_t_num;
use crate::winding::ray_u_num;
use crate::winding::winding_spec;

verus! {

/// The four edges of an axis-aligned rectangle, traversed
/// `(x0,y0) -> (x1,y0) -> (x1,y1) -> (x0,y1) -> (x0,y0)`.
pub open spec fn square_path(x0: i64, y0: i64, x1: i64, y1: i64) -> Seq<Segment> {
    let c00 = Vector2 { x: x0, y: y0 };
    let c10 = Vector2 { x: x1, y: y0 };
    let c11 = Vector2 { x: x1, y: y1 };
    let c01 = Vector2 { x: x0, y: y1 };
    seq![
        Segment { start: c00, end: c10 },
        Segment { start: c10, end: c11 },
        Segment { start: c11, end: c01 },
        Segment { start: c01, end: c00 },
    ]
}

proof fn lemma_pos_factor_sign(a: int, b: int)
    by (nonlinear_arith)
    requires
        a > 0,
    ensures
        (a * b >= 0) == (b >= 0),
        (a * b <= 0) == (b <= 0),
{
}

/// The test ray from `p` crosses the vertical edge from `(xe, ya)` to
/// `(xe, yb)` exactly when the edge is not behind the ray (`p.x >= xe`)
/// and `p.y` lies within the edge's vertical extent, inclusive.
proof fn lemma_vertical_edge(xe: i64, ya: i64, yb: i64, p: Vector2)
    requires
        ya != yb,
    ensures
        ({
            let s = Segment {
                start: Vector2 { x: xe, y: ya },
                end: Vector2 { x: xe, y: yb },
            };
            crossing_accepted(s, p) == (p.x >= xe && if ya <= yb {
                ya <= p.y <= yb
            } else {
                yb <= p.y <= ya
            })
        }),
{
    let s = Segment { start: Vector2 { x: xe, y: ya }, end: Vector2 { x: xe, y: yb } };
    let dd: int = yb - ya;
    assert(ray_t_num(s, p) == -dd * (xe - p.x) + (xe - xe) * (ya - p.y));
    assert(-dd * (xe - p.x) + (xe - xe) * (ya - p.y) == dd * (p.x - xe)) by (nonlinear_arith);
    if dd > 0 {
        lemma_pos_factor_sign(dd, p.x - xe);
    } else {
        lemma_pos_factor_sign(-dd, p.x - xe);
        assert(-dd * (p.x - xe) == -(dd * (p.x - xe))) by (nonlinear_arith);
    }
}

/// Winding number of a four-segment contour, written out as the sum of
/// the four signed crossings.
proof fn lemma_winding_four(q: Seq<Segment>, p: Vector2)
    requires
        q.len() == 4,
    ensures
        winding_spec(q, p) == crossing_sign(q[0], p) + crossing_sign(q[1], p) + crossing_sign(
            q[2],
            p,
        ) + crossing_sign(q[3], p),
{
    let s0 = q[0];
    let s1 = q[1];
    let s2 = q[2];
    let s3 = q[3];
    assert(q.drop_last() =~= seq![s0, s1, s2]);
    assert(seq![s0, s1, s2].drop_last() =~= seq![s0, s1]);
    assert(seq![s0, s1].drop_last() =~= seq![s0]);
    assert(seq![s0].drop_last() =~= Seq::<Segment>::empty());
    assert(q.last() == s3 && seq![s0, s1, s2].last() == s2 && seq![s0, s1].last() == s1
        && seq![s0].last() == s0);
    assert(winding_spec(Seq::<Segment>::empty(), p) == 0);
    assert(winding_spec(seq![s0], p) == crossing_sign(s0, p));
    assert(winding_spec(seq![s0, s1], p) == winding_spec(seq![s0], p) + crossing_sign(s1, p));
    assert(winding_spec(seq![s0, s1, s2], p) == winding_spec(seq![s0, s1], p) + crossing_sign(
        s2,
        p,
    ));
    assert(winding_spec(q, p) == winding_spec(seq![s0, s1, s2], p) + crossing_sign(s3, p));
}

/// Winding number of a simple axis-aligned square contour, at every
/// sample point: a constant nonzero value (`-1` for this traversal order)
/// at every point strictly inside, exactly `0` at every point strictly
/// outside, and never anything else even on the boundary.
pub proof fn lemma_square_winding(x0: i64, y0: i64, x1: i64, y1: i64, p: Vector2)
    requires
        x0 < x1,
        y0 < y1,
    ensures
        winding_spec(square_path(x0, y0, x1, y1), p) == if x0 <= p.x < x1 && y0 <= p.y <= y1 {
            -1int
        } else {
            0int
        },
        x0 < p.x < x1 && y0 < p.y < y1 ==> winding_spec(square_path(x0, y0, x1, y1), p) == -1,
        p.x < x0 || p.x > x1 || p.y < y0 || p.y > y1 ==> winding_spec(
            square_path(x0, y0, x1, y1),
            p,
        ) == 0,
{
    let path = square_path(x0, y0, x1, y1);
    let s0 = path[0];
    let s1 = path[1];
    let s2 = path[2];
    let s3 = path[3];
    lemma_winding_four(path, p);

    assert(ray_det(s0) == 0);
    assert(ray_det(s2) == 0);
    assert(crossing_sign(s0, p) == 0 && crossing_sign(s2, p) == 0);

    lemma_vertical_edge(x1, y0, y1, p);
    lemma_vertical_edge(x0, y1, y0, p);
    assert(crossing_sign(s1, p) == if p.x >= x1 && y0 <= p.y <= y1 {
        1int
    } else {
        0int
    });
    assert(crossing_sign(s3, p) == if p.x >= x0 && y0 <= p.y <= y1 {
        -1int
    } else {
        0int
    });
}

/// On a square contour the two fill rules produce identical grids, with
/// no side condition: the winding number of such a contour is `-1` or `0`
/// everywhere, and the rules agree on those values.
pub proof fn lemma_square_fill_rules_agree(
    x0: i64,
    y0: i64,
    x1: i64,
    y1: i64,
    w: int,
    h: int,
    g1: Grid,
    g2: Grid,
)
    requires
        x0 < x1,
        y0 < y1,
        grid_matches(g1, square_path(x0, y0, x1, y1), w, h, FillRule::NonZero),
        grid_matches(g2, square_path(x0, y0, x1, y1), w, h, FillRule::EvenOdd),
    ensures
        forall|x: int, y: int| 0 <= x < w && 0 <= y < h ==> #[trigger] g1.at(x, y) == g2.at(x, y),
{
    assert forall|x: int, y: int| 0 <= x < w && 0 <= y < h implies #[trigger] g1.at(x, y) == g2.at(
        x,
        y,
    ) by {
        lemma_square_winding(x0, y0, x1, y1, pixel_center(x, y));
        lemma_rules_agree_at(winding_spec(square_path(x0, y0, x1, y1), pixel_center(x, y)));
    }
}

/// Under either fill rule, a winding number in `{-1, 0, 1}` fills exactly
/// when it is nonzero, so the two rules decide alike.
pub proof fn lemma_rules_agree_at(w: int)
    requires
        -1 <= w <= 1,
    ensures
        rule_fills(FillRule::NonZero, w) == rule_fills(FillRule::EvenOdd, w),
{
}

/// For a contour whose winding number is everywhere in `{-1, 0, 1}` - as
/// it is for any simple, non-self-overlapping closed polygon - the
/// nonzero-winding and even-odd fills produce identical grids.
pub proof fn lemma_simple_polygon_rules_agree(
    path: Seq<Segment>,
    w: int,
    h: int,
    g1: Grid,
    g2: Grid,
)
    requires
        forall|x: int, y: int|
            0 <= x < w && 0 <= y < h ==> -1 <= #[trigger] winding_spec(path, pixel_center(x, y))
                <= 1,
        grid_matches(g1, path, w, h, FillRule::NonZero),
        grid_matches(g2, path, w, h, FillRule::EvenOdd),
    ensures
        forall|x: int, y: int| 0 <= x < w && 0 <= y < h ==> #[trigger] g1.at(x, y) == g2.at(x, y),
{
    assert forall|x: int, y: int| 0 <= x < w && 0 <= y < h implies #[trigger] g1.at(x, y) == g2.at(
        x,
        y,
    ) by {
        lemma_rules_agree_at(winding_spec(path, pixel_center(x, y)));
    }
}

/// A region wound an even number of times, but not zero - such as the
/// overlap of a figure-eight contour, wound twice - is filled under the
/// nonzero rule and unfilled under the even-odd rule: exactly there the
/// two fills differ.
pub proof fn lemma_even_winding_distinguishes(w: int)
    requires
        w != 0,
        w % 2 == 0,
    ensures
        rule_fills(FillRule::NonZero, w),
        !rule_fills(FillRule::EvenOdd, w),
{
}

/// The whole path lies beside the sampling region: every segment strictly
/// above it, every segment strictly below it, or every segment strictly
/// beyond its right edge, in grid coordinates.
pub open spec fn beside_region(path: Seq<Segment>, w: int, h: int) -> bool {
    ||| forall|i: int|
        0 <= i < path.len() ==> (#[trigger] path[i]).start.y < 0 && path[i].end.y < 0
    ||| forall|i: int|
        0 <= i < path.len() ==> (#[trigger] path[i]).start.y >= h * SUBPIXEL && path[i].end.y >= h
            * SUBPIXEL
    ||| forall|i: int|
        0 <= i < path.len() ==> (#[trigger] path[i]).start.x >= w * SUBPIXEL && path[i].end.x >= w
            * SUBPIXEL
}

/// A segment whose vertical extent lies entirely on one side of `p.y`
/// cannot be crossed by the horizontal ray through `p`.
proof fn lemma_y_range_miss(s: Segment, p: Vector2)
    requires
        (s.start.y < p.y && s.end.y < p.y) || (s.start.y > p.y && s.end.y > p.y),
    ensures
        !crossing_accepted(s, p),
{
}

proof fn lemma_ray_blocked(dy: int, dx: int, px: int, xa: int, xb: int, uu: int, tn: int)
    by (nonlinear_arith)
    requires
        tn == dy * (px - xa) - dx * uu,
        dx == xb - xa,
        xa > px,
        xb > px,
        (dy > 0 && 0 <= uu <= dy) || (dy < 0 && dy <= uu <= 0),
    ensures
        dy > 0 ==> tn < 0,
        dy < 0 ==> tn > 0,
{
}

/// A segment lying entirely to the right of `p` cannot be crossed by the
/// leftward ray from `p`: any point of the segment is ahead of the ray's
/// origin, so the crossing parameter `t` is negative.
proof fn lemma_right_miss(s: Segment, p: Vector2)
    requires
        s.start.x > p.x,
        s.end.x > p.x,
    ensures
        !crossing_accepted(s, p),
{
    let dy = s.dir_y();
    let dx = s.dir_x();
    let tn = ray_t_num(s, p);
    assert(tn == -dy * (s.start.x - p.x) + dx * (s.start.y - p.y));
    assert(-dy * (s.start.x - p.x) + dx * (s.start.y - p.y) == dy * (p.x as int - s.start.x) - dx
        * (p.y as int - s.start.y)) by (nonlinear_arith);
    if ray_det(s) > 0 {
        if 0 <= ray_u_num(s, p) <= ray_det(s) {
            lemma_ray_blocked(
                dy,
                dx,
                p.x as int,
                s.start.x as int,
                s.end.x as int,
                p.y - s.start.y,
                tn,
            );
        }
    } else if ray_det(s) < 0 {
        if ray_det(s) <= ray_u_num(s, p) <= 0 {
            lemma_ray_blocked(
                dy,
                dx,
                p.x as int,
                s.start.x as int,
                s.end.x as int,
                p.y - s.start.y,
                tn,
            );
        }
    }
}

proof fn lemma_beside_region_winding(path: Seq<Segment>, w: int, h: int, p: Vector2)
    requires
        beside_region(path, w, h),
        0 < p.y < h * SUBPIXEL,
        0 < p.x < w * SUBPIXEL,
    ensures
        winding_spec(path, p) == 0,
    decreases path.len(),
{
    if path.len() > 0 {
        assert(beside_region(path.drop_last(), w, h));
        lemma_beside_region_winding(path.drop_last(), w, h, p);
        let s = path.last();
        assert(s == path[path.len() - 1]);
        if forall|i: int|
            0 <= i < path.len() ==> (#[trigger] path[i]).start.y < 0 && path[i].end.y < 0 {
            lemma_y_range_miss(s, p);
        } else if forall|i: int|
            0 <= i < path.len() ==> (#[trigger] path[i]).start.y >= h * SUBPIXEL && path[i].end.y
                >= h * SUBPIXEL {
            lemma_y_range_miss(s, p);
        } else {
            lemma_right_miss(s, p);
        }
    }
}

/// A nonnegative integer is the integer square root of its own square.
proof fn lemma_sqrt_perfect_square(n: int)
    requires
        0 <= n,
    ensures
        sqrt_spec(n * n) == n,
{
    assert((n + 1) * (n + 1) > n * n) by (nonlinear_arith)
        requires
            0 <= n,
    ;
    assert(is_sqrt(n, n * n));
    assert(exists|r: int| #[trigger] is_sqrt(r, n * n));
    let r = sqrt_spec(n * n);
    assert(is_sqrt(r, n * n));
    lemma_sqrt_unique(r, n, n * n);
}

/// Stroking a single vertical segment produces a filled band of the
/// stroke width centered on the segment's line: between the endpoint
/// heights, the expanded outline winds exactly the points whose
/// horizontal offset from the centerline is within half the width (the
/// band is inclusive on its left boundary and exclusive on its right,
/// where the two outline edges' inclusive crossings cancel), and winds
/// nothing anywhere else. Under the nonzero rule of `stroke`, winding `1`
/// is filled and winding `0` is not.
pub proof fn lemma_stroke_band_vertical(s: Segment, width: i64, p: Vector2)
    requires
        s.dir_x() == 0,
        s.dir_y() > 0,
        s.in_bounds(COORD_LIMIT as int / 2),
        0 <= width <= COORD_LIMIT / 2,
    ensures
        winding_spec(expand_quad(s, width as int), p) == if s.start.x - width / 2 <= p.x
            < s.start.x + width / 2 && s.start.y <= p.y <= s.end.y {
            1int
        } else {
            0int
        },
{
    let dy = s.dir_y();
    let hw = width as int / 2;
    let q = expand_quad(s, width as int);

    lemma_sqrt_perfect_square(dy);
    assert((-dy) * (-dy) + 0 * 0 == dy * dy) by (nonlinear_arith);
    assert(sqrt_spec((-s.dir_y()) * (-s.dir_y()) + s.dir_x() * s.dir_x()) == dy);
    vstd::arithmetic::div_mod::lemma_div_multiples_vanish(hw, dy);
    assert(dy * hw == -(-s.dir_y()) * hw) by (nonlinear_arith)
        requires
            dy == s.dir_y(),
    ;
    assert(offset_component(-s.dir_y(), hw, dy) == -hw);
    assert(0 * hw == s.dir_x() * hw);
    vstd::arithmetic::div_mod::lemma_div_of0(dy);
    assert(offset_component(s.dir_x(), hw, dy) == 0);

    let xl: i64 = (s.start.x - hw) as i64;
    let xr: i64 = (s.start.x + hw) as i64;
    let ya: i64 = s.start.y;
    let yb: i64 = s.end.y;
    assert(q[0] == Segment { start: Vector2 { x: xl, y: ya }, end: Vector2 { x: xl, y: yb } });
    assert(q[1] == Segment { start: Vector2 { x: xl, y: yb }, end: Vector2 { x: xr, y: yb } });
    assert(q[2] == Segment { start: Vector2 { x: xr, y: yb }, end: Vector2 { x: xr, y: ya } });
    assert(q[3] == Segment { start: Vector2 { x: xr, y: ya }, end: Vector2 { x: xl, y: ya } });

    lemma_winding_four(q, p);
    assert(ray_det(q[1]) == 0);
    assert(ray_det(q[3]) == 0);
    assert(crossing_sign(q[1], p) == 0 && crossing_sign(q[3], p) == 0);
    lemma_vertical_edge(xl, ya, yb, p);
    lemma_vertical_edge(xr, yb, ya, p);
    assert(crossing_sign(q[0], p) == if p.x >= xl && ya <= p.y <= yb {
        1int
    } else {
        0int
    });
    assert(crossing_sign(q[2], p) == if p.x >= xr && ya <= p.y <= yb {
        -1int
    } else {
        0int
    });
}

/// The band law at grid level: a grid produced by stroking a single
/// vertical centerline marks a pixel exactly when its center lies in the
/// band of the stroke width around the centerline, between the endpoint
/// heights.
pub proof fn lemma_stroke_band_vertical_grid(
    s: Segment,
    width: i64,
    w: int,
    h: int,
    g: Grid,
    x: int,
    y: int,
)
    requires
        s.dir_x() == 0,
        s.dir_y() > 0,
        s.in_bounds(COORD_LIMIT as int / 2),
        0 <= width <= COORD_LIMIT / 2,
        grid_matches(g, expand_path(seq![s], width as int), w, h, FillRule::NonZero),
        0 <= x < w,
        0 <= y < h,
    ensures
        g.at(x, y) == (s.start.x - width / 2 <= pixel_center(x, y).x < s.start.x + width / 2
            && s.start.y <= pixel_center(x, y).y <= s.end.y),
{
    let q = expand_quad(s, width as int);
    assert(seq![s].drop_last() =~= Seq::<Segment>::empty());
    assert(seq![s].last() == s);
    assert(expand_path(Seq::<Segment>::empty(), width as int) == Seq::<Segment>::empty());
    assert(Seq::<Segment>::empty() + q =~= q);
    assert(expand_path(seq![s], width as int) =~= q);
    lemma_stroke_band_vertical(s, width, pixel_center(x, y));
}

/// Filling a path that lies entirely beside the sampling region leaves
/// every cell unfilled, under either fill rule: no pixel center's ray
/// crossings can reach such a path with a net contribution.
pub proof fn lemma_beside_region_unfilled(
    path: Seq<Segment>,
    w: int,
    h: int,
    rule: FillRule,
    x: int,
    y: int,
)
    requires
        beside_region(path, w, h),
        w * SUBPIXEL <= COORD_LIMIT,
        h * SUBPIXEL <= COORD_LIMIT,
        0 <= x < w,
        0 <= y < h,
    ensures
        winding_spec(path, pixel_center(x, y)) == 0,
        !rule_fills(rule, winding_spec(path, pixel_center(x, y))),
{
    let p = pixel_center(x, y);
    assert(0 < x * SUBPIXEL + SUBPIXEL / 2 && x * SUBPIXEL + SUBPIXEL / 2 < w * SUBPIXEL
        && 0 < y * SUBPIXEL + SUBPIXEL / 2 && y * SUBPIXEL + SUBPIXEL / 2 < h * SUBPIXEL)
        by (nonlinear_arith)
        requires
            0 <= x < w,
            0 <= y < h,
    ;
    lemma_beside_region_winding(path, w, h, p);
}

/// The law at grid level: a grid produced by filling a path that lies
/// entirely beside the sampling region is all-false, under either rule.
pub proof fn lemma_beside_region_grid_empty(
    path: Seq<Segment>,
    w: int,
    h: int,
    rule: FillRule,
    g: Grid,
)
    requires
        beside_region(path, w, h),
        w * SUBPIXEL <= COORD_LIMIT,
        h * SUBPIXEL <= COORD_LIMIT,
        grid_matches(g, path, w, h, rule),
    ensures
        forall|x: int, y: int| 0 <= x < w && 0 <= y < h ==> !(#[trigger] g.at(x, y)),
{
    assert forall|x: int, y: int| 0 <= x < w && 0 <= y < h implies !(#[trigger] g.at(x, y)) by {
        lemma_beside_region_unfilled(path, w, h, rule, x, y);
    }
}

} // verus!
