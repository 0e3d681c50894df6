//! Stroke-to-fill conversion: expands each centerline segment into a
//! rectangular outline, then fills the combined outline path.

use vstd::prelude::*;

use crate::geom::COORD_LIMIT;
use crate::geom::SUBPIXEL;
use crate::geom::Segment;
use crate::geom::Vector2;
use crate::geom::wf_path;
use crate::raster::FillRule;
use crate::raster::Grid;
use crate::raster::fill;
use crate::raster::grid_matches;

verus! {

/// Rejection of a stroke input: a zero-length centerline segment has no
/// direction, so no rectangular outline of it exists.
#[derive(Clone, Copy, Debug, PartialEq, Eq, Structural)]
pub enum StrokeError {
    ZeroLengthSegment,
}

/// `r` is the integer square root of `v`: the largest integer whose square
/// is at most `v`.
pub open spec fn is_sqrt(r: int, v: int) -> bool {
    &&& 0 <= r
    &&& r * r <= v
    &&& (r + 1) * (r + 1) > v
}

/// The integer square root of `v` (unique, by `lemma_sqrt_unique`).
pub open spec fn sqrt_spec(v: int) -> int {
    choose|r: int| is_sqrt(r, v)
}

/// Two integer square roots of the same value coincide.
pub proof fn lemma_sqrt_unique(r1: int, r2: int, v: int)
    by (nonlinear_arith)
    requires
        0 <= r1,
        r1 * r1 <= v,
        (r1 + 1) * (r1 + 1) > v,
        0 <= r2,
        r2 * r2 <= v,
        (r2 + 1) * (r2 + 1) > v,
    ensures
        r1 == r2,
{
}

/// Integer square root by bisection: the largest `r` with `r * r <= v`.
pub fn isqrt(v: u128) -> (r: u128)
    requires
        v < 0x1000_0000_0000_0000_0000_0000_0000_0000,
    ensures
        is_sqrt(r as int, v as int),
        r == sqrt_spec(v as int),
        r <= 0x4000_0000_0000_0000,
{
    let mut lo: u128 = 0;
    let mut hi: u128 = 0x4000_0000_0000_0000;
    proof {
        assert((hi as int) * (hi as int) > v as int) by (nonlinear_arith)
            requires
                hi == 0x4000_0000_0000_0000u128,
                v < 0x1000_0000_0000_0000_0000_0000_0000_0000u128,
        ;
    }
    while lo + 1 < hi
        invariant
            lo < hi <= 0x4000_0000_0000_0000,
            (lo as int) * (lo as int) <= v as int,
            (hi as int) * (hi as int) > v as int,
        decreases hi - lo,
    {
        let mid: u128 = lo + (hi - lo) / 2;
        proof {
            assert((mid as int) * (mid as int) < 0x1000_0000_0000_0000_0000_0000_0000_0000int)
                by (nonlinear_arith)
                requires
                    mid < 0x4000_0000_0000_0000u128,
            ;
        }
        if mid * mid <= v {
            lo = mid;
        } else {
            hi = mid;
        }
    }
    proof {
        assert(is_sqrt(lo as int, v as int));
        assert(exists|r: int| is_sqrt(r, v as int));
        assert(is_sqrt(sqrt_spec(v as int), v as int));
        lemma_sqrt_unique(lo as int, sqrt_spec(v as int), v as int);
    }
    lo
}

/// The component of the half-width offset along one perpendicular axis:
/// `d * hw / len`, computed on magnitudes so that the division truncates
/// toward zero.
pub open spec fn offset_component(d: int, hw: int, len: int) -> int {
    if d >= 0 {
        (d * hw) / len
    } else {
        -((-d * hw) / len)
    }
}

/// The rectangular outline of `s` at the given stroke width: corners are
/// the endpoints displaced by the half-width offset along the left
/// perpendicular of the direction, connected in order
/// `p0 -> p1 -> p2 -> p3 -> p0` so the quad is a simple closed contour.
pub open spec fn expand_quad(s: Segment, width: int) -> Seq<Segment> {
    let lx = -s.dir_y();
    let ly = s.dir_x();
    let len = sqrt_spec(lx * lx + ly * ly);
    let hw = width / 2;
    let ox = offset_component(lx, hw, len);
    let oy = offset_component(ly, hw, len);
    let p0 = Vector2 { x: (s.start.x + ox) as i64, y: (s.start.y + oy) as i64 };
    let p1 = Vector2 { x: (s.end.x + ox) as i64, y: (s.end.y + oy) as i64 };
    let p2 = Vector2 { x: (s.end.x - ox) as i64, y: (s.end.y - oy) as i64 };
    let p3 = Vector2 { x: (s.start.x - ox) as i64, y: (s.start.y - oy) as i64 };
    seq![
        Segment { start: p0, end: p1 },
        Segment { start: p1, end: p2 },
        Segment { start: p2, end: p3 },
        Segment { start: p3, end: p0 },
    ]
}

proof fn lemma_component_le_len(d: int, sq: int, len: int)
    by (nonlinear_arith)
    requires
        d * d <= sq,
        0 <= len,
        (len + 1) * (len + 1) > sq,
    ensures
        -len <= d <= len,
{
}

proof fn lemma_offset_le_hw(m: int, hw: int, len: int)
    by (nonlinear_arith)
    requires
        0 <= m <= len,
        0 < len,
        0 <= hw,
    ensures
        0 <= (m * hw) / len <= hw,
{
}

impl Segment {
    /// Expands the segment into the four edges of its rectangular stroke
    /// outline of the given width, or rejects a zero-length segment, whose
    /// perpendicular cannot be normalized.
    pub fn expand(&self, width: i64) -> (r: Result<Vec<Segment>, StrokeError>)
        requires
            self.in_bounds(COORD_LIMIT as int / 2),
            0 <= width <= COORD_LIMIT / 2,
        ensures
            (r is Err) == self.is_degenerate(),
            r matches Err(e) ==> e == StrokeError::ZeroLengthSegment,
            r matches Ok(q) ==> {
                &&& q@ == expand_quad(*self, width as int)
                &&& wf_path(q@)
            },
    {
        if self.start.x == self.end.x && self.start.y == self.end.y {
            return Err(StrokeError::ZeroLengthSegment);
        }

        let d = self.direction();
        let lx: i64 = -d.y;
        let ly: i64 = d.x;
        proof {
            assert(0 <= (lx as int) * (lx as int) <= 0x0100_0000_0000_0000_0000_0000_0000_0000int
                && 0 <= (ly as int) * (ly as int) <= 0x0100_0000_0000_0000_0000_0000_0000_0000int
                && (lx as int) * (lx as int) + (ly as int) * (ly as int) > 0)
                by (nonlinear_arith)
                requires
                    -COORD_LIMIT <= lx <= COORD_LIMIT,
                    -COORD_LIMIT <= ly <= COORD_LIMIT,
                    lx != 0 || ly != 0,
                    COORD_LIMIT == 0x1000_0000_0000_0000i64,
            ;
        }
        let sq: u128 = ((lx as i128) * (lx as i128) + (ly as i128) * (ly as i128)) as u128;
        let len: u128 = isqrt(sq);
        assert(len >= 1 && len * len <= sq) by {
            assert(is_sqrt(len as int, sq as int));
            assert(len == 0 ==> (len as int + 1) * (len as int + 1) == 1) by (nonlinear_arith);
        }

        let hw: u128 = (width as u128) / 2;
        let mx: u128 = if lx >= 0 {
            lx as u128
        } else {
            (-lx) as u128
        };
        let my: u128 = if ly >= 0 {
            ly as u128
        } else {
            (-ly) as u128
        };
        proof {
            lemma_component_le_len(lx as int, sq as int, len as int);
            lemma_component_le_len(ly as int, sq as int, len as int);
            assert(mx as int * (hw as int) <= len as int * (hw as int) && my as int * (hw as int)
                <= len as int * (hw as int) && len as int * (hw as int)
                < 0x1000_0000_0000_0000_0000_0000_0000_0000int) by (nonlinear_arith)
                requires
                    0 <= mx <= len,
                    0 <= my <= len,
                    0 < len < 0x1_0000_0000_0000_0000u128,
                    0 <= hw <= 0x1000_0000_0000_0000u128,
            ;
            lemma_offset_le_hw(mx as int, hw as int, len as int);
            lemma_offset_le_hw(my as int, hw as int, len as int);
        }
        let qx: u128 = mx * hw / len;
        let qy: u128 = my * hw / len;
        let ox: i64 = if lx >= 0 {
            qx as i64
        } else {
            -(qx as i64)
        };
        let oy: i64 = if ly >= 0 {
            qy as i64
        } else {
            -(qy as i64)
        };
        assert(ox == offset_component(lx as int, hw as int, len as int));
        assert(oy == offset_component(ly as int, hw as int, len as int));

        let p0 = Vector2 { x: self.start.x + ox, y: self.start.y + oy };
        let p1 = Vector2 { x: self.end.x + ox, y: self.end.y + oy };
        let p2 = Vector2 { x: self.end.x - ox, y: self.end.y - oy };
        let p3 = Vector2 { x: self.start.x - ox, y: self.start.y - oy };
        let mut quad: Vec<Segment> = Vec::new();
        quad.push(Segment { start: p0, end: p1 });
        quad.push(Segment { start: p1, end: p2 });
        quad.push(Segment { start: p2, end: p3 });
        quad.push(Segment { start: p3, end: p0 });
        proof {
            assert(quad@ =~= expand_quad(*self, width as int));
        }
        Ok(quad)
    }
}

/// The concatenation of the rectangular outlines of all segments of
/// `path`, in path order.
pub open spec fn expand_path(path: Seq<Segment>, width: int) -> Seq<Segment>
    decreases path.len(),
{
    if path.len() == 0 {
        Seq::empty()
    } else {
        expand_path(path.drop_last(), width) + expand_quad(path.last(), width)
    }
}

/// Expands every segment of `path` into its rectangular outline of width
/// `stroke_width` and fills the combined outline path under the nonzero
/// rule, so overlapping outlines of adjacent segments merge into unified
/// coverage instead of cancelling. Rejects a path containing a zero-length
/// segment. No extra geometry is added at joints, so gaps or notches can
/// appear at corners; that is an accepted limitation, not a defect.
pub fn stroke(path: &Vec<Segment>, width: usize, height: usize, stroke_width: i64) -> (r: Result<
    Grid,
    StrokeError,
>)
    requires
        forall|i: int|
            0 <= i < path@.len() ==> #[trigger] path@[i].in_bounds(COORD_LIMIT as int / 2),
        0 <= stroke_width <= COORD_LIMIT / 2,
        path@.len() <= 0x1fff_ffff_ffff_ffff,
        width * SUBPIXEL <= COORD_LIMIT,
        height * SUBPIXEL <= COORD_LIMIT,
    ensures
        (r is Err) == exists|i: int|
            0 <= i < path@.len() && (#[trigger] path@[i]).is_degenerate(),
        r matches Err(e) ==> e == StrokeError::ZeroLengthSegment,
        r matches Ok(g) ==> grid_matches(
            g,
            expand_path(path@, stroke_width as int),
            width as int,
            height as int,
            FillRule::NonZero,
        ),
{
    let mut outline: Vec<Segment> = Vec::new();
    let mut i: usize = 0;
    while i < path.len()
        invariant
            forall|j: int|
                0 <= j < path@.len() ==> #[trigger] path@[j].in_bounds(COORD_LIMIT as int / 2),
            0 <= stroke_width <= COORD_LIMIT / 2,
            path@.len() <= 0x1fff_ffff_ffff_ffff,
            i <= path@.len(),
            outline@ == expand_path(path@.take(i as int), stroke_width as int),
            outline@.len() == 4 * i,
            wf_path(outline@),
            forall|j: int| 0 <= j < i ==> !(#[trigger] path@[j]).is_degenerate(),
        decreases path@.len() - i,
    {
        let segment = path[i];
        let quad = match segment.expand(stroke_width) {
            Ok(q) => q,
            Err(e) => {
                return Err(e);
            },
        };
        outline.push(quad[0]);
        outline.push(quad[1]);
        outline.push(quad[2]);
        outline.push(quad[3]);
        proof {
            assert(path@.take(i as int + 1).drop_last() =~= path@.take(i as int));
            assert(path@.take(i as int + 1).last() == path@[i as int]);
            assert(outline@ =~= expand_path(path@.take(i as int + 1), stroke_width as int));
        }
        i = i + 1;
    }
    proof {
        assert(path@.take(path@.len() as int) =~= path@);
    }
    let g = fill(&outline, width, height, FillRule::NonZero);
    Ok(g)
}

} // verus!
