//! Fill rules, the coverage grid, and the pixel rasterizer.

use vstd::prelude::*;

use crate::geom::COORD_LIMIT;
use crate::geom::SUBPIXEL;
use crate::geom::Segment;
use crate::geom::Vector2;
use crate::geom::wf_path;
use crate::winding::compute_winding;
use crate::winding::winding_spec;

verus! {

/// The two supported fill conventions.
#[derive(Clone, Copy, Debug, PartialEq, Eq, Structural)]
pub enum FillRule {
    /// A point is filled if its winding number is nonzero.
    NonZero,
    /// A point is filled if its winding number is odd.
    EvenOdd,
}

/// Whether a winding number `w` counts as filled under `rule`.
pub open spec fn rule_fills(rule: FillRule, w: int) -> bool {
    match rule {
        FillRule::NonZero => w != 0,
        FillRule::EvenOdd => w % 2 != 0,
    }
}

/// Maps an integer winding number to the fill decision of `rule`.
pub fn evaluate(rule: FillRule, winding: i64) -> (r: bool)
    ensures
        r == rule_fills(rule, winding as int),
{
    match rule {
        FillRule::NonZero => winding != 0,
        FillRule::EvenOdd => {
            let magnitude: u64 = if winding >= 0 {
                winding as u64
            } else {
                (-(winding + 1)) as u64 + 1
            };
            proof {
                vstd::arithmetic::div_mod::lemma_mod_multiples_vanish(
                    -(winding as int),
                    winding as int,
                    2,
                );
            }
            magnitude % 2 == 1
        },
    }
}

/// A `width x height` boolean coverage grid in row-major order, origin at
/// the top-left, one fill decision per pixel.
#[derive(Debug)]
pub struct Grid {
    pub width: usize,
    pub height: usize,
    pub cells: Vec<bool>,
}

impl Grid {
    /// The cell vector holds exactly one decision per pixel.
    pub open spec fn wf(self) -> bool {
        self.cells@.len() == self.width * self.height
    }

    /// The decision stored for pixel `(x, y)`.
    pub open spec fn at(self, x: int, y: int) -> bool {
        self.cells@[y * self.width + x]
    }

    /// Reads the decision for pixel `(x, y)`.
    pub fn get(&self, x: usize, y: usize) -> (r: bool)
        requires
            self.wf(),
            x < self.width,
            y < self.height,
        ensures
            r == self.at(x as int, y as int),
    {
        let n: usize = self.cells.len();
        proof {
            lemma_row_major_index_in_range(
                self.width as int,
                self.height as int,
                x as int,
                y as int,
            );
            assert(y * self.width + x < n);
        }
        self.cells[y * self.width + x]
    }
}

proof fn lemma_row_major_index_in_range(w: int, h: int, x: int, y: int)
    by (nonlinear_arith)
    requires
        0 <= x < w,
        0 <= y < h,
    ensures
        0 <= y * w + x < h * w,
        h * w == w * h,
{
}

/// The sample point for pixel `(x, y)`: the pixel's center.
pub open spec fn pixel_center(x: int, y: int) -> Vector2 {
    Vector2 {
        x: (x * SUBPIXEL + SUBPIXEL / 2) as i64,
        y: (y * SUBPIXEL + SUBPIXEL / 2) as i64,
    }
}

/// `g` is the `w x h` coverage grid of `path` under `rule`: every cell
/// holds the fill decision for the winding number of the path around the
/// corresponding pixel center.
pub open spec fn grid_matches(
    g: Grid,
    path: Seq<Segment>,
    w: int,
    h: int,
    rule: FillRule,
) -> bool {
    &&& g.width == w
    &&& g.height == h
    &&& g.wf()
    &&& forall|x: int, y: int|
        0 <= x < w && 0 <= y < h ==> #[trigger] g.at(x, y) == rule_fills(
            rule,
            winding_spec(path, pixel_center(x, y)),
        )
}

proof fn lemma_center_in_range(limit: int, w: int, x: int)
    by (nonlinear_arith)
    requires
        0 <= x < w,
        w * SUBPIXEL <= limit,
    ensures
        0 < x * SUBPIXEL + SUBPIXEL / 2 <= limit - SUBPIXEL / 2,
{
}

/// Samples every pixel center of a `width x height` grid in row-major
/// order, computes its winding number, applies `rule`, and stores the
/// decision. A zero `width` or `height` yields an empty grid.
pub fn rasterize(path: &Vec<Segment>, width: usize, height: usize, rule: FillRule) -> (g: Grid)
    requires
        wf_path(path@),
        path@.len() <= 0x7fff_ffff_ffff_ffff,
        width * SUBPIXEL <= COORD_LIMIT,
        height * SUBPIXEL <= COORD_LIMIT,
    ensures
        grid_matches(g, path@, width as int, height as int, rule),
{
    let mut cells: Vec<bool> = Vec::new();
    let mut y: usize = 0;
    while y < height
        invariant
            wf_path(path@),
            path@.len() <= 0x7fff_ffff_ffff_ffff,
            width * SUBPIXEL <= COORD_LIMIT,
            height * SUBPIXEL <= COORD_LIMIT,
            y <= height,
            cells@.len() == y * width,
            forall|px: int, py: int|
                0 <= px < width && 0 <= py < y ==> #[trigger] cells@[py * width + px]
                    == rule_fills(rule, winding_spec(path@, pixel_center(px, py))),
        decreases height - y,
    {
        let mut x: usize = 0;
        while x < width
            invariant
                wf_path(path@),
                path@.len() <= 0x7fff_ffff_ffff_ffff,
                width * SUBPIXEL <= COORD_LIMIT,
                height * SUBPIXEL <= COORD_LIMIT,
                y < height,
                x <= width,
                cells@.len() == y * width + x,
                forall|px: int, py: int|
                    0 <= px < width && 0 <= py < y ==> #[trigger] cells@[py * width + px]
                        == rule_fills(rule, winding_spec(path@, pixel_center(px, py))),
                forall|px: int|
                    0 <= px < x ==> #[trigger] cells@[y * width + px] == rule_fills(
                        rule,
                        winding_spec(path@, pixel_center(px, y as int)),
                    ),
            decreases width - x,
        {
            proof {
                lemma_center_in_range(COORD_LIMIT as int, width as int, x as int);
                lemma_center_in_range(COORD_LIMIT as int, height as int, y as int);
            }
            let center = Vector2 {
                x: (x as i64) * SUBPIXEL + SUBPIXEL / 2,
                y: (y as i64) * SUBPIXEL + SUBPIXEL / 2,
            };
            assert(center == pixel_center(x as int, y as int));
            let winding: i64 = compute_winding(path, center);
            let filled: bool = evaluate(rule, winding);
            cells.push(filled);
            proof {
                assert forall|px: int, py: int|
                    0 <= px < width && 0 <= py < y implies #[trigger] cells@[py * width + px]
                    == rule_fills(rule, winding_spec(path@, pixel_center(px, py))) by {
                    lemma_row_major_index_in_range(width as int, y as int, px, py);
                }
            }
            x = x + 1;
        }
        proof {
            assert((y as int + 1) * width == y as int * width + width) by (nonlinear_arith);
        }
        y = y + 1;
    }
    proof {
        assert(cells@.len() == height * width);
        assert(width * height == height * width) by (nonlinear_arith);
    }
    let g = Grid { width, height, cells };
    assert forall|x: int, y: int| 0 <= x < width && 0 <= y < height implies #[trigger] g.at(x, y)
        == rule_fills(rule, winding_spec(path@, pixel_center(x, y))) by {
        lemma_row_major_index_in_range(width as int, height as int, x, y);
    }
    g
}

/// Rasterizes `path` into a `width x height` coverage grid under `rule`.
pub fn fill(path: &Vec<Segment>, width: usize, height: usize, rule: FillRule) -> (g: Grid)
    requires
        wf_path(path@),
        path@.len() <= 0x7fff_ffff_ffff_ffff,
        width * SUBPIXEL <= COORD_LIMIT,
        height * SUBPIXEL <= COORD_LIMIT,
    ensures
        grid_matches(g, path@, width as int, height as int, rule),
{
    rasterize(path, width, height, rule)
}

} // verus!
