//! A minimal 2D vector-path rasterizer.
//!
//! Paths are ordered sequences of straight directed segments over exact
//! fixed-point coordinates ([`SUBPIXEL`] coordinate units per pixel). The
//! rasterizer converts a path into a binary pixel coverage grid with the
//! crossing-number (ray-casting) algorithm, under a choice of two fill
//! conventions: nonzero-winding and even-odd. A stroke-to-fill converter
//! turns each centerline segment into a thick rectangular outline so that
//! strokes render through the same fill machinery.

mod geom;
mod intersect;
mod laws;
mod raster;
mod ratio;
mod stroke;
mod winding;

pub use geom::COORD_LIMIT;
pub use geom::SUBPIXEL;
pub use geom::Segment;
pub use geom::Vector2;
pub use intersect::det_spec;
pub use intersect::is_solution;
pub use intersect::lemma_parallel_or_degenerate_no_intersection;
pub use intersect::t_num_spec;
pub use intersect::u_num_spec;
pub use laws::beside_region;
pub use laws::lemma_beside_region_grid_empty;
pub use laws::lemma_beside_region_unfilled;
pub use laws::lemma_even_winding_distinguishes;
pub use laws::lemma_rules_agree_at;
pub use laws::lemma_simple_polygon_rules_agree;
pub use laws::lemma_square_fill_rules_agree;
pub use laws::lemma_square_winding;
pub use laws::lemma_stroke_band_vertical;
pub use laws::lemma_stroke_band_vertical_grid;
pub use laws::square_path;
pub use raster::FillRule;
pub use raster::Grid;
pub use raster::evaluate;
pub use raster::fill;
pub use raster::grid_matches;
pub use raster::pixel_center;
pub use raster::rasterize;
pub use raster::rule_fills;
pub use ratio::Ratio;
pub use stroke::StrokeError;
pub use stroke::expand_path;
pub use stroke::expand_quad;
pub use stroke::isqrt;
pub use stroke::lemma_sqrt_unique;
pub use stroke::offset_component;
pub use stroke::sqrt_spec;
pub use stroke::stroke;
pub use winding::compute_winding;
pub use winding::crossing_accepted;
pub use winding::crossing_sign;
pub use winding::lemma_degenerate_appended;
pub use winding::ray_det;
pub use winding::ray_of;
pub use winding::ray_t_num;
pub use winding::ray_u_num;
pub use winding::winding_spec;
