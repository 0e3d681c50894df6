use scanfill::FillRule;
use scanfill::SUBPIXEL;
use scanfill::Segment;
use scanfill::Vector2;
use scanfill::compute_winding;
use scanfill::evaluate;
use scanfill::fill;

fn v(x: i64, y: i64) -> Vector2 {
    Vector2 { x, y }
}

fn seg(x0: i64, y0: i64, x1: i64, y1: i64) -> Segment {
    Segment { start: v(x0, y0), end: v(x1, y1) }
}

/// A segment with endpoints given in whole pixels.
fn seg_px(x0: i64, y0: i64, x1: i64, y1: i64) -> Segment {
    seg(x0 * SUBPIXEL, y0 * SUBPIXEL, x1 * SUBPIXEL, y1 * SUBPIXEL)
}

/// The pixel center sample point for pixel (x, y).
fn center(x: i64, y: i64) -> Vector2 {
    v(x * SUBPIXEL + SUBPIXEL / 2, y * SUBPIXEL + SUBPIXEL / 2)
}

fn square_10() -> Vec<Segment> {
    vec![
        seg_px(0, 0, 10, 0),
        seg_px(10, 0, 10, 10),
        seg_px(10, 10, 0, 10),
        seg_px(0, 10, 0, 0),
    ]
}

#[test]
fn square_winding_inside_and_outside() {
    let path = square_10();
    for x in 0..10 {
        for y in 0..10 {
            assert_eq!(compute_winding(&path, center(x, y)), -1);
        }
    }
    for x in 10..14 {
        for y in 0..14 {
            assert_eq!(compute_winding(&path, center(x, y)), 0);
        }
    }
    for x in 0..14 {
        for y in 10..14 {
            assert_eq!(compute_winding(&path, center(x, y)), 0);
        }
    }
    assert_eq!(compute_winding(&path, v(-SUBPIXEL, 5 * SUBPIXEL)), 0);
}

#[test]
fn unit_square_10x10_nonzero_all_filled() {
    let g = fill(&square_10(), 10, 10, FillRule::NonZero);
    assert_eq!(g.width, 10);
    assert_eq!(g.height, 10);
    for x in 0..10 {
        for y in 0..10 {
            assert!(g.get(x, y));
        }
    }
}

#[test]
fn unit_square_20x20_exact_block() {
    let g = fill(&square_10(), 20, 20, FillRule::NonZero);
    for x in 0..20 {
        for y in 0..20 {
            assert_eq!(g.get(x, y), x < 10 && y < 10);
        }
    }
}

#[test]
fn fill_rules_agree_on_simple_polygon() {
    let triangle = vec![
        seg_px(2, 9, 15, 1),
        seg_px(15, 1, 28, 9),
        seg_px(28, 9, 2, 9),
    ];
    let nz = fill(&triangle, 30, 10, FillRule::NonZero);
    let eo = fill(&triangle, 30, 10, FillRule::EvenOdd);
    for x in 0..30 {
        for y in 0..10 {
            assert_eq!(nz.get(x, y), eo.get(x, y));
        }
    }
}

#[test]
fn fill_rules_agree_on_square() {
    let nz = fill(&square_10(), 12, 12, FillRule::NonZero);
    let eo = fill(&square_10(), 12, 12, FillRule::EvenOdd);
    for x in 0..12 {
        for y in 0..12 {
            assert_eq!(nz.get(x, y), eo.get(x, y));
        }
    }
}

fn figure_eight() -> Vec<Segment> {
    vec![
        seg_px(4, 2, 16, 2),
        seg_px(16, 2, 16, 6),
        seg_px(16, 6, 6, 9),
        seg_px(6, 9, 6, 13),
        seg_px(6, 13, 14, 13),
        seg_px(14, 13, 14, 9),
        seg_px(14, 9, 4, 6),
        seg_px(4, 6, 4, 2),
        seg_px(6, 6, 16, 9),
        seg_px(16, 9, 16, 14),
        seg_px(16, 14, 4, 14),
        seg_px(4, 14, 4, 9),
        seg_px(4, 9, 14, 6),
        seg_px(14, 6, 14, 3),
        seg_px(14, 3, 6, 3),
        seg_px(6, 3, 6, 6),
    ]
}

#[test]
fn figure_eight_rules_differ_exactly_on_double_winding() {
    let path = figure_eight();
    let nz = fill(&path, 20, 16, FillRule::NonZero);
    let eo = fill(&path, 20, 16, FillRule::EvenOdd);
    let mut saw_double = false;
    for x in 0..20 {
        for y in 0..16 {
            let w = compute_winding(&path, center(x as i64, y as i64));
            assert_eq!(nz.get(x, y), w != 0);
            assert_eq!(eo.get(x, y), w % 2 != 0);
            if w != 0 && w % 2 == 0 {
                assert!(w.abs() == 2);
                saw_double = true;
                assert!(nz.get(x, y));
                assert!(!eo.get(x, y));
            } else {
                assert_eq!(nz.get(x, y), eo.get(x, y));
            }
        }
    }
    assert!(saw_double);
}

#[test]
fn evaluate_nonzero_and_evenodd() {
    assert!(!evaluate(FillRule::NonZero, 0));
    assert!(evaluate(FillRule::NonZero, 1));
    assert!(evaluate(FillRule::NonZero, -1));
    assert!(evaluate(FillRule::NonZero, 2));
    assert!(!evaluate(FillRule::EvenOdd, 0));
    assert!(evaluate(FillRule::EvenOdd, 1));
    assert!(evaluate(FillRule::EvenOdd, -1));
    assert!(!evaluate(FillRule::EvenOdd, 2));
    assert!(!evaluate(FillRule::EvenOdd, -2));
    assert!(evaluate(FillRule::EvenOdd, 3));
}

#[test]
fn zero_size_grid_is_empty() {
    let g = fill(&square_10(), 0, 7, FillRule::NonZero);
    assert_eq!(g.width, 0);
    assert_eq!(g.height, 7);
    assert_eq!(g.cells.len(), 0);
    let g = fill(&square_10(), 7, 0, FillRule::EvenOdd);
    assert_eq!(g.cells.len(), 0);
}

#[test]
fn zero_length_segment_does_not_change_winding() {
    let mut path = square_10();
    let expected: Vec<i64> = (0..14)
        .flat_map(|x| (0..14).map(move |y| (x, y)))
        .map(|(x, y)| compute_winding(&path, center(x, y)))
        .collect();
    path.push(seg_px(5, 5, 5, 5));
    let after: Vec<i64> = (0..14)
        .flat_map(|x| (0..14).map(move |y| (x, y)))
        .map(|(x, y)| compute_winding(&path, center(x, y)))
        .collect();
    assert_eq!(expected, after);
}

#[test]
fn path_beside_region_fills_nothing() {
    // Strictly left of the sampling region: a closed square still nets
    // zero crossings at every sample point.
    let left = vec![
        seg_px(-20, 2, -12, 2),
        seg_px(-12, 2, -12, 8),
        seg_px(-12, 8, -20, 8),
        seg_px(-20, 8, -20, 2),
    ];
    // Strictly below the region (larger y than any sample row).
    let below = vec![
        seg_px(1, 12, 9, 12),
        seg_px(9, 12, 9, 20),
        seg_px(9, 20, 1, 20),
        seg_px(1, 20, 1, 12),
    ];
    // Strictly above the region (negative y).
    let above = vec![
        seg_px(1, -9, 9, -9),
        seg_px(9, -9, 9, -2),
        seg_px(9, -2, 1, -2),
        seg_px(1, -2, 1, -9),
    ];
    // Strictly right of the region.
    let right = vec![
        seg_px(12, 2, 20, 2),
        seg_px(20, 2, 20, 8),
        seg_px(20, 8, 12, 8),
        seg_px(12, 8, 12, 2),
    ];
    for path in [left, below, above, right] {
        for rule in [FillRule::NonZero, FillRule::EvenOdd] {
            let g = fill(&path, 10, 10, rule);
            for x in 0..10 {
                for y in 0..10 {
                    assert!(!g.get(x, y));
                }
            }
        }
    }
}
