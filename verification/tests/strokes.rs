use scanfill::Ratio;
use scanfill::SUBPIXEL;
use scanfill::Segment;
use scanfill::StrokeError;
use scanfill::Vector2;
use scanfill::isqrt;
use scanfill::stroke;

fn v(x: i64, y: i64) -> Vector2 {
    Vector2 { x, y }
}

fn seg(x0: i64, y0: i64, x1: i64, y1: i64) -> Segment {
    Segment { start: v(x0, y0), end: v(x1, y1) }
}

fn seg_px(x0: i64, y0: i64, x1: i64, y1: i64) -> Segment {
    seg(x0 * SUBPIXEL, y0 * SUBPIXEL, x1 * SUBPIXEL, y1 * SUBPIXEL)
}

#[test]
fn intersect_crossing_exact_parameters() {
    let a = seg(0, 0, 2, 2);
    let b = seg(0, 2, 2, 0);
    let r = a.intersect(&b);
    assert_eq!(r, Some((Ratio { num: 4, den: 8 }, Ratio { num: 4, den: 8 })));
}

#[test]
fn intersect_parallel_is_none() {
    let a = seg(0, 0, 2, 2);
    let b = seg(1, 0, 3, 2);
    assert_eq!(a.intersect(&b), None);
    // Collinear segments are parallel too.
    let c = seg(3, 3, 5, 5);
    assert_eq!(a.intersect(&c), None);
}

#[test]
fn intersect_zero_length_is_none() {
    let a = seg(0, 0, 2, 2);
    let z = seg(1, 1, 1, 1);
    assert_eq!(a.intersect(&z), None);
    assert_eq!(z.intersect(&a), None);
    assert_eq!(z.intersect(&z), None);
}

#[test]
fn isqrt_exact_and_rounded() {
    assert_eq!(isqrt(0), 0);
    assert_eq!(isqrt(1), 1);
    assert_eq!(isqrt(2), 1);
    assert_eq!(isqrt(3), 1);
    assert_eq!(isqrt(4), 2);
    assert_eq!(isqrt(1_000_000), 1000);
    assert_eq!(isqrt(999_999), 999);
    assert_eq!(isqrt((1u128 << 124) - 1), (1u128 << 62) - 1);
}

#[test]
fn expand_vertical_segment_corners() {
    // A vertical centerline of length 5 px at x = 3.5 px, stroked 1 px
    // wide: the outline is the axis-aligned rectangle from x = 3 px to
    // x = 4 px between the endpoints' heights.
    let s = seg(896, 2 * SUBPIXEL, 896, 7 * SUBPIXEL);
    let quad = s.expand(SUBPIXEL).unwrap();
    assert_eq!(quad.len(), 4);
    assert_eq!(quad[0], seg(768, 512, 768, 1792));
    assert_eq!(quad[1], seg(768, 1792, 1024, 1792));
    assert_eq!(quad[2], seg(1024, 1792, 1024, 512));
    assert_eq!(quad[3], seg(1024, 512, 768, 512));
}

#[test]
fn expand_rejects_zero_length_segment() {
    let z = seg_px(3, 3, 3, 3);
    assert_eq!(z.expand(SUBPIXEL), Err(StrokeError::ZeroLengthSegment));
}

#[test]
fn stroke_single_segment_band() {
    // Stroking the centerline x = 3.5 px with width 1 px fills exactly
    // the pixels whose centers are within half a width of the line.
    let path = vec![seg(896, 2 * SUBPIXEL, 896, 7 * SUBPIXEL)];
    let g = stroke(&path, 8, 9, SUBPIXEL).unwrap();
    for x in 0..8 {
        for y in 0..9 {
            let expected = x == 3 && (2..=6).contains(&y);
            assert_eq!(g.get(x as usize, y as usize), expected);
        }
    }
}

#[test]
fn stroke_rejects_zero_length_segment() {
    let path = vec![seg_px(0, 0, 4, 0), seg_px(4, 0, 4, 0)];
    assert_eq!(stroke(&path, 8, 8, SUBPIXEL).unwrap_err(), StrokeError::ZeroLengthSegment);
}

#[test]
fn stroke_overlapping_segments_merge() {
    // Two crossing centerlines: the overlap is wound twice, and the
    // nonzero rule keeps it filled.
    let path = vec![seg_px(1, 3, 7, 3), seg(1152, SUBPIXEL, 1152, 6 * SUBPIXEL)];
    let g = stroke(&path, 8, 8, SUBPIXEL).unwrap();
    // The crossing pixel is covered by both rectangles.
    assert!(g.get(4, 3));
    // Each arm is covered by exactly one rectangle.
    assert!(g.get(2, 3));
    assert!(g.get(4, 1));
    // Far corners stay empty.
    assert!(!g.get(0, 0));
    assert!(!g.get(7, 7));
}
