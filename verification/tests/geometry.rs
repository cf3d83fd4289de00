use cathedral::geometry::Shape;

fn sq(x: i64, y: i64, size: i64) -> Shape {
    Shape { x, y, size }
}

#[test]
fn overlap_close_squares() {
    // Squares at (0,0) and (5,5), both 10 units wide, overlap.
    let a = sq(0, 0, 10_000);
    let b = sq(5_000, 5_000, 10_000);
    assert!(a.collides_with(&b));
}

#[test]
fn overlap_far_squares() {
    // Squares at (0,0) and (20,20), both 10 units wide, do not overlap.
    let a = sq(0, 0, 10_000);
    let b = sq(20_000, 20_000, 10_000);
    assert!(!a.collides_with(&b));
}

#[test]
fn overlap_is_symmetric() {
    let cases = [
        (sq(0, 0, 10_000), sq(5_000, 5_000, 10_000)),
        (sq(0, 0, 10_000), sq(20_000, 20_000, 10_000)),
        (sq(-3_000, 2_000, 7_001), sq(1_000, -2_000, 5_003)),
        (sq(0, 0, 10_000), sq(10_000, 0, 10_000)),
    ];
    for (a, b) in cases {
        assert_eq!(a.collides_with(&b), b.collides_with(&a));
    }
}

#[test]
fn touching_edges_do_not_overlap() {
    // The right edge of the first square exactly meets the left edge of
    // the second: half-open extents, so no overlap.
    let a = sq(0, 0, 10_000);
    let b = sq(10_000, 0, 10_000);
    assert!(!a.collides_with(&b));
    let c = sq(0, 10_000, 10_000);
    assert!(!a.collides_with(&c));
}

#[test]
fn one_milliunit_closer_overlaps() {
    let a = sq(0, 0, 10_000);
    let b = sq(9_999, 0, 10_000);
    assert!(a.collides_with(&b));
}

#[test]
fn rect_from_center_and_size() {
    let s = sq(10_000, 20_000, 4_000);
    let r = s.rect();
    assert_eq!(r.x, 8_000);
    assert_eq!(r.y, 18_000);
    assert_eq!(r.w, 4_000);
    assert_eq!(r.h, 4_000);
}
