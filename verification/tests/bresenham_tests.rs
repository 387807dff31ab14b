use falling_everything_core::bresenham::{
    bresenham_line, bresenham_points, for_each_bresenham_line, isqrt_i32,
};
use falling_everything_core::world::Vec2i;

#[test]
fn horizontal_and_vertical() {
    let h: Vec<_> = bresenham_points(Vec2i::new(0, 0), Vec2i::new(3, 0));
    assert_eq!(
        h,
        vec![
            Vec2i::new(0, 0),
            Vec2i::new(1, 0),
            Vec2i::new(2, 0),
            Vec2i::new(3, 0),
        ]
    );
    let v: Vec<_> = bresenham_points(Vec2i::new(2, 1), Vec2i::new(2, 4));
    assert_eq!(
        v,
        vec![
            Vec2i::new(2, 1),
            Vec2i::new(2, 2),
            Vec2i::new(2, 3),
            Vec2i::new(2, 4),
        ]
    );
}

#[test]
fn diagonal() {
    let d: Vec<_> = bresenham_points(Vec2i::new(0, 0), Vec2i::new(3, 3));
    assert_eq!(d.len(), 4);
    for (i, p) in d.iter().enumerate() {
        assert_eq!(p.x, i as i32);
        assert_eq!(p.y, i as i32);
    }
}

#[test]
fn single_point() {
    let p = Vec2i::new(5, -3);
    let pts: Vec<_> = bresenham_points(p, p);
    assert_eq!(pts, vec![p]);
}

#[test]
fn steep_negative() {
    let pts: Vec<_> = bresenham_points(Vec2i::new(0, 0), Vec2i::new(2, 5));
    assert_eq!(pts.first(), Some(&Vec2i::new(0, 0)));
    assert_eq!(pts.last(), Some(&Vec2i::new(2, 5)));
    assert!(pts.len() >= 6);
}

#[test]
fn isqrt_matches_floor_sqrt() {
    assert_eq!(isqrt_i32(0), 0);
    assert_eq!(isqrt_i32(1), 1);
    assert_eq!(isqrt_i32(2), 1);
    assert_eq!(isqrt_i32(3), 1);
    assert_eq!(isqrt_i32(4), 2);
    assert_eq!(isqrt_i32(15), 3);
    assert_eq!(isqrt_i32(16), 4);
    assert_eq!(isqrt_i32(100), 10);
}

#[test]
fn isqrt_negative_and_large() {
    assert_eq!(isqrt_i32(-5), 0);
    assert_eq!(isqrt_i32(i32::MAX), 46340);
    for n in 0..2000 {
        let r = isqrt_i32(n);
        assert!(r * r <= n && (r + 1) * (r + 1) > n);
    }
}

#[test]
fn line_points_have_expected_length_in_every_octant() {
    let a = Vec2i::new(0, 0);
    for (bx, by) in [(7, 3), (-7, 3), (7, -3), (-7, -3), (3, 7), (-3, -7)] {
        let b = Vec2i::new(bx, by);
        let pts = bresenham_points(a, b);
        assert_eq!(pts.len(), 8);
        assert_eq!(pts[0], a);
        assert_eq!(*pts.last().unwrap(), b);
        for w in pts.windows(2) {
            assert!((w[1].x - w[0].x).abs() <= 1 && (w[1].y - w[0].y).abs() <= 1);
        }
    }
}

#[test]
fn iterator_next_and_size_hint() {
    let mut line = bresenham_line(Vec2i::new(0, 0), Vec2i::new(2, 0));
    assert_eq!(line.size_hint(), (1, Some(3)));
    assert_eq!(line.next(), Some(Vec2i::new(0, 0)));
    assert_eq!(line.next(), Some(Vec2i::new(1, 0)));
    assert_eq!(line.next(), Some(Vec2i::new(2, 0)));
    assert_eq!(line.next(), None);
    assert_eq!(line.size_hint(), (0, Some(0)));
    assert_eq!(line.next(), None);
}

#[test]
fn for_each_visits_every_point() {
    let mut seen = Vec::new();
    for_each_bresenham_line(Vec2i::new(1, 1), Vec2i::new(4, 2), |p| seen.push(p));
    assert_eq!(seen, bresenham_points(Vec2i::new(1, 1), Vec2i::new(4, 2)));
}

#[test]
fn shallow_line_follows_error_term() {
    let pts = bresenham_points(Vec2i::new(0, 0), Vec2i::new(4, 2));
    assert_eq!(
        pts,
        vec![Vec2i::new(0, 0), Vec2i::new(1, 1), Vec2i::new(2, 1), Vec2i::new(3, 2), Vec2i::new(4, 2)]
    );
}
