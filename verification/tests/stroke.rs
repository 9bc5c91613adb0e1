use chalkboard::geometry::{distance_squared, isqrt, Point};
use chalkboard::stroke::stroke_points;

fn xs(points: &[Point]) -> Vec<i32> {
    points.iter().map(|p| p.x).collect()
}

fn ys(points: &[Point]) -> Vec<i32> {
    points.iter().map(|p| p.y).collect()
}

#[test]
fn isqrt_of_small_numbers() {
    let expected = [0u64, 1, 1, 1, 2, 2, 2, 2, 2, 3, 3];
    for (n, r) in expected.iter().enumerate() {
        assert_eq!(isqrt(n as u128), *r);
    }
}

#[test]
fn isqrt_around_a_square() {
    assert_eq!(isqrt(1_000_000 * 1_000_000 - 1), 999_999);
    assert_eq!(isqrt(1_000_000 * 1_000_000), 1_000_000);
    assert_eq!(isqrt(1_000_000 * 1_000_000 + 1), 1_000_000);
}

#[test]
fn isqrt_of_the_largest_number() {
    assert_eq!(isqrt(u128::MAX), u64::MAX);
    let r = u64::MAX as u128;
    assert_eq!(isqrt(r * r), u64::MAX);
    assert_eq!(isqrt(r * r - 1), u64::MAX - 1);
}

#[test]
fn distance_squared_is_exact() {
    assert_eq!(distance_squared(Point::new(0, 0), Point::new(3, 4)), 25);
    assert_eq!(distance_squared(Point::new(-3, 7), Point::new(-3, 7)), 0);
    assert_eq!(distance_squared(Point::new(5, 5), Point::new(2, 9)), 25);
    let far = distance_squared(Point::new(i32::MIN, i32::MIN), Point::new(i32::MAX, i32::MAX));
    let side = u32::MAX as u128;
    assert_eq!(far, 2 * side * side);
}

#[test]
fn point_range_is_inclusive() {
    assert!(Point::new(0x2000_0000, -0x2000_0000).is_in_range());
    assert!(!Point::new(0x2000_0001, 0).is_in_range());
    assert!(!Point::new(0, -0x2000_0001).is_in_range());
}

#[test]
fn no_movement_stamps_nothing() {
    let p = Point::new(12, -7);
    assert!(stroke_points(p, p, 16).is_empty());
}

#[test]
fn short_movement_stamps_once_at_its_end() {
    let from = Point::new(0, 0);
    assert_eq!(stroke_points(from, Point::new(3, 0), 16), vec![Point::new(3, 0)]);
    assert_eq!(stroke_points(from, Point::new(2, 3), 16), vec![Point::new(2, 3)]);
    assert_eq!(stroke_points(from, Point::new(-1, 0), 16), vec![Point::new(-1, 0)]);
}

#[test]
fn movement_of_one_step_stamps_at_both_ends() {
    let from = Point::new(10, 10);
    let to = Point::new(14, 10);
    assert_eq!(stroke_points(from, to, 16), vec![from, to]);
}

#[test]
fn straight_stroke_of_100_with_stamp_16() {
    let points = stroke_points(Point::new(0, 0), Point::new(100, 0), 16);
    let expected: Vec<i32> = (0..26).map(|k| 4 * k).collect();
    assert_eq!(points.len(), 26);
    assert_eq!(points[25], Point::new(100, 0));
    assert_eq!(xs(&points), expected);
    assert!(points.iter().all(|p| p.y == 0));
}

#[test]
fn stroke_count_rounds_up_between_steps() {
    let points = stroke_points(Point::new(0, 0), Point::new(10, 0), 16);
    assert_eq!(points, vec![Point::new(0, 0), Point::new(4, 0), Point::new(8, 0)]);
    let points = stroke_points(Point::new(0, 0), Point::new(11, 0), 16);
    assert_eq!(points.len(), 3);
    let points = stroke_points(Point::new(0, 0), Point::new(12, 0), 16);
    assert_eq!(points.len(), 4);
    let points = stroke_points(Point::new(0, 0), Point::new(13, 0), 16);
    assert_eq!(points.len(), 4);
}

#[test]
fn diagonal_stroke_rounds_toward_its_start() {
    let points = stroke_points(Point::new(0, 0), Point::new(30, 40), 16);
    assert_eq!(xs(&points), vec![0, 2, 4, 7, 9, 12, 14, 16, 19, 21, 24, 26, 28]);
    assert_eq!(ys(&points), vec![0, 3, 6, 9, 12, 16, 19, 22, 25, 28, 32, 35, 38]);
}

#[test]
fn stroke_to_the_upper_left_mirrors() {
    let points = stroke_points(Point::new(5, 5), Point::new(-25, -35), 16);
    assert_eq!(xs(&points), vec![5, 3, 1, -2, -4, -7, -9, -11, -14, -16, -19, -21, -23]);
    assert_eq!(ys(&points), vec![5, 2, -1, -4, -7, -11, -14, -17, -20, -23, -27, -30, -33]);
}

#[test]
fn stamp_that_is_no_multiple_of_four() {
    let points = stroke_points(Point::new(0, 0), Point::new(10, 0), 10);
    assert_eq!(xs(&points), vec![0, 2, 5, 7, 10]);
}

#[test]
fn stroke_across_the_whole_range() {
    let limit = 0x2000_0000;
    let points = stroke_points(Point::new(-limit, -limit), Point::new(limit, limit), 0x4000_0000);
    assert_eq!(points.len(), 6);
    assert_eq!(points[0], Point::new(-limit, -limit));
    assert_eq!(points[4].x, points[4].y);
    assert_eq!(points[1].x, -limit + 189_812_531);
    assert_eq!(points[5].y, -limit + 949_062_656);
}

#[test]
fn stroke_density_is_four_stamps_for_each_diameter() {
    for stamp in [4u32, 8, 16, 40] {
        let points = stroke_points(Point::new(0, 0), Point::new(0, 10 * stamp as i32), stamp);
        assert_eq!(points.len(), 41);
        assert_eq!(points[39].y, 39 * (stamp as i32) / 4);
        assert_eq!(points[40].y, 10 * stamp as i32);
    }
}

#[test]
fn stamps_follow_the_segment_within_one_unit() {
    let from = Point::new(-40, 25);
    for stamp in [1u32, 3, 16, 50] {
        for (x, y) in [(300, 7), (-123, 456), (33, -200), (-77, -77), (0, 19), (250, 0)] {
            let to = Point::new(x, y);
            let dx = (to.x - from.x) as f64;
            let dy = (to.y - from.y) as f64;
            let d = (dx * dx + dy * dy).sqrt();
            let step = stamp as f64 / 4.0;
            let points = stroke_points(from, to, stamp);
            assert_eq!(points.len(), (d / step).floor() as usize + 1);
            for (k, p) in points.iter().enumerate() {
                let ex = from.x as f64 + k as f64 * step * dx / d;
                let ey = from.y as f64 + k as f64 * step * dy / d;
                assert!((p.x as f64 - ex).abs() < 1.0 + 1e-9);
                assert!((p.y as f64 - ey).abs() < 1.0 + 1e-9);
                assert!((p.x - from.x).abs() as f64 <= (ex - from.x as f64).abs() + 1e-9);
                assert!((p.y - from.y).abs() as f64 <= (ey - from.y as f64).abs() + 1e-9);
            }
            let last = points[points.len() - 1];
            let left = ((to.x - last.x) as f64).hypot((to.y - last.y) as f64);
            assert!(left < step + 2.0);
        }
    }
}

#[test]
fn stamp_count_is_the_distance_in_quarter_stamps_rounded_up() {
    for d in 1..200 {
        let points = stroke_points(Point::new(0, 0), Point::new(0, d), 16);
        let expected = if d < 4 {
            1
        } else if d % 4 == 0 {
            d / 4 + 1
        } else {
            (d + 3) / 4
        };
        assert_eq!(points.len() as i32, expected);
    }
}
