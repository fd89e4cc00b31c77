use ai_cup_22::geometry::{isqrt, Circle, Line, Vec2, Vec2i};

fn v(x: i64, y: i64) -> Vec2 {
    Vec2::new(x, y)
}

#[test]
fn zero_vector_normalizes_to_zero() {
    let z = Vec2::zero().normalize();
    assert_eq!(z, Vec2::zero());
    assert_eq!(Vec2::zero().scaled_to(5000), Vec2::zero());
}

#[test]
fn normalize_gives_unit_length() {
    assert_eq!(v(3000, 4000).normalize(), v(600, 800));
    assert_eq!(v(0, -7).normalize(), v(0, -1000));
    assert_eq!(v(3000, 4000).scaled_to(10000), v(6000, 8000));
}

#[test]
fn short_vectors_normalize_to_unit_length() {
    assert_eq!(v(1, 1).normalize(), v(707, 707));
    assert_eq!(v(1, 0).normalize(), v(1000, 0));
    assert_eq!(v(-1, 2).normalize(), v(-447, 894));
    for &(x, y) in &[(1, 1), (2, 3), (-1, 2), (5, -5), (1, 7)] {
        let n = v(x, y).normalize();
        let sq = n.x * n.x + n.y * n.y;
        assert!(sq >= 998 * 998 && sq < 1001 * 1001);
    }
    let s = v(1, 1).scaled_to(10_000);
    assert_eq!(s, v(7071, 7071));
    let mut l = Line::new(v(0, 0), v(1, 1));
    l.set_length(1000);
    assert_eq!(l.end, v(707, 707));
    assert_eq!(l.length(), 999);
}

#[test]
fn integer_square_root() {
    assert_eq!(isqrt(0), 0);
    assert_eq!(isqrt(1), 1);
    assert_eq!(isqrt(26), 5);
    assert_eq!(isqrt(25), 5);
    assert_eq!(isqrt(24), 4);
    assert_eq!(isqrt(1u128 << 100), 1u64 << 50);
}

#[test]
fn distances_between_points() {
    assert_eq!(v(0, 0).square_distance_to(&v(3000, 4000)), 25_000_000);
    assert_eq!(v(0, 0).distance_to(&v(3000, 4000)), 5000);
    assert_eq!(v(0, 0).distance_to(&v(1, 1)), 1);
    assert_eq!(v(3, 4).length(), 5);
    assert_eq!(v(3, 4).dot(&v(2, -1)), 2);
    assert_eq!(v(3, 4).inverse(), v(-3, -4));
}

#[test]
fn vector_arithmetic_saturates() {
    assert_eq!(v(1, 2).add(&v(3, 4)), v(4, 6));
    assert_eq!(v(1, 2).sub(&v(3, 4)), v(-2, -2));
    assert_eq!(v(1000, -1000).mul_div(3, 2), v(1500, -1500));
    let far = v(500_000_000, 0).add(&v(500_000_000, 0));
    assert_eq!(far.x, ai_cup_22::geometry::COORD_LIMIT);
}

#[test]
fn rotation_by_a_quarter_turn() {
    assert_eq!(v(1000, 0).rotate(0, 10000), v(0, 1000));
    assert_eq!(v(1000, 0).rotate(9511, 3090), v(951, 309));
}

#[test]
fn integer_grid_points() {
    let a = Vec2i::new(1, 2);
    let b = Vec2i::new(4, 6);
    assert_eq!(a.square_distance(&b), 25);
    assert_eq!(Vec2i::zero(), Vec2i::new(0, 0));
    let big = Vec2i::new(i32::MIN, i32::MIN).square_distance(&Vec2i::new(i32::MAX, i32::MAX));
    assert_eq!(big, 2 * (u32::MAX as i128) * (u32::MAX as i128));
}

#[test]
fn degenerate_segment_distance_is_distance_to_start() {
    let l = Line::new(v(1000, 2000), v(1000, 2000));
    let p = v(4000, 6000);
    assert_eq!(l.distance_to_point(&p), p.distance_to(&l.start));
    assert_eq!(l.distance_to_point(&p), 5000);
    assert_eq!(l.length(), 0);
}

#[test]
fn segment_distance_clamps_projection() {
    let l = Line::new(v(0, 0), v(10000, 0));
    assert_eq!(l.distance_to_point(&v(5000, 3000)), 3000);
    assert_eq!(l.distance_to_point(&v(13000, 4000)), 5000);
    assert_eq!(l.distance_to_point(&v(-3000, -4000)), 5000);
    assert!(l.is_within(&v(5000, 3000), 3000));
    assert!(!l.is_closer_than(&v(5000, 3000), 3000));
    assert!(l.is_closer_than(&v(5000, 3000), 3001));
}

#[test]
fn segment_length_and_set_length() {
    let mut l = Line::new(v(0, 0), v(3000, 4000));
    assert_eq!(l.length(), 5000);
    assert_eq!(l.as_vec(), v(3000, 4000));
    l.set_length(10000);
    assert_eq!(l.end, v(6000, 8000));
    assert_eq!(l.start, v(0, 0));
}

#[test]
fn circle_contains_and_intersects() {
    let c = Circle::new(v(0, 0), 5000);
    assert!(c.contains(&v(3000, 4000)));
    assert!(!c.contains(&v(3001, 4000)));
    assert!(!Circle::new(v(0, 0), -1).contains(&v(0, 0)));
    assert!(c.intersects_with(&Circle::new(v(8000, 0), 3000)));
    assert!(!c.intersects_with(&Circle::new(v(8001, 0), 3000)));
}

#[test]
fn intercept_is_symmetric_and_shift_invariant() {
    let l = Line::new(v(0, 0), v(10000, 0));
    let r = Line::new(v(10000, 0), v(0, 0));
    let hit = Circle::new(v(5000, 900), 1000);
    let miss = Circle::new(v(5000, 1500), 1000);
    assert!(hit.intercept_with_line(&l));
    assert!(hit.intercept_with_line(&r));
    assert!(!miss.intercept_with_line(&l));
    assert!(!miss.intercept_with_line(&r));
    let t = v(7000, -2000);
    let lt = Line::new(l.start.add(&t), l.end.add(&t));
    assert!(Circle::new(hit.center.add(&t), 1000).intercept_with_line(&lt));
    assert!(!Circle::new(miss.center.add(&t), 1000).intercept_with_line(&lt));
    // beyond the end, the nearest point is the end itself
    let beyond = Circle::new(v(10800, 0), 1000);
    assert!(beyond.intercept_with_line(&l));
    assert!(beyond.intercept_with_line(&r));
}
