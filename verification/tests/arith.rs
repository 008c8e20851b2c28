use worldgen::elevation::{add_saturating, average4, BORDER_LEVEL, INTERIOR_LEVEL, UNIT};
use worldgen::util::{modulo, wrap, Point};

#[test]
fn modulo_of_positive_modulus_is_least_residue() {
    assert_eq!(modulo(5, 3), 2);
    assert_eq!(modulo(-1, 4), 3);
    assert_eq!(modulo(-5, 3), 1);
    assert_eq!(modulo(0, 7), 0);
    assert_eq!(modulo(7, 7), 0);
    assert_eq!(modulo(-7, 7), 0);
    assert_eq!(modulo(200, 200), 0);
    assert_eq!(modulo(-201, 200), 199);
}

#[test]
fn modulo_of_negative_modulus_lies_above_it() {
    assert_eq!(modulo(5, -3), -1);
    assert_eq!(modulo(-5, -3), -2);
    assert_eq!(modulo(6, -3), 0);
    assert_eq!(modulo(0, -3), 0);
}

#[test]
fn modulo_at_the_ends_of_the_range() {
    assert_eq!(modulo(i32::MIN, -1), 0);
    assert_eq!(modulo(i32::MAX, i32::MAX), 0);
    assert_eq!(modulo(i32::MAX - 1, i32::MAX), i32::MAX - 1);
    assert_eq!(modulo(i32::MIN, i32::MAX), i32::MAX - 1);
    assert_eq!(modulo(i32::MIN, i32::MIN), 0);
    assert_eq!(modulo(i32::MAX, i32::MIN), -1);
}

#[test]
fn modulo_matches_the_double_remainder_formula() {
    for a in -20i32..=20 {
        for b in [-7i32, -3, -1, 1, 2, 5, 9] {
            assert_eq!(modulo(a, b), ((a % b) + b) % b);
        }
    }
}

#[test]
fn wrap_brings_wide_coordinates_into_range() {
    assert_eq!(wrap(0, 4), 0);
    assert_eq!(wrap(4, 4), 0);
    assert_eq!(wrap(-1, 4), 3);
    assert_eq!(wrap(5_000_000_003, 4), 3);
    assert_eq!(wrap(-5_000_000_003, 4), 1);
    assert_eq!(wrap(i64::MAX, i32::MAX), 1);
    assert_eq!(wrap(i64::MIN, 1), 0);
}

#[test]
fn point_is_a_plain_pair() {
    let p = Point { x: 3, y: -4 };
    let q = p;
    assert_eq!(p, q);
    assert_eq!(q.x, 3);
    assert_eq!(q.y, -4);
    assert_ne!(p, Point { x: -4, y: 3 });
}

#[test]
fn named_levels_are_fractions_of_the_unit() {
    assert_eq!(UNIT, 1_000_000);
    assert_eq!(BORDER_LEVEL as f64 / UNIT as f64, -1.5);
    assert_eq!(INTERIOR_LEVEL as f64 / UNIT as f64, -0.5);
}

#[test]
fn add_saturating_sticks_at_the_ends() {
    assert_eq!(add_saturating(1, 2), 3);
    assert_eq!(add_saturating(-5, 2), -3);
    assert_eq!(add_saturating(i64::MAX, 1), i64::MAX);
    assert_eq!(add_saturating(i64::MAX - 1, 1), i64::MAX);
    assert_eq!(add_saturating(i64::MIN, -1), i64::MIN);
    assert_eq!(add_saturating(i64::MIN, i64::MAX), -1);
    assert_eq!(add_saturating(i64::MAX, i64::MAX), i64::MAX);
    assert_eq!(add_saturating(i64::MIN, i64::MIN), i64::MIN);
}

#[test]
fn average4_rounds_toward_zero() {
    assert_eq!(average4(1, 2, 3, 4), 2);
    assert_eq!(average4(4, 4, 4, 4), 4);
    assert_eq!(average4(-1, -1, -1, 0), 0);
    assert_eq!(average4(-5, -5, -5, -4), -4);
    assert_eq!(average4(1, 1, 1, 0), 0);
    assert_eq!(average4(i64::MAX, i64::MAX, i64::MAX, i64::MAX), i64::MAX);
    assert_eq!(average4(i64::MIN, i64::MIN, i64::MIN, i64::MIN), i64::MIN);
    assert_eq!(average4(i64::MAX, i64::MIN, i64::MAX, i64::MIN), 0);
}

#[test]
fn point_label_is_written_like_a_call() {
    let text = |p: Point| p.label().into_iter().collect::<String>();
    assert_eq!(text(Point { x: 3, y: -4 }), "Point(3, -4)");
    assert_eq!(text(Point { x: 0, y: 0 }), "Point(0, 0)");
    assert_eq!(text(Point { x: 10, y: 109 }), "Point(10, 109)");
    assert_eq!(text(Point { x: i32::MIN, y: i32::MAX }), "Point(-2147483648, 2147483647)");
    for v in [-1000, -999, -10, -9, -1, 1, 9, 10, 99, 100, 101, 65_536, 1_000_000_007] {
        assert_eq!(text(Point { x: v, y: -v }), format!("Point({}, {})", v, -v));
    }
}
