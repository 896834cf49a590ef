use vector2::vector::{Vector, SCALE, TOLERANCE};

#[test]
fn arithmetic() {
    let a = Vector::newi(5, 10);
    let b = Vector::newi(1, -2);
    assert!(a.add(b).x == 6 * SCALE);
    assert!(a.sub(b).y == 12 * SCALE);
}

#[test]
fn equality() {
    assert_eq!(Vector::newi(5, 5), Vector::newi(5, 5));
    assert_ne!(Vector::newi(0, 5), Vector::newi(5, 5));
}

#[test]
fn inverse() {
    let vec = Vector::newi(3, 5);
    let inverse = vec.recip();
    assert!(
        (inverse.x - 333_333_333).abs() < TOLERANCE && (inverse.y - 200_000_000).abs() < TOLERANCE
    );
}

#[test]
fn length() {
    let vec = Vector::x().muli(5);
    assert!((vec.len2() - 25 * SCALE).abs() < TOLERANCE);
    assert!((vec.len() - 5 * SCALE).abs() < TOLERANCE);
}

#[test]
fn scale() {
    let vec = Vector::newi(1, 1);
    let doubled = Vector::newi(2, 2);
    assert_eq!(vec.muli(2), doubled);
    let halved = Vector::new(500_000_000, 500_000_000);
    assert_eq!(vec.divi(2), halved);
}

#[test]
fn clamp() {
    let min = Vector::newi(-10, -2);
    let max = Vector::newi(5, 6);
    let vec = Vector::newi(-11, 3);
    let clamped = vec.clamp(min, max);
    let expected = Vector::newi(-10, 3);
    assert_eq!(clamped, expected);
}

#[test]
fn dot() {
    assert!((Vector::newi(6, 5).dot(Vector::newi(2, -8)) - 28 * SCALE) <= TOLERANCE);
}

#[test]
fn times() {
    let vec = Vector::newi(3, -2);
    let two = Vector::one().muli(2);
    assert_eq!(vec.times(two), vec.muli(2));
}

#[test]
fn constructors() {
    assert_eq!(Vector::zero(), Vector::new(0, 0));
    assert_eq!(Vector::x(), Vector::new(SCALE, 0));
    assert_eq!(Vector::y(), Vector::new(0, SCALE));
    assert_eq!(Vector::one(), Vector::new(SCALE, SCALE));
    let v = Vector::newi(-7, 2);
    assert!(v.x == -7 * SCALE && v.y == 2 * SCALE);
}

#[test]
fn components_and_negation() {
    let v = Vector::newi(3, -4);
    assert_eq!(v.x_comp(), Vector::new(3 * SCALE, 0));
    assert_eq!(v.y_comp(), Vector::new(0, -4 * SCALE));
    assert_eq!(v.neg(), Vector::newi(-3, 4));
}

#[test]
fn cross_product() {
    let c = Vector::newi(2, 0).cross(Vector::newi(0, 3));
    assert_eq!(c, 6 * SCALE);
    let d = Vector::newi(0, 3).cross(Vector::newi(2, 0));
    assert_eq!(d, -6 * SCALE);
}

#[test]
fn dot_formula() {
    // x * other.x + y * other.y, with the components above: 12 - 40.
    assert_eq!(Vector::newi(6, 5).dot(Vector::newi(2, -8)), -28 * SCALE);
}

#[test]
fn normalized() {
    let n = Vector::newi(3, 4).normalize();
    assert_eq!(n, Vector::new(600_000_000, 800_000_000));
    assert!((n.len() - SCALE).abs() < TOLERANCE);
}

#[test]
fn compound_assignment() {
    let mut v = Vector::newi(5, 10);
    v.add_assign(Vector::newi(1, -2));
    assert_eq!(v, Vector::newi(6, 8));
    v.sub_assign(Vector::newi(1, -2));
    assert_eq!(v, Vector::newi(5, 10));
    v.muli_assign(3);
    assert_eq!(v, Vector::newi(15, 30));
    v.divi_assign(3);
    assert_eq!(v, Vector::newi(5, 10));
    v.mul_assign(2 * SCALE);
    assert_eq!(v, Vector::newi(10, 20));
    v.div_assign(2 * SCALE);
    assert_eq!(v, Vector::newi(5, 10));
}

#[test]
fn fixed_point_scalars() {
    // One and a half units as a fixed-point scalar.
    let v = Vector::newi(2, -4).mul(1_500_000_000);
    assert_eq!(v, Vector::new(3 * SCALE, -6 * SCALE));
    let h = Vector::newi(1, 1).div(2 * SCALE);
    assert_eq!(h, Vector::new(500_000_000, 500_000_000));
}

#[test]
fn truncation_toward_zero() {
    let v = Vector::newi(-3, 7).divi(2);
    assert_eq!(v.x, -1_500_000_000);
    assert_eq!(v.y, 3_500_000_000);
    let w = Vector::new(-5, 5).divi(2);
    assert_eq!(w.x, -2);
    assert_eq!(w.y, 2);
}

#[test]
fn equality_boundary() {
    // A difference of one step less than the tolerance still compares
    // equal; exactly the tolerance does not.
    assert_eq!(Vector::new(0, 0), Vector::new(TOLERANCE - 1, 0));
    assert_ne!(Vector::new(0, 0), Vector::new(TOLERANCE, 0));
}

#[test]
fn addition_commutes() {
    let a = Vector::newi(12, -7);
    let b = Vector::new(250_000_000, 4 * SCALE);
    assert_eq!(a.add(b), b.add(a));
    assert!(a.add(b).x == b.add(a).x && a.add(b).y == b.add(a).y);
}

#[test]
fn addition_inverse() {
    let a = Vector::new(123_456_789, -987_654_321);
    let b = Vector::newi(42, 17);
    let back = a.add(b).sub(b);
    assert!(back.x == a.x && back.y == a.y);
    assert_eq!(back, a);
}

#[test]
fn scale_divide_round_trip() {
    let v = Vector::newi(7, -9);
    let s = 3 * SCALE;
    assert_eq!(v.mul(s).div(s), v);
    assert_eq!(v.muli(7).divi(7), v);
}

#[test]
fn length_squared_consistent() {
    let v = Vector::newi(3, 4);
    let q = v.len2();
    let l = v.len();
    assert!(q >= 0 && l >= 0);
    assert!((q - l / SCALE * l).abs() < TOLERANCE);
}

#[test]
fn reciprocal_involution() {
    let v = Vector::newi(3, 5);
    assert_eq!(v.recip().recip(), v);
    let w = Vector::new(-2_500_000_000, 400_000_000);
    assert_eq!(w.recip().recip(), w);
}

#[test]
fn times_matches_scalar_multiply() {
    let v = Vector::newi(3, -2);
    let k: i64 = 2_500_000_000;
    assert_eq!(v.times(Vector::one().mul(k)), v.mul(k));
}

#[test]
fn clamp_within_bounds() {
    let min = Vector::newi(-1, -1);
    let max = Vector::newi(1, 1);
    for (x, y) in [(-5, 0), (0, 0), (5, 5), (-5, 5), (2, -2)] {
        let c = Vector::newi(x, y).clamp(min, max);
        assert!(min.x <= c.x && c.x <= max.x);
        assert!(min.y <= c.y && c.y <= max.y);
    }
}

#[test]
fn equality_not_transitive() {
    // Known limitation of tolerance-based equality: two steps of six
    // tenths of the tolerance chain into a difference beyond it.
    let a = Vector::new(0, 0);
    let b = Vector::new(600, 0);
    let c = Vector::new(1200, 0);
    assert_eq!(a, b);
    assert_eq!(b, c);
    assert_ne!(a, c);
}

#[test]
fn normalize_diagonal() {
    let n = Vector::newi(1, 1).normalize();
    // 1 / sqrt(2), truncated to steps.
    assert_eq!(n, Vector::new(707_106_781, 707_106_781));
    assert!((n.len() - SCALE).abs() < TOLERANCE);
}

#[test]
fn axes_are_orthogonal() {
    assert_eq!(Vector::x().dot(Vector::y()), 0);
    assert_eq!(Vector::x().cross(Vector::y()), SCALE);
    assert_eq!(Vector::y().cross(Vector::x()), -SCALE);
}

#[test]
fn clamp_crossed_bounds() {
    // With a lower bound above the upper one the formula
    // max(min_bound, min(max_bound, value)) yields the lower bound.
    let min = Vector::newi(5, 5);
    let max = Vector::newi(3, 3);
    let c = Vector::zero().clamp(min, max);
    assert_eq!(c, Vector::newi(5, 5));
}
