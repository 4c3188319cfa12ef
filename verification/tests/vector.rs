use raycaster::fixed::Fixed;
use raycaster::geometry::{Ray, R3, X, Y, Z};

const ONE: i64 = 1099511627776;

fn fx(v: f64) -> Fixed {
    Fixed::from_raw((v * 1099511627776.0).round() as i64)
}

fn fl(v: Fixed) -> f64 {
    v.raw as f64 / 1099511627776.0
}

fn v3(x: f64, y: f64, z: f64) -> R3 {
    R3::new(fx(x), fx(y), fx(z))
}

fn raw3(x: i64, y: i64, z: i64) -> R3 {
    R3::new(Fixed::from_raw(x), Fixed::from_raw(y), Fixed::from_raw(z))
}

#[test]
fn new_keeps_the_coordinates() {
    let v = R3::new(fx(1.0), fx(-2.0), fx(3.5));
    assert_eq!(v.x, fx(1.0));
    assert_eq!(v.y, fx(-2.0));
    assert_eq!(v.z, fx(3.5));
    assert_eq!(R3::zero(), raw3(0, 0, 0));
}

#[test]
fn axes_are_the_unit_vectors() {
    assert_eq!(X(), raw3(ONE, 0, 0));
    assert_eq!(Y(), raw3(0, ONE, 0));
    assert_eq!(Z(), raw3(0, 0, ONE));
}

#[test]
fn axes_are_orthonormal() {
    assert_eq!(X().dot(Y()).raw, 0);
    assert_eq!(X().dot(Z()).raw, 0);
    assert_eq!(Y().dot(Z()).raw, 0);
    assert_eq!(X().dot(X()).raw, ONE);
    assert_eq!(Y().dot(Y()).raw, ONE);
    assert_eq!(Z().dot(Z()).raw, ONE);
    assert_eq!(X().norm().raw, ONE);
    assert_eq!(Y().norm().raw, ONE);
    assert_eq!(Z().norm().raw, ONE);
}

#[test]
fn add_and_sub_work_by_coordinate() {
    let a = v3(1.0, 2.0, 3.0);
    let b = v3(0.5, -4.0, 10.0);
    assert_eq!(a.add(b), v3(1.5, -2.0, 13.0));
    assert_eq!(a.sub(b), v3(0.5, 6.0, -7.0));
    assert_eq!(a.add(R3::zero()), a);
}

#[test]
fn add_saturates_each_coordinate() {
    let big = raw3(i64::MAX, i64::MIN, 5);
    let step = raw3(1, -1, 1);
    assert_eq!(big.add(step), raw3(i64::MAX, i64::MIN, 6));
}

#[test]
fn scale_multiplies_each_coordinate() {
    let v = v3(1.0, -2.0, 0.5);
    assert_eq!(v.scale(fx(3.0)), v3(3.0, -6.0, 1.5));
    assert_eq!(v.scale(fx(-0.5)), v3(-0.5, 1.0, -0.25));
}

#[test]
fn scale_is_the_same_from_either_side() {
    let vectors = [v3(1.0, -2.0, 0.5), raw3(3, -3, 1), raw3(i64::MAX, i64::MIN, 12345678901)];
    let scalars = [fx(3.0), fx(-0.5), fx(0.3333), Fixed::from_raw(1), Fixed::from_raw(i64::MIN)];
    for v in vectors {
        for s in scalars {
            let right = v.scale(s);
            let left = s.times(v);
            assert_eq!(right.x, left.x);
            assert_eq!(right.y, left.y);
            assert_eq!(right.z, left.z);
        }
    }
}

#[test]
fn dot_of_two_vectors() {
    assert_eq!(v3(1.0, 2.0, 3.0).dot(v3(4.0, -5.0, 6.0)), fx(12.0));
    assert_eq!(v3(0.5, 0.5, 0.0).dot(v3(0.5, 0.5, 9.0)), fx(0.5));
    assert_eq!(v3(1.0, 2.0, 3.0).dot(R3::zero()), fx(0.0));
}

#[test]
fn dot_saturates_once_after_the_sum() {
    let a = raw3(i64::MAX, i64::MAX, 0);
    let b = raw3(i64::MAX, i64::MIN, 0);
    // The two products cancel up to one factor: nothing saturates on the way.
    assert_eq!(a.dot(b).raw, -8388607);
    assert_eq!(a.dot(a).raw, i64::MAX);
    assert_eq!(raw3(i64::MIN, i64::MIN, i64::MIN).dot(raw3(i64::MIN, i64::MIN, i64::MIN)).raw, i64::MAX);
    assert_eq!(raw3(i64::MIN, i64::MIN, i64::MIN).dot(raw3(i64::MAX, i64::MAX, i64::MAX)).raw, i64::MIN);
}

#[test]
fn dot_is_rounded_once() {
    // Each product alone would round to zero; their sum does not.
    let a = raw3(1 << 20, 1 << 20, 1 << 20);
    let b = raw3(1 << 19, 1 << 19, 0);
    assert_eq!(a.x.mul(b.x).raw, 0);
    assert_eq!(a.dot(b).raw, 1);
    assert_eq!(a.dot(raw3(-(1 << 19), -(1 << 19), 0)).raw, -1);
    assert_eq!(raw3(3, 3, 3).dot(raw3(1 << 39, 1 << 39, 1 << 39)).raw, 4);
}

#[test]
fn norm_of_a_pythagorean_triple() {
    assert_eq!(v3(3.0, 4.0, 0.0).norm(), fx(5.0));
    assert_eq!(v3(0.0, -3.0, 4.0).norm(), fx(5.0));
    assert_eq!(v3(2.0, 3.0, 6.0).norm(), fx(7.0));
}

#[test]
fn norm_rounds_down() {
    assert_eq!(v3(1.0, 1.0, 1.0).norm().raw, 1904410002820);
    assert_eq!(raw3(1, 1, 0).norm().raw, 1);
    assert_eq!(raw3(1, 1, 1).norm().raw, 1);
    assert_eq!(raw3(2, 2, 1).norm().raw, 3);
}

#[test]
fn norm_of_zero_is_zero() {
    assert_eq!(R3::zero().norm().raw, 0);
}

#[test]
fn norm_saturates() {
    assert_eq!(raw3(i64::MAX, i64::MAX, i64::MAX).norm().raw, i64::MAX);
    assert_eq!(raw3(i64::MIN, 0, 0).norm().raw, i64::MAX);
    assert_eq!(raw3(i64::MAX, 0, 0).norm().raw, i64::MAX);
}

#[test]
fn normalize_exact_values() {
    assert_eq!(v3(0.0, 0.0, 2.0).normalize(), Z());
    assert_eq!(v3(-7.0, 0.0, 0.0).normalize(), fx(-1.0).times(X()));
    assert_eq!(v3(3.0, 4.0, 0.0).normalize(), raw3(659706976665, 879609302220, 0));
    assert_eq!(v3(1.0, 2.0, 3.0).normalize(), raw3(293856843136, 587713686273, 881570529409));
}

#[test]
fn normalized_vectors_have_unit_norm() {
    let vectors = [
        v3(1.0, 2.0, 3.0),
        v3(-3.0, 1.0, 8.0),
        v3(1.0, 0.0, 0.0),
        v3(0.6, -0.8, 0.0),
        v3(1000.0, -2000.0, 12345.678),
        v3(-1.0, 0.75, 1.0),
        v3(1.0, 1.0, 1.0),
        raw3(1, 1, 0),
        raw3(0, 0, -1),
        raw3(3, -2, 1),
        raw3(i64::MAX, i64::MIN, i64::MAX),
        raw3(i64::MIN, 1, 0),
    ];
    for v in vectors {
        let n = v.normalize().norm();
        assert!(ONE - 3 <= n.raw && n.raw <= ONE);
        assert!((fl(n) - 1.0).abs() < 1e-9);
    }
}

#[test]
fn normalize_of_zero_is_zero() {
    assert_eq!(R3::zero().normalize(), R3::zero());
}

#[test]
fn normalize_does_not_depend_on_the_length() {
    // The shortest vectors there are normalize as the long ones do.
    let u = raw3(1, 1, 0).normalize();
    assert_eq!(u, raw3(777472127993, 777472127993, 0));
    assert_eq!(u, v3(1.0, 1.0, 0.0).normalize());
    assert_eq!(u, v3(4096.0, 4096.0, 0.0).normalize());
    assert_eq!(u.norm().raw, ONE - 2);
    assert_eq!(raw3(1, 0, 1).normalize(), raw3(777472127993, 0, 777472127993));
    assert_eq!(raw3(3, 0, 4).normalize(), v3(3.0, 0.0, 4.0).normalize());
    assert_eq!(raw3(3 << 20, 0, 4 << 20).normalize(), v3(3.0, 0.0, 4.0).normalize());
}

#[test]
fn normalize_of_the_longest_vectors() {
    assert_eq!(
        raw3(i64::MAX, i64::MAX, i64::MAX).normalize(),
        raw3(634803334273, 634803334273, 634803334273)
    );
    assert_eq!(
        raw3(i64::MIN, i64::MIN, i64::MIN).normalize(),
        raw3(-634803334273, -634803334273, -634803334273)
    );
    assert_eq!(raw3(i64::MIN, 0, 0).normalize(), raw3(-ONE, 0, 0));
    assert_eq!(raw3(0, i64::MAX, 0).normalize(), raw3(0, ONE, 0));
}

#[test]
fn normalize_is_within_a_raw_unit_of_the_exact_quotient() {
    let u = v3(3.0, 0.0, 4.0).normalize();
    assert_eq!(u, raw3(659706976665, 0, 879609302220));
    assert!((fl(u.x) - 0.6).abs() < 1e-12);
    assert!((fl(u.z) - 0.8).abs() < 1e-12);
}

#[test]
fn normalize_of_a_negated_vector_is_the_negated_result() {
    let vectors = [v3(1.0, 2.0, 3.0), raw3(1, -1, 0), raw3(i64::MAX, 5, -7), v3(-0.3, 0.2, 10.0)];
    for v in vectors {
        let negated = Fixed::from_int(-1).times(v);
        assert_eq!(negated.normalize(), Fixed::from_int(-1).times(v.normalize()));
    }
}

#[test]
fn normalize_of_a_normalized_vector_changes_at_most_a_few_raw_units() {
    let vectors = [v3(1.0, 2.0, 3.0), raw3(1, -1, 0), raw3(i64::MAX, 5, -7), v3(-0.3, 0.2, 10.0)];
    for v in vectors {
        let once = v.normalize();
        let twice = once.normalize();
        assert!((once.x.raw - twice.x.raw).abs() <= 4);
        assert!((once.y.raw - twice.y.raw).abs() <= 4);
        assert!((once.z.raw - twice.z.raw).abs() <= 4);
    }
}

#[test]
fn ray_new_normalizes_the_direction() {
    let r = Ray::new(v3(1.0, 2.0, 3.0), v3(0.0, 0.0, 2.0));
    assert_eq!(r.pt, v3(1.0, 2.0, 3.0));
    assert_eq!(r.dir, Z());
    let s = Ray::new(R3::zero(), v3(3.0, 4.0, 0.0));
    assert_eq!(s.dir, raw3(659706976665, 879609302220, 0));
    assert_ne!(s.dir, v3(3.0, 4.0, 0.0));
}

#[test]
fn operators_are_the_named_operations() {
    let a = v3(1.0, 2.0, 3.0);
    let b = v3(0.5, -4.0, 10.0);
    let s = fx(-0.75);
    assert_eq!(a + b, a.add(b));
    assert_eq!(a - b, a.sub(b));
    assert_eq!(a * s, a.scale(s));
    assert_eq!(s * a, s.times(a));
    assert_eq!(a + b, v3(1.5, -2.0, 13.0));
    assert_eq!(a - b, v3(0.5, 6.0, -7.0));
    assert_eq!(a * s, v3(-0.75, -1.5, -2.25));
}

#[test]
fn vector_times_scalar_is_scalar_times_vector() {
    let vectors = [v3(1.0, -2.0, 0.5), raw3(3, -3, 1), raw3(i64::MAX, i64::MIN, 12345678901)];
    let scalars = [fx(3.0), fx(-0.5), fx(0.3333), Fixed::from_raw(1), Fixed::from_raw(i64::MIN)];
    for v in vectors {
        for s in scalars {
            assert_eq!(v * s, s * v);
        }
    }
}

#[test]
fn ray_new_gives_a_unit_direction_whatever_the_length() {
    let directions = [raw3(1, 1, 0), raw3(1, 0, 1), raw3(i64::MAX, i64::MAX, 1), v3(0.001, 0.0, 0.0)];
    for d in directions {
        let r = Ray::new(R3::zero(), d);
        let n = r.dir.norm().raw;
        assert!(ONE - 3 <= n && n <= ONE);
    }
    // A direction and the same direction 2^40 times as long.
    assert_eq!(Ray::new(R3::zero(), raw3(1, 0, 1)).dir, Ray::new(R3::zero(), v3(1.0, 0.0, 1.0)).dir);
    // A ray built from the direction of a ray.
    let r = Ray::new(R3::zero(), raw3(1, 0, 1));
    let again = Ray::new(r.pt, r.dir);
    assert!((r.dir.x.raw - again.dir.x.raw).abs() <= 4);
    assert!((r.dir.z.raw - again.dir.z.raw).abs() <= 4);
}

#[test]
fn normalize_of_a_whole_multiple_differs_by_one_raw_unit_at_most() {
    let vectors = [raw3(1, 1, 0), raw3(3, -2, 1), raw3(1000, 7, -999), v3(0.3, -0.2, 0.1)];
    for v in vectors {
        let u = v.normalize();
        for k in [2, 3, 7, 1000, 65537] {
            let l = raw3(k * v.x.raw, k * v.y.raw, k * v.z.raw).normalize();
            assert!((l.x.raw - u.x.raw).abs() <= 1);
            assert!((l.y.raw - u.y.raw).abs() <= 1);
            assert!((l.z.raw - u.z.raw).abs() <= 1);
        }
    }
}
