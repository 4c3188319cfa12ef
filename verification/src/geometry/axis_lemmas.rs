//! Vectors along the axes, on which the arithmetic is exact.
use vstd::prelude::*;
use crate::fixed::{Fixed, SCALE, abs, sat};
use crate::fixed_lemmas::{lemma_mul_by_int, lemma_trunc_div_of_multiple};
use super::vector::LIFT;
use crate::isqrt::lemma_isqrt_of_square;
use super::R3;

verus! {

/// `axis` is one of the three unit vectors along the axes.
pub open spec fn is_axis(axis: R3) -> bool {
    axis == R3::spec_x() || axis == R3::spec_y() || axis == R3::spec_z()
}

/// The vector that has `a` as its coordinate on `axis` and zero elsewhere.
pub open spec fn spec_along(a: Fixed, axis: R3) -> R3 {
    R3 {
        x: if axis.x@ != 0 {
            a
        } else {
            Fixed::spec_zero()
        },
        y: if axis.y@ != 0 {
            a
        } else {
            Fixed::spec_zero()
        },
        z: if axis.z@ != 0 {
            a
        } else {
            Fixed::spec_zero()
        },
    }
}

/// A scalar times a unit vector along an axis is exact.
pub proof fn lemma_times_axis(a: Fixed, axis: R3)
    requires
        is_axis(axis),
    ensures
        a.spec_times(axis) == spec_along(a, axis),
{
    lemma_mul_by_int(1, a);
    lemma_mul_by_int(0, a);
}

/// A scalar times a vector along an axis lies along that axis.
pub proof fn lemma_times_along(s: Fixed, a: Fixed, axis: R3)
    requires
        is_axis(axis),
    ensures
        s.spec_times(spec_along(a, axis)) == spec_along(s.spec_mul(a), axis),
{
    lemma_mul_by_int(0, s);
}

/// The inner product of two vectors along one axis is the product of their
/// coordinates on it.
pub proof fn lemma_dot_along(a: Fixed, b: Fixed, axis: R3)
    requires
        is_axis(axis),
    ensures
        spec_along(a, axis).spec_dot(spec_along(b, axis)) == a.spec_mul(b),
{
    lemma_mul_by_int(0, Fixed::spec_zero());
    lemma_mul_by_int(0, a);
    lemma_mul_by_int(0, b);
}

/// The length of a vector along an axis is the magnitude of its coordinate.
pub proof fn lemma_norm_along(a: Fixed, axis: R3)
    requires
        is_axis(axis),
    ensures
        spec_along(a, axis).spec_norm()@ == sat(abs(a@)),
{
    let v = spec_along(a, axis);
    assert(v.spec_sum_sq() == abs(a@) * abs(a@)) by (nonlinear_arith)
        requires
            v.spec_sum_sq() == v.x@ * v.x@ + v.y@ * v.y@ + v.z@ * v.z@,
            (v.x@ == a@ && v.y@ == 0 && v.z@ == 0) || (v.x@ == 0 && v.y@ == a@ && v.z@ == 0) || (v.x@
                == 0 && v.y@ == 0 && v.z@ == a@),
            abs(a@) == a@ || abs(a@) == -a@,
    ;
    lemma_isqrt_of_square(abs(a@));
}

/// A raw coordinate doubled until its magnitude is at least `LIFT`.
pub open spec fn spec_lift(a: int) -> int
    decreases 2 * LIFT - abs(a),
{
    if a == 0 || abs(a) >= LIFT {
        a
    } else {
        spec_lift(2 * a)
    }
}

/// Lifting a vector along an axis lifts its one coordinate, which keeps its
/// sign.
proof fn lemma_lifted_along(a: Fixed, axis: R3)
    requires
        is_axis(axis),
    ensures
        i64::MIN <= spec_lift(a@) <= i64::MAX,
        a@ > 0 ==> spec_lift(a@) > 0,
        a@ < 0 ==> spec_lift(a@) < 0,
        spec_along(a, axis).spec_lifted() == spec_along(
            Fixed { raw: spec_lift(a@) as i64 },
            axis,
        ),
    decreases 2 * LIFT - abs(a@),
{
    let v = spec_along(a, axis);
    assert(v.spec_reach() == abs(a@));
    if !(a@ == 0 || abs(a@) >= LIFT) {
        let twice = Fixed { raw: (2 * a@) as i64 };
        lemma_lifted_along(twice, axis);
        assert(v.spec_doubled() == spec_along(twice, axis));
    }
}

/// Normalizing a vector along an axis gives the unit vector along the axis,
/// or its opposite where the coordinate is negative.
pub proof fn lemma_normalize_along(a: Fixed, axis: R3)
    requires
        is_axis(axis),
        a@ != 0,
    ensures
        spec_along(a, axis).spec_normalize() == spec_along(
            Fixed::spec_from_int(
                if a@ < 0 {
                    -1
                } else {
                    1
                },
            ),
            axis,
        ),
{
    lemma_lifted_along(a, axis);
    let b = Fixed { raw: spec_lift(a@) as i64 };
    let w = spec_along(b, axis);
    let m = abs(b@);
    assert(w.spec_sum_sq() == m * m) by (nonlinear_arith)
        requires
            w.spec_sum_sq() == w.x@ * w.x@ + w.y@ * w.y@ + w.z@ * w.z@,
            (w.x@ == b@ && w.y@ == 0 && w.z@ == 0) || (w.x@ == 0 && w.y@ == b@ && w.z@ == 0) || (w.x@
                == 0 && w.y@ == 0 && w.z@ == b@),
            m == b@ || m == -b@,
    ;
    lemma_isqrt_of_square(m);
    let k: int = if a@ < 0 {
        -SCALE
    } else {
        SCALE as int
    };
    lemma_trunc_div_of_multiple(k, m);
    assert(k * m == b@ * SCALE) by (nonlinear_arith)
        requires
            (k == SCALE && m == b@) || (k == -SCALE && m == -b@),
    ;
    lemma_trunc_div_of_multiple(0, m);
    assert(0 * m == 0);
    assert(0 * SCALE == 0);
}

/// The three axes are of length one and at right angles to one another.
pub proof fn lemma_axes_orthonormal()
    ensures
        R3::spec_x().spec_dot(R3::spec_y()) == Fixed::spec_zero(),
        R3::spec_x().spec_dot(R3::spec_z()) == Fixed::spec_zero(),
        R3::spec_y().spec_dot(R3::spec_z()) == Fixed::spec_zero(),
        R3::spec_x().spec_dot(R3::spec_x()) == Fixed::spec_one(),
        R3::spec_y().spec_dot(R3::spec_y()) == Fixed::spec_one(),
        R3::spec_z().spec_dot(R3::spec_z()) == Fixed::spec_one(),
        R3::spec_x().spec_norm() == Fixed::spec_one(),
        R3::spec_y().spec_norm() == Fixed::spec_one(),
        R3::spec_z().spec_norm() == Fixed::spec_one(),
{
    let one = Fixed::spec_one();
    let zero = Fixed::spec_zero();
    lemma_mul_by_int(1, one);
    lemma_mul_by_int(0, one);
    lemma_mul_by_int(0, zero);
    lemma_norm_along(one, R3::spec_x());
    lemma_norm_along(one, R3::spec_y());
    lemma_norm_along(one, R3::spec_z());
}

} // verus!
