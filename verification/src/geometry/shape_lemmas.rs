//! What holds of the intersection of a ray and a sphere.
use vstd::prelude::*;
use crate::fixed::{Fixed, SCALE};
use crate::fixed_lemmas::{lemma_mul_by_int, lemma_root_of_square, lemma_square_order};
use crate::isqrt::{isqrt, lemma_isqrt_floor, lemma_square_le};
use super::reflect_lemmas::{lemma_reflect_long, spec_near_normal};
use super::shape::{spec_reflect, Sphere};
use super::axis_lemmas::{
    is_axis,
    lemma_dot_along,
    lemma_norm_along,
    lemma_normalize_along,
    lemma_times_along,
    lemma_times_axis,
    spec_along,
};
use super::vector::LIFT;
use super::vector_lemmas::{
    lemma_coordinate_bound,
    lemma_norm_bound,
    lemma_normalize_again,
    lemma_normalize_doubled,
    lemma_normalize_exact,
    lemma_normalize_unit,
};
use super::{Intersect, Ray, R3};

verus! {

/// The ray that starts on `axis` through the center of `s`, one unit
/// outside the sphere, and runs toward the center.
pub open spec fn spec_head_on(s: Sphere, axis: R3) -> Ray {
    Ray::spec_new(
        s.center.spec_add(s.radius.spec_add(Fixed::spec_one()).spec_times(axis)),
        Fixed::spec_from_int(-1).spec_times(axis),
    )
}

/// How far behind the center the hit point of a head-on ray lies: one
/// unit, and what the root of the squared radius lost to rounding.
pub open spec fn spec_overshoot(s: Sphere) -> Fixed {
    Fixed::spec_one().spec_add(s.radius.spec_sub(s.radius.spec_mul(s.radius).spec_sqrt()))
}

/// A ray that runs head-on at a sphere along one of the axes hits it,
/// whatever the radius. The hit point lies on the line of the ray behind
/// the center, and its distance from the center is not the radius: it is
/// one unit, and what the root of the squared radius lost to rounding. The
/// ray that leaves the hit point runs on in the direction of the incoming
/// ray. This holds of every sphere whose radius and whose center's
/// coordinates do not exceed 2^21 units.
pub proof fn lemma_head_on_hit(s: Sphere, axis: R3)
    requires
        is_axis(axis),
        0 < s.radius@ <= 0x2000_0000_0000_0000,
        s.center.spec_within(0x2000_0000_0000_0000),
    ensures
        s.spec_hits(spec_head_on(s, axis)),
        s.spec_intersect(spec_head_on(s, axis)) == Some(
            Ray {
                pt: s.center.spec_sub(spec_overshoot(s).spec_times(axis)),
                dir: spec_head_on(s, axis).dir,
            },
        ),
        spec_head_on(s, axis).dir == Fixed::spec_from_int(-1).spec_times(axis),
        s.spec_hit_point(spec_head_on(s, axis)).spec_sub(s.center).spec_norm() == spec_overshoot(s),
        SCALE <= spec_overshoot(s)@ <= SCALE + s.radius@,
{
    let c = s.center;
    let rad = s.radius;
    let r = spec_head_on(s, axis);
    let minus = Fixed::spec_from_int(-1);
    let back = spec_along(minus, axis);
    let k = rad.spec_add(Fixed::spec_one());
    let root = rad.spec_mul(rad).spec_sqrt();
    let e = spec_overshoot(s);
    lemma_root_of_square(rad);
    lemma_times_axis(minus, axis);
    lemma_times_axis(k, axis);
    lemma_times_axis(e, axis);
    // The direction of the ray is of unit length, and so is its heading.
    lemma_normalize_along(minus, axis);
    assert(r.dir == back);
    let l = Sphere::spec_heading(r);
    assert(l == back);
    // From the center to the origin of the ray.
    let m = r.pt.spec_sub(c);
    assert(m == spec_along(k, axis));
    lemma_dot_along(minus, k, axis);
    lemma_mul_by_int(-1, k);
    let d = s.spec_projection(r);
    assert(d@ == -k@);
    lemma_norm_along(k, axis);
    let n = m.spec_norm();
    assert(n == k);
    // The discriminant is the square of the radius.
    lemma_square_order(rad, k);
    assert(d == k.spec_neg());
    assert(d.spec_mul(d) == n.spec_mul(n));
    let x = s.spec_discriminant(r);
    assert(x == rad.spec_mul(rad));
    assert(s.spec_hits(r));
    // The hit point.
    lemma_mul_by_int(-2, d);
    let dist = s.spec_distance(r);
    assert(dist@ == 2 * k@ - root@);
    assert(e@ == k@ - root@);
    lemma_times_along(dist, minus, axis);
    lemma_mul_by_int(-1, dist);
    let p = s.spec_hit_point(r);
    assert(p == r.pt.spec_add(spec_along(dist.spec_mul(minus), axis)));
    assert(p == c.spec_sub(spec_along(e, axis)));
    // The normal points back along the axis.
    let q = p.spec_sub(c);
    assert(q == spec_along(e.spec_neg(), axis));
    lemma_norm_along(e.spec_neg(), axis);
    lemma_normalize_along(e.spec_neg(), axis);
    let normal = s.spec_normal(r);
    assert(normal == back);
    // The mirror image of the heading about the normal.
    lemma_dot_along(minus, minus, axis);
    lemma_mul_by_int(-1, minus);
    let a = normal.spec_dot(l);
    assert(a == Fixed::spec_one());
    lemma_times_along(a, minus, axis);
    lemma_mul_by_int(1, minus);
    lemma_times_along(Fixed::spec_from_int(2), minus, axis);
    lemma_mul_by_int(2, minus);
    assert(spec_reflect(normal, l) == back);
    assert(s.spec_reflected(r) == Ray { pt: p, dir: back });
}

/// Reflection keeps rays well-formed: whatever the sphere and wherever the
/// ray starts, the ray that a ray of nonzero direction reflects is of unit
/// direction.
pub proof fn lemma_reflected_ray_unit(s: Sphere, r: Ray)
    requires
        r.dir != R3::spec_zero(),
    ensures
        s.spec_reflected(r).spec_wf(),
        s.spec_intersect(r) matches Some(out) ==> out.spec_wf(),
{
    // The heading is of unit length.
    lemma_normalize_unit(r.dir);
    let l = Sphere::spec_heading(r);
    // The normal is of unit length, or zero where the hit point is the
    // center.
    let q = s.spec_hit_point(r).spec_sub(s.center);
    lemma_normalize_unit(q);
    let n = s.spec_normal(r);
    assert(spec_near_normal(n));
    // The mirrored direction is not zero, and the ray along it is of unit
    // direction.
    lemma_reflect_long(n, l);
    let m = spec_reflect(n, l);
    lemma_normalize_unit(m);
    assert(m != R3::spec_zero()) by {
        lemma_norm_bound(R3::spec_zero(), 0);
    }
}

/// The square of the distance, in raw units, between the center of `s`
/// and the line through the origin of `r` along `axis`.
pub open spec fn spec_gap_sq(s: Sphere, r: Ray, axis: R3) -> int {
    let m = r.pt.spec_sub(s.center);
    (if axis.x@ != 0 {
        0
    } else {
        m.x@ * m.x@
    }) + (if axis.y@ != 0 {
        0
    } else {
        m.y@ * m.y@
    }) + (if axis.z@ != 0 {
        0
    } else {
        m.z@ * m.z@
    })
}

/// A ray along an axis hits a sphere if its line passes the center within
/// the radius, and misses it if the line passes further away, but for a
/// margin that rounding takes: with the squares in raw units, it hits if
/// the square of the distance is at least one unit below the square of the
/// radius, and misses if it exceeds the square of the radius by one unit
/// and twice the distance from the center to the origin of the ray. This
/// holds where the origin of the ray and the center lie within 512 units
/// of zero in every coordinate and the radius is at most 1024 units.
pub proof fn lemma_axis_ray(s: Sphere, r: Ray, axis: R3)
    requires
        is_axis(axis),
        r.dir == axis || r.dir == Fixed::spec_from_int(-1).spec_times(axis),
        r.pt.spec_within(0x2_0000_0000_0000),
        s.center.spec_within(0x2_0000_0000_0000),
        0 <= s.radius@ <= 0x4_0000_0000_0000,
    ensures
        spec_gap_sq(s, r, axis) + SCALE <= s.radius@ * s.radius@ ==> s.spec_hits(r),
        s.radius@ * s.radius@ + SCALE + 2 * r.pt.spec_sub(s.center).spec_norm()@ + 1
            <= spec_gap_sq(s, r, axis) ==> !s.spec_hits(r),
{
    let one = SCALE as int;
    let b = 0x4_0000_0000_0000int;
    let m = r.pt.spec_sub(s.center);
    let rad = s.radius;
    // The heading is the direction of the ray.
    let plus = Fixed::spec_from_int(1);
    let minus = Fixed::spec_from_int(-1);
    lemma_times_axis(plus, axis);
    lemma_times_axis(minus, axis);
    lemma_normalize_along(plus, axis);
    lemma_normalize_along(minus, axis);
    let l = Sphere::spec_heading(r);
    assert(l == r.dir);
    // Along the axis, the inner product picks one coordinate.
    let on = if axis.x@ != 0 {
        m.x
    } else if axis.y@ != 0 {
        m.y
    } else {
        m.z
    };
    lemma_mul_by_int(1, on);
    lemma_mul_by_int(-1, on);
    lemma_mul_by_int(0, m.x);
    lemma_mul_by_int(0, m.y);
    lemma_mul_by_int(0, m.z);
    let d = s.spec_projection(r);
    assert(d@ == on@ || d@ == -on@);
    assert(d@ * d@ == on@ * on@) by (nonlinear_arith)
        requires
            d@ == on@ || d@ == -on@,
    ;
    // The three squares.
    lemma_norm_bound(m, b);
    let n = m.spec_norm();
    let q = m.spec_sum_sq();
    lemma_isqrt_floor(q);
    assert(q == on@ * on@ + spec_gap_sq(s, r, axis));
    assert(b * b == 0x10_0000_0000_0000_0000_0000_0000) by (nonlinear_arith)
        requires
            b == 0x4_0000_0000_0000int,
    ;
    assert((2 * b) * (2 * b) == 4 * (b * b)) by (nonlinear_arith);
    assert(0 <= on@ * on@ <= b * b) by (nonlinear_arith)
        requires
            -b <= on@ <= b,
    ;
    assert(0 <= n@ * n@ <= (2 * b) * (2 * b)) by (nonlinear_arith)
        requires
            0 <= n@ <= 2 * b,
    ;
    assert(0 <= rad@ * rad@ <= b * b) by (nonlinear_arith)
        requires
            0 <= rad@ <= b,
    ;
    assert((n@ + 1) * (n@ + 1) == n@ * n@ + 2 * n@ + 1) by (nonlinear_arith);
    let dd = d.spec_mul(d);
    let nn = n.spec_mul(n);
    let rr = rad.spec_mul(rad);
    assert(dd@ == (on@ * on@) / one);
    assert(nn@ == (n@ * n@) / one);
    assert(rr@ == (rad@ * rad@) / one);
    assert(s.spec_discriminant(r)@ == dd@ - (nn@ - rr@));
}

/// The length of the direction of a ray does not matter to a sphere: two
/// rays from one point whose directions normalize to the same vector are
/// met in the same way.
pub proof fn lemma_intersect_ignores_length(s: Sphere, r1: Ray, r2: Ray)
    requires
        r1.pt == r2.pt,
        r1.dir.spec_normalize() == r2.dir.spec_normalize(),
    ensures
        s.spec_intersect(r1) == s.spec_intersect(r2),
{
}

/// A ray and the ray of twice as long a direction are met in the same way.
pub proof fn lemma_intersect_doubled(s: Sphere, r: Ray)
    requires
        r.dir.spec_reach() < LIFT,
    ensures
        s.spec_intersect(Ray { pt: r.pt, dir: r.dir.spec_doubled() }) == s.spec_intersect(r),
{
    lemma_normalize_doubled(r.dir);
}

/// The heart of the law on rays aimed at the center, on integers. `a` are
/// the magnitudes of the coordinates of the heading and `b` those of the
/// vector from the center to the origin of the ray, whose length is `n`;
/// the heading is that vector brought to unit length and turned round,
/// each coordinate short by less than `dl` raw units; `f` are the rounded
/// products of the coordinates and `s` is the unit. Then the sum of the
/// products falls short of the length by little.
proof fn lemma_aimed_dot(
    a1: int,
    a2: int,
    a3: int,
    b1: int,
    b2: int,
    b3: int,
    f1: int,
    f2: int,
    f3: int,
    n: int,
    dl: int,
    s: int,
)
    requires
        0 < s,
        1 <= n,
        0 <= dl,
        0 <= a1 && 0 <= a2 && 0 <= a3,
        0 <= b1 <= n && 0 <= b2 <= n && 0 <= b3 <= n,
        n * n <= b1 * b1 + b2 * b2 + b3 * b3,
        (a1 + dl) * (n + 1) > s * b1,
        (a2 + dl) * (n + 1) > s * b2,
        (a3 + dl) * (n + 1) > s * b3,
        s * f1 <= a1 * b1 < s * f1 + s,
        s * f2 <= a2 * b2 < s * f2 + s,
        s * f3 <= a3 * b3 < s * f3 + s,
    ensures
        f1 + f2 + f3 < n ==> s * (n * n - (f1 + f2 + f3) * (f1 + f2 + f3)) < 6 * dl * (n * n) + 8
            * s * n,
{
    let f = f1 + f2 + f3;
    let p = a1 * b1 + a2 * b2 + a3 * b3;
    let q = b1 * b1 + b2 * b2 + b3 * b3;
    if f < n {
        // Each product of magnitudes, times the length and one, is almost
        // the unit times the square of the coordinate.
        lemma_aimed_coordinate(a1, b1, n, dl, s);
        lemma_aimed_coordinate(a2, b2, n, dl, s);
        lemma_aimed_coordinate(a3, b3, n, dl, s);
        assert((n + 1) * p == (n + 1) * (a1 * b1) + (n + 1) * (a2 * b2) + (n + 1) * (a3 * b3))
            by (nonlinear_arith)
            requires
                p == a1 * b1 + a2 * b2 + a3 * b3,
        ;
        assert(s * q == s * (b1 * b1) + s * (b2 * b2) + s * (b3 * b3)) by (nonlinear_arith)
            requires
                q == b1 * b1 + b2 * b2 + b3 * b3,
        ;
        let k = dl * (n + 1);
        assert(0 <= k) by (nonlinear_arith)
            requires
                k == dl * (n + 1),
                0 <= dl,
                1 <= n,
        ;
        assert(k * b1 + k * b2 + k * b3 <= 3 * (k * n)) by (nonlinear_arith)
            requires
                0 <= k,
                b1 <= n,
                b2 <= n,
                b3 <= n,
        ;
        assert(s * (n * n) <= s * q) by (nonlinear_arith)
            requires
                0 < s,
                n * n <= q,
        ;
        assert((n + 1) * p >= s * (n * n) - 3 * (k * n));
        // The rounded products lose less than three units.
        assert(s * f == s * f1 + s * f2 + s * f3) by (nonlinear_arith)
            requires
                f == f1 + f2 + f3,
        ;
        assert(s * f > p - 3 * s);
        assert((n + 1) * (s * f) > (n + 1) * p - (n + 1) * (3 * s)) by (nonlinear_arith)
            requires
                s * f > p - 3 * s,
                1 <= n,
        ;
        let g = n - f;
        assert((n + 1) * (s * f) == s * (n * n) + s * n - (s * (n + 1)) * g) by (nonlinear_arith)
            requires
                g == n - f,
        ;
        assert(k * n == (n + 1) * (dl * n)) by (nonlinear_arith)
            requires
                k == dl * (n + 1),
        ;
        assert((n + 1) * (3 * s) == (n + 1) * 3 * s && s * n < (n + 1) * s) by (nonlinear_arith)
            requires
                0 < s,
        ;
        // So the shortfall `g` is small.
        assert((s * (n + 1)) * g < (n + 1) * (3 * (dl * n) + 4 * s)) by (nonlinear_arith)
            requires
                (s * (n + 1)) * g < s * n + 3 * ((n + 1) * (dl * n)) + (n + 1) * (3 * s),
                s * n < (n + 1) * s,
        ;
        assert((s * (n + 1)) * g == (n + 1) * (s * g)) by (nonlinear_arith);
        assert(s * g < 3 * (dl * n) + 4 * s) by (nonlinear_arith)
            requires
                (n + 1) * (s * g) < (n + 1) * (3 * (dl * n) + 4 * s),
                1 <= n,
        ;
        assert(0 <= f1 && 0 <= f2 && 0 <= f3) by (nonlinear_arith)
            requires
                0 < s,
                0 < s * f1 + s,
                0 < s * f2 + s,
                0 < s * f3 + s,
        ;
        assert(0 < s * g) by (nonlinear_arith)
            requires
                0 < s,
                0 < g,
        ;
        assert(n * n - f * f == g * (n + f)) by (nonlinear_arith)
            requires
                g == n - f,
        ;
        assert(s * (g * (n + f)) == (s * g) * (n + f)) by (nonlinear_arith);
        assert((s * g) * (n + f) < (3 * (dl * n) + 4 * s) * (2 * n)) by (nonlinear_arith)
            requires
                0 < s * g < 3 * (dl * n) + 4 * s,
                0 < n + f < 2 * n,
        ;
        assert((3 * (dl * n) + 4 * s) * (2 * n) == 6 * dl * (n * n) + 8 * s * n)
            by (nonlinear_arith);
    }
}

/// One coordinate of the law on rays aimed at the center.
proof fn lemma_aimed_coordinate(a: int, b: int, n: int, dl: int, s: int)
    requires
        0 <= a,
        0 <= b,
        (a + dl) * (n + 1) > s * b,
    ensures
        (n + 1) * (a * b) + (dl * (n + 1)) * b >= s * (b * b),
        0 <= a * b,
{
    assert(((a + dl) * (n + 1)) * b >= (s * b) * b) by (nonlinear_arith)
        requires
            (a + dl) * (n + 1) > s * b,
            0 <= b,
    ;
    assert(((a + dl) * (n + 1)) * b == (n + 1) * (a * b) + (dl * (n + 1)) * b) by (nonlinear_arith);
    assert((s * b) * b == s * (b * b)) by (nonlinear_arith);
    assert(0 <= a * b) by (nonlinear_arith)
        requires
            0 <= a,
            0 <= b,
    ;
}

/// If the exact quotient of `b` by a length lies below `a + 1`, then `b`
/// times the unit lies below `a + 1` times the length rounded up.
proof fn lemma_bracket_root(a: int, b: int, q: int, n: int, s: int)
    requires
        0 <= a,
        0 <= b,
        0 <= n,
        0 < s,
        q < (n + 1) * (n + 1),
        ((a + 1) * (a + 1)) * q > (s * s) * (b * b),
    ensures
        (a + 1) * (n + 1) > s * b,
{
    let x = (a + 1) * (n + 1);
    let y = s * b;
    assert(0 <= x && 0 <= y) by (nonlinear_arith)
        requires
            x == (a + 1) * (n + 1),
            y == s * b,
            0 <= a,
            0 <= n,
            0 < s,
            0 <= b,
    ;
    if x <= y {
        lemma_square_le(x, y);
        assert(x * x == ((a + 1) * (a + 1)) * ((n + 1) * (n + 1))) by (nonlinear_arith)
            requires
                x == (a + 1) * (n + 1),
        ;
        assert(y * y == (s * s) * (b * b)) by (nonlinear_arith)
            requires
                y == s * b,
        ;
        assert(((a + 1) * (a + 1)) * q <= ((a + 1) * (a + 1)) * ((n + 1) * (n + 1)))
            by (nonlinear_arith)
            requires
                q < (n + 1) * (n + 1),
                0 <= (a + 1) * (a + 1),
        ;
    }
}

/// The ray is aimed at the center of the sphere: its direction is the
/// vector from its origin to the center, as it is or normalized.
pub open spec fn spec_aimed(s: Sphere, r: Ray) -> bool {
    r.dir == s.center.spec_sub(r.pt) || r.dir == s.center.spec_sub(r.pt).spec_normalize()
}

/// The heading `l` opposes the vector `m`, each coordinate short of the
/// exact one by less than `dl` raw units: no coordinate of `l` has the sign
/// of that of `m`, and with `n` the raw length of `m`, every coordinate of
/// `m` times one is below the coordinate of `l` and `dl`, times `n + 1`.
pub open spec fn spec_opposes(l: R3, m: R3, dl: int) -> bool {
    let n = m.spec_norm()@;
    &&& (m.x@ > 0 ==> l.x@ <= 0) && (m.x@ < 0 ==> l.x@ >= 0)
    &&& (m.y@ > 0 ==> l.y@ <= 0) && (m.y@ < 0 ==> l.y@ >= 0)
    &&& (m.z@ > 0 ==> l.z@ <= 0) && (m.z@ < 0 ==> l.z@ >= 0)
    &&& (crate::fixed::abs(l.x@) + dl) * (n + 1) > SCALE * crate::fixed::abs(m.x@)
    &&& (crate::fixed::abs(l.y@) + dl) * (n + 1) > SCALE * crate::fixed::abs(m.y@)
    &&& (crate::fixed::abs(l.z@) + dl) * (n + 1) > SCALE * crate::fixed::abs(m.z@)
}

/// The radius of `s` is not lost to rounding at the raw distance `n`, where
/// headings are short by less than `dl` raw units: its square is at least
/// `SCALE + 8 n + 6 dl n n / SCALE`.
pub open spec fn spec_margin(s: Sphere, n: int, dl: int) -> bool {
    (s.radius@ * s.radius@) * SCALE >= SCALE * SCALE + 8 * SCALE * n + 6 * dl * (n * n)
}

/// The projection of a vector on a heading that opposes it is nearly the
/// length of the vector, taken away: with `d` the raw projection and `n`
/// the raw length, `d` is not positive, and either `-d` reaches `n` or the
/// square of `n` exceeds that of `d` by less than
/// `8 n + 6 dl n n / SCALE`.
proof fn lemma_opposed_projection(s: Sphere, r: Ray, dl: int)
    requires
        0 <= dl,
        r.pt.spec_sub(s.center) != R3::spec_zero(),
        r.pt.spec_sub(s.center).spec_within(0x4_0000_0000_0000),
        Sphere::spec_heading(r).spec_within(SCALE + 1),
        spec_opposes(Sphere::spec_heading(r), r.pt.spec_sub(s.center), dl),
    ensures
        1 <= r.pt.spec_sub(s.center).spec_norm()@ <= 0x8_0000_0000_0000,
        -0x10_0000_0000_0000 <= s.spec_projection(r)@ <= 0,
        -s.spec_projection(r)@ >= r.pt.spec_sub(s.center).spec_norm()@ || SCALE * (r.pt.spec_sub(
            s.center,
        ).spec_norm()@ * r.pt.spec_sub(s.center).spec_norm()@ - s.spec_projection(r)@
            * s.spec_projection(r)@) < 8 * SCALE * r.pt.spec_sub(s.center).spec_norm()@ + 6 * dl * (
        r.pt.spec_sub(s.center).spec_norm()@ * r.pt.spec_sub(s.center).spec_norm()@),
{
    let one = SCALE as int;
    let m = r.pt.spec_sub(s.center);
    let l = Sphere::spec_heading(r);
    let bound = 0x4_0000_0000_0000int;
    // The distance.
    lemma_norm_bound(m, bound);
    let q = m.spec_sum_sq();
    lemma_isqrt_floor(q);
    let n = m.spec_norm()@;
    assert(1 <= q) by (nonlinear_arith)
        requires
            q == m.x@ * m.x@ + m.y@ * m.y@ + m.z@ * m.z@,
            m.x@ != 0 || m.y@ != 0 || m.z@ != 0,
    ;
    if n < 1 {
        assert((n + 1) * (n + 1) == 1) by (nonlinear_arith)
            requires
                n == 0,
        ;
    }
    let b1 = crate::fixed::abs(m.x@);
    let b2 = crate::fixed::abs(m.y@);
    let b3 = crate::fixed::abs(m.z@);
    assert(b1 * b1 == m.x@ * m.x@ && b2 * b2 == m.y@ * m.y@ && b3 * b3 == m.z@ * m.z@ && 0 <= b1
        * b1 && 0 <= b2 * b2 && 0 <= b3 * b3) by (nonlinear_arith)
        requires
            b1 == m.x@ || b1 == -m.x@,
            b2 == m.y@ || b2 == -m.y@,
            b3 == m.z@ || b3 == -m.z@,
    ;
    if b1 > n {
        lemma_square_le(n + 1, b1);
    }
    if b2 > n {
        lemma_square_le(n + 1, b2);
    }
    if b3 > n {
        lemma_square_le(n + 1, b3);
    }
    let a1 = crate::fixed::abs(l.x@);
    let a2 = crate::fixed::abs(l.y@);
    let a3 = crate::fixed::abs(l.z@);
    // The rounded products of the coordinates.
    lemma_aimed_product(l.x, m.x);
    lemma_aimed_product(l.y, m.y);
    lemma_aimed_product(l.z, m.z);
    let f1 = (a1 * b1) / one;
    let f2 = (a2 * b2) / one;
    let f3 = (a3 * b3) / one;
    let small = f1 + f2 + f3;
    assert(one * b1 == SCALE * b1 && one * b2 == SCALE * b2 && one * b3 == SCALE * b3);
    lemma_aimed_dot(a1, a2, a3, b1, b2, b3, f1, f2, f3, n, dl, one);
    assert(0 <= a1 * b1 <= (one + 1) * bound && 0 <= a2 * b2 <= (one + 1) * bound && 0 <= a3 * b3
        <= (one + 1) * bound) by (nonlinear_arith)
        requires
            0 <= a1 <= one + 1,
            0 <= a2 <= one + 1,
            0 <= a3 <= one + 1,
            0 <= b1 <= bound,
            0 <= b2 <= bound,
            0 <= b3 <= bound,
    ;
    // The inner product is rounded once, and loses no more than its parts.
    let p = a1 * b1 + a2 * b2 + a3 * b3;
    lemma_opposed_sum(l, m);
    assert(l.spec_dot_raw(m) == -p);
    assert(one * small == one * f1 + one * f2 + one * f3) by (nonlinear_arith)
        requires
            small == f1 + f2 + f3,
    ;
    let f = p / one;
    vstd::arithmetic::div_mod::lemma_div_is_ordered(one * small, p, one);
    vstd::arithmetic::div_mod::lemma_div_multiples_vanish(small, one);
    assert(0 <= small <= f);
    assert(f <= 0x10_0000_0000_0000);
    let d = s.spec_projection(r);
    assert(d@ == -f);
    if f < n {
        lemma_square_le(small, f);
        assert(d@ * d@ == f * f) by (nonlinear_arith)
            requires
                d@ == -f,
        ;
        assert(one * (n * n - f * f) <= one * (n * n - small * small)) by (nonlinear_arith)
            requires
                small * small <= f * f,
                0 < one,
        ;
        assert(6 * dl * (n * n) + 8 * one * n == 8 * SCALE * n + 6 * dl * (n * n));
    }
}

/// The exact inner product of a heading and a vector that it opposes is
/// the sum of the products of the magnitudes of their coordinates, taken
/// away.
proof fn lemma_opposed_sum(l: R3, m: R3)
    requires
        (m.x@ > 0 ==> l.x@ <= 0) && (m.x@ < 0 ==> l.x@ >= 0),
        (m.y@ > 0 ==> l.y@ <= 0) && (m.y@ < 0 ==> l.y@ >= 0),
        (m.z@ > 0 ==> l.z@ <= 0) && (m.z@ < 0 ==> l.z@ >= 0),
    ensures
        l.spec_dot_raw(m) == -(crate::fixed::abs(l.x@) * crate::fixed::abs(m.x@) + crate::fixed::abs(
            l.y@,
        ) * crate::fixed::abs(m.y@) + crate::fixed::abs(l.z@) * crate::fixed::abs(m.z@)),
{
    crate::fixed_lemmas::lemma_abs_mul(l.x@, m.x@);
    crate::fixed_lemmas::lemma_abs_mul(l.y@, m.y@);
    crate::fixed_lemmas::lemma_abs_mul(l.z@, m.z@);
    assert(l.x@ * m.x@ <= 0 && l.y@ * m.y@ <= 0 && l.z@ * m.z@ <= 0) by (nonlinear_arith)
        requires
            (m.x@ > 0 ==> l.x@ <= 0) && (m.x@ < 0 ==> l.x@ >= 0),
            (m.y@ > 0 ==> l.y@ <= 0) && (m.y@ < 0 ==> l.y@ >= 0),
            (m.z@ > 0 ==> l.z@ <= 0) && (m.z@ < 0 ==> l.z@ >= 0),
    ;
}

/// A ray whose heading opposes the vector from the center of a sphere to
/// its origin hits the sphere, if the radius is not lost to rounding and
/// that vector is at most 1024 units long in every coordinate, and not
/// zero.
pub proof fn lemma_opposed_ray_hits(s: Sphere, r: Ray, dl: int)
    requires
        0 <= dl,
        r.pt.spec_sub(s.center) != R3::spec_zero(),
        r.pt.spec_sub(s.center).spec_within(0x4_0000_0000_0000),
        Sphere::spec_heading(r).spec_within(SCALE + 1),
        spec_opposes(Sphere::spec_heading(r), r.pt.spec_sub(s.center), dl),
        spec_margin(s, r.pt.spec_sub(s.center).spec_norm()@, dl),
    ensures
        s.spec_hits(r),
{
    let one = SCALE as int;
    lemma_opposed_projection(s, r, dl);
    let nf = r.pt.spec_sub(s.center).spec_norm();
    let n = nf@;
    let d = s.spec_projection(r);
    let f = -d@;
    let rad = s.radius;
    assert(d@ * d@ == f * f && 0 <= f * f) by (nonlinear_arith)
        requires
            f == -d@,
    ;
    assert(0 <= n * n <= 0x8_0000_0000_0000 * 0x8_0000_0000_0000) by (nonlinear_arith)
        requires
            0 <= n <= 0x8_0000_0000_0000,
    ;
    assert(0x8_0000_0000_0000int * 0x8_0000_0000_0000int == 0x40_0000_0000_0000_0000_0000_0000)
        by (nonlinear_arith);
    assert(0 <= rad@ * rad@) by (nonlinear_arith);
    let dd = d.spec_mul(d);
    let nn = nf.spec_mul(nf);
    let rr = rad.spec_mul(rad);
    assert(dd@ == crate::fixed::sat((f * f) / one));
    assert(nn@ == (n * n) / one);
    assert(rr@ == crate::fixed::sat((rad@ * rad@) / one));
    if f >= n {
        lemma_square_le(n, f);
    } else {
        let g = n * n - f * f;
        assert((rad@ * rad@) * one > one * one + one * g);
        assert(rad@ * rad@ > one + g) by (nonlinear_arith)
            requires
                (rad@ * rad@) * one > one * one + one * g,
                0 < one,
        ;
    }
    lemma_floors(f * f, rad@ * rad@, n * n, one);
    assert(dd@ - crate::fixed::sat(nn@ - rr@) >= 0);
}

/// Of three numbers that are not negative, where the first alone or the
/// first two and a unit together reach the third, the rounded quotients of
/// the first two by the unit reach that of the third.
proof fn lemma_floors(a: int, b: int, c: int, s: int)
    requires
        0 <= a,
        0 <= b,
        0 <= c,
        0 < s,
        c <= a || c + s <= a + b,
    ensures
        c / s <= a / s + b / s,
        0 <= a / s,
        0 <= b / s,
        0 <= c / s,
{
    vstd::arithmetic::div_mod::lemma_fundamental_div_mod(a, s);
    vstd::arithmetic::div_mod::lemma_fundamental_div_mod(b, s);
    vstd::arithmetic::div_mod::lemma_fundamental_div_mod(c, s);
    vstd::arithmetic::div_mod::lemma_mod_bound(a, s);
    vstd::arithmetic::div_mod::lemma_mod_bound(b, s);
    vstd::arithmetic::div_mod::lemma_mod_bound(c, s);
    vstd::arithmetic::div_mod::lemma_div_pos_is_pos(a, s);
    vstd::arithmetic::div_mod::lemma_div_pos_is_pos(b, s);
    vstd::arithmetic::div_mod::lemma_div_pos_is_pos(c, s);
    let x = a / s;
    let y = b / s;
    let z = c / s;
    if z > x + y {
        assert(s * z >= s * (x + y) + s) by (nonlinear_arith)
            requires
                z >= x + y + 1,
                0 < s,
        ;
        assert(s * (x + y) == s * x + s * y) by (nonlinear_arith);
    }
}

/// A ray aimed at the center of a sphere hits it, from wherever it comes,
/// unless the sphere is so small and so far away that its radius is lost to
/// rounding. With `n` the raw distance from the origin of the ray to the
/// center, it is enough that the square of the raw radius is at least
/// `SCALE + 8 n + 24 n n / SCALE`; at a distance of ten units, that is a
/// radius of a twenty thousandth of a unit. This holds where the origin
/// and the center lie within 512 units of zero in every coordinate.
pub proof fn lemma_aimed_ray_hits(s: Sphere, r: Ray)
    requires
        spec_aimed(s, r),
        r.pt != s.center,
        r.pt.spec_within(0x2_0000_0000_0000),
        s.center.spec_within(0x2_0000_0000_0000),
        spec_margin(s, r.pt.spec_sub(s.center).spec_norm()@, 4),
    ensures
        s.spec_hits(r),
{
    let one = SCALE as int;
    let m = r.pt.spec_sub(s.center);
    let t = s.center.spec_sub(r.pt);
    assert(t.x@ == -m.x@ && t.y@ == -m.y@ && t.z@ == -m.z@);
    assert(m != R3::spec_zero());
    assert(t != R3::spec_zero());
    lemma_norm_bound(m, 0x4_0000_0000_0000);
    let q = m.spec_sum_sq();
    assert(t.spec_sum_sq() == q) by (nonlinear_arith)
        requires
            t.spec_sum_sq() == t.x@ * t.x@ + t.y@ * t.y@ + t.z@ * t.z@,
            q == m.x@ * m.x@ + m.y@ * m.y@ + m.z@ * m.z@,
            t.x@ == -m.x@,
            t.y@ == -m.y@,
            t.z@ == -m.z@,
    ;
    lemma_isqrt_floor(q);
    let n = m.spec_norm()@;
    let b1 = crate::fixed::abs(m.x@);
    let b2 = crate::fixed::abs(m.y@);
    let b3 = crate::fixed::abs(m.z@);
    assert(t.x@ * t.x@ == b1 * b1 && t.y@ * t.y@ == b2 * b2 && t.z@ * t.z@ == b3 * b3)
        by (nonlinear_arith)
        requires
            t.x@ == -m.x@,
            t.y@ == -m.y@,
            t.z@ == -m.z@,
            b1 == m.x@ || b1 == -m.x@,
            b2 == m.y@ || b2 == -m.y@,
            b3 == m.z@ || b3 == -m.z@,
    ;
    // The heading points back along that vector.
    lemma_normalize_exact(t);
    lemma_normalize_unit(t);
    let u = t.spec_normalize();
    let l = Sphere::spec_heading(r);
    lemma_normalize_unit(r.dir);
    if r.dir != t {
        lemma_normalize_again(u);
        lemma_normalize_exact(u);
        lemma_norm_bound(R3::spec_zero(), 0);
    }
    let a1 = crate::fixed::abs(l.x@);
    let a2 = crate::fixed::abs(l.y@);
    let a3 = crate::fixed::abs(l.z@);
    assert(SCALE * SCALE == one * one);
    lemma_bracket_root(crate::fixed::abs(u.x@), b1, q, n, one);
    lemma_bracket_root(crate::fixed::abs(u.y@), b2, q, n, one);
    lemma_bracket_root(crate::fixed::abs(u.z@), b3, q, n, one);
    assert((a1 + 4) * (n + 1) > one * b1 && (a2 + 4) * (n + 1) > one * b2 && (a3 + 4) * (n + 1)
        > one * b3) by (nonlinear_arith)
        requires
            (crate::fixed::abs(u.x@) + 1) * (n + 1) > one * b1,
            (crate::fixed::abs(u.y@) + 1) * (n + 1) > one * b2,
            (crate::fixed::abs(u.z@) + 1) * (n + 1) > one * b3,
            a1 + 4 >= crate::fixed::abs(u.x@) + 1,
            a2 + 4 >= crate::fixed::abs(u.y@) + 1,
            a3 + 4 >= crate::fixed::abs(u.z@) + 1,
            0 <= n,
    ;
    lemma_opposed_ray_hits(s, r, 4);
}

/// The rounded product of a coordinate of the heading and a coordinate of
/// the vector that the heading opposes is the rounded product of their
/// magnitudes, taken away.
proof fn lemma_aimed_product(l: Fixed, m: Fixed)
    requires
        (m@ > 0 ==> l@ <= 0) && (m@ < 0 ==> l@ >= 0),
    ensures
        crate::fixed::mul_raw(l@, m@) == -((crate::fixed::abs(l@) * crate::fixed::abs(m@)) / (
        SCALE as int)),
        SCALE * ((crate::fixed::abs(l@) * crate::fixed::abs(m@)) / (SCALE as int))
            <= crate::fixed::abs(l@) * crate::fixed::abs(m@) < SCALE * ((crate::fixed::abs(l@)
            * crate::fixed::abs(m@)) / (SCALE as int)) + SCALE,
{
    crate::fixed_lemmas::lemma_abs_mul(l@, m@);
    assert(l@ * m@ <= 0) by (nonlinear_arith)
        requires
            (m@ > 0 ==> l@ <= 0) && (m@ < 0 ==> l@ >= 0),
    ;
}

/// The magnitude of the rounded product of a positive number and another
/// is the product of the magnitudes rounded down, and the product has the
/// sign of the other number or is zero.
proof fn lemma_scaled_coordinate(k: Fixed, a: Fixed)
    requires
        0 < k@,
    ensures
        crate::fixed::abs(crate::fixed::mul_raw(k@, a@)) == (k@ * crate::fixed::abs(a@)) / (
        SCALE as int),
        SCALE * ((k@ * crate::fixed::abs(a@)) / (SCALE as int)) <= k@ * crate::fixed::abs(a@)
            < SCALE * ((k@ * crate::fixed::abs(a@)) / (SCALE as int)) + SCALE,
        a@ >= 0 ==> crate::fixed::mul_raw(k@, a@) >= 0,
        a@ <= 0 ==> crate::fixed::mul_raw(k@, a@) <= 0,
        0 <= k@ * crate::fixed::abs(a@),
{
    crate::fixed_lemmas::lemma_abs_mul(k@, a@);
    assert(0 <= k@ * crate::fixed::abs(a@)) by (nonlinear_arith)
        requires
            0 < k@,
            0 <= crate::fixed::abs(a@),
    ;
    assert((a@ >= 0 ==> k@ * a@ >= 0) && (a@ <= 0 ==> k@ * a@ <= 0)) by (nonlinear_arith)
        requires
            0 < k@,
    ;
}

/// One coordinate of the law on head-on rays along any axis: what is
/// known of the coordinate `a` of the axis, the coordinate `u` of the
/// normalized axis, the coordinate `b` of the vector from the center to the
/// origin of the ray, whose length is `n`, and the distance `k` along the
/// axis, puts `b` times the unit below `u + 11` times `n + 1`.
proof fn lemma_any_axis_coordinate(a: int, u: int, b: int, k: int, n: int, s: int)
    requires
        64 <= s <= n,
        0 <= a,
        0 <= u <= s,
        0 <= b,
        0 < k,
        s * b <= k * a,
        (u + 1) * (s + 2) > s * a,
        k * (s - 3) < s * (n + 4),
    ensures
        (u + 11) * (n + 1) > s * b,
{
    let uu = u + 1;
    // s * s * b <= k * (s * a) < k * uu * (s + 2)
    assert(s * (s * b) <= k * (s * a)) by (nonlinear_arith)
        requires
            s * b <= k * a,
            0 < s,
    ;
    assert(k * (s * a) < k * (uu * (s + 2))) by (nonlinear_arith)
        requires
            s * a < uu * (s + 2),
            0 < k,
    ;
    // times s - 3
    assert((s * (s * b)) * (s - 3) < (k * (uu * (s + 2))) * (s - 3)) by (nonlinear_arith)
        requires
            s * (s * b) < k * (uu * (s + 2)),
            0 < s - 3,
    ;
    assert((k * (uu * (s + 2))) * (s - 3) == (uu * (s + 2)) * (k * (s - 3))) by (nonlinear_arith);
    assert((uu * (s + 2)) * (k * (s - 3)) <= (uu * (s + 2)) * (s * (n + 4))) by (nonlinear_arith)
        requires
            k * (s - 3) < s * (n + 4),
            0 <= uu * (s + 2),
    ;
    assert((s * (s * b)) * (s - 3) == s * ((s * b) * (s - 3)) && (uu * (s + 2)) * (s * (n + 4))
        == s * ((uu * (s + 2)) * (n + 4))) by (nonlinear_arith);
    assert((s * b) * (s - 3) < (uu * (s + 2)) * (n + 4)) by (nonlinear_arith)
        requires
            s * ((s * b) * (s - 3)) < s * ((uu * (s + 2)) * (n + 4)),
            0 < s,
    ;
    // The right side is at most (uu + 10) * (n + 1) * (s - 3).
    assert((uu * (s + 2)) * (n + 4) == (uu * (n + 1)) * (s - 3) + uu * (5 * n + 3 * s + 11))
        by (nonlinear_arith);
    assert(uu * (5 * n + 3 * s + 11) <= (s + 1) * (8 * n + 11)) by (nonlinear_arith)
        requires
            0 <= uu <= s + 1,
            0 <= 5 * n + 3 * s + 11 <= 8 * n + 11,
    ;
    assert((s + 1) * (8 * n + 11) <= (10 * (n + 1)) * (s - 3)) by (nonlinear_arith)
        requires
            64 <= s <= n,
    ;
    assert((uu * (n + 1)) * (s - 3) + (10 * (n + 1)) * (s - 3) == ((uu + 10) * (n + 1)) * (s - 3))
        by (nonlinear_arith);
    assert(s * b < (uu + 10) * (n + 1)) by (nonlinear_arith)
        requires
            (s * b) * (s - 3) < ((uu + 10) * (n + 1)) * (s - 3),
            0 < s - 3,
    ;
}

/// A ray that runs head-on at a sphere along any axis hits it: whatever
/// unit vector `axis` is, the ray that starts on `axis` through the center,
/// one unit outside the sphere, and runs toward the center, hits. This
/// holds of every sphere whose radius lies between 2^-15 units and 256
/// units and whose center lies within 512 units of zero in every
/// coordinate.
#[verifier::rlimit(50)]
pub proof fn lemma_head_on_any_axis(s: Sphere, axis: R3)
    requires
        axis.spec_is_unit(),
        s.center.spec_within(0x2_0000_0000_0000),
        0x200_0000 <= s.radius@ <= 0x1_0000_0000_0000,
    ensures
        s.spec_hits(spec_head_on(s, axis)),
{
    let one = SCALE as int;
    let r = spec_head_on(s, axis);
    let rad = s.radius@;
    // The axis.
    let aa = axis.spec_sum_sq();
    assert(0 <= axis.x@ * axis.x@ && 0 <= axis.y@ * axis.y@ && 0 <= axis.z@ * axis.z@)
        by (nonlinear_arith);
    lemma_isqrt_floor(aa);
    let ta = isqrt(aa);
    if ta > 2 * one {
        lemma_square_le(2 * one, ta);
    }
    assert(axis.spec_norm()@ == ta);
    lemma_coordinate_bound(axis.x@, axis.y@ * axis.y@ + axis.z@ * axis.z@, ta);
    lemma_coordinate_bound(axis.y@, axis.x@ * axis.x@ + axis.z@ * axis.z@, ta);
    lemma_coordinate_bound(axis.z@, axis.x@ * axis.x@ + axis.y@ * axis.y@, ta);
    lemma_square_le(one - 3, ta);
    lemma_square_le(ta + 1, one + 2);
    lemma_norm_bound(R3::spec_zero(), 0);
    let a1 = crate::fixed::abs(axis.x@);
    let a2 = crate::fixed::abs(axis.y@);
    let a3 = crate::fixed::abs(axis.z@);
    assert(a1 * a1 == axis.x@ * axis.x@ && a2 * a2 == axis.y@ * axis.y@ && a3 * a3 == axis.z@
        * axis.z@) by (nonlinear_arith)
        requires
            a1 == axis.x@ || a1 == -axis.x@,
            a2 == axis.y@ || a2 == -axis.y@,
            a3 == axis.z@ || a3 == -axis.z@,
    ;
    // From the center to the origin of the ray.
    let k = s.radius.spec_add(Fixed::spec_one());
    assert(k@ == rad + one);
    let km = k.spec_times(axis);
    let bound = 0x4_0000_0000_0000int;
    lemma_scaled_coordinate(k, axis.x);
    lemma_scaled_coordinate(k, axis.y);
    lemma_scaled_coordinate(k, axis.z);
    let b1 = (k@ * a1) / one;
    let b2 = (k@ * a2) / one;
    let b3 = (k@ * a3) / one;
    assert(k@ * a1 <= 0x2_0000_0000_0000 * (one + 1) && k@ * a2 <= 0x2_0000_0000_0000 * (one + 1)
        && k@ * a3 <= 0x2_0000_0000_0000 * (one + 1)) by (nonlinear_arith)
        requires
            0 < k@ <= 0x2_0000_0000_0000,
            0 <= a1 <= one + 1,
            0 <= a2 <= one + 1,
            0 <= a3 <= one + 1,
    ;
    assert(b1 <= bound && b2 <= bound && b3 <= bound);
    let m = r.pt.spec_sub(s.center);
    assert(m == km);
    // The direction of the ray and its heading.
    let minus = Fixed::spec_from_int(-1);
    lemma_mul_by_int(-1, axis.x);
    lemma_mul_by_int(-1, axis.y);
    lemma_mul_by_int(-1, axis.z);
    let back = minus.spec_times(axis);
    assert(back.x@ == -axis.x@ && back.y@ == -axis.y@ && back.z@ == -axis.z@);
    assert(back.spec_sum_sq() == aa) by (nonlinear_arith)
        requires
            back.spec_sum_sq() == back.x@ * back.x@ + back.y@ * back.y@ + back.z@ * back.z@,
            aa == axis.x@ * axis.x@ + axis.y@ * axis.y@ + axis.z@ * axis.z@,
            back.x@ == -axis.x@,
            back.y@ == -axis.y@,
            back.z@ == -axis.z@,
    ;
    assert(back.x@ * back.x@ == a1 * a1 && back.y@ * back.y@ == a2 * a2 && back.z@ * back.z@ == a3
        * a3) by (nonlinear_arith)
        requires
            back.x@ == -axis.x@,
            back.y@ == -axis.y@,
            back.z@ == -axis.z@,
            a1 * a1 == axis.x@ * axis.x@,
            a2 * a2 == axis.y@ * axis.y@,
            a3 * a3 == axis.z@ * axis.z@,
    ;
    assert(back != R3::spec_zero());
    lemma_normalize_exact(back);
    lemma_normalize_unit(back);
    let u = back.spec_normalize();
    assert(r.dir == u);
    lemma_normalize_again(u);
    lemma_normalize_exact(u);
    lemma_normalize_unit(u);
    let l = Sphere::spec_heading(r);
    let u1 = crate::fixed::abs(u.x@);
    let u2 = crate::fixed::abs(u.y@);
    let u3 = crate::fixed::abs(u.z@);
    assert(SCALE * SCALE == one * one);
    lemma_bracket_root(u1, a1, aa, one + 1, one);
    lemma_bracket_root(u2, a2, aa, one + 1, one);
    lemma_bracket_root(u3, a3, aa, one + 1, one);
    // The distance from the center to the origin is about `k`.
    lemma_norm_bound(m, bound);
    let q = m.spec_sum_sq();
    lemma_isqrt_floor(q);
    let n = m.spec_norm()@;
    assert(q == b1 * b1 + b2 * b2 + b3 * b3) by (nonlinear_arith)
        requires
            q == m.x@ * m.x@ + m.y@ * m.y@ + m.z@ * m.z@,
            b1 == m.x@ || b1 == -m.x@,
            b2 == m.y@ || b2 == -m.y@,
            b3 == m.z@ || b3 == -m.z@,
    ;
    assert(0 <= b1 * b1 && 0 <= b2 * b2 && 0 <= b3 * b3) by (nonlinear_arith);
    if b1 > n {
        lemma_square_le(n + 1, b1);
    }
    if b2 > n {
        lemma_square_le(n + 1, b2);
    }
    if b3 > n {
        lemma_square_le(n + 1, b3);
    }
    lemma_any_axis_distance(a1, a2, a3, b1, b2, b3, k@, n, one);
    // The radius is not lost to rounding.
    assert(n >= one) by (nonlinear_arith)
        requires
            k@ * (one - 3) < one * (n + 4),
            k@ >= one + 0x200_0000,
            one == 0x100_0000_0000,
    ;
    assert(n <= 3 * rad || n <= 3 * one) by {
        assert(n * one < k@ * (one + 2));
        assert(k@ * (one + 2) <= (rad + one) * one + 0x800 * one) by (nonlinear_arith)
            requires
                k@ == rad + one,
                0 < k@ <= 0x2_0000_0000_0000,
                one == 0x100_0000_0000,
        ;
        assert(n < rad + one + 0x800) by (nonlinear_arith)
            requires
                n * one < (rad + one) * one + 0x800 * one,
                0 < one,
        ;
    }
    assert(spec_margin(s, n, 14)) by {
        let t = if rad >= one {
            rad
        } else {
            one
        };
        assert(n <= 3 * t);
        assert(6 * 14 * (n * n) <= 756 * (t * t) && 8 * one * n <= 24 * (t * t) && one * one <= t
            * t) by (nonlinear_arith)
            requires
                0 <= n <= 3 * t,
                0 < one <= t,
        ;
        assert(781 * (t * t) <= (rad * rad) * one) by (nonlinear_arith)
            requires
                one == 0x100_0000_0000,
                0x200_0000 <= rad,
                t == rad || (t == one && rad < one),
        ;
    }
    // Each coordinate of the heading opposes that of the offset.
    lemma_any_axis_coordinate(a1, u1, b1, k@, n, one);
    lemma_any_axis_coordinate(a2, u2, b2, k@, n, one);
    lemma_any_axis_coordinate(a3, u3, b3, k@, n, one);
    let l1 = crate::fixed::abs(l.x@);
    let l2 = crate::fixed::abs(l.y@);
    let l3 = crate::fixed::abs(l.z@);
    assert((l1 + 14) * (n + 1) > one * b1 && (l2 + 14) * (n + 1) > one * b2 && (l3 + 14) * (n + 1)
        > one * b3) by (nonlinear_arith)
        requires
            (u1 + 11) * (n + 1) > one * b1,
            (u2 + 11) * (n + 1) > one * b2,
            (u3 + 11) * (n + 1) > one * b3,
            l1 + 14 >= u1 + 11,
            l2 + 14 >= u2 + 11,
            l3 + 14 >= u3 + 11,
            0 <= n,
    ;
    assert(m != R3::spec_zero());
    assert(one * b1 == SCALE * crate::fixed::abs(m.x@) && one * b2 == SCALE * crate::fixed::abs(
        m.y@,
    ) && one * b3 == SCALE * crate::fixed::abs(m.z@));
    lemma_opposed_ray_hits(s, r, 14);
}

/// The distance from the center to the origin of a head-on ray along any
/// axis is about the distance `k` along the axis that was asked for.
proof fn lemma_any_axis_distance(
    a1: int,
    a2: int,
    a3: int,
    b1: int,
    b2: int,
    b3: int,
    k: int,
    n: int,
    s: int,
)
    requires
        8 <= s,
        0 < k,
        0 <= n,
        0 <= a1 && 0 <= a2 && 0 <= a3,
        0 <= b1 <= n && 0 <= b2 <= n && 0 <= b3 <= n,
        (s - 3) * (s - 3) <= a1 * a1 + a2 * a2 + a3 * a3,
        a1 * a1 + a2 * a2 + a3 * a3 < (s + 2) * (s + 2),
        n * n <= b1 * b1 + b2 * b2 + b3 * b3,
        b1 * b1 + b2 * b2 + b3 * b3 < (n + 1) * (n + 1),
        s * b1 <= k * a1 < s * b1 + s,
        s * b2 <= k * a2 < s * b2 + s,
        s * b3 <= k * a3 < s * b3 + s,
    ensures
        k * (s - 3) < s * (n + 4),
        n * s < k * (s + 2),
{
    let aa = a1 * a1 + a2 * a2 + a3 * a3;
    let bb = b1 * b1 + b2 * b2 + b3 * b3;
    let kk = k * k;
    let ss = s * s;
    // From below: s (b + 1) > k a, squared and summed.
    assert(s * (b1 + 1) == s * b1 + s && s * (b2 + 1) == s * b2 + s && s * (b3 + 1) == s * b3 + s)
        by (nonlinear_arith);
    lemma_scaled_square(k, a1, s, b1 + 1);
    lemma_scaled_square(k, a2, s, b2 + 1);
    lemma_scaled_square(k, a3, s, b3 + 1);
    let cc = (b1 + 1) * (b1 + 1) + (b2 + 1) * (b2 + 1) + (b3 + 1) * (b3 + 1);
    assert(kk * aa == kk * (a1 * a1) + kk * (a2 * a2) + kk * (a3 * a3)) by (nonlinear_arith)
        requires
            aa == a1 * a1 + a2 * a2 + a3 * a3,
    ;
    assert(ss * cc == ss * ((b1 + 1) * (b1 + 1)) + ss * ((b2 + 1) * (b2 + 1)) + ss * ((b3 + 1) * (b3
        + 1))) by (nonlinear_arith)
        requires
            cc == (b1 + 1) * (b1 + 1) + (b2 + 1) * (b2 + 1) + (b3 + 1) * (b3 + 1),
    ;
    assert(kk * aa < ss * cc);
    assert(cc == bb + 2 * (b1 + b2 + b3) + 3) by (nonlinear_arith)
        requires
            cc == (b1 + 1) * (b1 + 1) + (b2 + 1) * (b2 + 1) + (b3 + 1) * (b3 + 1),
            bb == b1 * b1 + b2 * b2 + b3 * b3,
    ;
    assert((n + 1) * (n + 1) + 6 * n + 3 <= (n + 4) * (n + 4)) by (nonlinear_arith)
        requires
            0 <= n,
    ;
    assert(0 <= kk && 0 < ss) by (nonlinear_arith)
        requires
            kk == k * k,
            ss == s * s,
            0 < s,
    ;
    assert(kk * ((s - 3) * (s - 3)) <= kk * aa) by (nonlinear_arith)
        requires
            0 <= kk,
            (s - 3) * (s - 3) <= aa,
    ;
    assert(ss * cc <= ss * ((n + 4) * (n + 4))) by (nonlinear_arith)
        requires
            0 < ss,
            cc <= (n + 4) * (n + 4),
    ;
    let x = k * (s - 3);
    let y = s * (n + 4);
    assert(x * x == kk * ((s - 3) * (s - 3)) && y * y == ss * ((n + 4) * (n + 4)))
        by (nonlinear_arith)
        requires
            x == k * (s - 3),
            y == s * (n + 4),
            kk == k * k,
            ss == s * s,
    ;
    assert(0 <= x && 0 <= y) by (nonlinear_arith)
        requires
            x == k * (s - 3),
            y == s * (n + 4),
            0 < k,
            3 <= s,
            0 <= n,
    ;
    if y <= x {
        lemma_square_le(y, x);
    }
    // From above: s b <= k a, squared and summed.
    lemma_scaled_square_le(s, b1, k, a1);
    lemma_scaled_square_le(s, b2, k, a2);
    lemma_scaled_square_le(s, b3, k, a3);
    assert(ss * bb == ss * (b1 * b1) + ss * (b2 * b2) + ss * (b3 * b3)) by (nonlinear_arith)
        requires
            bb == b1 * b1 + b2 * b2 + b3 * b3,
    ;
    assert(ss * (n * n) <= ss * bb) by (nonlinear_arith)
        requires
            0 < ss,
            n * n <= bb,
    ;
    assert(kk * aa < kk * ((s + 2) * (s + 2)) || kk == 0) by (nonlinear_arith)
        requires
            0 <= kk,
            aa < (s + 2) * (s + 2),
    ;
    assert(0 < kk) by (nonlinear_arith)
        requires
            kk == k * k,
            0 < k,
    ;
    let v = n * s;
    let z = k * (s + 2);
    assert(v * v == ss * (n * n) && z * z == kk * ((s + 2) * (s + 2))) by (nonlinear_arith)
        requires
            v == n * s,
            z == k * (s + 2),
            kk == k * k,
            ss == s * s,
    ;
    assert(0 <= v && 0 <= z) by (nonlinear_arith)
        requires
            v == n * s,
            z == k * (s + 2),
            0 < k,
            0 < s,
            0 <= n,
    ;
    if z <= v {
        lemma_square_le(z, v);
    }
}

/// If `k a` is below `s c`, all of them not negative, then so are the
/// squares.
proof fn lemma_scaled_square(k: int, a: int, s: int, c: int)
    requires
        0 <= k,
        0 <= a,
        0 <= s,
        0 <= c,
        k * a < s * c,
    ensures
        (k * k) * (a * a) < (s * s) * (c * c),
{
    let x = k * a;
    let y = s * c;
    assert(0 <= x) by (nonlinear_arith)
        requires
            x == k * a,
            0 <= k,
            0 <= a,
    ;
    crate::isqrt::lemma_square_lt(x, y);
    assert(x * x == (k * k) * (a * a) && y * y == (s * s) * (c * c)) by (nonlinear_arith)
        requires
            x == k * a,
            y == s * c,
    ;
}

/// If `s b` is at most `k a`, all of them not negative, then so are the
/// squares.
proof fn lemma_scaled_square_le(s: int, b: int, k: int, a: int)
    requires
        0 <= s,
        0 <= b,
        s * b <= k * a,
    ensures
        (s * s) * (b * b) <= (k * k) * (a * a),
{
    let x = s * b;
    let y = k * a;
    assert(0 <= x) by (nonlinear_arith)
        requires
            x == s * b,
            0 <= s,
            0 <= b,
    ;
    lemma_square_le(x, y);
    assert(x * x == (s * s) * (b * b) && y * y == (k * k) * (a * a)) by (nonlinear_arith)
        requires
            x == s * b,
            y == k * a,
    ;
}

} // verus!
