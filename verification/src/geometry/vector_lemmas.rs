//! What holds of the vector operations.
use vstd::prelude::*;
use vstd::std_specs::ops::MulSpec;
use crate::fixed::{Fixed, SCALE, abs, trunc_div};
use crate::fixed_lemmas::{lemma_mul_by_int, lemma_mul_commutes};
use crate::isqrt::{isqrt, lemma_isqrt_floor, lemma_square_le, lemma_square_lt};
use super::vector::LIFT;
use super::R3;

verus! {

/// Scaling does not depend on the side on which the scalar stands: vector
/// times scalar and scalar times vector, as methods and as operators,
/// agree in every coordinate.
pub proof fn lemma_scale_symmetric(v: R3, s: Fixed)
    ensures
        v.spec_scale(s) == s.spec_times(v),
        v.spec_scale(s).x == s.spec_times(v).x,
        v.spec_scale(s).y == s.spec_times(v).y,
        v.spec_scale(s).z == s.spec_times(v).z,
        v.mul_spec(s) == s.mul_spec(v),
{
    lemma_mul_commutes(v.x, s);
    lemma_mul_commutes(v.y, s);
    lemma_mul_commutes(v.z, s);
}

/// The quotient of a non-negative `p` by a positive `n`, times `n`, is the
/// largest multiple of `n` that does not exceed `p`.
proof fn lemma_quotient_bounds(p: int, n: int)
    requires
        0 <= p,
        0 < n,
    ensures
        0 <= p / n,
        n * (p / n) <= p < n * (p / n + 1),
{
    vstd::arithmetic::div_mod::lemma_fundamental_div_mod(p, n);
    vstd::arithmetic::div_mod::lemma_mod_bound(p, n);
    vstd::arithmetic::div_mod::lemma_div_pos_is_pos(p, n);
    assert(n * (p / n + 1) == n * (p / n) + n) by (nonlinear_arith);
}

/// A coordinate is no longer than the vector: if `m * m` is at most a sum
/// that is below `(n + 1) * (n + 1)`, then `m` is at most `n`.
proof fn lemma_root_bound(m: int, q: int, n: int)
    requires
        0 <= m,
        0 <= n,
        m * m <= q,
        q < (n + 1) * (n + 1),
    ensures
        m <= n,
{
    if m > n {
        lemma_square_le(n + 1, m);
    }
}

/// The square of a product is the product of the squares.
proof fn lemma_square_of_product(f: int, a: int)
    ensures
        (f * a) * (f * a) == (f * f) * (a * a),
{
    assert((f * a) * (f * a) == (f * f) * (a * a)) by (nonlinear_arith);
}

/// A common factor leaves a sum of three squares as its square.
proof fn lemma_sum_of_scaled_squares(f: int, a: int, b: int, c: int)
    ensures
        (f * a) * (f * a) + (f * b) * (f * b) + (f * c) * (f * c) == (f * f) * (a * a + b * b + c
            * c),
{
    lemma_square_of_product(f, a);
    lemma_square_of_product(f, b);
    lemma_square_of_product(f, c);
    let k = f * f;
    assert(k * (a * a) + k * (b * b) + k * (c * c) == k * (a * a + b * b + c * c))
        by (nonlinear_arith);
}

/// The heart of the unit-length law, on integers. `x, y, z` are the
/// magnitudes of the coordinates, `n` the floor of their length, `a, b, c`
/// the coordinates times `s` divided by `n`, rounded down, and `t` the
/// floor of the length of `(a, b, c)`.
proof fn lemma_unit_bounds(x: int, y: int, z: int, n: int, a: int, b: int, c: int, s: int, t: int)
    requires
        0 < s,
        0 < n,
        0 <= x,
        0 <= y,
        0 <= z,
        0 <= a,
        0 <= b,
        0 <= c,
        0 <= t,
        n * n <= x * x + y * y + z * z,
        x * x + y * y + z * z < (n + 1) * (n + 1),
        n * a <= x * s < n * (a + 1),
        n * b <= y * s < n * (b + 1),
        n * c <= z * s < n * (c + 1),
        t * t <= a * a + b * b + c * c,
        a * a + b * b + c * c < (t + 1) * (t + 1),
    ensures
        s - 3 <= t,
        t * n < s * (n + 1),
{
    let q = x * x + y * y + z * z;
    let w = a * a + b * b + c * c;
    let k = n * n;
    let ss = s * s;
    assert(0 < k) by (nonlinear_arith)
        requires
            k == n * n,
            0 < n,
    ;
    assert(0 < ss) by (nonlinear_arith)
        requires
            ss == s * s,
            0 < s,
    ;
    assert(0 <= n * a && 0 <= n * b && 0 <= n * c) by (nonlinear_arith)
        requires
            0 < n,
            0 <= a,
            0 <= b,
            0 <= c,
    ;
    assert(0 <= x * s && 0 <= y * s && 0 <= z * s) by (nonlinear_arith)
        requires
            0 < s,
            0 <= x,
            0 <= y,
            0 <= z,
    ;
    // The upper bound.
    lemma_square_le(n * a, x * s);
    lemma_square_le(n * b, y * s);
    lemma_square_le(n * c, z * s);
    lemma_sum_of_scaled_squares(n, a, b, c);
    lemma_sum_of_scaled_squares(s, x, y, z);
    assert((x * s) * (x * s) + (y * s) * (y * s) + (z * s) * (z * s) == ss * q) by {
        assert(x * s == s * x && y * s == s * y && z * s == s * z) by (nonlinear_arith);
    }
    assert(k * w <= ss * q);
    assert(ss * q < ss * ((n + 1) * (n + 1))) by (nonlinear_arith)
        requires
            0 < ss,
            q < (n + 1) * (n + 1),
    ;
    assert(k * (t * t) <= k * w) by (nonlinear_arith)
        requires
            0 < k,
            t * t <= w,
    ;
    assert((t * n) * (t * n) == k * (t * t)) by (nonlinear_arith)
        requires
            k == n * n,
    ;
    assert((s * (n + 1)) * (s * (n + 1)) == ss * ((n + 1) * (n + 1))) by (nonlinear_arith)
        requires
            ss == s * s,
    ;
    assert(0 <= s * (n + 1)) by (nonlinear_arith)
        requires
            0 < s,
            0 < n,
    ;
    if t * n >= s * (n + 1) {
        lemma_square_le(s * (n + 1), t * n);
    }
    // The lower bound.
    lemma_square_lt(x * s, n * (a + 1));
    lemma_square_lt(y * s, n * (b + 1));
    lemma_square_lt(z * s, n * (c + 1));
    let u = (a + 1) * (a + 1) + (b + 1) * (b + 1) + (c + 1) * (c + 1);
    lemma_sum_of_scaled_squares(n, a + 1, b + 1, c + 1);
    assert(ss * k <= ss * q) by (nonlinear_arith)
        requires
            0 < ss,
            k <= q,
    ;
    assert(ss * k < k * u);
    assert(ss < u) by (nonlinear_arith)
        requires
            ss * k < k * u,
            0 < k,
    ;
    assert(0 <= a * a && 0 <= b * b && 0 <= c * c) by (nonlinear_arith);
    lemma_root_bound(a, w, t);
    lemma_root_bound(b, w, t);
    lemma_root_bound(c, w, t);
    assert(u == w + 2 * (a + b + c) + 3) by (nonlinear_arith)
        requires
            u == (a + 1) * (a + 1) + (b + 1) * (b + 1) + (c + 1) * (c + 1),
            w == a * a + b * b + c * c,
    ;
    assert((t + 1) * (t + 1) + 6 * t + 3 <= (t + 4) * (t + 4)) by (nonlinear_arith)
        requires
            0 <= t,
    ;
    assert(ss < (t + 4) * (t + 4));
    if s >= t + 4 {
        lemma_square_le(t + 4, s);
    }
}

/// One coordinate of a normalized vector: its magnitude is the magnitude
/// of the coordinate times one, divided by the length and rounded down.
proof fn lemma_quotient_coordinate(x: Fixed, n: int, q: int)
    requires
        0 < n,
        x@ * x@ <= q,
        q < (n + 1) * (n + 1),
    ensures
        abs(R3::spec_quotient(x, n)@) == (abs(x@) * SCALE) / n,
        R3::spec_quotient(x, n)@ * R3::spec_quotient(x, n)@ == abs(R3::spec_quotient(x, n)@) * abs(
            R3::spec_quotient(x, n)@,
        ),
        abs(R3::spec_quotient(x, n)@) <= SCALE,
{
    let m = abs(x@);
    assert(m * m == x@ * x@) by (nonlinear_arith)
        requires
            m == abs(x@),
            abs(x@) == if x@ < 0 {
                -x@
            } else {
                x@
            },
    ;
    lemma_root_bound(m, q, n);
    let p = m * SCALE;
    assert(abs(x@ * SCALE) == p);
    lemma_quotient_bounds(p, n);
    let a = p / n;
    assert(a <= SCALE) by (nonlinear_arith)
        requires
            n * a <= p,
            p == m * SCALE,
            m <= n,
            0 < n,
            0 <= a,
    ;
    assert(abs(trunc_div(x@ * SCALE, n)) == a);
    let d = R3::spec_quotient(x, n)@;
    assert(d == trunc_div(x@ * SCALE, n));
    assert(d * d == abs(d) * abs(d)) by (nonlinear_arith)
        requires
            abs(d) == if d < 0 {
                -d
            } else {
                d
            },
    ;
}

/// Lifting leaves the zero vector as it is and gives every other vector a
/// coordinate of at least the magnitude `LIFT`.
pub proof fn lemma_lifted(v: R3)
    ensures
        v == R3::spec_zero() <==> v.spec_reach() == 0,
        v == R3::spec_zero() ==> v.spec_lifted() == R3::spec_zero(),
        v != R3::spec_zero() ==> v.spec_lifted().spec_reach() >= LIFT,
    decreases 2 * LIFT - v.spec_reach(),
{
    if v.spec_reach() != 0 && v.spec_reach() < LIFT {
        lemma_lifted(v.spec_doubled());
    }
}

/// No coordinate is longer than the vector: if the square of `x` and
/// something that is not negative stay below `(t + 1) * (t + 1)`, then `x`
/// lies between `-t` and `t`.
pub proof fn lemma_coordinate_bound(x: int, rest: int, t: int)
    requires
        0 <= t,
        0 <= rest,
        x * x + rest < (t + 1) * (t + 1),
    ensures
        -t <= x <= t,
{
    if x > t {
        lemma_square_le(t + 1, x);
    } else if x < -t {
        lemma_square_le(t + 1, -x);
        assert((-x) * (-x) == x * x) by (nonlinear_arith);
    }
}

/// The squares of the coordinates of a vector whose coordinates are
/// bounded by `b`, and the length of such a vector.
pub proof fn lemma_norm_bound(v: R3, b: int)
    requires
        0 <= b < 0x4000_0000_0000_0000,
        -b <= v.x@ <= b,
        -b <= v.y@ <= b,
        -b <= v.z@ <= b,
    ensures
        0 <= v.spec_sum_sq() <= 3 * (b * b),
        v.spec_norm()@ == isqrt(v.spec_sum_sq()),
        0 <= v.spec_norm()@ <= 2 * b,
{
    assert(0 <= v.x@ * v.x@ <= b * b) by (nonlinear_arith)
        requires
            -b <= v.x@ <= b,
    ;
    assert(0 <= v.y@ * v.y@ <= b * b) by (nonlinear_arith)
        requires
            -b <= v.y@ <= b,
    ;
    assert(0 <= v.z@ * v.z@ <= b * b) by (nonlinear_arith)
        requires
            -b <= v.z@ <= b,
    ;
    let q = v.spec_sum_sq();
    lemma_isqrt_floor(q);
    assert((2 * b) * (2 * b) == 4 * (b * b)) by (nonlinear_arith);
    if isqrt(q) > 2 * b {
        lemma_square_le(2 * b + 1, isqrt(q));
        lemma_square_lt(2 * b, 2 * b + 1);
    }
}

/// A normalized vector is of unit length, whatever the length of the
/// vector it comes from: its length is at most three raw units below one
/// and does not exceed one, and none of its coordinates exceeds one. The
/// zero vector stays the zero vector.
pub proof fn lemma_normalize_unit(v: R3)
    ensures
        v != R3::spec_zero() ==> SCALE - 3 <= v.spec_normalize().spec_norm()@ <= SCALE,
        v != R3::spec_zero() ==> v.spec_normalize().spec_is_unit(),
        v == R3::spec_zero() ==> v.spec_normalize() == R3::spec_zero(),
        v.spec_normalize().spec_within(SCALE as int),
{
    lemma_lifted(v);
    let lifted = v.spec_lifted();
    let q = lifted.spec_sum_sq();
    let x = abs(lifted.x@);
    let y = abs(lifted.y@);
    let z = abs(lifted.z@);
    assert(x * x == lifted.x@ * lifted.x@ && y * y == lifted.y@ * lifted.y@ && z * z == lifted.z@
        * lifted.z@ && 0 <= x * x && 0 <= y * y && 0 <= z * z) by (nonlinear_arith)
        requires
            x == lifted.x@ || x == -lifted.x@,
            y == lifted.y@ || y == -lifted.y@,
            z == lifted.z@ || z == -lifted.z@,
    ;
    lemma_isqrt_floor(q);
    let n = isqrt(q);
    if v == R3::spec_zero() {
        assert(q == 0) by (nonlinear_arith)
            requires
                q == lifted.x@ * lifted.x@ + lifted.y@ * lifted.y@ + lifted.z@ * lifted.z@,
                lifted.x@ == 0,
                lifted.y@ == 0,
                lifted.z@ == 0,
        ;
    } else {
        let m = lifted.spec_reach();
        assert(m * m <= q) by {
            assert(m == x || m == y || m == z);
        }
        lemma_root_bound(m, q, n);
        lemma_quotient_coordinate(lifted.x, n, q);
        lemma_quotient_coordinate(lifted.y, n, q);
        lemma_quotient_coordinate(lifted.z, n, q);
        let u = v.spec_normalize();
        let a = abs(u.x@);
        let b = abs(u.y@);
        let c = abs(u.z@);
        lemma_quotient_bounds(x * SCALE, n);
        lemma_quotient_bounds(y * SCALE, n);
        lemma_quotient_bounds(z * SCALE, n);
        let w = u.spec_sum_sq();
        assert(w == a * a + b * b + c * c);
        lemma_square_le(a, SCALE as int);
        lemma_square_le(b, SCALE as int);
        lemma_square_le(c, SCALE as int);
        lemma_isqrt_floor(w);
        let t = isqrt(w);
        if t > 2 * SCALE {
            lemma_square_le(2 * SCALE, t);
        }
        assert(u.spec_norm()@ == t);
        lemma_unit_bounds(x, y, z, n, a, b, c, SCALE as int, t);
        assert(t <= SCALE) by (nonlinear_arith)
            requires
                t * n < SCALE * (n + 1),
                SCALE <= n,
                0 < SCALE,
        ;
    }
}

/// Normalizing discards the length: a vector and the vector twice as long
/// have the same normalized vector.
pub proof fn lemma_normalize_doubled(v: R3)
    requires
        v.spec_reach() < LIFT,
    ensures
        v.spec_doubled().spec_lifted() == v.spec_lifted(),
        v.spec_doubled().spec_normalize() == v.spec_normalize(),
{
    lemma_lifted(v);
    if v.spec_reach() == 0 {
        assert(v.spec_doubled() == v);
    }
}

/// Lifting the opposite vector gives the opposite of the lifted vector.
proof fn lemma_lifted_negated(v: R3)
    requires
        v.spec_within(i64::MAX as int),
    ensures
        v.spec_negated().spec_lifted() == v.spec_lifted().spec_negated(),
        v.spec_lifted().spec_within(i64::MAX as int),
    decreases 2 * LIFT - v.spec_reach(),
{
    assert(v.spec_negated().spec_reach() == v.spec_reach());
    if v.spec_reach() != 0 && v.spec_reach() < LIFT {
        lemma_lifted_negated(v.spec_doubled());
        assert(v.spec_negated().spec_doubled() == v.spec_doubled().spec_negated());
    }
}

/// Normalizing never flips a vector: the opposite vector has the opposite
/// normalized vector. This holds of every vector that has an opposite,
/// that is, none of whose coordinates is the smallest number; and for
/// these the opposite is what multiplying by minus one gives.
pub proof fn lemma_normalize_negated(v: R3)
    requires
        v.spec_within(i64::MAX as int),
    ensures
        v.spec_negated().spec_normalize() == v.spec_normalize().spec_negated(),
        Fixed::spec_from_int(-1).spec_times(v) == v.spec_negated(),
{
    lemma_lifted_negated(v);
    lemma_normalize_unit(v);
    let w = v.spec_lifted();
    let o = w.spec_negated();
    assert(o.spec_sum_sq() == w.spec_sum_sq()) by (nonlinear_arith)
        requires
            o.spec_sum_sq() == o.x@ * o.x@ + o.y@ * o.y@ + o.z@ * o.z@,
            w.spec_sum_sq() == w.x@ * w.x@ + w.y@ * w.y@ + w.z@ * w.z@,
            o.x@ == -w.x@,
            o.y@ == -w.y@,
            o.z@ == -w.z@,
    ;
    lemma_mul_by_int(-1, v.x);
    lemma_mul_by_int(-1, v.y);
    lemma_mul_by_int(-1, v.z);
}

/// Lifting stretches every coordinate by the same factor, which is at
/// least one.
pub proof fn lemma_lift_factor(v: R3)
    ensures
        1 <= v.spec_lift_factor(),
        v.spec_lifted().x@ == v.spec_lift_factor() * v.x@,
        v.spec_lifted().y@ == v.spec_lift_factor() * v.y@,
        v.spec_lifted().z@ == v.spec_lift_factor() * v.z@,
    decreases 2 * LIFT - v.spec_reach(),
{
    if v.spec_reach() != 0 && v.spec_reach() < LIFT {
        let d = v.spec_doubled();
        lemma_lift_factor(d);
        let f = d.spec_lift_factor();
        assert(f * (2 * v.x@) == (2 * f) * v.x@ && f * (2 * v.y@) == (2 * f) * v.y@ && f * (2 * v.z@)
            == (2 * f) * v.z@) by (nonlinear_arith);
    }
}

/// A coordinate of a vector of about unit length, normalized once more,
/// moves by little. `a` is the magnitude of the coordinate, `t` the length
/// of the vector, `c` the factor of lifting, `n` the length of the lifted
/// vector, and `b` the magnitude of the coordinate of the result.
proof fn lemma_requotient(a: int, b: int, c: int, n: int, t: int, s: int)
    requires
        16 <= s,
        1 <= c,
        0 <= a <= t,
        s - 3 <= t <= s + 1,
        c * t <= n < c * (t + 1),
        0 <= b <= s,
        n * b <= (c * a) * s < n * (b + 1),
    ensures
        a - 2 <= b <= a + 3,
{
    if b >= a + 4 {
        assert((c * t) * b <= n * b) by (nonlinear_arith)
            requires
                c * t <= n,
                0 <= b,
        ;
        assert((c * t) * b == c * (t * b) && (c * a) * s == c * (a * s)) by (nonlinear_arith);
        assert(t * b <= a * s) by (nonlinear_arith)
            requires
                c * (t * b) <= c * (a * s),
                1 <= c,
        ;
        assert(t * b >= (s - 3) * (a + 4)) by (nonlinear_arith)
            requires
                s - 3 <= t,
                a + 4 <= b,
                0 <= a,
                3 <= s,
        ;
        assert((s - 3) * (a + 4) == a * s + 4 * s - 3 * a - 12) by (nonlinear_arith);
    }
    if b <= a - 3 {
        assert(n * (b + 1) <= (c * (t + 1)) * (b + 1)) by (nonlinear_arith)
            requires
                n < c * (t + 1),
                0 <= b,
        ;
        assert((c * (t + 1)) * (b + 1) == c * ((t + 1) * (b + 1)) && (c * a) * s == c * (a * s))
            by (nonlinear_arith);
        assert(a * s < (t + 1) * (b + 1)) by (nonlinear_arith)
            requires
                c * (a * s) < c * ((t + 1) * (b + 1)),
                1 <= c,
        ;
        assert((t + 1) * (b + 1) <= (s + 2) * (a - 2)) by (nonlinear_arith)
            requires
                0 <= t + 1 <= s + 2,
                0 <= b + 1 <= a - 2,
        ;
        assert((s + 2) * (a - 2) == a * s - 2 * s + 2 * a - 4) by (nonlinear_arith);
    }
}

/// Normalizing a vector of unit length once more changes no coordinate by
/// more than three raw units, and leaves a vector of unit length.
pub proof fn lemma_normalize_again(u: R3)
    requires
        u.spec_is_unit(),
    ensures
        u.spec_normalize().spec_close(u, 3),
        u.spec_normalize().spec_is_unit(),
{
    let s = SCALE as int;
    lemma_norm_bound(R3::spec_zero(), 0);
    assert(u != R3::spec_zero());
    lemma_normalize_unit(u);
    lemma_lifted(u);
    lemma_lift_factor(u);
    let c = u.spec_lift_factor();
    let w = u.spec_lifted();
    let q = u.spec_sum_sq();
    let x = abs(u.x@);
    let y = abs(u.y@);
    let z = abs(u.z@);
    assert(x * x == u.x@ * u.x@ && y * y == u.y@ * u.y@ && z * z == u.z@ * u.z@ && 0 <= x * x && 0
        <= y * y && 0 <= z * z) by (nonlinear_arith)
        requires
            x == u.x@ || x == -u.x@,
            y == u.y@ || y == -u.y@,
            z == u.z@ || z == -u.z@,
    ;
    // The length of the vector, and the bound that it puts on a coordinate.
    lemma_isqrt_floor(q);
    let t = isqrt(q);
    if t > 2 * s {
        lemma_square_le(2 * s, t);
    }
    assert(u.spec_norm()@ == t);
    lemma_root_bound(x, q, t);
    lemma_root_bound(y, q, t);
    lemma_root_bound(z, q, t);
    // The length of the lifted vector.
    let qq = w.spec_sum_sq();
    lemma_sum_of_scaled_squares(c, u.x@, u.y@, u.z@);
    assert(qq == (c * c) * q);
    lemma_square_of_product(c, t);
    lemma_square_of_product(c, t + 1);
    assert((c * c) * (t * t) <= (c * c) * q && (c * c) * q < (c * c) * ((t + 1) * (t + 1)))
        by (nonlinear_arith)
        requires
            1 <= c,
            t * t <= q,
            q < (t + 1) * (t + 1),
    ;
    assert(0 <= c * t && 0 <= c * (t + 1)) by (nonlinear_arith)
        requires
            1 <= c,
            0 <= t,
    ;
    lemma_isqrt_floor(qq);
    let n = isqrt(qq);
    if n < c * t {
        lemma_square_le(n + 1, c * t);
    }
    if n >= c * (t + 1) {
        lemma_square_le(c * (t + 1), n);
    }
    assert(0 < n) by (nonlinear_arith)
        requires
            c * t <= n,
            1 <= c,
            1 <= t,
    ;
    // Each coordinate.
    assert(w.x@ * w.x@ <= qq && w.y@ * w.y@ <= qq && w.z@ * w.z@ <= qq) by (nonlinear_arith)
        requires
            qq == w.x@ * w.x@ + w.y@ * w.y@ + w.z@ * w.z@,
    ;
    lemma_quotient_coordinate(w.x, n, qq);
    lemma_quotient_coordinate(w.y, n, qq);
    lemma_quotient_coordinate(w.z, n, qq);
    assert(abs(w.x@) == c * x && abs(w.y@) == c * y && abs(w.z@) == c * z) by (nonlinear_arith)
        requires
            1 <= c,
            w.x@ == c * u.x@,
            w.y@ == c * u.y@,
            w.z@ == c * u.z@,
            x == abs(u.x@),
            y == abs(u.y@),
            z == abs(u.z@),
            abs(w.x@) == w.x@ || abs(w.x@) == -w.x@,
            abs(w.y@) == w.y@ || abs(w.y@) == -w.y@,
            abs(w.z@) == w.z@ || abs(w.z@) == -w.z@,
            0 <= abs(w.x@),
            0 <= abs(w.y@),
            0 <= abs(w.z@),
            x == u.x@ || x == -u.x@,
            y == u.y@ || y == -u.y@,
            z == u.z@ || z == -u.z@,
            0 <= x,
            0 <= y,
            0 <= z,
    ;
    let v = u.spec_normalize();
    lemma_quotient_bounds((c * x) * s, n);
    lemma_quotient_bounds((c * y) * s, n);
    lemma_quotient_bounds((c * z) * s, n);
    lemma_requotient(x, abs(v.x@), c, n, t, s);
    lemma_requotient(y, abs(v.y@), c, n, t, s);
    lemma_requotient(z, abs(v.z@), c, n, t, s);
    // The sign of a coordinate stays.
    assert((u.x@ > 0 ==> w.x@ > 0) && (u.x@ < 0 ==> w.x@ < 0) && (u.y@ > 0 ==> w.y@ > 0) && (u.y@
        < 0 ==> w.y@ < 0) && (u.z@ > 0 ==> w.z@ > 0) && (u.z@ < 0 ==> w.z@ < 0)) by (nonlinear_arith)
        requires
            1 <= c,
            w.x@ == c * u.x@,
            w.y@ == c * u.y@,
            w.z@ == c * u.z@,
    ;
}

/// One coordinate of a normalized vector is within one raw unit of the
/// exact quotient. `m` is the magnitude of the coordinate, `q` the sum of
/// the squares of the coordinates, `c` the factor of lifting, `n` the
/// length of the lifted vector, `a` the magnitude of the result.
proof fn lemma_quotient_exact(m: int, q: int, c: int, n: int, a: int, s: int)
    requires
        1 <= c,
        0 <= m,
        0 <= q,
        0 < s <= n,
        0 <= a <= s,
        n * n <= (c * c) * q,
        (c * c) * q < (n + 1) * (n + 1),
        n * a <= (c * m) * s < n * (a + 1),
    ensures
        ((a + 1) * (a + 1)) * q > (s * s) * (m * m),
        a >= 1 ==> ((a - 1) * (a - 1)) * q < (s * s) * (m * m),
{
    let k = c * c;
    let e = (c * m) * s;
    assert(0 < k) by (nonlinear_arith)
        requires
            k == c * c,
            1 <= c,
    ;
    assert(0 <= e) by (nonlinear_arith)
        requires
            e == (c * m) * s,
            1 <= c,
            0 <= m,
            0 < s,
    ;
    assert(e * e == k * ((s * s) * (m * m))) by (nonlinear_arith)
        requires
            e == (c * m) * s,
            k == c * c,
    ;
    // From below.
    let up = n * (a + 1);
    lemma_square_lt(e, up);
    lemma_square_of_product(n, a + 1);
    assert((n * n) * ((a + 1) * (a + 1)) <= (k * q) * ((a + 1) * (a + 1))) by (nonlinear_arith)
        requires
            n * n <= k * q,
            0 <= (a + 1) * (a + 1),
    ;
    assert((k * q) * ((a + 1) * (a + 1)) == k * (((a + 1) * (a + 1)) * q)) by (nonlinear_arith);
    assert(((a + 1) * (a + 1)) * q > (s * s) * (m * m)) by (nonlinear_arith)
        requires
            k * ((s * s) * (m * m)) < k * (((a + 1) * (a + 1)) * q),
            0 < k,
    ;
    // From above.
    if a >= 1 {
        let low = (a - 1) * (n + 1);
        assert(low == n * a + a - n - 1) by (nonlinear_arith)
            requires
                low == (a - 1) * (n + 1),
        ;
        assert(0 <= low) by (nonlinear_arith)
            requires
                low == (a - 1) * (n + 1),
                1 <= a,
                0 < n,
        ;
        lemma_square_le(low, e);
        lemma_square_of_product(a - 1, n + 1);
        if a == 1 {
            assert(((a - 1) * (a - 1)) * q == 0) by (nonlinear_arith)
                requires
                    a == 1,
            ;
            // The coordinate is not zero, for its quotient is at least one.
            assert(0 < m) by (nonlinear_arith)
                requires
                    n * a <= (c * m) * s,
                    a == 1,
                    0 < n,
                    0 <= m,
            ;
            assert(0 < (s * s) * (m * m)) by (nonlinear_arith)
                requires
                    0 < s,
                    0 < m,
            ;
        } else {
            assert(0 < (a - 1) * (a - 1)) by (nonlinear_arith)
                requires
                    2 <= a,
            ;
            assert(((a - 1) * (a - 1)) * (k * q) < ((a - 1) * (a - 1)) * ((n + 1) * (n + 1)))
                by (nonlinear_arith)
                requires
                    k * q < (n + 1) * (n + 1),
                    0 < (a - 1) * (a - 1),
            ;
            assert(((a - 1) * (a - 1)) * (k * q) == k * (((a - 1) * (a - 1)) * q))
                by (nonlinear_arith);
            assert(((a - 1) * (a - 1)) * q < (s * s) * (m * m)) by (nonlinear_arith)
                requires
                    k * (((a - 1) * (a - 1)) * q) < k * ((s * s) * (m * m)),
                    0 < k,
            ;
        }
    }
}

/// Every coordinate of a normalized vector is within one raw unit of the
/// exact coordinate of the unit vector in the same direction, however long
/// or short the vector is.
pub proof fn lemma_normalize_exact(v: R3)
    ensures
        v != R3::spec_zero() ==> v.spec_normalize().spec_points_along(v),
{
    if v != R3::spec_zero() {
        let s = SCALE as int;
        lemma_normalize_unit(v);
        lemma_lifted(v);
        lemma_lift_factor(v);
        let c = v.spec_lift_factor();
        let w = v.spec_lifted();
        let q = v.spec_sum_sq();
        let x = abs(v.x@);
        let y = abs(v.y@);
        let z = abs(v.z@);
        assert(x * x == v.x@ * v.x@ && y * y == v.y@ * v.y@ && z * z == v.z@ * v.z@ && 0 <= x * x
            && 0 <= y * y && 0 <= z * z) by (nonlinear_arith)
            requires
                x == v.x@ || x == -v.x@,
                y == v.y@ || y == -v.y@,
                z == v.z@ || z == -v.z@,
        ;
        let qq = w.spec_sum_sq();
        lemma_sum_of_scaled_squares(c, v.x@, v.y@, v.z@);
        assert(qq == (c * c) * q);
        lemma_isqrt_floor(qq);
        let n = isqrt(qq);
        assert(w.x@ * w.x@ <= qq && w.y@ * w.y@ <= qq && w.z@ * w.z@ <= qq && 0 <= w.x@ * w.x@ && 0
            <= w.y@ * w.y@ && 0 <= w.z@ * w.z@) by (nonlinear_arith)
            requires
                qq == w.x@ * w.x@ + w.y@ * w.y@ + w.z@ * w.z@,
        ;
        let m = w.spec_reach();
        assert(m * m <= qq) by {
            assert(m == abs(w.x@) || m == abs(w.y@) || m == abs(w.z@));
            assert(abs(w.x@) * abs(w.x@) == w.x@ * w.x@ && abs(w.y@) * abs(w.y@) == w.y@ * w.y@
                && abs(w.z@) * abs(w.z@) == w.z@ * w.z@) by (nonlinear_arith)
                requires
                    abs(w.x@) == w.x@ || abs(w.x@) == -w.x@,
                    abs(w.y@) == w.y@ || abs(w.y@) == -w.y@,
                    abs(w.z@) == w.z@ || abs(w.z@) == -w.z@,
            ;
        }
        lemma_root_bound(m, qq, n);
        lemma_quotient_coordinate(w.x, n, qq);
        lemma_quotient_coordinate(w.y, n, qq);
        lemma_quotient_coordinate(w.z, n, qq);
        assert(abs(w.x@) == c * x && abs(w.y@) == c * y && abs(w.z@) == c * z && (v.x@ > 0 ==> w.x@
            > 0) && (v.x@ < 0 ==> w.x@ < 0) && (v.y@ > 0 ==> w.y@ > 0) && (v.y@ < 0 ==> w.y@ < 0) && (
        v.z@ > 0 ==> w.z@ > 0) && (v.z@ < 0 ==> w.z@ < 0) && (v.x@ == 0 ==> w.x@ == 0) && (v.y@ == 0
            ==> w.y@ == 0) && (v.z@ == 0 ==> w.z@ == 0)) by (nonlinear_arith)
            requires
                1 <= c,
                w.x@ == c * v.x@,
                w.y@ == c * v.y@,
                w.z@ == c * v.z@,
                x == v.x@ || x == -v.x@,
                y == v.y@ || y == -v.y@,
                z == v.z@ || z == -v.z@,
                0 <= x,
                0 <= y,
                0 <= z,
                abs(w.x@) == w.x@ || abs(w.x@) == -w.x@,
                abs(w.y@) == w.y@ || abs(w.y@) == -w.y@,
                abs(w.z@) == w.z@ || abs(w.z@) == -w.z@,
                0 <= abs(w.x@),
                0 <= abs(w.y@),
                0 <= abs(w.z@),
        ;
        let u = v.spec_normalize();
        lemma_quotient_bounds((c * x) * s, n);
        lemma_quotient_bounds((c * y) * s, n);
        lemma_quotient_bounds((c * z) * s, n);
        assert(0 <= q);
        lemma_quotient_exact(x, q, c, n, abs(u.x@), s);
        lemma_quotient_exact(y, q, c, n, abs(u.y@), s);
        lemma_quotient_exact(z, q, c, n, abs(u.z@), s);
    }
}

/// Where one vector is a whole multiple of another, their normalized
/// vectors differ by one raw unit at most in every coordinate: normalizing
/// discards the length.
pub proof fn lemma_normalize_multiple(v: R3, k: int, longer: R3)
    requires
        1 <= k,
        v != R3::spec_zero(),
        longer.x@ == k * v.x@,
        longer.y@ == k * v.y@,
        longer.z@ == k * v.z@,
    ensures
        longer.spec_normalize().spec_close(v.spec_normalize(), 1),
{
    assert(longer != R3::spec_zero()) by (nonlinear_arith)
        requires
            1 <= k,
            longer.x@ == k * v.x@,
            longer.y@ == k * v.y@,
            longer.z@ == k * v.z@,
            v.x@ != 0 || v.y@ != 0 || v.z@ != 0,
            longer != R3::spec_zero() <==> (longer.x@ != 0 || longer.y@ != 0 || longer.z@ != 0),
    ;
    lemma_normalize_exact(v);
    lemma_normalize_exact(longer);
    let q = v.spec_sum_sq();
    let kk = k * k;
    lemma_sum_of_scaled_squares(k, v.x@, v.y@, v.z@);
    assert(longer.spec_sum_sq() == kk * q);
    assert(0 < q) by (nonlinear_arith)
        requires
            q == v.x@ * v.x@ + v.y@ * v.y@ + v.z@ * v.z@,
            v.x@ != 0 || v.y@ != 0 || v.z@ != 0,
    ;
    let u = v.spec_normalize();
    let l = longer.spec_normalize();
    lemma_coordinates_agree(u.x@, l.x@, v.x@, k, q);
    lemma_coordinates_agree(u.y@, l.y@, v.y@, k, q);
    lemma_coordinates_agree(u.z@, l.z@, v.z@, k, q);
}

/// Two raw coordinates that are both within one raw unit of the same exact
/// quotient differ by one raw unit at most.
proof fn lemma_coordinates_agree(u: int, l: int, x: int, k: int, q: int)
    requires
        1 <= k,
        0 < q,
        R3::spec_coordinate_along(u, x, q),
        R3::spec_coordinate_along(l, k * x, (k * k) * q),
    ensures
        -1 <= l - u <= 1,
{
    let s2 = (SCALE as int) * (SCALE as int);
    let e = s2 * (x * x);
    let a = abs(u);
    let b = abs(l);
    let kk = k * k;
    assert(0 < kk) by (nonlinear_arith)
        requires
            kk == k * k,
            1 <= k,
    ;
    assert((k * x) * (k * x) == kk * (x * x)) by (nonlinear_arith)
        requires
            kk == k * k,
    ;
    assert(s2 * (kk * (x * x)) == kk * e) by (nonlinear_arith)
        requires
            e == s2 * (x * x),
    ;
    assert(((b + 1) * (b + 1)) * (kk * q) == kk * (((b + 1) * (b + 1)) * q)) by (nonlinear_arith);
    assert(((b + 1) * (b + 1)) * q > e) by (nonlinear_arith)
        requires
            kk * (((b + 1) * (b + 1)) * q) > kk * e,
            0 < kk,
    ;
    if b >= 1 {
        assert(((b - 1) * (b - 1)) * (kk * q) == kk * (((b - 1) * (b - 1)) * q))
            by (nonlinear_arith);
        assert(((b - 1) * (b - 1)) * q < e) by (nonlinear_arith)
            requires
                kk * (((b - 1) * (b - 1)) * q) < kk * e,
                0 < kk,
        ;
    }
    // Both magnitudes bracket the same number.
    if a >= b + 2 {
        assert((a - 1) * (a - 1) >= (b + 1) * (b + 1)) by (nonlinear_arith)
            requires
                a - 1 >= b + 1,
                0 <= b,
        ;
        assert(((a - 1) * (a - 1)) * q >= ((b + 1) * (b + 1)) * q) by (nonlinear_arith)
            requires
                (a - 1) * (a - 1) >= (b + 1) * (b + 1),
                0 < q,
        ;
    }
    if b >= a + 2 {
        assert((b - 1) * (b - 1) >= (a + 1) * (a + 1)) by (nonlinear_arith)
            requires
                b - 1 >= a + 1,
                0 <= a,
        ;
        assert(((b - 1) * (b - 1)) * q >= ((a + 1) * (a + 1)) * q) by (nonlinear_arith)
            requires
                (b - 1) * (b - 1) >= (a + 1) * (a + 1),
                0 < q,
        ;
    }
    assert((x > 0 ==> k * x > 0) && (x < 0 ==> k * x < 0) && (x == 0 ==> k * x == 0))
        by (nonlinear_arith)
        requires
            1 <= k,
    ;
}

} // verus!
