//! The length of a mirrored direction.
use vstd::prelude::*;
use crate::fixed::SCALE;
use crate::fixed_lemmas::{lemma_mul_by_int, lemma_mul_error};
use crate::isqrt::{isqrt, lemma_isqrt_floor, lemma_square_le};
use super::shape::spec_reflect;
use super::vector_lemmas::{lemma_coordinate_bound, lemma_norm_bound};
use super::R3;

verus! {

/// The product of two bounded integers is bounded by the product of the
/// bounds.
proof fn lemma_product_bound(x: int, y: int, bx: int, by: int)
    requires
        -bx <= x <= bx,
        -by <= y <= by,
    ensures
        -(bx * by) <= x * y <= bx * by,
{
    assert(-(bx * by) <= x * y <= bx * by) by (nonlinear_arith)
        requires
            -bx <= x <= bx,
            -by <= y <= by,
    ;
}

/// One coordinate of the mirrored direction, scaled by the square `k` of
/// the unit `s`, differs from the exact `2 d n - k l` by at most `8 k`.
/// Here `d` is the exact inner product, `a` the rounded one, and `u` the
/// rounded product of `a` and the coordinate `n` of the normal.
proof fn lemma_coordinate_error(s: int, k: int, d: int, a: int, n: int, l: int, u: int)
    requires
        0 < s,
        k == s * s,
        -s <= n <= s,
        -(3 * s) <= a * s - d <= 3 * s,
        -s <= u * s - a * n <= s,
    ensures
        -(8 * k) <= k * (2 * u - l) - (2 * d * n - k * l) <= 8 * k,
{
    let ea = a * s - d;
    let e = u * s - a * n;
    assert(k * u - d * n == ea * n + s * e) by (nonlinear_arith)
        requires
            k == s * s,
            ea == a * s - d,
            e == u * s - a * n,
    ;
    lemma_product_bound(ea, n, 3 * s, s);
    lemma_product_bound(s, e, s, s);
    assert((3 * s) * s == 3 * k) by (nonlinear_arith)
        requires
            k == s * s,
    ;
    assert(k * (2 * u - l) - (2 * d * n - k * l) == 2 * (k * u - d * n)) by (nonlinear_arith);
}

/// If `x` and `r` differ by at most `8 k`, then `r * r` is at most
/// `2 x * x + 128 k * k`.
proof fn lemma_square_of_near(x: int, r: int, k: int)
    requires
        0 <= k,
        -(8 * k) <= x - r <= 8 * k,
    ensures
        r * r <= 2 * (x * x) + 128 * (k * k),
{
    let e = x - r;
    lemma_product_bound(e, e, 8 * k, 8 * k);
    assert((8 * k) * (8 * k) == 64 * (k * k)) by (nonlinear_arith);
    assert(r * r <= 2 * (x * x) + 2 * (e * e)) by (nonlinear_arith)
        requires
            e == x - r,
    ;
}

/// The square of one coordinate of the exact mirrored direction.
proof fn lemma_exact_square(d: int, k: int, n: int, l: int)
    ensures
        (2 * d * n - k * l) * (2 * d * n - k * l) == 4 * ((d * d) * (n * n)) - 4 * (k * (d * (n
            * l))) + (k * k) * (l * l),
{
    let p = 2 * d * n;
    let q = k * l;
    assert((p - q) * (p - q) == p * p - 2 * (p * q) + q * q) by (nonlinear_arith);
    assert(p * p == 4 * ((d * d) * (n * n))) by (nonlinear_arith)
        requires
            p == 2 * d * n,
    ;
    assert(q * q == (k * k) * (l * l)) by (nonlinear_arith)
        requires
            q == k * l,
    ;
    assert(p * q == 2 * (k * (d * (n * l)))) by (nonlinear_arith)
        requires
            p == 2 * d * n,
            q == k * l,
    ;
}

/// The squared length of the exact mirrored direction `2 d n - k l`, where
/// `d` is the inner product of `n` and `l`: it is the squared length of
/// `l` scaled by `k * k`, and `4 d * d` times what the squared length of
/// `n` has more than `k`.
proof fn lemma_exact_length(
    d: int,
    k: int,
    n1: int,
    n2: int,
    n3: int,
    l1: int,
    l2: int,
    l3: int,
)
    requires
        d == n1 * l1 + n2 * l2 + n3 * l3,
    ensures
        (2 * d * n1 - k * l1) * (2 * d * n1 - k * l1) + (2 * d * n2 - k * l2) * (2 * d * n2 - k
            * l2) + (2 * d * n3 - k * l3) * (2 * d * n3 - k * l3) == (k * k) * (l1 * l1 + l2 * l2
            + l3 * l3) + 4 * ((d * d) * (n1 * n1 + n2 * n2 + n3 * n3 - k)),
{
    lemma_exact_square(d, k, n1, l1);
    lemma_exact_square(d, k, n2, l2);
    lemma_exact_square(d, k, n3, l3);
    let dd = d * d;
    let kk = k * k;
    let nn = n1 * n1 + n2 * n2 + n3 * n3;
    let ll = l1 * l1 + l2 * l2 + l3 * l3;
    assert(dd * (n1 * n1) + dd * (n2 * n2) + dd * (n3 * n3) == dd * nn) by (nonlinear_arith)
        requires
            nn == n1 * n1 + n2 * n2 + n3 * n3,
    ;
    assert(kk * (l1 * l1) + kk * (l2 * l2) + kk * (l3 * l3) == kk * ll) by (nonlinear_arith)
        requires
            ll == l1 * l1 + l2 * l2 + l3 * l3,
    ;
    assert(d * (n1 * l1) + d * (n2 * l2) + d * (n3 * l3) == dd) by (nonlinear_arith)
        requires
            d == n1 * l1 + n2 * l2 + n3 * l3,
            dd == d * d,
    ;
    let t = d * (n1 * l1) + d * (n2 * l2) + d * (n3 * l3);
    assert(k * (d * (n1 * l1)) + k * (d * (n2 * l2)) + k * (d * (n3 * l3)) == k * t)
        by (nonlinear_arith)
        requires
            t == d * (n1 * l1) + d * (n2 * l2) + d * (n3 * l3),
    ;
    assert(dd * (nn - k) == dd * nn - k * dd) by (nonlinear_arith);
}

/// The heart of the law on mirrored directions, on integers. `s` is the
/// unit, `n` a normal whose coordinates do not exceed the unit and which
/// is zero or at least `s - 3` long, `l` a direction that is at least
/// `s - 3` long, `a` their rounded inner product, `u` the rounded product
/// of `a` and `n`. Then `2 u - l` is more than half a unit long.
proof fn lemma_mirror_length(
    s: int,
    n1: int,
    n2: int,
    n3: int,
    l1: int,
    l2: int,
    l3: int,
    a: int,
    u1: int,
    u2: int,
    u3: int,
)
    requires
        2048 <= s,
        -s <= n1 <= s,
        -s <= n2 <= s,
        -s <= n3 <= s,
        -(2 * s) <= l1 <= 2 * s,
        -(2 * s) <= l2 <= 2 * s,
        -(2 * s) <= l3 <= 2 * s,
        (n1 == 0 && n2 == 0 && n3 == 0) || (s - 3) * (s - 3) <= n1 * n1 + n2 * n2 + n3 * n3,
        (s - 3) * (s - 3) <= l1 * l1 + l2 * l2 + l3 * l3,
        -(3 * s) <= a * s - (n1 * l1 + n2 * l2 + n3 * l3) <= 3 * s,
        -s <= u1 * s - a * n1 <= s,
        -s <= u2 * s - a * n2 <= s,
        -s <= u3 * s - a * n3 <= s,
    ensures
        (s + 2) * (s + 2) <= 4 * ((2 * u1 - l1) * (2 * u1 - l1) + (2 * u2 - l2) * (2 * u2 - l2) + (
        2 * u3 - l3) * (2 * u3 - l3)),
{
    let k = s * s;
    let kk = k * k;
    let d = n1 * l1 + n2 * l2 + n3 * l3;
    let dd = d * d;
    let nn = n1 * n1 + n2 * n2 + n3 * n3;
    let ll = l1 * l1 + l2 * l2 + l3 * l3;
    let r1 = 2 * u1 - l1;
    let r2 = 2 * u2 - l2;
    let r3 = 2 * u3 - l3;
    let rr = r1 * r1 + r2 * r2 + r3 * r3;
    let x1 = k * r1;
    let x2 = k * r2;
    let x3 = k * r3;
    let e1 = 2 * d * n1 - k * l1;
    let e2 = 2 * d * n2 - k * l2;
    let e3 = 2 * d * n3 - k * l3;
    assert(0 < k && 2048 * s <= k) by (nonlinear_arith)
        requires
            k == s * s,
            2048 <= s,
    ;
    assert(0 < kk) by (nonlinear_arith)
        requires
            kk == k * k,
            0 < k,
    ;
    // The rounded mirror image is close to the exact one.
    lemma_coordinate_error(s, k, d, a, n1, l1, u1);
    lemma_coordinate_error(s, k, d, a, n2, l2, u2);
    lemma_coordinate_error(s, k, d, a, n3, l3, u3);
    lemma_square_of_near(x1, e1, k);
    lemma_square_of_near(x2, e2, k);
    lemma_square_of_near(x3, e3, k);
    let ee = e1 * e1 + e2 * e2 + e3 * e3;
    let xx = x1 * x1 + x2 * x2 + x3 * x3;
    assert(ee <= 2 * xx + 384 * kk);
    // The exact mirror image is about as long as the direction.
    lemma_exact_length(d, k, n1, n2, n3, l1, l2, l3);
    assert(ee == kk * ll + 4 * (dd * (nn - k)));
    lemma_product_bound(n1, l1, s, 2 * s);
    lemma_product_bound(n2, l2, s, 2 * s);
    lemma_product_bound(n3, l3, s, 2 * s);
    assert(s * (2 * s) == 2 * k) by (nonlinear_arith)
        requires
            k == s * s,
    ;
    assert(-(6 * k) <= d <= 6 * k);
    lemma_product_bound(d, d, 6 * k, 6 * k);
    assert((6 * k) * (6 * k) == 36 * kk) by (nonlinear_arith)
        requires
            kk == k * k,
    ;
    assert(0 <= dd) by (nonlinear_arith)
        requires
            dd == d * d,
    ;
    assert(dd * (nn - k) >= -(216 * (kk * s))) by {
        if n1 == 0 && n2 == 0 && n3 == 0 {
            assert(d == 0) by (nonlinear_arith)
                requires
                    d == n1 * l1 + n2 * l2 + n3 * l3,
                    n1 == 0,
                    n2 == 0,
                    n3 == 0,
            ;
            assert(dd * (nn - k) == 0) by (nonlinear_arith)
                requires
                    dd == d * d,
                    d == 0,
            ;
            assert(0 <= kk * s) by (nonlinear_arith)
                requires
                    0 < kk,
                    0 < s,
            ;
        } else {
            assert((s - 3) * (s - 3) == k - 6 * s + 9) by (nonlinear_arith)
                requires
                    k == s * s,
            ;
            assert(dd * (nn - k) >= dd * (-(6 * s))) by (nonlinear_arith)
                requires
                    0 <= dd,
                    nn - k >= -(6 * s),
            ;
            assert(dd * (6 * s) <= (36 * kk) * (6 * s)) by (nonlinear_arith)
                requires
                    dd <= 36 * kk,
                    0 < s,
            ;
            assert(dd * (-(6 * s)) == -(dd * (6 * s))) by (nonlinear_arith);
            assert((36 * kk) * (6 * s) == 216 * (kk * s)) by (nonlinear_arith);
        }
    }
    assert(xx == kk * rr) by {
        assert(x1 * x1 == kk * (r1 * r1)) by (nonlinear_arith)
            requires
                x1 == k * r1,
                kk == k * k,
        ;
        assert(x2 * x2 == kk * (r2 * r2)) by (nonlinear_arith)
            requires
                x2 == k * r2,
                kk == k * k,
        ;
        assert(x3 * x3 == kk * (r3 * r3)) by (nonlinear_arith)
            requires
                x3 == k * r3,
                kk == k * k,
        ;
        assert(kk * (r1 * r1) + kk * (r2 * r2) + kk * (r3 * r3) == kk * rr) by (nonlinear_arith)
            requires
                rr == r1 * r1 + r2 * r2 + r3 * r3,
        ;
    }
    // Together.
    assert(kk * ll - 864 * (kk * s) - 384 * kk <= 2 * (kk * rr));
    assert(kk * (ll - 864 * s - 384) == kk * ll - 864 * (kk * s) - 384 * kk) by (nonlinear_arith);
    assert(kk * (ll - 864 * s - 384) <= kk * (2 * rr)) by (nonlinear_arith)
        requires
            kk * (ll - 864 * s - 384) <= 2 * (kk * rr),
    ;
    assert(ll - 864 * s - 384 <= 2 * rr) by (nonlinear_arith)
        requires
            kk * (ll - 864 * s - 384) <= kk * (2 * rr),
            0 < kk,
    ;
    assert((s - 3) * (s - 3) == k - 6 * s + 9) by (nonlinear_arith)
        requires
            k == s * s,
    ;
    assert((s + 2) * (s + 2) == k + 4 * s + 4) by (nonlinear_arith)
        requires
            k == s * s,
    ;
}

/// `n` can stand for a normal: none of its coordinates exceeds one, and it
/// is the zero vector or at most three raw units shorter than one.
pub open spec fn spec_near_normal(n: R3) -> bool {
    &&& -SCALE <= n.x@ <= SCALE
    &&& -SCALE <= n.y@ <= SCALE
    &&& -SCALE <= n.z@ <= SCALE
    &&& (n == R3::spec_zero() || SCALE - 3 <= n.spec_norm()@)
}

/// The mirror image of a unit direction about a normal is more than half a
/// unit long, so that normalizing it gives a unit vector.
pub proof fn lemma_reflect_long(n: R3, l: R3)
    requires
        spec_near_normal(n),
        l.spec_is_unit(),
    ensures
        SCALE < 2 * spec_reflect(n, l).spec_norm()@,
        spec_reflect(n, l).spec_norm()@ < i64::MAX,
{
    let s = SCALE as int;
    // What is known of the two vectors.
    lemma_norm_bound(n, s);
    let nn = n.spec_sum_sq();
    let ll = l.spec_sum_sq();
    assert(0 <= l.x@ * l.x@ && 0 <= l.y@ * l.y@ && 0 <= l.z@ * l.z@) by (nonlinear_arith);
    lemma_isqrt_floor(ll);
    let tl = isqrt(ll);
    assert(s - 3 <= tl <= s + 1);
    lemma_square_le(s - 3, tl);
    lemma_coordinate_bound(l.x@, l.y@ * l.y@ + l.z@ * l.z@, tl);
    lemma_coordinate_bound(l.y@, l.x@ * l.x@ + l.z@ * l.z@, tl);
    lemma_coordinate_bound(l.z@, l.x@ * l.x@ + l.y@ * l.y@, tl);
    if n != R3::spec_zero() {
        lemma_isqrt_floor(nn);
        lemma_square_le(s - 3, isqrt(nn));
    }
    // The rounded inner product.
    let b = 2 * s;
    assert((s * b) / s == b) by (nonlinear_arith)
        requires
            s > 0,
    ;
    lemma_product_bound(n.x@, l.x@, s, b);
    lemma_product_bound(n.y@, l.y@, s, b);
    lemma_product_bound(n.z@, l.z@, s, b);
    let a = n.spec_dot(l);
    let d = n.x@ * l.x@ + n.y@ * l.y@ + n.z@ * l.z@;
    let t = crate::fixed::trunc_div(d, s);
    crate::fixed_lemmas::lemma_trunc_div_near(d, s);
    assert(-(3 * b) <= t <= 3 * b) by (nonlinear_arith)
        requires
            -(3 * (s * b)) <= d <= 3 * (s * b),
            d >= 0 ==> 0 <= s * t <= d,
            d <= 0 ==> d <= s * t <= 0,
            0 < s,
            0 <= b,
    ;
    assert(a@ == t);
    assert(a@ * s == s * t) by (nonlinear_arith)
        requires
            a@ == t,
    ;
    assert(-(3 * s) <= a@ * s - d <= 3 * s);
    // The normal scaled by the inner product, and twice that.
    let c = 3 * b;
    assert((c * s) / s == c) by (nonlinear_arith)
        requires
            s > 0,
    ;
    lemma_mul_error(a, n.x, c, s);
    lemma_mul_error(a, n.y, c, s);
    lemma_mul_error(a, n.z, c, s);
    let u = a.spec_times(n);
    lemma_mul_by_int(2, u.x);
    lemma_mul_by_int(2, u.y);
    lemma_mul_by_int(2, u.z);
    let r = spec_reflect(n, l);
    assert(r.x@ == 2 * u.x@ - l.x@);
    assert(r.y@ == 2 * u.y@ - l.y@);
    assert(r.z@ == 2 * u.z@ - l.z@);
    lemma_mirror_length(s, n.x@, n.y@, n.z@, l.x@, l.y@, l.z@, a@, u.x@, u.y@, u.z@);
    // The length of the mirror image.
    lemma_norm_bound(r, 16 * s);
    let rr = r.spec_sum_sq();
    let t = isqrt(rr);
    lemma_isqrt_floor(rr);
    assert(4 * ((t + 1) * (t + 1)) == (2 * t + 2) * (2 * t + 2)) by (nonlinear_arith);
    if 2 * t + 2 <= s + 2 {
        lemma_square_le(2 * t + 2, s + 2);
    }
}

} // verus!
