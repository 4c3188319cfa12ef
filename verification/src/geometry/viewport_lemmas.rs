//! What holds of the rays that a viewport casts.
use vstd::prelude::*;
use crate::fixed::{Fixed, sat, trunc_div};
use crate::fixed_lemmas::{
    lemma_ceil_unique,
    lemma_mul_by_int,
    lemma_mul_ratio,
    lemma_mul_ratio_up,
    lemma_trunc_div_near,
    lemma_trunc_div_of_multiple,
    lemma_trunc_div_ordered,
};
use super::vector_lemmas::{
    lemma_norm_bound,
    lemma_normalize_again,
    lemma_normalize_exact,
    lemma_normalize_unit,
};
use super::viewport::Projection;
use super::R3;

verus! {

/// The primary ray of every pixel starts in the view plane. Unless the view
/// plane lies in the eye, it is of unit direction, and its direction is
/// that of its origin seen from the eye: within three raw units of the
/// normalized origin, which is within one raw unit of the exact unit
/// vector.
pub proof fn lemma_primary_ray_unit(f: Projection, i: i32, j: i32)
    ensures
        f.spec_ray(i, j).pt == f.spec_point(i, j),
        f.spec_ray(i, j).pt.z == f.clip,
        f.clip@ != 0 ==> f.spec_ray(i, j).spec_wf(),
        f.clip@ != 0 ==> f.spec_ray(i, j).dir.spec_close(f.spec_point(i, j).spec_normalize(), 3),
        f.clip@ != 0 ==> f.spec_point(i, j).spec_normalize().spec_points_along(f.spec_point(i, j)),
{
    let p = f.spec_point(i, j);
    if f.clip@ != 0 {
        lemma_normalize_unit(p);
        lemma_normalize_exact(p);
        // Taking the eye, which is the origin, away changes nothing, and
        // normalizing a unit vector leaves a unit vector.
        let u = p.spec_normalize();
        let d = u.spec_sub(Projection::spec_eye());
        assert(d == u);
        lemma_norm_bound(R3::spec_zero(), 0);
        lemma_normalize_unit(d);
        lemma_normalize_again(u);
    }
}

/// On a moderate viewport every derived quantity is the exact quantity
/// rounded once: the width is twice the clip distance, the height is
/// `2 clip h / w` rounded up, the corner lies at `(-clip, clip h / w,
/// clip)`, half the width to the left of the camera's axis and half the
/// height above it, and the two steps are both `2 clip / w` rounded up.
/// Where the view plane lies in front of the eye, all of the width, the
/// height and the steps are positive.
pub proof fn lemma_derived_exact(f: Projection)
    requires
        f.spec_moderate(),
    ensures
        f.spec_width()@ == 2 * f.clip@,
        f.spec_height()@ == (2 * f.clip@ * f.h + f.w - 1) / (f.w as int),
        f.w * f.spec_height()@ - f.w < 2 * f.clip@ * f.h <= f.w * f.spec_height()@,
        f.spec_origin().x@ == -f.clip@,
        f.spec_origin().y@ == (f.clip@ * f.h) / (f.w as int),
        f.spec_origin().z == f.clip,
        2 * f.spec_origin().y@ <= f.spec_height()@ <= 2 * f.spec_origin().y@ + 2,
        f.spec_dx()@ == (2 * f.clip@ + f.w - 1) / (f.w as int),
        f.spec_dy() == f.spec_dx(),
        f.w * f.spec_dx()@ - f.w < f.spec_width()@ <= f.w * f.spec_dx()@,
        0 < f.clip@ ==> 0 < f.spec_width()@ && 0 < f.spec_height()@ && 0 < f.spec_dx()@ && 0
            < f.spec_dy()@,
{
    let clip = f.clip;
    let w = f.w as int;
    let h = f.h as int;
    // The width is twice the clip distance.
    lemma_mul_by_int(2, Fixed::spec_one());
    lemma_mul_by_int(2, clip);
    let width = f.spec_width();
    assert(width@ == 2 * clip@);
    // The height.
    lemma_mul_ratio_up(width, h, w);
    assert((2 * clip@) * h == 2 * clip@ * h);
    let p = 2 * clip@ * h;
    let hh = (p + w - 1) / w;
    assert(0 <= p && (0 < clip@ ==> 0 < p)) by (nonlinear_arith)
        requires
            p == 2 * clip@ * h,
            0 <= clip@,
            0 < h,
    ;
    if hh > i64::MAX {
        assert(w * hh - w >= w * i64::MAX) by (nonlinear_arith)
            requires
                hh >= i64::MAX + 1,
                0 < w,
        ;
        assert(i64::MAX * w == w * i64::MAX) by (nonlinear_arith);
    }
    assert(f.spec_height()@ == hh);
    // The corner.
    lemma_mul_ratio(clip, h, w);
    let t = (clip@ * h) / w;
    assert(p == 2 * (clip@ * h)) by (nonlinear_arith)
        requires
            p == 2 * clip@ * h,
    ;
    assert(w * (2 * t) == 2 * (w * t) && w * (2 * t + 2) == 2 * (w * (t + 1))) by (nonlinear_arith);
    assert(2 * t <= hh <= 2 * t + 2) by {
        if hh < 2 * t {
            assert(w * hh <= w * (2 * t) - w) by (nonlinear_arith)
                requires
                    hh + 1 <= 2 * t,
                    0 < w,
            ;
        }
        if hh > 2 * t + 2 {
            assert(w * hh - w >= w * (2 * t + 2)) by (nonlinear_arith)
                requires
                    hh - 1 >= 2 * t + 2,
                    0 < w,
            ;
        }
    }
    assert(t <= hh);
    lemma_trunc_div_of_multiple(-clip@, w);
    assert(clip@ * (2 * 0 - w) == (-clip@) * w) by (nonlinear_arith);
    assert(clip@ * (h - 2 * 0) == clip@ * h);
    // The steps.
    lemma_mul_ratio_up(width, 1, w);
    assert(width@ * 1 == width@);
    let q = (width@ + w - 1) / w;
    assert(q <= width@) by {
        if q > width@ {
            assert(w * q - w >= w * width@) by (nonlinear_arith)
                requires
                    q - 1 >= width@,
                    0 < w,
            ;
            assert(w * width@ >= width@) by (nonlinear_arith)
                requires
                    1 <= w,
                    0 <= width@,
            ;
        }
    }
    let area = w * h;
    assert(0 < area) by (nonlinear_arith)
        requires
            area == w * h,
            0 < w,
            0 < h,
    ;
    lemma_mul_ratio_up(width, h, area);
    assert(area * q - area < width@ * h <= area * q) by (nonlinear_arith)
        requires
            w * q - w < width@ <= w * q,
            area == w * h,
            0 < h,
    ;
    lemma_ceil_unique(width@ * h, area, q);
}

/// The point of a pixel is exact but for one rounding toward zero in each
/// coordinate: where the image has at least one column, the point of every
/// pixel lies at `clip (2 i - w) / w` and `clip (h - 2 j) / w`, rounded
/// toward zero and saturated, in the view plane, and so less than one raw
/// unit from the exact position unless that is out of range.
pub proof fn lemma_point_exact(f: Projection, i: i32, j: i32)
    requires
        0 < f.w,
    ensures
        f.spec_point(i, j).z == f.clip,
        f.spec_point(i, j).x@ == sat(trunc_div(f.clip@ * (2 * i - f.w), f.w as int)),
        f.spec_point(i, j).y@ == sat(trunc_div(f.clip@ * (f.h - 2 * j), f.w as int)),
        f.w * trunc_div(f.clip@ * (2 * i - f.w), f.w as int) - f.w < f.clip@ * (2 * i - f.w) < f.w
            * trunc_div(f.clip@ * (2 * i - f.w), f.w as int) + f.w,
        f.w * trunc_div(f.clip@ * (f.h - 2 * j), f.w as int) - f.w < f.clip@ * (f.h - 2 * j) < f.w
            * trunc_div(f.clip@ * (f.h - 2 * j), f.w as int) + f.w,
{
    lemma_trunc_div_near(f.clip@ * (2 * i - f.w), f.w as int);
    lemma_trunc_div_near(f.clip@ * (f.h - 2 * j), f.w as int);
}

/// Columns run to the right and rows run downward: on a viewport of at
/// least one column whose view plane lies in front of the eye, a pixel
/// further right does not lie further left, and a pixel further down does
/// not lie higher. Where the clip distance has at least as many raw units
/// as the image has columns, so that a step is two raw units or more, each
/// column lies to the right of the one before and each row below the one
/// before, as long as nothing saturates.
pub proof fn lemma_pixels_ordered(f: Projection, i1: i32, i2: i32, j1: i32, j2: i32)
    requires
        0 < f.w,
        0 <= f.clip@,
        i1 <= i2,
        j1 <= j2,
    ensures
        f.spec_point(i1, j1).x@ <= f.spec_point(i2, j1).x@,
        f.spec_point(i1, j1).y@ >= f.spec_point(i1, j2).y@,
        f.spec_point(i1, j1).x == f.spec_point(i1, j2).x,
        f.spec_point(i1, j1).y == f.spec_point(i2, j1).y,
        i1 < i2 && f.w <= f.clip@ && f.spec_point(i2, j1).x@ < i64::MAX && f.spec_point(i1, j1).x@
            > i64::MIN ==> f.spec_point(i1, j1).x@ < f.spec_point(i2, j1).x@,
        j1 < j2 && f.w <= f.clip@ && f.spec_point(i1, j1).y@ < i64::MAX && f.spec_point(i1, j2).y@
            > i64::MIN ==> f.spec_point(i1, j1).y@ > f.spec_point(i1, j2).y@,
{
    let c = f.clip@;
    let w = f.w as int;
    let a1 = 2 * i1 - f.w;
    let a2 = 2 * i2 - f.w;
    let b1 = f.h - 2 * j1;
    let b2 = f.h - 2 * j2;
    assert(c * a1 <= c * a2 && (i1 < i2 && w <= c ==> c * a1 + 2 * w <= c * a2)) by (nonlinear_arith)
        requires
            0 <= c,
            a1 <= a2,
            i1 < i2 ==> a1 + 2 <= a2,
    ;
    assert(c * b2 <= c * b1 && (j1 < j2 && w <= c ==> c * b2 + 2 * w <= c * b1)) by (nonlinear_arith)
        requires
            0 <= c,
            b2 <= b1,
            j1 < j2 ==> b2 + 2 <= b1,
    ;
    lemma_trunc_div_ordered(c * a1, c * a2, w);
    lemma_trunc_div_ordered(c * b2, c * b1, w);
}

/// The view plane is symmetric about the camera's axis: the point of the
/// pixel as many columns from the right edge and rows from the lower edge
/// as another is from the left and the upper has the opposite coordinates,
/// where these are not so large that they saturate.
pub proof fn lemma_point_mirrored(f: Projection, i: i32, j: i32, k: i32, l: i32)
    requires
        f.w != 0,
        i + k == f.w,
        j + l == f.h,
        i64::MIN < f.spec_point(i, j).x@ < i64::MAX,
        i64::MIN < f.spec_point(i, j).y@ < i64::MAX,
        f.clip@ != i64::MIN,
    ensures
        f.spec_point(k, l).x@ == -f.spec_point(i, j).x@,
        f.spec_point(k, l).y@ == -f.spec_point(i, j).y@,
        f.spec_point(k, l).z == f.spec_point(i, j).z,
{
    let c = f.clip@;
    assert(c * (2 * k - f.w) == -(c * (2 * i - f.w))) by (nonlinear_arith)
        requires
            i + k == f.w,
    ;
    assert(c * (f.h - 2 * l) == -(c * (f.h - 2 * j))) by (nonlinear_arith)
        requires
            j + l == f.h,
    ;
}

/// The rays of the pixels of the image lead forward: where the image has
/// at least one pixel each way and the view plane lies in front of the
/// eye, the direction of the primary ray of every pixel of the image has a
/// positive third coordinate.
pub proof fn lemma_primary_ray_forward(f: Projection, i: i32, j: i32)
    requires
        0 < f.w,
        0 < f.h,
        0 < f.clip@,
        f.spec_covers(i, j),
    ensures
        f.spec_ray(i, j).dir.z@ > 0,
{
    let c = f.clip@;
    let w = f.w as int;
    let h = f.h as int;
    let p = f.spec_point(i, j);
    // The point lies no further sideways than the clip distance, and no
    // further up or down than the clip distance times the height in pixels.
    let a = 2 * i - f.w;
    let b = f.h - 2 * j;
    assert(c * (-w) <= c * a <= c * w && -(c * h) <= c * b <= c * h) by (nonlinear_arith)
        requires
            0 < c,
            -w <= a <= w,
            -h <= b <= h,
            0 < w,
            0 < h,
    ;
    lemma_trunc_div_ordered(c * (-w), c * a, w);
    lemma_trunc_div_ordered(c * a, c * w, w);
    lemma_trunc_div_of_multiple(c, w);
    lemma_trunc_div_of_multiple(-c, w);
    assert(c * (-w) == (-c) * w) by (nonlinear_arith);
    lemma_trunc_div_near(c * b, w);
    let t = trunc_div(c * b, w);
    assert(t <= w * t || t <= 0) by (nonlinear_arith)
        requires
            1 <= w,
    ;
    assert(w * t <= t || t >= 0) by (nonlinear_arith)
        requires
            1 <= w,
    ;
    let m = c * h;
    assert(0 < m) by (nonlinear_arith)
        requires
            m == c * h,
            0 < c,
            0 < h,
    ;
    assert(-c <= p.x@ <= c);
    assert(-m <= p.y@ <= m);
    let q = p.spec_sum_sq();
    assert(0 <= q <= c * c + m * m + c * c) by (nonlinear_arith)
        requires
            q == p.x@ * p.x@ + p.y@ * p.y@ + p.z@ * p.z@,
            -c <= p.x@ <= c,
            -m <= p.y@ <= m,
            p.z@ == c,
    ;
    assert(m * m == (c * c) * (h * h)) by (nonlinear_arith)
        requires
            m == c * h,
    ;
    // So the normalized point has a third coordinate of some size.
    lemma_primary_ray_unit(f, i, j);
    lemma_normalize_exact(p);
    lemma_normalize_unit(p);
    let u = p.spec_normalize();
    let s = crate::fixed::SCALE as int;
    let cc = c * c;
    let k = (u.z@ + 1) * (u.z@ + 1);
    if u.z@ <= 3 {
        assert(k <= 16) by (nonlinear_arith)
            requires
                k == (u.z@ + 1) * (u.z@ + 1),
                0 <= u.z@ <= 3,
        ;
        assert(h * h <= 0x4000_0000_0000_0000) by (nonlinear_arith)
            requires
                0 < h <= 0x8000_0000,
        ;
        assert(k * q <= 16 * (cc * (2 + h * h))) by (nonlinear_arith)
            requires
                0 <= k <= 16,
                0 <= q <= cc + cc * (h * h) + cc,
        ;
        assert(16 * (cc * (2 + h * h)) <= cc * (s * s)) by (nonlinear_arith)
            requires
                0 <= cc,
                0 <= h * h <= 0x4000_0000_0000_0000,
                s == 0x100_0000_0000,
        ;
        assert((s * s) * (c * c) == cc * (s * s)) by (nonlinear_arith)
            requires
                cc == c * c,
        ;
    }
}

/// Whatever the size of the image and the clip distance, as long as they
/// are positive, the width and the height of the view plane and the two
/// steps are positive: none of them is lost to rounding.
pub proof fn lemma_derived_positive(f: Projection)
    requires
        0 < f.w,
        0 < f.h,
        0 < f.clip@,
    ensures
        0 < f.spec_width()@,
        0 < f.spec_height()@,
        0 < f.spec_dx()@,
        0 < f.spec_dy()@,
{
    let w = f.w as int;
    let h = f.h as int;
    lemma_mul_by_int(2, Fixed::spec_one());
    lemma_mul_by_int(2, f.clip);
    let width = f.spec_width();
    assert(0 < width@);
    let area = w * h;
    assert(0 < area && 0 < width@ * h && 0 < width@ * 1) by (nonlinear_arith)
        requires
            area == w * h,
            0 < w,
            0 < h,
            0 < width@,
    ;
    lemma_mul_ratio_up(width, h, w);
    lemma_mul_ratio_up(width, 1, w);
    lemma_mul_ratio_up(width, h, area);
}

} // verus!
