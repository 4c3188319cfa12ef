//! What holds of the fixed-point operations.
use vstd::prelude::*;
use crate::fixed::{Fixed, SCALE, abs, mul_raw, sat, trunc_div};
use crate::isqrt::{lemma_isqrt_floor, lemma_isqrt_monotone, lemma_isqrt_of_square};

verus! {

/// The magnitude of a product is the product of the magnitudes, and the
/// product is negative only if the signs differ.
pub proof fn lemma_abs_mul(a: int, b: int)
    ensures
        abs(a) * abs(b) == abs(a * b),
        a * b < 0 ==> (a < 0) != (b < 0),
        a * b > 0 ==> (a < 0) == (b < 0),
{
    assert(abs(a) * abs(b) == abs(a * b) && (a * b < 0 ==> (a < 0) != (b < 0)) && (a * b > 0 ==> (a
        < 0) == (b < 0))) by (nonlinear_arith)
        requires
            abs(a) == if a < 0 {
                -a
            } else {
                a
            },
            abs(b) == if b < 0 {
                -b
            } else {
                b
            },
            abs(a * b) == if a * b < 0 {
                -(a * b)
            } else {
                a * b
            },
    ;
}

/// Dividing a multiple of a nonzero `b` by `b` gives the factor back.
pub proof fn lemma_trunc_div_of_multiple(k: int, b: int)
    requires
        b != 0,
    ensures
        trunc_div(k * b, b) == k,
{
    lemma_abs_mul(k, b);
    assert((abs(k) * abs(b)) / abs(b) == abs(k)) by (nonlinear_arith)
        requires
            abs(b) > 0,
            abs(k) >= 0,
    ;
    assert(k == 0 ==> k * b == 0) by (nonlinear_arith);
}

/// Multiplication does not depend on the order of its factors.
pub proof fn lemma_mul_commutes(a: Fixed, b: Fixed)
    ensures
        a.spec_mul(b) == b.spec_mul(a),
{
    assert(a@ * b@ == b@ * a@) by (nonlinear_arith);
}

/// The product of two non-negative numbers is not negative.
pub proof fn lemma_mul_sign(a: Fixed, b: Fixed)
    requires
        a@ >= 0,
        b@ >= 0,
    ensures
        a.spec_mul(b)@ >= 0,
{
    lemma_abs_mul(a@, b@);
    assert(a@ * b@ >= 0) by (nonlinear_arith)
        requires
            a@ >= 0,
            b@ >= 0,
    ;
}

/// Multiplying by a whole number that is representable is exact: the
/// product with the fixed-point value of `k` is `k` times the other factor,
/// saturated.
pub proof fn lemma_mul_by_int(k: int, a: Fixed)
    requires
        -0x80_0000 <= k < 0x80_0000,
    ensures
        Fixed::spec_from_int(k).spec_mul(a)@ == sat(k * a@),
        a.spec_mul(Fixed::spec_from_int(k))@ == sat(k * a@),
{
    let f = Fixed::spec_from_int(k);
    assert(f@ == k * SCALE);
    assert(f@ * a@ == (k * a@) * SCALE) by (nonlinear_arith)
        requires
            f@ == k * SCALE,
    ;
    lemma_trunc_div_of_multiple(k * a@, SCALE as int);
    assert(mul_raw(f@, a@) == k * a@);
    lemma_mul_commutes(f, a);
}

/// The root of the square of a non-negative number is at most that number.
pub proof fn lemma_root_of_square(r: Fixed)
    requires
        0 <= r@,
    ensures
        0 <= r.spec_mul(r).spec_sqrt()@ <= r@,
        0 <= r.spec_mul(r)@,
{
    let p = r@ * r@;
    assert(0 <= p) by (nonlinear_arith)
        requires
            p == r@ * r@,
    ;
    let b = r.spec_mul(r)@;
    assert(b <= p / (SCALE as int));
    assert(b * SCALE <= p);
    lemma_isqrt_monotone(b * SCALE, p);
    lemma_isqrt_of_square(r@);
    lemma_isqrt_floor(b * SCALE);
}

/// Squares grow with the magnitude: the square of a number is the square
/// of its negation, and of two non-negative numbers the larger has the
/// larger square.
pub proof fn lemma_square_order(a: Fixed, b: Fixed)
    requires
        0 <= a@ <= b@,
    ensures
        a.spec_mul(a)@ <= b.spec_mul(b)@,
        b.spec_neg().spec_mul(b.spec_neg()) == b.spec_mul(b),
{
    assert(0 <= a@ * a@ <= b@ * b@) by (nonlinear_arith)
        requires
            0 <= a@ <= b@,
    ;
    assert((-b@) * (-b@) == b@ * b@) by (nonlinear_arith);
    vstd::arithmetic::div_mod::lemma_div_is_ordered(a@ * a@, b@ * b@, SCALE as int);
    assert(mul_raw(a@, a@) == (a@ * a@) / (SCALE as int));
    assert(mul_raw(b@, b@) == (b@ * b@) / (SCALE as int));
}

/// A product of two bounded numbers that cannot saturate is within the
/// re-scaled product of the bounds, and differs from the exact product by
/// less than one raw unit.
pub proof fn lemma_mul_error(a: Fixed, b: Fixed, bound_a: int, bound_b: int)
    requires
        -bound_a <= a@ <= bound_a,
        -bound_b <= b@ <= bound_b,
        (bound_a * bound_b) / (SCALE as int) <= i64::MAX,
    ensures
        -((bound_a * bound_b) / (SCALE as int)) <= a.spec_mul(b)@ <= (bound_a * bound_b) / (
        SCALE as int),
        -SCALE < a.spec_mul(b)@ * SCALE - a@ * b@ < SCALE,
{
    let p = a@ * b@;
    assert(-(bound_a * bound_b) <= p <= bound_a * bound_b) by (nonlinear_arith)
        requires
            p == a@ * b@,
            -bound_a <= a@ <= bound_a,
            -bound_b <= b@ <= bound_b,
    ;
    vstd::arithmetic::div_mod::lemma_div_is_ordered(abs(p), bound_a * bound_b, SCALE as int);
    assert(mul_raw(a@, b@) == trunc_div(p, SCALE as int));
}

/// A non-negative number times a ratio of non-negative whole numbers is
/// the exact product divided by the denominator and rounded down, and does
/// not exceed the number where the ratio does not exceed one.
pub proof fn lemma_mul_ratio(a: Fixed, num: int, den: int)
    requires
        0 <= a@,
        0 <= num,
        0 < den,
    ensures
        a.spec_mul_ratio(num, den)@ == sat((a@ * num) / den),
        0 <= (a@ * num) / den,
        den * ((a@ * num) / den) <= a@ * num < den * ((a@ * num) / den + 1),
        num <= den ==> a.spec_mul_ratio(num, den)@ == (a@ * num) / den <= a@,
{
    let p = a@ * num;
    assert(0 <= p) by (nonlinear_arith)
        requires
            p == a@ * num,
            0 <= a@,
            0 <= num,
    ;
    let q = p / den;
    vstd::arithmetic::div_mod::lemma_fundamental_div_mod(p, den);
    vstd::arithmetic::div_mod::lemma_mod_bound(p, den);
    vstd::arithmetic::div_mod::lemma_div_pos_is_pos(p, den);
    assert(den * (q + 1) == den * q + den) by (nonlinear_arith);
    if num <= den {
        assert(p <= a@ * den) by (nonlinear_arith)
            requires
                p == a@ * num,
                0 <= a@,
                0 <= num <= den,
        ;
        assert(q <= a@) by (nonlinear_arith)
            requires
                den * q <= p,
                p <= a@ * den,
                0 < den,
                0 <= q,
                0 <= a@,
        ;
    }
}

/// Rounding toward zero keeps the order: of two quotients by the same
/// positive number, the one of the larger dividend is not smaller, and it
/// is larger where the dividends differ by at least twice the divisor.
pub proof fn lemma_trunc_div_ordered(a: int, b: int, d: int)
    requires
        a <= b,
        0 < d,
    ensures
        trunc_div(a, d) <= trunc_div(b, d),
        a + 2 * d <= b ==> trunc_div(a, d) < trunc_div(b, d),
        d * trunc_div(a, d) - d < a < d * trunc_div(a, d) + d,
{
    lemma_trunc_div_near(a, d);
    lemma_trunc_div_near(b, d);
    let x = trunc_div(a, d);
    let y = trunc_div(b, d);
    if y < x {
        assert(d * x >= d * y + d) by (nonlinear_arith)
            requires
                y + 1 <= x,
                0 < d,
        ;
        // Then both quotients are of one sign, and the floors or the
        // ceilings are out of order.
        if a >= 0 {
            vstd::arithmetic::div_mod::lemma_div_is_ordered(a, b, d);
        } else if b < 0 {
            vstd::arithmetic::div_mod::lemma_div_is_ordered(-b, -a, d);
        } else {
            vstd::arithmetic::div_mod::lemma_div_pos_is_pos(b, d);
            vstd::arithmetic::div_mod::lemma_div_pos_is_pos(-a, d);
        }
    }
    if a + 2 * d <= b && y == x {
        assert(d * x == d * y);
    }
}

/// A quotient rounded toward zero, times the divisor, is less than the
/// divisor away from the dividend.
pub proof fn lemma_trunc_div_near(a: int, d: int)
    requires
        0 < d,
    ensures
        d * trunc_div(a, d) - d < a < d * trunc_div(a, d) + d,
        a >= 0 ==> 0 <= d * trunc_div(a, d) <= a,
        a <= 0 ==> a <= d * trunc_div(a, d) <= 0,
{
    let m = abs(a);
    let q = m / d;
    vstd::arithmetic::div_mod::lemma_fundamental_div_mod(m, d);
    vstd::arithmetic::div_mod::lemma_mod_bound(m, d);
    vstd::arithmetic::div_mod::lemma_div_pos_is_pos(m, d);
    assert(d * (-q) == -(d * q)) by (nonlinear_arith);
    assert(0 <= d * q) by (nonlinear_arith)
        requires
            0 <= q,
            0 < d,
    ;
}

/// A non-negative number times a ratio of non-negative whole numbers,
/// rounded up: the least whole number of raw units that is not below the
/// exact value. It is zero only where the exact value is zero.
pub proof fn lemma_mul_ratio_up(a: Fixed, num: int, den: int)
    requires
        0 <= a@,
        0 <= num,
        0 < den,
    ensures
        a.spec_mul_ratio_up(num, den)@ == sat((a@ * num + den - 1) / den),
        0 <= (a@ * num + den - 1) / den,
        den * ((a@ * num + den - 1) / den) - den < a@ * num <= den * ((a@ * num + den - 1) / den),
        a@ * num > 0 ==> (a@ * num + den - 1) / den > 0,
        a@ * num == 0 ==> (a@ * num + den - 1) / den == 0,
{
    let p = a@ * num;
    assert(0 <= p) by (nonlinear_arith)
        requires
            p == a@ * num,
            0 <= a@,
            0 <= num,
    ;
    let t = p + den - 1;
    let q = t / den;
    vstd::arithmetic::div_mod::lemma_fundamental_div_mod(t, den);
    vstd::arithmetic::div_mod::lemma_mod_bound(t, den);
    vstd::arithmetic::div_mod::lemma_div_pos_is_pos(t, den);
    if p == 0 {
        vstd::arithmetic::div_mod::lemma_basic_div(t, den);
    }
    if p > 0 && q <= 0 {
        assert(den * q <= 0) by (nonlinear_arith)
            requires
                q <= 0,
                0 < den,
        ;
    }
}

/// The quotient rounded up is the one whole number whose multiple of the
/// divisor is the first that is not below the dividend.
pub proof fn lemma_ceil_unique(p: int, d: int, q: int)
    requires
        0 < d,
        d * q - d < p <= d * q,
    ensures
        (p + d - 1) / d == q,
{
    let t = p + d - 1;
    let c = t / d;
    vstd::arithmetic::div_mod::lemma_fundamental_div_mod(t, d);
    vstd::arithmetic::div_mod::lemma_mod_bound(t, d);
    if c < q {
        assert(d * c + d <= d * q) by (nonlinear_arith)
            requires
                c + 1 <= q,
                0 < d,
        ;
    }
    if c > q {
        assert(d * c >= d * q + d) by (nonlinear_arith)
            requires
                c >= q + 1,
                0 < d,
        ;
    }
}

} // verus!
