//! Signed fixed-point numbers with 40 fractional bits.
//!
//! A `Fixed` with raw value `r` stands for the rational number `r / 2^40`:
//! the numbers reach from about -8.4 million to 8.4 million in steps of
//! less than one part in a million million.
//! Every operation is total: a result that does not fit saturates at the
//! nearest representable value, and a quotient or product that is not
//! representable exactly is rounded toward zero. What is made of several
//! steps is rounded once where that is possible (`mul_ratio`, and the inner
//! product and the length of a vector), so that no result is further than
//! one raw unit from the exact value.
use vstd::prelude::*;
use crate::fixed_lemmas::lemma_abs_mul;
use crate::isqrt::{isqrt, isqrt_u128, lemma_isqrt_floor, lemma_square_le};

verus! {

/// The raw value of 1.0.
pub const SCALE: i64 = 0x100_0000_0000;

/// `v` clamped to the range of `i64`.
pub open spec fn sat(v: int) -> int {
    if v < i64::MIN {
        i64::MIN as int
    } else if v > i64::MAX {
        i64::MAX as int
    } else {
        v
    }
}

/// The absolute value of `v`.
pub open spec fn abs(v: int) -> int {
    if v < 0 {
        -v
    } else {
        v
    }
}

/// The quotient of `a` by `b` rounded toward zero (`b` nonzero).
pub open spec fn trunc_div(a: int, b: int) -> int {
    let q = abs(a) / abs(b);
    if (a < 0) != (b < 0) {
        -q
    } else {
        q
    }
}

/// The quotient of `a` by `b` rounded away from zero (`b` nonzero).
pub open spec fn away_div(a: int, b: int) -> int {
    let q = (abs(a) + abs(b) - 1) / abs(b);
    if (a < 0) != (b < 0) {
        -q
    } else {
        q
    }
}

/// The exact product of two raw values re-scaled to a raw value, before
/// saturation.
pub open spec fn mul_raw(a: int, b: int) -> int {
    trunc_div(a * b, SCALE as int)
}

/// The exact quotient of two raw values re-scaled to a raw value, before
/// saturation (`b` nonzero).
pub open spec fn div_raw(a: int, b: int) -> int {
    trunc_div(a * SCALE, b)
}

/// A fixed-point number: `raw` counts units of `2^-40`.
#[derive(Clone, Copy, Debug, PartialEq, Eq, Structural)]
pub struct Fixed {
    pub raw: i64,
}

impl View for Fixed {
    type V = int;

    open spec fn view(&self) -> int {
        self.raw as int
    }
}

/// The magnitude of a 64-bit integer.
pub(crate) fn magnitude(v: i64) -> (m: u128)
    ensures
        m == abs(v as int),
        m <= 0x8000_0000_0000_0000,
{
    if v >= 0 {
        v as u128
    } else {
        let w: i128 = -(v as i128);
        w as u128
    }
}

/// The saturated signed value of a sign and a magnitude.
pub(crate) fn with_sign(negative: bool, m: u128) -> (r: Fixed)
    ensures
        r@ == sat(if negative { -(m as int) } else { m as int }),
{
    if negative {
        if m >= 0x8000_0000_0000_0000 {
            Fixed { raw: i64::MIN }
        } else {
            let w: i64 = m as i64;
            Fixed { raw: -w }
        }
    } else {
        if m > 0x7FFF_FFFF_FFFF_FFFF {
            Fixed { raw: i64::MAX }
        } else {
            Fixed { raw: m as i64 }
        }
    }
}

/// A 128-bit integer clamped to the range of `Fixed`.
pub(crate) fn saturate(v: i128) -> (r: Fixed)
    ensures
        r@ == sat(v as int),
{
    if v < -0x8000_0000_0000_0000 {
        Fixed { raw: i64::MIN }
    } else if v > 0x7FFF_FFFF_FFFF_FFFF {
        Fixed { raw: i64::MAX }
    } else {
        Fixed { raw: v as i64 }
    }
}

/// The re-scaled product of two 64-bit raw values, before saturation.
pub(crate) fn mul_wide(a: i64, b: i64) -> (q: i128)
    ensures
        q == mul_raw(a as int, b as int),
        -0x40_0000_0000_0000_0000_0000 <= q <= 0x40_0000_0000_0000_0000_0000,
{
    let ma: u128 = magnitude(a);
    let mb: u128 = magnitude(b);
    proof {
        lemma_abs_mul(a as int, b as int);
        assert(ma * mb <= 0x8000_0000_0000_0000 * 0x8000_0000_0000_0000) by (nonlinear_arith)
            requires
                ma <= 0x8000_0000_0000_0000,
                mb <= 0x8000_0000_0000_0000,
        ;
    }
    let p: u128 = ma * mb;
    let q: u128 = p / 0x100_0000_0000;
    let w: i128 = q as i128;
    if (a < 0) != (b < 0) {
        -w
    } else {
        w
    }
}

impl Fixed {
    /// The number zero.
    pub open spec fn spec_zero() -> Fixed {
        Fixed { raw: 0 }
    }

    /// The number one.
    pub open spec fn spec_one() -> Fixed {
        Fixed { raw: SCALE }
    }

    /// The fixed-point value of an integer, saturated.
    pub open spec fn spec_from_int(v: int) -> Fixed {
        Fixed { raw: sat(v * SCALE) as i64 }
    }

    /// The number times `num / den`, rounded toward zero once and
    /// saturated. Where `den` is zero the result saturates by the sign of
    /// the numerator, and is zero where the numerator is zero.
    pub open spec fn spec_mul_ratio(self, num: int, den: int) -> Fixed {
        if den == 0 {
            if self@ * num > 0 {
                Fixed { raw: i64::MAX }
            } else if self@ * num < 0 {
                Fixed { raw: i64::MIN }
            } else {
                Fixed { raw: 0 }
            }
        } else {
            Fixed { raw: sat(trunc_div(self@ * num, den)) as i64 }
        }
    }

    /// The saturated sum.
    pub open spec fn spec_add(self, o: Fixed) -> Fixed {
        Fixed { raw: sat(self@ + o@) as i64 }
    }

    /// The saturated difference.
    pub open spec fn spec_sub(self, o: Fixed) -> Fixed {
        Fixed { raw: sat(self@ - o@) as i64 }
    }

    /// The saturated negation.
    pub open spec fn spec_neg(self) -> Fixed {
        Fixed { raw: sat(-self@) as i64 }
    }

    /// The number times `num / den`, rounded away from zero once and
    /// saturated, so that it is zero only where the number or `num` is
    /// zero. Where `den` is zero the result saturates by the sign of the
    /// numerator, and is zero where the numerator is zero.
    pub open spec fn spec_mul_ratio_up(self, num: int, den: int) -> Fixed {
        if den == 0 {
            if self@ * num > 0 {
                Fixed { raw: i64::MAX }
            } else if self@ * num < 0 {
                Fixed { raw: i64::MIN }
            } else {
                Fixed { raw: 0 }
            }
        } else {
            Fixed { raw: sat(away_div(self@ * num, den)) as i64 }
        }
    }

    /// The saturated product, rounded toward zero.
    pub open spec fn spec_mul(self, o: Fixed) -> Fixed {
        Fixed { raw: sat(mul_raw(self@, o@)) as i64 }
    }

    /// The saturated quotient, rounded toward zero. A nonzero number
    /// divided by zero saturates by its sign; zero divided by zero is zero.
    pub open spec fn spec_div(self, o: Fixed) -> Fixed {
        if o@ == 0 {
            if self@ > 0 {
                Fixed { raw: i64::MAX }
            } else if self@ < 0 {
                Fixed { raw: i64::MIN }
            } else {
                Fixed { raw: 0 }
            }
        } else {
            Fixed { raw: sat(div_raw(self@, o@)) as i64 }
        }
    }

    /// The square root, rounded down; zero for a negative number.
    pub open spec fn spec_sqrt(self) -> Fixed {
        Fixed { raw: isqrt(self@ * SCALE) as i64 }
    }

    /// The integer part, rounded toward zero.
    pub open spec fn spec_trunc(self) -> int {
        trunc_div(self@, SCALE as int)
    }

    /// The number zero.
    pub fn zero() -> (r: Fixed)
        ensures
            r == Fixed::spec_zero(),
    {
        Fixed { raw: 0 }
    }

    /// The number one.
    pub fn one() -> (r: Fixed)
        ensures
            r == Fixed::spec_one(),
    {
        Fixed { raw: SCALE }
    }

    /// The number that counts `raw` units of `2^-40`.
    pub fn from_raw(raw: i64) -> (r: Fixed)
        ensures
            r.raw == raw,
    {
        Fixed { raw }
    }

    /// Converts an integer: exactly if it lies within about 8.4 million of
    /// zero, and to the largest or the smallest number otherwise.
    pub fn from_int(v: i32) -> (r: Fixed)
        ensures
            r == Fixed::spec_from_int(v as int),
            r@ == sat(v * SCALE),
    {
        let w: i128 = v as i128;
        saturate(w * 0x100_0000_0000)
    }

    /// The number times `num / den` with a single rounding: the product
    /// with `num` is exact, and only the quotient by `den` is rounded.
    pub fn mul_ratio(self, num: i64, den: i64) -> (r: Fixed)
        ensures
            r == self.spec_mul_ratio(num as int, den as int),
    {
        let ma: u128 = magnitude(self.raw);
        let mn: u128 = magnitude(num);
        let negative: bool = (self.raw < 0) != (num < 0);
        proof {
            lemma_abs_mul(self.raw as int, num as int);
            assert(ma * mn <= 0x8000_0000_0000_0000 * 0x8000_0000_0000_0000) by (nonlinear_arith)
                requires
                    ma <= 0x8000_0000_0000_0000,
                    mn <= 0x8000_0000_0000_0000,
            ;
        }
        let p: u128 = ma * mn;
        if den == 0 {
            if p == 0 {
                Fixed { raw: 0 }
            } else if negative {
                Fixed { raw: i64::MIN }
            } else {
                Fixed { raw: i64::MAX }
            }
        } else {
            let md: u128 = magnitude(den);
            let q: u128 = p / md;
            with_sign(negative != (den < 0), q)
        }
    }

    /// The number times `num / den` with a single rounding away from
    /// zero: what is not zero before rounding is not zero after it.
    pub fn mul_ratio_up(self, num: i64, den: i64) -> (r: Fixed)
        ensures
            r == self.spec_mul_ratio_up(num as int, den as int),
    {
        let ma: u128 = magnitude(self.raw);
        let mn: u128 = magnitude(num);
        let negative: bool = (self.raw < 0) != (num < 0);
        proof {
            lemma_abs_mul(self.raw as int, num as int);
            assert(ma * mn <= 0x8000_0000_0000_0000 * 0x8000_0000_0000_0000) by (nonlinear_arith)
                requires
                    ma <= 0x8000_0000_0000_0000,
                    mn <= 0x8000_0000_0000_0000,
            ;
        }
        let p: u128 = ma * mn;
        if den == 0 {
            if p == 0 {
                Fixed { raw: 0 }
            } else if negative {
                Fixed { raw: i64::MIN }
            } else {
                Fixed { raw: i64::MAX }
            }
        } else {
            let md: u128 = magnitude(den);
            proof {
                if p == 0 {
                    vstd::arithmetic::div_mod::lemma_basic_div(md - 1, md as int);
                }
            }
            let q: u128 = (p + md - 1) / md;
            with_sign(negative != (den < 0), q)
        }
    }

    /// The sum, saturated.
    pub fn add(self, o: Fixed) -> (r: Fixed)
        ensures
            r == self.spec_add(o),
    {
        saturate(self.raw as i128 + o.raw as i128)
    }

    /// The difference, saturated.
    pub fn sub(self, o: Fixed) -> (r: Fixed)
        ensures
            r == self.spec_sub(o),
    {
        saturate(self.raw as i128 - o.raw as i128)
    }

    /// The negation; the negation of the smallest number is the largest.
    pub fn neg(self) -> (r: Fixed)
        ensures
            r == self.spec_neg(),
    {
        saturate(-(self.raw as i128))
    }

    /// The product, rounded toward zero and saturated.
    pub fn mul(self, o: Fixed) -> (r: Fixed)
        ensures
            r == self.spec_mul(o),
    {
        saturate(mul_wide(self.raw, o.raw))
    }

    /// The quotient, rounded toward zero and saturated. Division by zero
    /// does not fail: it gives the largest number, the smallest, or zero,
    /// as the dividend is positive, negative, or zero.
    pub fn div(self, o: Fixed) -> (r: Fixed)
        ensures
            r == self.spec_div(o),
    {
        if o.raw == 0 {
            if self.raw > 0 {
                Fixed { raw: i64::MAX }
            } else if self.raw < 0 {
                Fixed { raw: i64::MIN }
            } else {
                Fixed { raw: 0 }
            }
        } else {
            let ma: u128 = magnitude(self.raw);
            let mb: u128 = magnitude(o.raw);
            let q: u128 = (ma * 0x100_0000_0000) / mb;
            with_sign((self.raw < 0) != (o.raw < 0), q)
        }
    }

    /// The square root, rounded down; zero for a negative number.
    pub fn sqrt(self) -> (r: Fixed)
        ensures
            r == self.spec_sqrt(),
    {
        if self.raw <= 0 {
            Fixed { raw: 0 }
        } else {
            let n: u128 = (self.raw as u128) * 0x100_0000_0000;
            let s: u128 = isqrt_u128(n);
            proof {
                lemma_isqrt_floor(n as int);
                if s >= 0x10_0000_0000_0000 {
                    lemma_square_le(0x10_0000_0000_0000, s as int);
                    assert(0x10_0000_0000_0000int * 0x10_0000_0000_0000int
                        == 0x100_0000_0000_0000_0000_0000_0000int) by (nonlinear_arith);
                }
            }
            Fixed { raw: s as i64 }
        }
    }

    /// Whether the number is below zero.
    pub fn is_negative(self) -> (b: bool)
        ensures
            b == (self@ < 0),
    {
        self.raw < 0
    }

    /// The integer part, rounded toward zero.
    pub fn trunc(self) -> (r: i64)
        ensures
            r == self.spec_trunc(),
    {
        let m: u128 = magnitude(self.raw);
        let q: u128 = m / 0x100_0000_0000;
        let w: i64 = q as i64;
        if self.raw < 0 {
            -w
        } else {
            w
        }
    }
}

/// `a + b` is the saturated sum.
impl core::ops::Add for Fixed {
    type Output = Fixed;

    fn add(self, o: Fixed) -> (r: Fixed) {
        self.add(o)
    }
}

impl vstd::std_specs::ops::AddSpecImpl for Fixed {
    open spec fn obeys_add_spec() -> bool {
        true
    }

    open spec fn add_req(self, o: Fixed) -> bool {
        true
    }

    open spec fn add_spec(self, o: Fixed) -> Fixed {
        self.spec_add(o)
    }
}

/// `a - b` is the saturated difference.
impl core::ops::Sub for Fixed {
    type Output = Fixed;

    fn sub(self, o: Fixed) -> (r: Fixed) {
        self.sub(o)
    }
}

impl vstd::std_specs::ops::SubSpecImpl for Fixed {
    open spec fn obeys_sub_spec() -> bool {
        true
    }

    open spec fn sub_req(self, o: Fixed) -> bool {
        true
    }

    open spec fn sub_spec(self, o: Fixed) -> Fixed {
        self.spec_sub(o)
    }
}

/// `a * b` is the product, rounded toward zero and saturated.
impl core::ops::Mul for Fixed {
    type Output = Fixed;

    fn mul(self, o: Fixed) -> (r: Fixed) {
        self.mul(o)
    }
}

impl vstd::std_specs::ops::MulSpecImpl for Fixed {
    open spec fn obeys_mul_spec() -> bool {
        true
    }

    open spec fn mul_req(self, o: Fixed) -> bool {
        true
    }

    open spec fn mul_spec(self, o: Fixed) -> Fixed {
        self.spec_mul(o)
    }
}

/// `a / b` is the quotient, rounded toward zero and saturated.
impl core::ops::Div for Fixed {
    type Output = Fixed;

    fn div(self, o: Fixed) -> (r: Fixed) {
        self.div(o)
    }
}

impl vstd::std_specs::ops::DivSpecImpl for Fixed {
    open spec fn obeys_div_spec() -> bool {
        true
    }

    open spec fn div_req(self, o: Fixed) -> bool {
        true
    }

    open spec fn div_spec(self, o: Fixed) -> Fixed {
        self.spec_div(o)
    }
}

} // verus!
