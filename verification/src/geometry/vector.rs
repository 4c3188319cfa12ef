//! Vectors of three fixed-point coordinates.
use vstd::prelude::*;
use crate::fixed::{Fixed, SCALE, abs, sat, trunc_div, magnitude, with_sign};
use crate::fixed_lemmas::lemma_abs_mul;
use super::vector_lemmas::{lemma_normalize_exact, lemma_normalize_unit};
use crate::isqrt::{isqrt, isqrt_u128};

verus! {

/// A vector, or a point, in three-dimensional space.
#[derive(Clone, Copy, Debug, PartialEq, Eq, Structural)]
pub struct R3 {
    pub x: Fixed,
    pub y: Fixed,
    pub z: Fixed,
}

/// Vectors are doubled before they are normalized until a coordinate
/// reaches this magnitude, 2^61 raw units, so that a short vector loses
/// nothing to the rounding of its length.
pub const LIFT: i64 = 0x2000_0000_0000_0000;

/// The unit vector along the first axis.
#[allow(non_snake_case)]
pub fn X() -> (r: R3)
    ensures
        r == R3::spec_x(),
{
    R3 { x: Fixed::one(), y: Fixed::zero(), z: Fixed::zero() }
}

/// The unit vector along the second axis.
#[allow(non_snake_case)]
pub fn Y() -> (r: R3)
    ensures
        r == R3::spec_y(),
{
    R3 { x: Fixed::zero(), y: Fixed::one(), z: Fixed::zero() }
}

/// The unit vector along the third axis.
#[allow(non_snake_case)]
pub fn Z() -> (r: R3)
    ensures
        r == R3::spec_z(),
{
    R3 { x: Fixed::zero(), y: Fixed::zero(), z: Fixed::one() }
}

impl Fixed {
    /// Scalar times vector: each coordinate of `v` multiplied from the left.
    pub open spec fn spec_times(self, v: R3) -> R3 {
        R3 { x: self.spec_mul(v.x), y: self.spec_mul(v.y), z: self.spec_mul(v.z) }
    }

    /// Scalar times vector.
    pub fn times(self, v: R3) -> (r: R3)
        ensures
            r == self.spec_times(v),
    {
        R3 { x: self.mul(v.x), y: self.mul(v.y), z: self.mul(v.z) }
    }
}

impl R3 {
    /// The zero vector.
    pub open spec fn spec_zero() -> R3 {
        R3 { x: Fixed::spec_zero(), y: Fixed::spec_zero(), z: Fixed::spec_zero() }
    }

    /// The unit vector along the first axis.
    pub open spec fn spec_x() -> R3 {
        R3 { x: Fixed::spec_one(), y: Fixed::spec_zero(), z: Fixed::spec_zero() }
    }

    /// The unit vector along the second axis.
    pub open spec fn spec_y() -> R3 {
        R3 { x: Fixed::spec_zero(), y: Fixed::spec_one(), z: Fixed::spec_zero() }
    }

    /// The unit vector along the third axis.
    pub open spec fn spec_z() -> R3 {
        R3 { x: Fixed::spec_zero(), y: Fixed::spec_zero(), z: Fixed::spec_one() }
    }

    /// The sum, coordinate by coordinate.
    pub open spec fn spec_add(self, o: R3) -> R3 {
        R3 { x: self.x.spec_add(o.x), y: self.y.spec_add(o.y), z: self.z.spec_add(o.z) }
    }

    /// The difference, coordinate by coordinate.
    pub open spec fn spec_sub(self, o: R3) -> R3 {
        R3 { x: self.x.spec_sub(o.x), y: self.y.spec_sub(o.y), z: self.z.spec_sub(o.z) }
    }

    /// Vector times scalar: each coordinate multiplied from the right.
    pub open spec fn spec_scale(self, s: Fixed) -> R3 {
        R3 { x: self.x.spec_mul(s), y: self.y.spec_mul(s), z: self.z.spec_mul(s) }
    }

    /// The exact inner product of the raw coordinates.
    pub open spec fn spec_dot_raw(self, o: R3) -> int {
        self.x@ * o.x@ + self.y@ * o.y@ + self.z@ * o.z@
    }

    /// The inner product: the three products are summed exactly, and the
    /// sum is rounded toward zero once and saturated.
    pub open spec fn spec_dot(self, o: R3) -> Fixed {
        Fixed { raw: sat(trunc_div(self.spec_dot_raw(o), SCALE as int)) as i64 }
    }

    /// The exact sum of the squares of the raw coordinates.
    pub open spec fn spec_sum_sq(self) -> int {
        self.x@ * self.x@ + self.y@ * self.y@ + self.z@ * self.z@
    }

    /// The Euclidean length, rounded down to a raw unit and saturated.
    pub open spec fn spec_norm(self) -> Fixed {
        Fixed { raw: sat(isqrt(self.spec_sum_sq())) as i64 }
    }

    /// No coordinate is further than `bound` raw units from zero.
    pub open spec fn spec_within(self, bound: int) -> bool {
        &&& -bound <= self.x@ <= bound
        &&& -bound <= self.y@ <= bound
        &&& -bound <= self.z@ <= bound
    }

    /// The vector is of unit length, as far as rounding allows: its length
    /// is at most three raw units below one and at most one above (within
    /// three parts in a million million).
    pub open spec fn spec_is_unit(self) -> bool {
        SCALE - 3 <= self.spec_norm()@ <= SCALE + 1
    }

    /// The opposite vector; each coordinate saturates on its own.
    pub open spec fn spec_negated(self) -> R3 {
        R3 { x: self.x.spec_neg(), y: self.y.spec_neg(), z: self.z.spec_neg() }
    }

    /// The raw coordinate `u` is the coordinate `x` of a vector, whose raw
    /// coordinates have the squares `q` in sum, divided by the length of
    /// that vector, to within one raw unit: the exact quotient lies
    /// between the magnitude of `u` less one and the magnitude of `u` and
    /// one, and has the sign of `u`.
    pub open spec fn spec_coordinate_along(u: int, x: int, q: int) -> bool {
        &&& x > 0 ==> u >= 0
        &&& x < 0 ==> u <= 0
        &&& x == 0 ==> u == 0
        &&& ((abs(u) + 1) * (abs(u) + 1)) * q > (SCALE * SCALE) * (x * x)
        &&& abs(u) >= 1 ==> ((abs(u) - 1) * (abs(u) - 1)) * q < (SCALE * SCALE) * (x * x)
    }

    /// The vector is `v` brought to unit length, to within one raw unit in
    /// every coordinate.
    pub open spec fn spec_points_along(self, v: R3) -> bool {
        &&& R3::spec_coordinate_along(self.x@, v.x@, v.spec_sum_sq())
        &&& R3::spec_coordinate_along(self.y@, v.y@, v.spec_sum_sq())
        &&& R3::spec_coordinate_along(self.z@, v.z@, v.spec_sum_sq())
    }

    /// No coordinate differs from that of `o` by more than `k` raw units.
    pub open spec fn spec_close(self, o: R3, k: int) -> bool {
        &&& -k <= self.x@ - o.x@ <= k
        &&& -k <= self.y@ - o.y@ <= k
        &&& -k <= self.z@ - o.z@ <= k
    }

    /// The largest magnitude among the raw coordinates.
    pub open spec fn spec_reach(self) -> int {
        let a = abs(self.x@);
        let b = abs(self.y@);
        let c = abs(self.z@);
        if a >= b && a >= c {
            a
        } else if b >= c {
            b
        } else {
            c
        }
    }

    /// The vector with every raw coordinate doubled.
    pub open spec fn spec_doubled(self) -> R3 {
        R3 {
            x: Fixed { raw: (2 * self.x@) as i64 },
            y: Fixed { raw: (2 * self.y@) as i64 },
            z: Fixed { raw: (2 * self.z@) as i64 },
        }
    }

    /// The vector doubled until its largest raw coordinate has at least the
    /// magnitude `LIFT`: a vector of the same direction. The zero vector
    /// stays as it is.
    pub open spec fn spec_lifted(self) -> R3
        decreases 2 * LIFT - self.spec_reach(),
    {
        if self.spec_reach() == 0 || self.spec_reach() >= LIFT {
            self
        } else {
            self.spec_doubled().spec_lifted()
        }
    }

    /// The factor by which lifting stretches the vector: a power of two.
    pub open spec fn spec_lift_factor(self) -> int
        decreases 2 * LIFT - self.spec_reach(),
    {
        if self.spec_reach() == 0 || self.spec_reach() >= LIFT {
            1
        } else {
            2 * self.spec_doubled().spec_lift_factor()
        }
    }

    /// The raw coordinate `x` of a vector whose raw length is `n`, divided
    /// by that length: `x / n` in raw units, rounded toward zero, and zero
    /// where `n` is zero.
    pub open spec fn spec_quotient(x: Fixed, n: int) -> Fixed {
        if n == 0 {
            Fixed::spec_zero()
        } else {
            Fixed { raw: sat(trunc_div(x@ * SCALE, n)) as i64 }
        }
    }

    /// The vector divided by its length. The length is taken of the lifted
    /// vector, where it is exact to one part in 2^61, so that the result
    /// does not depend on how long the vector is. The zero vector stays as
    /// it is.
    pub open spec fn spec_normalize(self) -> R3 {
        let w = self.spec_lifted();
        let n = isqrt(w.spec_sum_sq());
        R3 {
            x: R3::spec_quotient(w.x, n),
            y: R3::spec_quotient(w.y, n),
            z: R3::spec_quotient(w.z, n),
        }
    }

    /// The vector with the given coordinates.
    pub fn new(x: Fixed, y: Fixed, z: Fixed) -> (r: R3)
        ensures
            r.x == x,
            r.y == y,
            r.z == z,
    {
        R3 { x, y, z }
    }

    /// The zero vector.
    pub fn zero() -> (r: R3)
        ensures
            r == R3::spec_zero(),
    {
        R3 { x: Fixed::zero(), y: Fixed::zero(), z: Fixed::zero() }
    }

    /// The sum of two vectors; each coordinate saturates on its own.
    pub fn add(self, o: R3) -> (r: R3)
        ensures
            r == self.spec_add(o),
    {
        R3 { x: self.x.add(o.x), y: self.y.add(o.y), z: self.z.add(o.z) }
    }

    /// The difference of two vectors; each coordinate saturates on its own.
    pub fn sub(self, o: R3) -> (r: R3)
        ensures
            r == self.spec_sub(o),
    {
        R3 { x: self.x.sub(o.x), y: self.y.sub(o.y), z: self.z.sub(o.z) }
    }

    /// Vector times scalar.
    pub fn scale(self, s: Fixed) -> (r: R3)
        ensures
            r == self.spec_scale(s),
    {
        R3 { x: self.x.mul(s), y: self.y.mul(s), z: self.z.mul(s) }
    }

    /// The inner product, exact but for one rounding toward zero.
    pub fn dot(self, o: R3) -> (r: Fixed)
        ensures
            r == self.spec_dot(o),
    {
        let a: (bool, u128) = product(self.x.raw, o.x.raw);
        let b: (bool, u128) = product(self.y.raw, o.y.raw);
        let c: (bool, u128) = product(self.z.raw, o.z.raw);
        // The products that are not negative, and the others.
        let mut up: u128 = 0;
        let mut down: u128 = 0;
        if a.0 {
            down = down + a.1;
        } else {
            up = up + a.1;
        }
        if b.0 {
            down = down + b.1;
        } else {
            up = up + b.1;
        }
        if c.0 {
            down = down + c.1;
        } else {
            up = up + c.1;
        }
        assert(up - down == self.spec_dot_raw(o));
        if up >= down {
            with_sign(false, (up - down) / 0x100_0000_0000)
        } else {
            with_sign(true, (down - up) / 0x100_0000_0000)
        }
    }

    /// The Euclidean length: the largest number of raw units whose square
    /// does not exceed the exact sum of the squares of the raw coordinates,
    /// saturated.
    pub fn norm(self) -> (r: Fixed)
        ensures
            r == self.spec_norm(),
    {
        let a: u128 = square(self.x.raw);
        let b: u128 = square(self.y.raw);
        let c: u128 = square(self.z.raw);
        let s: u128 = isqrt_u128(a + b + c);
        if s > 0x7FFF_FFFF_FFFF_FFFF {
            Fixed { raw: i64::MAX }
        } else {
            Fixed { raw: s as i64 }
        }
    }

    /// The largest magnitude among the raw coordinates.
    fn reach(self) -> (m: u128)
        ensures
            m == self.spec_reach(),
    {
        let a: u128 = magnitude(self.x.raw);
        let b: u128 = magnitude(self.y.raw);
        let c: u128 = magnitude(self.z.raw);
        if a >= b && a >= c {
            a
        } else if b >= c {
            b
        } else {
            c
        }
    }

    /// The vector doubled until a coordinate reaches `LIFT`.
    fn lifted(self) -> (w: R3)
        ensures
            w == self.spec_lifted(),
    {
        let mut w = self;
        let mut m: u128 = w.reach();
        while m != 0 && m < 0x2000_0000_0000_0000
            invariant
                m == w.spec_reach(),
                w.spec_lifted() == self.spec_lifted(),
            decreases 2 * LIFT - w.spec_reach(),
        {
            w = R3 {
                x: Fixed { raw: 2 * w.x.raw },
                y: Fixed { raw: 2 * w.y.raw },
                z: Fixed { raw: 2 * w.z.raw },
            };
            m = w.reach();
        }
        w
    }

    /// One raw coordinate divided by the raw length.
    fn quotient(x: Fixed, n: u128) -> (r: Fixed)
        requires
            n < 0x1_0000_0000_0000_0000,
        ensures
            r == R3::spec_quotient(x, n as int),
    {
        if n == 0 {
            Fixed::zero()
        } else {
            let m: u128 = magnitude(x.raw);
            let q: u128 = (m * 0x100_0000_0000) / n;
            with_sign(x.raw < 0, q)
        }
    }

    /// The vector divided by its length: a vector of unit length in the
    /// same direction, whatever the length of the vector, each coordinate
    /// within one raw unit of the exact quotient. The zero vector stays as
    /// it is.
    pub fn normalize(self) -> (r: R3)
        ensures
            r == self.spec_normalize(),
            self != R3::spec_zero() ==> r.spec_is_unit(),
            self != R3::spec_zero() ==> r.spec_points_along(self),
            self == R3::spec_zero() ==> r == R3::spec_zero(),
    {
        proof {
            lemma_normalize_unit(self);
            lemma_normalize_exact(self);
        }
        let w = self.lifted();
        let a: u128 = square(w.x.raw);
        let b: u128 = square(w.y.raw);
        let c: u128 = square(w.z.raw);
        let n: u128 = isqrt_u128(a + b + c);
        R3 { x: R3::quotient(w.x, n), y: R3::quotient(w.y, n), z: R3::quotient(w.z, n) }
    }
}

/// `a + b` is the sum of two vectors.
impl core::ops::Add for R3 {
    type Output = R3;

    fn add(self, o: R3) -> (r: R3) {
        self.add(o)
    }
}

impl vstd::std_specs::ops::AddSpecImpl for R3 {
    open spec fn obeys_add_spec() -> bool {
        true
    }

    open spec fn add_req(self, o: R3) -> bool {
        true
    }

    open spec fn add_spec(self, o: R3) -> R3 {
        self.spec_add(o)
    }
}

/// `a - b` is the difference of two vectors.
impl core::ops::Sub for R3 {
    type Output = R3;

    fn sub(self, o: R3) -> (r: R3) {
        self.sub(o)
    }
}

impl vstd::std_specs::ops::SubSpecImpl for R3 {
    open spec fn obeys_sub_spec() -> bool {
        true
    }

    open spec fn sub_req(self, o: R3) -> bool {
        true
    }

    open spec fn sub_spec(self, o: R3) -> R3 {
        self.spec_sub(o)
    }
}

/// `v * s` is vector times scalar.
impl core::ops::Mul<Fixed> for R3 {
    type Output = R3;

    fn mul(self, o: Fixed) -> (r: R3) {
        self.scale(o)
    }
}

impl vstd::std_specs::ops::MulSpecImpl<Fixed> for R3 {
    open spec fn obeys_mul_spec() -> bool {
        true
    }

    open spec fn mul_req(self, o: Fixed) -> bool {
        true
    }

    open spec fn mul_spec(self, o: Fixed) -> R3 {
        self.spec_scale(o)
    }
}

/// `s * v` is scalar times vector.
impl core::ops::Mul<R3> for Fixed {
    type Output = R3;

    fn mul(self, o: R3) -> (r: R3) {
        self.times(o)
    }
}

impl vstd::std_specs::ops::MulSpecImpl<R3> for Fixed {
    open spec fn obeys_mul_spec() -> bool {
        true
    }

    open spec fn mul_req(self, o: R3) -> bool {
        true
    }

    open spec fn mul_spec(self, o: R3) -> R3 {
        self.spec_times(o)
    }
}

/// The exact product of two 64-bit integers, as a sign and a magnitude.
fn product(a: i64, b: i64) -> (p: (bool, u128))
    ensures
        (if p.0 {
            -(p.1 as int)
        } else {
            p.1 as int
        }) == a * b,
        p.1 <= 0x4000_0000_0000_0000_0000_0000_0000_0000,
{
    let ma: u128 = magnitude(a);
    let mb: u128 = magnitude(b);
    proof {
        lemma_abs_mul(a as int, b as int);
        assert(ma * mb <= 0x8000_0000_0000_0000 * 0x8000_0000_0000_0000) by (nonlinear_arith)
            requires
                ma <= 0x8000_0000_0000_0000,
                mb <= 0x8000_0000_0000_0000,
        ;
    }
    ((a < 0) != (b < 0), ma * mb)
}

/// The exact square of a 64-bit integer.
fn square(v: i64) -> (s: u128)
    ensures
        s == v * v,
        s <= 0x4000_0000_0000_0000_0000_0000_0000_0000,
{
    let m: u128 = magnitude(v);
    proof {
        lemma_abs_mul(v as int, v as int);
        assert(m * m <= 0x8000_0000_0000_0000 * 0x8000_0000_0000_0000) by (nonlinear_arith)
            requires
                m <= 0x8000_0000_0000_0000,
        ;
        assert(v * v >= 0) by (nonlinear_arith);
    }
    m * m
}

} // verus!
