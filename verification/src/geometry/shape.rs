//! Geometric primitives.
use vstd::prelude::*;
use crate::fixed::Fixed;
use super::shape_lemmas::lemma_reflected_ray_unit;
use super::{Intersect, Ray, R3};

verus! {

/// A sphere; its radius is meant to be positive.
#[derive(Clone, Copy, Debug, PartialEq, Eq, Structural)]
pub struct Sphere {
    pub center: R3,
    pub radius: Fixed,
}

/// A rectangle in space.
#[derive(Clone, Copy, Debug, PartialEq, Eq, Structural)]
pub struct Plane {
    pub center: R3,
    pub normal: R3,
    /// Points in the direction of the width.
    pub perp: R3,
    pub width: Fixed,
    pub height: Fixed,
}

/// A cube.
#[derive(Clone, Copy, Debug, PartialEq, Eq, Structural)]
pub struct Cube {
    pub center: R3,
    pub up: R3,
    pub width: Fixed,
}

/// The mirror image of `l` about the unit normal `n`: `2 (n . l) n - l`.
pub open spec fn spec_reflect(n: R3, l: R3) -> R3 {
    Fixed::spec_from_int(2).spec_times(n.spec_dot(l).spec_times(n)).spec_sub(l)
}

/// The mirror image of `l` about the unit normal `n`.
pub fn reflect(n: R3, l: R3) -> (r: R3)
    ensures
        r == spec_reflect(n, l),
{
    Fixed::from_int(2) * (n.dot(l) * n) - l
}

impl Sphere {
    /// The unit direction along which `r` is traced.
    pub open spec fn spec_heading(r: Ray) -> R3 {
        r.dir.spec_normalize()
    }

    /// The projection of the vector from the center to the ray's origin on
    /// the ray's heading.
    pub open spec fn spec_projection(&self, r: Ray) -> Fixed {
        Sphere::spec_heading(r).spec_dot(r.pt.spec_sub(self.center))
    }

    /// The quantity whose sign tells a hit from a miss:
    /// `(l . m)^2 - (|m|^2 - radius^2)`, where `l` is the heading and `m`
    /// leads from the center to the ray's origin.
    pub open spec fn spec_discriminant(&self, r: Ray) -> Fixed {
        let d = self.spec_projection(r);
        let n = r.pt.spec_sub(self.center).spec_norm();
        d.spec_mul(d).spec_sub(n.spec_mul(n).spec_sub(self.radius.spec_mul(self.radius)))
    }

    /// The distance travelled along the heading to the hit point:
    /// `-2 (l . m)` less the root of the discriminant. This is not the
    /// nearer root of the quadratic equation of the sphere, which has
    /// `-(l . m)` in place of `-2 (l . m)`: the hit point need not lie on
    /// the surface.
    pub open spec fn spec_distance(&self, r: Ray) -> Fixed {
        Fixed::spec_from_int(-2).spec_mul(self.spec_projection(r)).spec_sub(
            self.spec_discriminant(r).spec_sqrt(),
        )
    }

    /// The point at which `r` is taken to meet the sphere.
    pub open spec fn spec_hit_point(&self, r: Ray) -> R3 {
        r.pt.spec_add(self.spec_distance(r).spec_times(Sphere::spec_heading(r)))
    }

    /// The unit normal of the sphere through the hit point.
    pub open spec fn spec_normal(&self, r: Ray) -> R3 {
        self.spec_hit_point(r).spec_sub(self.center).spec_normalize()
    }

    /// The ray that leaves the hit point in the mirrored direction.
    pub open spec fn spec_reflected(&self, r: Ray) -> Ray {
        Ray::spec_new(
            self.spec_hit_point(r),
            spec_reflect(self.spec_normal(r), Sphere::spec_heading(r)),
        )
    }

    /// `r` hits the sphere: the discriminant is not negative.
    pub open spec fn spec_hits(&self, r: Ray) -> bool {
        self.spec_discriminant(r)@ >= 0
    }

    /// The sphere around `center` with the given radius.
    pub fn new(center: R3, radius: Fixed) -> (s: Sphere)
        ensures
            s.center == center,
            s.radius == radius,
    {
        Sphere { center, radius }
    }
}

impl Intersect for Sphere {
    open spec fn spec_intersect(&self, r: Ray) -> Option<Ray> {
        if self.spec_hits(r) {
            Some(self.spec_reflected(r))
        } else {
            None
        }
    }

    /// Casts `r` at the sphere. A miss is `None`; a hit is the ray that
    /// leaves the hit point mirrored about the surface normal, one bounce
    /// and no more. The test is made on the whole line of the ray, behind
    /// its origin too. The direction of `r` is brought to unit length
    /// first, so that its length does not matter, and the reflected ray is
    /// of unit direction whenever the direction of `r` is not zero.
    fn intersect(&self, r: Ray) -> (hit: Option<Ray>)
        ensures
            hit is Some <==> self.spec_hits(r),
            hit is Some ==> hit->0 == self.spec_reflected(r),
            r.dir != R3::spec_zero() ==> (hit matches Some(out) ==> out.spec_wf()),
    {
        proof {
            if r.dir != R3::spec_zero() {
                lemma_reflected_ray_unit(*self, r);
            }
        }
        let l = r.dir.normalize();
        let o = r.pt;
        let c = self.center;
        let rad = self.radius;
        let d = l.dot(o - c);
        let n = (o - c).norm();
        let x = d * d - (n * n - rad * rad);
        if x.is_negative() {
            return None;
        }
        // How far along the heading the ray is taken to meet the sphere.
        let dist = Fixed::from_int(-2) * d - x.sqrt();
        let inter_pt = o + dist * l;
        // Normal to the sphere at the intersection point.
        let normal = (inter_pt - c).normalize();
        let reflect_dir = reflect(normal, l);
        Some(Ray::new(inter_pt, reflect_dir))
    }
}

} // verus!
