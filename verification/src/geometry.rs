//! Rays, shapes and the camera.
//!
//! - `vector`: vectors of three coordinates.
//! - `shape`: spheres, and how a ray meets one.
//! - `viewport`: the camera, which turns pixels into rays.
//! - `scene`: shapes in drawing order.
//! - `light`: colors from reflected rays.
use vstd::prelude::*;
use vector_lemmas::lemma_normalize_again;

pub mod axis_lemmas;
pub mod light;
pub mod reflect_lemmas;
pub mod scene;
pub mod shape;
pub mod shape_lemmas;
pub mod vector;
pub mod vector_lemmas;
pub mod viewport;
pub mod viewport_lemmas;

pub use scene::Scene;
pub use vector::{R3, X, Y, Z};
pub use viewport::{Projection, Viewport};

verus! {

/// A half-line: a starting point and the direction in which it leaves.
#[derive(Clone, Copy, Debug, PartialEq, Eq, Structural)]
pub struct Ray {
    /// Origin of the ray.
    pub pt: R3,
    /// Unit vector in the direction of the ray.
    pub dir: R3,
}

impl Ray {
    /// The ray from `pt` along `dir` scaled to unit length.
    pub open spec fn spec_new(pt: R3, dir: R3) -> Ray {
        Ray { pt, dir: dir.spec_normalize() }
    }

    /// The direction is of unit length, as far as rounding allows.
    pub open spec fn spec_wf(self) -> bool {
        self.dir.spec_is_unit()
    }

    /// Builds a ray, normalizing its direction: whatever the length of
    /// `dir`, the direction of the ray is of unit length, unless `dir` is
    /// the zero vector, which stays as it is. Each coordinate of the
    /// direction is within one raw unit of the exact coordinate of the
    /// unit vector along `dir`, and a direction that is of unit length
    /// already changes by three raw units at most.
    pub fn new(pt: R3, dir: R3) -> (r: Ray)
        ensures
            r == Ray::spec_new(pt, dir),
            r.pt == pt,
            r.dir == dir.spec_normalize(),
            dir != R3::spec_zero() ==> r.spec_wf(),
            dir != R3::spec_zero() ==> r.dir.spec_points_along(dir),
            dir == R3::spec_zero() ==> r.dir == R3::spec_zero(),
            dir.spec_is_unit() ==> r.dir.spec_close(dir, 3),
    {
        proof {
            if dir.spec_is_unit() {
                lemma_normalize_again(dir);
            }
        }
        Ray { pt, dir: dir.normalize() }
    }
}

/// Things that can be tested for intersection with a ray.
///
/// An implementation fixes, as a function of the shape and the ray alone,
/// whether the ray hits and which reflected ray leaves the hit point.
pub trait Intersect {
    /// The reflected ray if `r` hits the shape, `None` if it misses.
    spec fn spec_intersect(&self, r: Ray) -> Option<Ray>;

    /// Tests `r` against the shape.
    fn intersect(&self, r: Ray) -> (hit: Option<Ray>)
        ensures
            hit == self.spec_intersect(r),
    ;
}

/// Casting a ray is repeatable: whatever two runs of `intersect` return for
/// the same shape and the same ray, they return the same.
pub proof fn lemma_intersect_repeatable<S: Intersect>(
    shape: &S,
    r: Ray,
    first: Option<Ray>,
    second: Option<Ray>,
)
    requires
        call_ensures(S::intersect, (shape, r), first),
        call_ensures(S::intersect, (shape, r), second),
    ensures
        first == second,
        first == shape.spec_intersect(r),
{
}

} // verus!
