//! The camera: from pixels to rays.
use vstd::prelude::*;
use crate::fixed::Fixed;
use super::viewport_lemmas::{
    lemma_derived_positive,
    lemma_point_exact,
    lemma_primary_ray_forward,
    lemma_primary_ray_unit,
};
use super::{Ray, R3, X, Y, Z};

verus! {

/// What a viewport is made from, and the mathematical model of one: the
/// size of the image in pixels and the distance from the eye to the view
/// plane. The camera stands at the origin, looks along the third axis, and
/// has a field of view of 90 degrees.
pub struct Projection {
    /// Width of the image in pixels.
    pub w: i32,
    /// Height of the image in pixels.
    pub h: i32,
    /// Distance from the eye to the view plane.
    pub clip: Fixed,
}

impl Projection {
    /// The position of the camera.
    pub open spec fn spec_eye() -> R3 {
        R3::spec_zero()
    }

    /// The direction in which the camera looks.
    pub open spec fn spec_dir() -> R3 {
        R3::spec_z()
    }

    /// The field of view in degrees.
    pub open spec fn spec_fov() -> Fixed {
        Fixed::spec_from_int(90)
    }

    /// The sine of the field of view.
    pub open spec fn spec_sin_fov() -> Fixed {
        Fixed::spec_one()
    }

    /// The width of the view plane: `2 sin(fov) clip`.
    pub open spec fn spec_width(self) -> Fixed {
        Fixed::spec_from_int(2).spec_mul(Projection::spec_sin_fov()).spec_mul(self.clip)
    }

    /// The height of the view plane: `(h / w) width`, rounded once, away
    /// from zero: a view plane that has a height has at least one raw unit
    /// of it.
    pub open spec fn spec_height(self) -> Fixed {
        self.spec_width().spec_mul_ratio_up(self.h as int, self.w as int)
    }

    /// The step between two columns: `width / w`, rounded once, away from
    /// zero: a step is at least one raw unit long.
    pub open spec fn spec_dx(self) -> Fixed {
        self.spec_width().spec_mul_ratio_up(1, self.w as int)
    }

    /// The step between two rows: `height / h`, which is
    /// `(width h) / (w h)`, rounded once, away from zero.
    pub open spec fn spec_dy(self) -> Fixed {
        self.spec_width().spec_mul_ratio_up(self.h as int, self.w * self.h)
    }

    /// The point of the view plane that stands for pixel `(i, j)`. It lies
    /// `i` steps to the right of the top left corner and `j` steps below
    /// it, since rows grow downward: at `origin + dx X i - dy Y j`, where
    /// the corner `origin` is `eye + clip dir - (width / 2) X +
    /// (height / 2) Y`. With the eye at zero, the camera looking along the
    /// third axis and the width twice the clip distance, that is
    /// `(clip (2 i - w) / w, clip (h - 2 j) / w, clip)`, and it is
    /// computed so, with a single rounding in each coordinate: no rounding
    /// of a step is multiplied by the number of steps.
    pub open spec fn spec_point(self, i: i32, j: i32) -> R3 {
        R3 {
            x: self.clip.spec_mul_ratio(2 * i - self.w, self.w as int),
            y: self.clip.spec_mul_ratio(self.h - 2 * j, self.w as int),
            z: self.clip,
        }
    }

    /// The top left corner of the view plane: the point of pixel `(0, 0)`.
    pub open spec fn spec_origin(self) -> R3 {
        self.spec_point(0, 0)
    }

    /// The primary ray of pixel `(i, j)`: it starts at the pixel's point `p`
    /// of the view plane and its direction is `normalize(p) - eye`, brought
    /// to unit length.
    pub open spec fn spec_ray(self, i: i32, j: i32) -> Ray {
        let p = self.spec_point(i, j);
        Ray::spec_new(p, p.spec_normalize().spec_sub(Projection::spec_eye()))
    }

    /// The projections for which nothing saturates: an image of at least
    /// one pixel each way and a view plane in front of the eye whose width
    /// and height are representable.
    pub open spec fn spec_moderate(self) -> bool {
        &&& 0 < self.w
        &&& 0 < self.h
        &&& 0 <= self.clip@ <= 0x1000_0000_0000_0000
        &&& 2 * self.clip@ * self.h <= i64::MAX * self.w
    }

    /// Pixel `(i, j)` lies in the image, or on its right or lower edge.
    pub open spec fn spec_covers(self, i: i32, j: i32) -> bool {
        0 <= i <= self.w && 0 <= j <= self.h
    }
}

/// A camera that maps the pixels of an image to rays.
///
/// Everything that a viewport holds is derived at construction from the
/// projection that is its view, and never changes.
#[derive(Debug)]
pub struct Viewport {
    // Position and facing of the camera.
    eye: R3,
    dir: R3,
    // Height and width in pixels.
    h: i32,
    w: i32,
    // Horizontal field of view, in degrees.
    fov: Fixed,
    // Distance from the eye to the view plane.
    clip: Fixed,
    // Height and width of the view plane.
    height: Fixed,
    width: Fixed,
    // Top left corner of the view plane.
    origin: R3,
    // Steps from one pixel to the next.
    dx: Fixed,
    dy: Fixed,
}

impl View for Viewport {
    type V = Projection;

    closed spec fn view(&self) -> Projection {
        Projection { w: self.w, h: self.h, clip: self.clip }
    }
}

impl Viewport {
    #[verifier::type_invariant]
    closed spec fn consistent(self) -> bool {
        &&& self.eye == Projection::spec_eye()
        &&& self.dir == Projection::spec_dir()
        &&& self.fov == Projection::spec_fov()
        &&& self.width == self@.spec_width()
        &&& self.height == self@.spec_height()
        &&& self.origin == self@.spec_origin()
        &&& self.dx == self@.spec_dx()
        &&& self.dy == self@.spec_dy()
    }

    /// A viewport of `w` by `h` pixels whose view plane lies at distance
    /// `clip` from the eye. Where all three are positive, so are the width
    /// and the height of the view plane and the two steps.
    pub fn new(w: i32, h: i32, clip: Fixed) -> (v: Viewport)
        ensures
            v@ == (Projection { w, h, clip }),
            0 < w && 0 < h && 0 < clip@ ==> 0 < v@.spec_width()@ && 0 < v@.spec_height()@ && 0
                < v@.spec_dx()@ && 0 < v@.spec_dy()@,
    {
        proof {
            if 0 < w && 0 < h && 0 < clip@ {
                lemma_derived_positive(Projection { w, h, clip });
            }
        }
        let eye = R3::zero();
        let dir = Z();
        let fov = Fixed::from_int(90);
        let sin_fov = Fixed::one();
        let two = Fixed::from_int(2);
        let wide: i64 = w as i64;
        let high: i64 = h as i64;
        let width = two * sin_fov * clip;
        let height = width.mul_ratio_up(high, wide);
        let origin = R3 { x: clip.mul_ratio(-wide, wide), y: clip.mul_ratio(high, wide), z: clip };
        let dx = width.mul_ratio_up(1, wide);
        assert(-0x4000_0000_0000_0000 <= wide * high <= 0x4000_0000_0000_0000) by (nonlinear_arith)
            requires
                -0x8000_0000 <= wide <= 0x8000_0000,
                -0x8000_0000 <= high <= 0x8000_0000,
        ;
        let dy = width.mul_ratio_up(high, wide * high);
        Viewport { eye, dir, fov, h, w, clip, height, width, origin, dx, dy }
    }

    /// The width of the image in pixels.
    pub fn w(&self) -> (w: i32)
        ensures
            w == self@.w,
    {
        self.w
    }

    /// The height of the image in pixels.
    pub fn h(&self) -> (h: i32)
        ensures
            h == self@.h,
    {
        self.h
    }

    /// The distance from the eye to the view plane.
    pub fn clip(&self) -> (clip: Fixed)
        ensures
            clip == self@.clip,
    {
        self.clip
    }

    /// The position of the camera.
    pub fn eye(&self) -> (eye: R3)
        ensures
            eye == Projection::spec_eye(),
    {
        proof {
            use_type_invariant(self);
        }
        self.eye
    }

    /// The direction in which the camera looks.
    pub fn dir(&self) -> (dir: R3)
        ensures
            dir == Projection::spec_dir(),
    {
        proof {
            use_type_invariant(self);
        }
        self.dir
    }

    /// The field of view in degrees.
    pub fn fov(&self) -> (fov: Fixed)
        ensures
            fov == Projection::spec_fov(),
    {
        proof {
            use_type_invariant(self);
        }
        self.fov
    }

    /// The width of the view plane.
    pub fn width(&self) -> (width: Fixed)
        ensures
            width == self@.spec_width(),
    {
        proof {
            use_type_invariant(self);
        }
        self.width
    }

    /// The height of the view plane.
    pub fn height(&self) -> (height: Fixed)
        ensures
            height == self@.spec_height(),
    {
        proof {
            use_type_invariant(self);
        }
        self.height
    }

    /// The top left corner of the view plane.
    pub fn origin(&self) -> (origin: R3)
        ensures
            origin == self@.spec_origin(),
    {
        proof {
            use_type_invariant(self);
        }
        self.origin
    }

    /// The step between two columns.
    pub fn dx(&self) -> (dx: Fixed)
        ensures
            dx == self@.spec_dx(),
    {
        proof {
            use_type_invariant(self);
        }
        self.dx
    }

    /// The step between two rows.
    pub fn dy(&self) -> (dy: Fixed)
        ensures
            dy == self@.spec_dy(),
    {
        proof {
            use_type_invariant(self);
        }
        self.dy
    }

    /// The primary ray through pixel column `i` and row `j`. Pixels outside
    /// the image are extrapolated. The ray starts at the point of the
    /// pixel, which lies in the view plane and is exact but for one
    /// rounding toward zero in each coordinate: unless it is out of range,
    /// it is less than one raw unit from `clip (2 i - w) / w` sideways and
    /// from `clip (h - 2 j) / w` upward. Unless the view plane lies
    /// in the eye, the direction of the ray is of unit length and leads
    /// from the eye through the point where the ray starts: it is within
    /// three raw units of the normalized point, which is within one raw
    /// unit of the exact unit vector, and for the pixels of the image it
    /// leads forward.
    pub fn get_ray(&self, i: i32, j: i32) -> (r: Ray)
        ensures
            r == self@.spec_ray(i, j),
            r.pt.x == self@.clip.spec_mul_ratio(2 * i - self@.w, self@.w as int),
            r.pt.y == self@.clip.spec_mul_ratio(self@.h - 2 * j, self@.w as int),
            r.pt.z == self@.clip,
            0 < self@.w && i64::MIN < r.pt.x@ < i64::MAX ==> self@.w * r.pt.x@ - self@.w
                < self@.clip@ * (2 * i - self@.w) < self@.w * r.pt.x@ + self@.w,
            0 < self@.w && i64::MIN < r.pt.y@ < i64::MAX ==> self@.w * r.pt.y@ - self@.w
                < self@.clip@ * (self@.h - 2 * j) < self@.w * r.pt.y@ + self@.w,
            self@.clip@ != 0 ==> r.spec_wf(),
            self@.clip@ != 0 ==> r.dir.spec_close(r.pt.spec_normalize(), 3),
            self@.clip@ != 0 ==> r.pt.spec_normalize().spec_points_along(r.pt),
            0 < self@.w && 0 < self@.h && 0 < self@.clip@ && self@.spec_covers(i, j) ==> r.dir.z@
                > 0,
    {
        proof {
            use_type_invariant(self);
            lemma_primary_ray_unit(self@, i, j);
            if 0 < self@.w {
                lemma_point_exact(self@, i, j);
            }
            if 0 < self@.w && 0 < self@.h && 0 < self@.clip@ && self@.spec_covers(i, j) {
                lemma_primary_ray_forward(self@, i, j);
            }
        }
        let wide: i64 = self.w as i64;
        let high: i64 = self.h as i64;
        let col: i64 = i as i64;
        let row: i64 = j as i64;
        let o = R3 {
            x: self.clip.mul_ratio(2 * col - wide, wide),
            y: self.clip.mul_ratio(high - 2 * row, wide),
            z: self.clip,
        };
        let dir = o.normalize() - self.eye;
        Ray::new(o, dir)
    }
}

} // verus!
