//! An ordered collection of shapes.
use vstd::prelude::*;
use super::{Intersect, Ray};

verus! {

/// Shapes in the order in which they were added, which is the order in
/// which they are drawn: where a ray hits several shapes, the one added
/// last covers the others.
pub struct Scene<S: Intersect> {
    pub shapes: Vec<S>,
}

impl<S: Intersect> View for Scene<S> {
    type V = Seq<S>;

    open spec fn view(&self) -> Seq<S> {
        self.shapes@
    }
}

/// The shape drawn last among those of `shapes` that `r` hits, with its
/// reflected ray.
pub open spec fn spec_last_hit<S: Intersect>(shapes: Seq<S>, r: Ray) -> Option<(int, Ray)>
    decreases shapes.len(),
{
    if shapes.len() == 0 {
        None
    } else {
        match shapes.last().spec_intersect(r) {
            Some(out) => Some((shapes.len() - 1, out)),
            None => spec_last_hit(shapes.drop_last(), r),
        }
    }
}

/// `spec_last_hit` is `None` exactly when the ray misses every shape, and
/// otherwise names the highest index whose shape is hit, with the ray that
/// this shape reflects.
pub proof fn lemma_last_hit<S: Intersect>(shapes: Seq<S>, r: Ray)
    ensures
        spec_last_hit(shapes, r) is None <==> forall|k: int|
            0 <= k < shapes.len() ==> (#[trigger] shapes[k].spec_intersect(r)) is None,
        spec_last_hit(shapes, r) matches Some((i, out)) ==> {
            &&& 0 <= i < shapes.len()
            &&& shapes[i].spec_intersect(r) == Some(out)
            &&& forall|k: int|
                i < k < shapes.len() ==> (#[trigger] shapes[k].spec_intersect(r)) is None
        },
    decreases shapes.len(),
{
    if shapes.len() > 0 {
        let front = shapes.drop_last();
        lemma_last_hit(front, r);
        assert forall|k: int| 0 <= k < front.len() implies front[k] == shapes[k] by {}
        if shapes.last().spec_intersect(r) is None {
            if spec_last_hit(front, r) is None {
                assert forall|k: int| 0 <= k < shapes.len() implies (
                #[trigger] shapes[k].spec_intersect(r)) is None by {
                    if k < front.len() {
                        assert(front[k].spec_intersect(r) is None);
                    }
                }
            } else {
                let earlier = spec_last_hit(front, r)->0;
                let i = earlier.0;
                assert(front[i].spec_intersect(r) is Some);
                assert forall|k: int| i < k < shapes.len() implies (
                #[trigger] shapes[k].spec_intersect(r)) is None by {
                    if k < front.len() {
                        assert(front[k].spec_intersect(r) is None);
                    }
                }
            }
        }
    }
}

impl<S: Intersect> Scene<S> {
    /// The empty scene.
    pub fn new() -> (s: Scene<S>)
        ensures
            s@ == Seq::<S>::empty(),
    {
        Scene { shapes: Vec::new() }
    }

    /// Adds `shape` in front of all the shapes already there.
    pub fn add(&mut self, shape: S)
        ensures
            final(self)@ == old(self)@.push(shape),
    {
        self.shapes.push(shape);
    }

    /// The number of shapes.
    pub fn len(&self) -> (n: usize)
        ensures
            n == self@.len(),
    {
        self.shapes.len()
    }

    /// The index of the shape that `r` is seen to hit, and the ray that
    /// this shape reflects; `None` where `r` misses every shape.
    pub fn hit(&self, r: Ray) -> (found: Option<(usize, Ray)>)
        ensures
            found is None <==> spec_last_hit(self@, r) is None,
            found matches Some((i, out)) ==> spec_last_hit(self@, r) == Some((i as int, out)),
            found is None <==> forall|k: int|
                0 <= k < self@.len() ==> (#[trigger] self@[k].spec_intersect(r)) is None,
            found matches Some((i, out)) ==> {
                &&& i < self@.len()
                &&& self@[i as int].spec_intersect(r) == Some(out)
                &&& forall|k: int|
                    i < k < self@.len() ==> (#[trigger] self@[k].spec_intersect(r)) is None
            },
    {
        let mut found: Option<(usize, Ray)> = None;
        let mut k: usize = 0;
        while k < self.shapes.len()
            invariant
                k <= self.shapes.len(),
                found is None <==> spec_last_hit(self@.take(k as int), r) is None,
                found matches Some((i, out)) ==> spec_last_hit(self@.take(k as int), r) == Some(
                    (i as int, out),
                ),
            decreases self.shapes.len() - k,
        {
            let hit: Option<Ray> = self.shapes[k].intersect(r);
            proof {
                let next = self@.take(k + 1);
                assert(next.drop_last() =~= self@.take(k as int));
                assert(next.last() == self@[k as int]);
            }
            match hit {
                Some(out) => {
                    found = Some((k, out));
                },
                None => {},
            }
            k = k + 1;
        }
        proof {
            assert(self@.take(k as int) =~= self@);
            lemma_last_hit(self@, r);
        }
        found
    }
}

impl<S: Intersect> Intersect for Scene<S> {
    open spec fn spec_intersect(&self, r: Ray) -> Option<Ray> {
        match spec_last_hit(self@, r) {
            Some((_, out)) => Some(out),
            None => None,
        }
    }

    /// The reflected ray of the shape that `r` is seen to hit.
    fn intersect(&self, r: Ray) -> (hit: Option<Ray>) {
        match self.hit(r) {
            Some((_, out)) => Some(out),
            None => None,
        }
    }
}

} // verus!
