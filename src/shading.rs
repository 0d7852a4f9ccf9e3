use vstd::prelude::*;

use crate::geometry::{zero3, zero_vector};

verus! {

/// The componentwise product of two vectors.
pub uninterp spec fn product_of(a: nalgebra_glm::Vec3, b: nalgebra_glm::Vec3) -> nalgebra_glm::Vec3;

/// Relies on nalgebra's `Matrix::component_mul`: the componentwise product.
#[verifier::external_body]
fn mul3(a: &nalgebra_glm::Vec3, b: &nalgebra_glm::Vec3) -> (r: nalgebra_glm::Vec3)
    ensures
        r == product_of(*a, *b),
{
    a.component_mul(b)
}

/// The light carried back along a path: the light at its end, tinted by
/// each bounce's attenuation from the last bounce back to the first.
pub open spec fn path_color(
    attenuations: Seq<nalgebra_glm::Vec3>,
    end: nalgebra_glm::Vec3,
) -> nalgebra_glm::Vec3
    decreases attenuations.len(),
{
    if attenuations.len() == 0 {
        end
    } else {
        product_of(path_color(attenuations.drop_first(), end), attenuations[0])
    }
}

/// One light path being traced: the attenuations of the bounces so far, the
/// number of bounces still allowed, and, once the path has ended, the light
/// at its end (the sky on a miss, black when a surface absorbed the ray).
pub struct Path {
    pub max_bounces: usize,
    pub bounces_left: usize,
    pub attenuations: Vec<nalgebra_glm::Vec3>,
    pub end: Option<nalgebra_glm::Vec3>,
}

impl Path {
    /// Every bounce taken used one of the allowed ones.
    pub open spec fn wf(&self) -> bool {
        self.attenuations@.len() + self.bounces_left == self.max_bounces
    }

    /// Whether the path still needs another ray cast: it has not ended and
    /// the bounce budget is not spent.
    pub open spec fn open(&self) -> bool {
        self.end is None && self.bounces_left > 0
    }

    /// The light at the end of the path: black when the budget ran out
    /// before the path ended.
    pub open spec fn end_light(&self) -> nalgebra_glm::Vec3 {
        match self.end {
            Some(c) => c,
            None => zero_vector(3),
        }
    }

    /// A path with no bounce taken yet.
    pub fn new(max_bounces: usize) -> (r: Path)
        ensures
            r.wf(),
            r.max_bounces == max_bounces,
            r.bounces_left == max_bounces,
            r.attenuations@.len() == 0,
            r.end is None,
    {
        Path { max_bounces, bounces_left: max_bounces, attenuations: Vec::new(), end: None }
    }

    /// Whether another ray must be cast.
    pub fn wants_ray(&self) -> (r: bool)
        ensures
            r == self.open(),
    {
        self.end.is_none() && self.bounces_left > 0
    }

    /// The ray left the scene: the path ends in the given sky color.
    pub fn miss(&mut self, sky: nalgebra_glm::Vec3)
        requires
            old(self).wf(),
            old(self).open(),
        ensures
            final(self).wf(),
            final(self).end == Some(sky),
            final(self).attenuations@ == old(self).attenuations@,
            final(self).bounces_left == old(self).bounces_left,
            final(self).max_bounces == old(self).max_bounces,
    {
        self.end = Some(sky);
    }

    /// The surface absorbed the ray: the path ends in black.
    pub fn absorb(&mut self)
        requires
            old(self).wf(),
            old(self).open(),
        ensures
            final(self).wf(),
            final(self).end == Some(zero_vector(3)),
            final(self).attenuations@ == old(self).attenuations@,
            final(self).bounces_left == old(self).bounces_left,
            final(self).max_bounces == old(self).max_bounces,
    {
        self.end = Some(zero3());
    }

    /// The surface scattered the ray with the given attenuation: one more
    /// bounce is taken.
    pub fn scatter(&mut self, attenuation: nalgebra_glm::Vec3)
        requires
            old(self).wf(),
            old(self).open(),
        ensures
            final(self).wf(),
            final(self).attenuations@ == old(self).attenuations@.push(attenuation),
            final(self).bounces_left == old(self).bounces_left - 1,
            final(self).end == old(self).end,
            final(self).max_bounces == old(self).max_bounces,
    {
        self.attenuations.push(attenuation);
        self.bounces_left = self.bounces_left - 1;
    }

    /// The radiance carried back to the eye along the path: the end light
    /// tinted by every attenuation, innermost bounce first.
    pub fn radiance(&self) -> (r: nalgebra_glm::Vec3)
        ensures
            r == path_color(self.attenuations@, self.end_light()),
    {
        let mut acc = match self.end {
            Some(c) => c,
            None => zero3(),
        };
        let n = self.attenuations.len();
        let mut i: usize = n;
        assert(self.attenuations@.subrange(n as int, n as int) =~= Seq::<
            nalgebra_glm::Vec3,
        >::empty());
        while i > 0
            invariant
                n == self.attenuations@.len(),
                i <= n,
                acc == path_color(self.attenuations@.subrange(i as int, n as int), self.end_light()),
            decreases i,
        {
            let ghost tail = self.attenuations@.subrange(i - 1, n as int);
            assert(tail.drop_first() =~= self.attenuations@.subrange(i as int, n as int));
            assert(tail[0] == self.attenuations@[i - 1]);
            acc = mul3(&acc, &self.attenuations[i - 1]);
            i = i - 1;
        }
        assert(self.attenuations@.subrange(0, n as int) =~= self.attenuations@);
        acc
    }
}

} // verus!
