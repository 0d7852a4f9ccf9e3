use vstd::prelude::*;

verus! {

/// nalgebra's matrix type, of which nalgebra_glm's three-component vector is
/// one instance; carried through opaquely.
#[verifier::external_type_specification]
#[verifier::external_body]
#[verifier::reject_recursive_types(T)]
#[verifier::reject_recursive_types(R)]
#[verifier::reject_recursive_types(C)]
#[verifier::reject_recursive_types(S)]
pub struct ExMatrix<T, R, C, S>(nalgebra::Matrix<T, R, C, S>);

/// nalgebra's type-level dimension, a parameter of the vector type.
#[verifier::external_type_specification]
#[verifier::external_body]
pub struct ExConst<const D: usize>(nalgebra::Const<D>);

/// nalgebra's fixed-size storage, a parameter of the vector type.
#[verifier::external_type_specification]
#[verifier::external_body]
#[verifier::reject_recursive_types(T)]
pub struct ExArrayStorage<T, const R: usize, const C: usize>(nalgebra::ArrayStorage<T, R, C>);

/// The componentwise minimum of two vectors.
pub uninterp spec fn min_of(a: nalgebra_glm::Vec3, b: nalgebra_glm::Vec3) -> nalgebra_glm::Vec3;

/// The componentwise maximum of two vectors.
pub uninterp spec fn max_of(a: nalgebra_glm::Vec3, b: nalgebra_glm::Vec3) -> nalgebra_glm::Vec3;

/// The componentwise sum of two vectors.
pub uninterp spec fn sum_of(a: nalgebra_glm::Vec3, b: nalgebra_glm::Vec3) -> nalgebra_glm::Vec3;

/// The componentwise difference of two vectors.
pub uninterp spec fn diff_of(a: nalgebra_glm::Vec3, b: nalgebra_glm::Vec3) -> nalgebra_glm::Vec3;

/// The vector whose components are all zero, in the given dimension.
pub uninterp spec fn zero_vector(dim: nat) -> nalgebra_glm::Vec3;

/// Relies on nalgebra_glm::min2: the componentwise minimum of its arguments.
#[verifier::external_body]
pub(crate) fn min2(a: &nalgebra_glm::Vec3, b: &nalgebra_glm::Vec3) -> (r: nalgebra_glm::Vec3)
    ensures
        r == min_of(*a, *b),
{
    nalgebra_glm::min2(a, b)
}

/// Relies on nalgebra_glm::max2: the componentwise maximum of its arguments.
#[verifier::external_body]
pub(crate) fn max2(a: &nalgebra_glm::Vec3, b: &nalgebra_glm::Vec3) -> (r: nalgebra_glm::Vec3)
    ensures
        r == max_of(*a, *b),
{
    nalgebra_glm::max2(a, b)
}

/// Relies on nalgebra's `+` on vectors: the componentwise sum.
#[verifier::external_body]
pub(crate) fn add3(a: &nalgebra_glm::Vec3, b: &nalgebra_glm::Vec3) -> (r: nalgebra_glm::Vec3)
    ensures
        r == sum_of(*a, *b),
{
    a + b
}

/// Relies on nalgebra's `-` on vectors: the componentwise difference.
#[verifier::external_body]
pub(crate) fn sub3(a: &nalgebra_glm::Vec3, b: &nalgebra_glm::Vec3) -> (r: nalgebra_glm::Vec3)
    ensures
        r == diff_of(*a, *b),
{
    a - b
}

/// Relies on nalgebra_glm::zero: the three-component zero vector.
#[verifier::external_body]
pub(crate) fn zero3() -> (r: nalgebra_glm::Vec3)
    ensures
        r == zero_vector(3),
{
    nalgebra_glm::zero()
}

/// An axis-aligned bounding box given by its two corners.
#[derive(Clone, Copy)]
pub struct AABB {
    pub min: nalgebra_glm::Vec3,
    pub max: nalgebra_glm::Vec3,
}

/// The box with both corners at the origin: the union of no boxes.
pub open spec fn seed_box() -> AABB {
    AABB { min: zero_vector(3), max: zero_vector(3) }
}

/// The smallest box that holds both boxes: componentwise min of the minima and
/// max of the maxima.
pub open spec fn union_box(a: AABB, b: AABB) -> AABB {
    AABB { min: min_of(a.min, b.min), max: max_of(a.max, b.max) }
}

/// The union of the boxes of `s`, folded from `start` in order.
pub open spec fn union_from(start: AABB, s: Seq<AABB>) -> AABB
    decreases s.len(),
{
    if s.len() == 0 {
        start
    } else {
        union_box(union_from(start, s.drop_last()), s.last())
    }
}

/// The union of a sequence of boxes: the first box grown by each of the
/// others in turn; for no boxes, the degenerate box at the origin.
pub open spec fn union_all(s: Seq<AABB>) -> AABB {
    if s.len() == 0 {
        seed_box()
    } else {
        union_from(s[0], s.drop_first())
    }
}

impl AABB {
    /// The degenerate box with both corners at the origin.
    pub fn seed() -> (r: AABB)
        ensures
            r == seed_box(),
    {
        AABB { min: zero3(), max: zero3() }
    }

    /// The smallest box that holds `self` and `other`.
    pub fn union(&self, other: &AABB) -> (r: AABB)
        ensures
            r == union_box(*self, *other),
    {
        AABB { min: min2(&self.min, &other.min), max: max2(&self.max, &other.max) }
    }

    /// The extent of the box along each axis: its maximum corner minus its
    /// minimum corner.
    pub fn size(&self) -> (r: nalgebra_glm::Vec3)
        ensures
            r == diff_of(self.max, self.min),
    {
        sub3(&self.max, &self.min)
    }
}

} // verus!
