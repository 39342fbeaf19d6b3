//! Which root of the ray-sphere quadratic counts as the hit.
//!
//! For a ray `O + t D` and a sphere of centre `C` and radius `r`, with
//! `oc = O - C`, `a = D.D`, `half_b = oc.D` and `c = oc.oc - r*r`, the
//! discriminant is `half_b*half_b - a*c` and the roots are
//! `(-half_b - sqrt(discriminant)) / a` and `(-half_b + sqrt(discriminant)) / a`.
//! The arithmetic is the caller's; what is decided from its results is here.

use crate::hittable::Interval;
use crate::scalar::Scalar;
use vstd::prelude::*;

verus! {

/// The root that counts: the first if the interval holds it, else the second
/// if the interval holds that, else none.
pub open spec fn root_in_range(first_root: Scalar, second_root: Scalar, valid_interval: Interval)
    -> Option<Scalar> {
    if valid_interval.spec_contains(&first_root) {
        Some(first_root)
    } else if valid_interval.spec_contains(&second_root) {
        Some(second_root)
    } else {
        None
    }
}

/// Picks among the two roots of the quadratic, the nearer one first.
pub fn find_root_in_range(first_root: Scalar, second_root: Scalar, valid_interval: &Interval) -> (r:
    Option<Scalar>)
    ensures
        r == root_in_range(first_root, second_root, *valid_interval),
{
    if valid_interval.contains(&first_root) {
        return Some(first_root);
    }
    if valid_interval.contains(&second_root) {
        return Some(second_root);
    }
    None
}

/// The quadratic of one ray against one sphere, solved: its discriminant and
/// its two roots, the one with the minus sign first.
#[derive(Clone, Copy, Debug)]
pub struct Quadratic {
    pub discriminant: Scalar,
    pub first_root: Scalar,
    pub second_root: Scalar,
}

impl Quadratic {
    /// The first root is not beyond the second. Roots computed from a
    /// direction that is not zero are so; a NaN among them is let through,
    /// since no interval holds it.
    pub open spec fn ordered(&self) -> bool {
        self.first_root.nan() || self.second_root.nan() || self.first_root.spec_le(
            &self.second_root,
        )
    }

    /// The distance at which the ray strikes the sphere: none when the
    /// discriminant is negative, else the root that counts.
    pub open spec fn spec_hit_root(&self, valid_interval: &Interval) -> Option<Scalar> {
        if self.discriminant.spec_lt(&Scalar { bits: 0 }) {
            None
        } else {
            root_in_range(self.first_root, self.second_root, *valid_interval)
        }
    }

    pub fn new(discriminant: Scalar, first_root: Scalar, second_root: Scalar) -> (r: Self)
        ensures
            r.discriminant == discriminant,
            r.first_root == first_root,
            r.second_root == second_root,
    {
        Quadratic { discriminant, first_root, second_root }
    }

    /// Decides whether the ray strikes the sphere inside the interval, and at
    /// which distance.
    #[verifier::when_used_as_spec(spec_hit_root)]
    pub fn hit_root(&self, valid_interval: &Interval) -> (r: Option<Scalar>)
        ensures
            r == self.spec_hit_root(valid_interval),
            r matches Some(t) ==> valid_interval.spec_contains(&t),
    {
        if self.discriminant.lt(&Scalar::zero()) {
            return None;
        }
        find_root_in_range(self.first_root, self.second_root, valid_interval)
    }
}

} // verus!
