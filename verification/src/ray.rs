//! Rays: an origin and a direction.

use crate::math::Point3;
use vstd::prelude::*;

verus! {

/// A half-line. The direction need not have unit length.
#[derive(Debug)]
pub struct Ray {
    origin: Point3,
    direction: Point3,
}

impl Ray {
    pub closed spec fn spec_origin(&self) -> &Point3 {
        &self.origin
    }

    pub closed spec fn spec_direction(&self) -> &Point3 {
        &self.direction
    }

    pub fn new(origin: Point3, direction: Point3) -> (r: Self)
        ensures
            r.spec_origin() == origin,
            r.spec_direction() == direction,
    {
        Self { origin, direction }
    }

    #[verifier::when_used_as_spec(spec_direction)]
    pub fn direction(&self) -> (r: &Point3)
        ensures
            r == self.spec_direction(),
    {
        &self.direction
    }

    #[verifier::when_used_as_spec(spec_origin)]
    pub fn origin(&self) -> (r: &Point3)
        ensures
            r == self.spec_origin(),
    {
        &self.origin
    }
}

} // verus!
