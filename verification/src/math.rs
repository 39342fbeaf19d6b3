//! Vectors of a dimension fixed in the type.

use crate::scalar::Scalar;
use vstd::prelude::*;

verus! {

/// A vector of `D` binary32 components.
#[derive(Clone, Copy, Debug, PartialEq)]
pub struct VectorD<const D: usize> {
    pub e: [Scalar; D],
}

pub type Point3 = VectorD<3>;

pub type Vector3 = VectorD<3>;

impl<const D: usize> View for VectorD<D> {
    type V = Seq<Scalar>;

    open spec fn view(&self) -> Seq<Scalar> {
        self.e@
    }
}

impl<const D: usize> VectorD<D> {
    /// The vector with every component negated.
    pub open spec fn spec_neg(self) -> Seq<Scalar> {
        Seq::new(D as nat, |i: int| self@[i].spec_neg())
    }

    /// Negates every component; no component changes but in its sign bit.
    pub fn neg(&self) -> (r: Self)
        ensures
            r@ == self.spec_neg(),
    {
        let mut e = self.e;
        let mut i: usize = 0;
        while i < D
            invariant
                i <= D,
                forall|j: int| 0 <= j < i ==> e@[j] == self.e@[j].spec_neg(),
                forall|j: int| i <= j < D ==> e@[j] == self.e@[j],
            decreases D - i,
        {
            let c = e[i].neg();
            e[i] = c;
            i += 1;
        }
        let r = VectorD { e };
        assert(r@ =~= self.spec_neg());
        r
    }
}

impl<const D: usize> Default for VectorD<D> {
    /// The zero vector: every component is positive zero.
    fn default() -> (r: Self)
        ensures
            r@ == Seq::new(D as nat, |i: int| Scalar { bits: 0 }),
    {
        let e: [Scalar; D] = vstd::array::array_fill_for_copy_types(Scalar::zero());
        let r = VectorD { e };
        proof {
            vstd::array::axiom_spec_array_fill_for_copy_type::<Scalar, D>(Scalar { bits: 0 });
            assert(r@ =~= Seq::new(D as nat, |i: int| Scalar { bits: 0 }));
        }
        r
    }
}

impl VectorD<3> {
    pub fn new(x: Scalar, y: Scalar, z: Scalar) -> (r: Self)
        ensures
            r@ == seq![x, y, z],
    {
        let r = VectorD { e: [x, y, z] };
        assert(r@ =~= seq![x, y, z]);
        r
    }

    pub fn x(&self) -> (r: Scalar)
        ensures
            r == self@[0],
    {
        self.e[0]
    }

    pub fn y(&self) -> (r: Scalar)
        ensures
            r == self@[1],
    {
        self.e[1]
    }

    pub fn z(&self) -> (r: Scalar)
        ensures
            r == self@[2],
    {
        self.e[2]
    }
}

} // verus!
