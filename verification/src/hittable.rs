//! The intersection protocol: hit records, the capability every surface
//! offers, and the collection that keeps the nearest hit.

use crate::math::{Point3, Vector3};
use crate::ray::Ray;
use crate::scalar::Scalar;
use vstd::prelude::*;

verus! {

/// The side of a surface that a ray struck.
#[derive(Clone, Copy, Debug, PartialEq, Eq, Structural)]
pub enum Facing {
    Front,
    Back,
}

/// A closed range `[min, max]` of parametric distances along a ray.
#[derive(Clone, Copy, Debug)]
pub struct Interval {
    pub min: Scalar,
    pub max: Scalar,
}

impl Interval {
    /// `min <= t <= max`, both ends included. A NaN is in no interval, and an
    /// interval with a NaN end holds nothing.
    pub open spec fn spec_contains(&self, t: &Scalar) -> bool {
        self.min.spec_le(t) && t.spec_le(&self.max)
    }

    pub fn new(min: Scalar, max: Scalar) -> (r: Self)
        ensures
            r.min == min,
            r.max == max,
    {
        Interval { min, max }
    }

    #[verifier::when_used_as_spec(spec_contains)]
    pub fn contains(&self, t: &Scalar) -> (r: bool)
        ensures
            r == self.spec_contains(t),
    {
        self.min.le(t) && t.le(&self.max)
    }
}

/// What a successful intersection yields.
#[derive(Clone, Copy, Debug)]
pub struct HitRecord {
    pub p: Point3,
    pub normal: Vector3,
    pub t: Scalar,
    pub facing: Facing,
}

impl HitRecord {
    /// The side that a ray strikes when `alignment` is the dot product of its
    /// direction with the outward normal: the front when the two oppose each
    /// other, the back otherwise (for a zero or NaN product too).
    pub open spec fn side(alignment: Scalar) -> Facing {
        if alignment.spec_lt(&Scalar { bits: 0 }) {
            Facing::Front
        } else {
            Facing::Back
        }
    }

    /// Builds the record of a hit at `p`, at distance `t` along the ray.
    /// `outward_normal` is the surface's unit normal at `p`, and `alignment`
    /// the dot product of the ray's direction with it. The stored normal
    /// always points against the ray: it is the outward normal on the front
    /// face and its negation on the back face.
    pub fn new(p: Point3, outward_normal: Vector3, t: Scalar, alignment: Scalar) -> (r: Self)
        ensures
            r.p == p,
            r.t == t,
            r.facing == Self::side(alignment),
            r.facing == Facing::Front ==> r.normal == outward_normal,
            r.facing == Facing::Back ==> r.normal@ == outward_normal.spec_neg(),
    {
        let zero = Scalar::zero();
        if alignment.lt(&zero) {
            Self { p, normal: outward_normal, t, facing: Facing::Front }
        } else {
            Self { p, normal: outward_normal.neg(), t, facing: Facing::Back }
        }
    }
}

/// The capability of a surface: to say where a ray strikes it.
pub trait Hittable {
    /// The intersection of `ray` with the surface inside `valid_interval`, if
    /// there is one. A hit that is reported lies inside the interval.
    fn hit(&self, ray: &Ray, valid_interval: &Interval) -> (r: Option<HitRecord>)
        ensures
            r matches Some(rec) ==> valid_interval.spec_contains(&rec.t),
    ;
}

/// The state of a search for the nearest hit: the interval that is still of
/// interest and the best record so far.
#[derive(Clone, Copy, Debug)]
pub struct Narrowing {
    pub interval: Interval,
    pub best: Option<HitRecord>,
}

impl Narrowing {
    /// The search before any surface was asked.
    pub open spec fn start(interval: Interval) -> Narrowing {
        Narrowing { interval, best: None }
    }

    /// The search after one more surface answered: a hit becomes the best
    /// record and the new upper end of the interval, a miss changes nothing.
    pub open spec fn step(self, outcome: Option<HitRecord>) -> Narrowing {
        match outcome {
            Some(rec) => Narrowing {
                interval: Interval { min: self.interval.min, max: rec.t },
                best: Some(rec),
            },
            None => self,
        }
    }

    /// The search after the surfaces answered `outcomes`, in that order.
    pub open spec fn sweep(interval: Interval, outcomes: Seq<Option<HitRecord>>) -> Narrowing
        decreases outcomes.len(),
    {
        if outcomes.len() == 0 {
            Self::start(interval)
        } else {
            Self::sweep(interval, outcomes.drop_last()).step(outcomes.last())
        }
    }

    /// Every answer in `outcomes` keeps to the protocol: a hit lies inside
    /// the interval as the answers before it had narrowed it.
    pub open spec fn admissible(interval: Interval, outcomes: Seq<Option<HitRecord>>) -> bool {
        forall|i: int|
            0 <= i < outcomes.len() ==> (#[trigger] outcomes[i] matches Some(rec)
                ==> Self::sweep(interval, outcomes.take(i)).interval.spec_contains(&rec.t))
    }

    pub fn new(interval: Interval) -> (r: Self)
        ensures
            r == Self::start(interval),
    {
        Narrowing { interval, best: None }
    }

    pub fn observe(&mut self, outcome: Option<HitRecord>)
        ensures
            *final(self) == old(self).step(outcome),
    {
        match outcome {
            Some(rec) => {
                self.interval = Interval::new(self.interval.min, rec.t);
                self.best = Some(rec);
            },
            None => {},
        }
    }
}

/// What the protocol gives a search: it never moves the lower end of the
/// interval; while nothing was hit the interval is unchanged; and once
/// something was hit, the best record is the upper end of what is left and
/// lies inside the interval the search started from.
pub proof fn lemma_sweep_stays_inside(interval: Interval, outcomes: Seq<Option<HitRecord>>)
    requires
        Narrowing::admissible(interval, outcomes),
    ensures
        Narrowing::sweep(interval, outcomes).interval.min == interval.min,
        Narrowing::sweep(interval, outcomes).best is None ==> Narrowing::sweep(
            interval,
            outcomes,
        ).interval == interval,
        Narrowing::sweep(interval, outcomes).best matches Some(rec) ==> Narrowing::sweep(
            interval,
            outcomes,
        ).interval.max == rec.t && interval.spec_contains(&rec.t),
    decreases outcomes.len(),
{
    if outcomes.len() > 0 {
        let before = outcomes.drop_last();
        lemma_admissible_prefix(interval, outcomes, outcomes.len() - 1);
        assert(outcomes.take(outcomes.len() - 1) =~= before);
        lemma_sweep_stays_inside(interval, before);
    }
}

/// Answers that keep to the protocol still do so when the later ones are
/// left out.
pub proof fn lemma_admissible_prefix(
    interval: Interval,
    outcomes: Seq<Option<HitRecord>>,
    n: int,
)
    requires
        Narrowing::admissible(interval, outcomes),
        0 <= n <= outcomes.len(),
    ensures
        Narrowing::admissible(interval, outcomes.take(n)),
{
    let prefix = outcomes.take(n);
    assert forall|i: int| 0 <= i < prefix.len() implies (#[trigger] prefix[i] matches Some(rec)
        ==> Narrowing::sweep(interval, prefix.take(i)).interval.spec_contains(&rec.t)) by {
        assert(prefix.take(i) =~= outcomes.take(i));
        assert(prefix[i] == outcomes[i]);
    }
}

/// Answers that keep to the protocol still do so with one more answer that
/// lies inside the interval as they had narrowed it.
pub proof fn lemma_admissible_push(
    interval: Interval,
    outcomes: Seq<Option<HitRecord>>,
    outcome: Option<HitRecord>,
)
    requires
        Narrowing::admissible(interval, outcomes),
        outcome matches Some(rec) ==> Narrowing::sweep(interval, outcomes).interval.spec_contains(
            &rec.t,
        ),
    ensures
        Narrowing::admissible(interval, outcomes.push(outcome)),
        Narrowing::sweep(interval, outcomes.push(outcome)) == Narrowing::sweep(
            interval,
            outcomes,
        ).step(outcome),
{
    let next = outcomes.push(outcome);
    assert(next.drop_last() =~= outcomes);
    assert forall|i: int| 0 <= i < next.len() implies (#[trigger] next[i] matches Some(rec)
        ==> Narrowing::sweep(interval, next.take(i)).interval.spec_contains(&rec.t)) by {
        if i < outcomes.len() {
            assert(next.take(i) =~= outcomes.take(i));
            assert(next[i] == outcomes[i]);
        } else {
            assert(next.take(i) =~= outcomes);
        }
    }
}

/// An ordered collection of surfaces, itself a surface: a ray strikes it
/// where it strikes the nearest of its members.
pub struct HittableList<H: Hittable> {
    inner: Vec<H>,
}

impl<H: Hittable> View for HittableList<H> {
    type V = Seq<H>;

    closed spec fn view(&self) -> Seq<H> {
        self.inner@
    }
}

impl<H: Hittable> Default for HittableList<H> {
    fn default() -> (r: Self)
        ensures
            r@ == Seq::<H>::empty(),
    {
        HittableList { inner: Vec::new() }
    }
}

impl<H: Hittable> HittableList<H> {
    /// The empty collection.
    pub fn new() -> (r: Self)
        ensures
            r@ == Seq::<H>::empty(),
    {
        HittableList { inner: Vec::new() }
    }

    /// Adds a surface behind those already there.
    pub fn add(&mut self, hittable: H)
        ensures
            final(self)@ == old(self)@.push(hittable),
    {
        self.inner.push(hittable);
    }
}

impl<H: Hittable> Hittable for HittableList<H> {
    /// Asks every member in order, each with the interval as the hits before
    /// it have narrowed it, and returns the last hit reported. Whatever the
    /// members answer, the result is that of a search over as many answers as
    /// there are members, each inside the interval it was asked with.
    fn hit(&self, ray: &Ray, valid_interval: &Interval) -> (r: Option<HitRecord>)
        ensures
            self@.len() == 0 ==> r is None,
            exists|outcomes: Seq<Option<HitRecord>>|
                outcomes.len() == self@.len() && Narrowing::admissible(*valid_interval, outcomes)
                    && r == (#[trigger] Narrowing::sweep(*valid_interval, outcomes)).best,
    {
        let mut state = Narrowing::new(*valid_interval);
        let ghost mut outcomes: Seq<Option<HitRecord>> = Seq::empty();
        let mut i: usize = 0;
        while i < self.inner.len()
            invariant
                i <= self.inner.len(),
                outcomes.len() == i,
                Narrowing::admissible(*valid_interval, outcomes),
                state == Narrowing::sweep(*valid_interval, outcomes),
            decreases self.inner.len() - i,
        {
            let current = state.interval;
            let outcome = self.inner[i].hit(ray, &current);
            proof {
                lemma_admissible_push(*valid_interval, outcomes, outcome);
                outcomes = outcomes.push(outcome);
            }
            state.observe(outcome);
            i += 1;
        }
        proof {
            lemma_sweep_stays_inside(*valid_interval, outcomes);
        }
        state.best
    }
}

} // verus!
