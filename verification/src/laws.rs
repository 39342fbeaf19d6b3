//! What holds of the intersection protocol as a whole.

use crate::hittable::{lemma_admissible_prefix, lemma_sweep_stays_inside};
use crate::hittable::{HitRecord, Interval, Narrowing};
use crate::scalar::Scalar;
use crate::sphere::{root_in_range, Quadratic};
use vstd::prelude::*;

verus! {

/// Both ends of an interval belong to it, provided it is not empty.
pub proof fn law_ends_are_inside(interval: Interval)
    requires
        interval.min.spec_le(&interval.max),
    ensures
        interval.spec_contains(&interval.min),
        interval.spec_contains(&interval.max),
{
}

/// A root that equals an end of the interval counts as a hit: the first root
/// is chosen when it equals either end, and the second when it does while
/// the first lies outside.
pub proof fn law_root_on_the_boundary(first_root: Scalar, second_root: Scalar, interval: Interval)
    requires
        interval.min.spec_le(&interval.max),
    ensures
        first_root.same_number(&interval.min) || first_root.same_number(&interval.max)
            ==> root_in_range(first_root, second_root, interval) == Some(first_root),
        !interval.spec_contains(&first_root) && (second_root.same_number(&interval.min)
            || second_root.same_number(&interval.max)) ==> root_in_range(
            first_root,
            second_root,
            interval,
        ) == Some(second_root),
{
}

/// The narrowing search returns the nearest of the hits that were reported,
/// whatever the surfaces are: it returns nothing exactly when every surface
/// missed, and else a record that some surface reported and that is no
/// farther than any other reported.
pub proof fn law_best_is_nearest_reported(interval: Interval, outcomes: Seq<Option<HitRecord>>)
    requires
        Narrowing::admissible(interval, outcomes),
    ensures
        Narrowing::sweep(interval, outcomes).best is None <==> forall|i: int|
            0 <= i < outcomes.len() ==> #[trigger] outcomes[i] is None,
        Narrowing::sweep(interval, outcomes).best matches Some(rec) ==> {
            &&& exists|i: int| 0 <= i < outcomes.len() && #[trigger] outcomes[i] == Some(rec)
            &&& forall|j: int|
                0 <= j < outcomes.len() ==> (#[trigger] outcomes[j] matches Some(other)
                    ==> rec.t.spec_le(&other.t))
        },
    decreases outcomes.len(),
{
    if outcomes.len() > 0 {
        let n = outcomes.len() - 1;
        let before = outcomes.drop_last();
        lemma_admissible_prefix(interval, outcomes, n);
        assert(outcomes.take(n) =~= before);
        law_best_is_nearest_reported(interval, before);
        lemma_sweep_stays_inside(interval, before);
        assert(forall|i: int| 0 <= i < n ==> before[i] == outcomes[i]);
        match outcomes.last() {
            Some(rec) => {
                assert(outcomes[n] == Some(rec));
                assert(Narrowing::sweep(interval, before).interval.spec_contains(&rec.t));
            },
            None => {
                if let Some(rec) = Narrowing::sweep(interval, before).best {
                    let i = choose|i: int| 0 <= i < n && #[trigger] before[i] == Some(rec);
                    assert(outcomes[i] == Some(rec));
                }
            },
        }
    }
}

/// Narrowing the interval from above only filters what a sphere answers: a
/// sphere asked with the smaller interval gives the answer it gave for the
/// larger one if that is not beyond the new upper end, and none otherwise.
pub proof fn law_narrowing_filters(q: Quadratic, interval: Interval, bound: Scalar)
    requires
        q.ordered(),
        bound.spec_le(&interval.max),
    ensures
        q.spec_hit_root(&Interval { min: interval.min, max: bound }) == (match q.spec_hit_root(
            &interval,
        ) {
            Some(t) => if t.spec_le(&bound) {
                Some(t)
            } else {
                None
            },
            None => None,
        }),
{
}

/// `outcome` is what a sphere reports whose quadratic selects `root`: a hit
/// at that distance, or a miss.
pub open spec fn reports(outcome: Option<HitRecord>, root: Option<Scalar>) -> bool {
    match root {
        Some(t) => outcome matches Some(rec) && rec.t == t,
        None => outcome is None,
    }
}

/// `outcomes` are the answers of the spheres of `scene`, asked in order with
/// `interval` as the answers before each had narrowed it.
pub open spec fn answers_of(
    scene: Seq<Quadratic>,
    interval: Interval,
    outcomes: Seq<Option<HitRecord>>,
) -> bool {
    &&& outcomes.len() == scene.len()
    &&& forall|i: int|
        0 <= i < scene.len() ==> reports(
            #[trigger] outcomes[i],
            scene[i].spec_hit_root(&Narrowing::sweep(interval, outcomes.take(i)).interval),
        )
}

/// Every quadratic of the scene has its roots in order.
pub open spec fn all_ordered(scene: Seq<Quadratic>) -> bool {
    forall|i: int| 0 <= i < scene.len() ==> (#[trigger] scene[i]).ordered()
}

proof fn lemma_nearest_among_first(
    scene: Seq<Quadratic>,
    interval: Interval,
    outcomes: Seq<Option<HitRecord>>,
    n: int,
)
    requires
        answers_of(scene, interval, outcomes),
        all_ordered(scene),
        0 <= n <= scene.len(),
    ensures
        Narrowing::sweep(interval, outcomes.take(n)).interval.min == interval.min,
        Narrowing::sweep(interval, outcomes.take(n)).best is None ==> {
            &&& Narrowing::sweep(interval, outcomes.take(n)).interval == interval
            &&& forall|i: int|
                0 <= i < n ==> (#[trigger] scene[i]).spec_hit_root(&interval) is None
        },
        Narrowing::sweep(interval, outcomes.take(n)).best matches Some(rec) ==> {
            &&& Narrowing::sweep(interval, outcomes.take(n)).interval.max == rec.t
            &&& interval.spec_contains(&rec.t)
            &&& exists|i: int|
                0 <= i < n && outcomes[i] == Some(rec) && (#[trigger] scene[i]).spec_hit_root(
                    &interval,
                ) == Some(rec.t)
            &&& forall|j: int|
                0 <= j < n ==> ((#[trigger] scene[j]).spec_hit_root(&interval) matches Some(u)
                    ==> rec.t.spec_le(&u))
        },
    decreases n,
{
    if n > 0 {
        let k = n - 1;
        lemma_nearest_among_first(scene, interval, outcomes, k);
        assert(outcomes.take(n).drop_last() =~= outcomes.take(k));
        assert(outcomes.take(n).last() == outcomes[k]);
        let before = Narrowing::sweep(interval, outcomes.take(k));
        let after = Narrowing::sweep(interval, outcomes.take(n));
        assert(after == before.step(outcomes[k]));
        assert(reports(outcomes[k], scene[k].spec_hit_root(&before.interval)));
        assert(scene[k].ordered());
        if before.interval != interval {
            let rec = before.best->Some_0;
            law_narrowing_filters(scene[k], interval, rec.t);
            assert(before.interval == Interval { min: interval.min, max: rec.t });
        }
        match after.best {
            Some(rec) => {
                if outcomes[k] is Some {
                    assert(outcomes[k] == Some(rec));
                    assert(scene[k].spec_hit_root(&interval) == Some(rec.t));
                } else {
                    let i = choose|i: int|
                        0 <= i < k && outcomes[i] == Some(rec) && (#[trigger] scene[i]).spec_hit_root(
                            &interval,
                        ) == Some(rec.t);
                    assert(0 <= i < n);
                }
                assert forall|j: int| 0 <= j < n implies ((#[trigger] scene[j]).spec_hit_root(
                    &interval,
                ) matches Some(u) ==> rec.t.spec_le(&u)) by {
                    if j < k {
                        if before.best is None {
                            assert(scene[j].spec_hit_root(&interval) is None);
                        }
                    }
                }
            },
            None => {
                assert forall|i: int| 0 <= i < n implies (#[trigger] scene[i]).spec_hit_root(
                    &interval,
                ) is None by {
                    if i < k {
                    }
                }
            },
        }
    }
}

/// Over spheres the search finds the nearest hit of the scene: it returns
/// nothing exactly when no sphere, asked with the whole interval, reports a
/// hit; and else the record of a sphere whose own hit in the whole interval
/// is at that distance, with no sphere of the scene hit nearer.
pub proof fn law_nearest_sphere_wins(
    scene: Seq<Quadratic>,
    interval: Interval,
    outcomes: Seq<Option<HitRecord>>,
)
    requires
        answers_of(scene, interval, outcomes),
        all_ordered(scene),
    ensures
        Narrowing::sweep(interval, outcomes).best is None <==> forall|i: int|
            0 <= i < scene.len() ==> (#[trigger] scene[i]).spec_hit_root(&interval) is None,
        Narrowing::sweep(interval, outcomes).best matches Some(rec) ==> {
            &&& exists|i: int|
                0 <= i < scene.len() && outcomes[i] == Some(rec) && (#[trigger] scene[i]).spec_hit_root(
                    &interval,
                ) == Some(rec.t)
            &&& forall|j: int|
                0 <= j < scene.len() ==> ((#[trigger] scene[j]).spec_hit_root(
                    &interval,
                ) matches Some(u) ==> rec.t.spec_le(&u))
        },
{
    lemma_nearest_among_first(scene, interval, outcomes, scene.len() as int);
    assert(outcomes.take(scene.len() as int) =~= outcomes);
    if let Some(rec) = Narrowing::sweep(interval, outcomes).best {
        let i = choose|i: int|
            0 <= i < scene.len() && outcomes[i] == Some(rec) && (#[trigger] scene[i]).spec_hit_root(
                &interval,
            ) == Some(rec.t);
        assert(scene[i].spec_hit_root(&interval) is Some);
    }
}

/// Two scenes that hold the same quadratics, each as often as the other, hold
/// each other's members.
proof fn lemma_shared_members(scene: Seq<Quadratic>, reordered: Seq<Quadratic>)
    requires
        scene.to_multiset() == reordered.to_multiset(),
    ensures
        forall|i: int| 0 <= i < scene.len() ==> reordered.contains(#[trigger] scene[i]),
{
    scene.to_multiset_ensures();
    reordered.to_multiset_ensures();
    assert forall|i: int| 0 <= i < scene.len() implies reordered.contains(
        #[trigger] scene[i],
    ) by {
        assert(scene.contains(scene[i]));
        assert(scene.to_multiset().count(scene[i]) > 0);
        assert(reordered.to_multiset().count(scene[i]) > 0);
    }
}

/// The order of the scene does not matter to the distance of the hit found:
/// two scenes of the same spheres, in whatever order, both miss or both hit,
/// and then at equal distances.
pub proof fn law_order_does_not_matter(
    scene: Seq<Quadratic>,
    reordered: Seq<Quadratic>,
    interval: Interval,
    outcomes: Seq<Option<HitRecord>>,
    reordered_outcomes: Seq<Option<HitRecord>>,
)
    requires
        scene.to_multiset() == reordered.to_multiset(),
        all_ordered(scene),
        answers_of(scene, interval, outcomes),
        answers_of(reordered, interval, reordered_outcomes),
    ensures
        Narrowing::sweep(interval, outcomes).best is None <==> Narrowing::sweep(
            interval,
            reordered_outcomes,
        ).best is None,
        Narrowing::sweep(interval, outcomes).best matches Some(rec) ==> Narrowing::sweep(
            interval,
            reordered_outcomes,
        ).best matches Some(other) && rec.t.same_number(&other.t),
{
    lemma_shared_members(scene, reordered);
    lemma_shared_members(reordered, scene);
    assert(all_ordered(reordered)) by {
        assert forall|j: int| 0 <= j < reordered.len() implies (#[trigger] reordered[j]).ordered() by {
            assert(scene.contains(reordered[j]));
            let i = choose|i: int| 0 <= i < scene.len() && scene[i] == reordered[j];
            assert(scene[i].ordered());
        }
    }
    law_nearest_sphere_wins(scene, interval, outcomes);
    law_nearest_sphere_wins(reordered, interval, reordered_outcomes);
    let first = Narrowing::sweep(interval, outcomes).best;
    let second = Narrowing::sweep(interval, reordered_outcomes).best;
    if let Some(rec) = first {
        let i = choose|i: int|
            0 <= i < scene.len() && outcomes[i] == Some(rec) && (#[trigger] scene[i]).spec_hit_root(
                &interval,
            ) == Some(rec.t);
        assert(reordered.contains(scene[i]));
        let j = choose|j: int| 0 <= j < reordered.len() && reordered[j] == scene[i];
        assert(reordered[j].spec_hit_root(&interval) == Some(rec.t));
        assert(second is Some);
    }
    if let Some(other) = second {
        let j = choose|j: int|
            0 <= j < reordered.len() && reordered_outcomes[j] == Some(other) && (
            #[trigger] reordered[j]).spec_hit_root(&interval) == Some(other.t);
        assert(scene.contains(reordered[j]));
        let i = choose|i: int| 0 <= i < scene.len() && scene[i] == reordered[j];
        assert(scene[i].spec_hit_root(&interval) == Some(other.t));
        assert(first is Some);
    }
}

/// Asking twice gives the same answers: two searches of one scene with one
/// interval agree in every answer and in their result, provided each sphere
/// reports one record for one distance.
pub proof fn law_same_question_same_answer(
    scene: Seq<Quadratic>,
    interval: Interval,
    outcomes: Seq<Option<HitRecord>>,
    again: Seq<Option<HitRecord>>,
)
    requires
        answers_of(scene, interval, outcomes),
        answers_of(scene, interval, again),
        forall|i: int|
            0 <= i < scene.len() ==> (#[trigger] outcomes[i] matches Some(rec) ==> (
            #[trigger] again[i] matches Some(other) ==> (rec.t == other.t ==> rec == other))),
    ensures
        outcomes == again,
        Narrowing::sweep(interval, outcomes).best == Narrowing::sweep(interval, again).best,
{
    lemma_same_answers_among_first(scene, interval, outcomes, again, scene.len() as int);
    assert(outcomes.take(scene.len() as int) =~= outcomes);
    assert(again.take(scene.len() as int) =~= again);
}

proof fn lemma_same_answers_among_first(
    scene: Seq<Quadratic>,
    interval: Interval,
    outcomes: Seq<Option<HitRecord>>,
    again: Seq<Option<HitRecord>>,
    n: int,
)
    requires
        answers_of(scene, interval, outcomes),
        answers_of(scene, interval, again),
        forall|i: int|
            0 <= i < scene.len() ==> (#[trigger] outcomes[i] matches Some(rec) ==> (
            #[trigger] again[i] matches Some(other) ==> (rec.t == other.t ==> rec == other))),
        0 <= n <= scene.len(),
    ensures
        outcomes.take(n) == again.take(n),
    decreases n,
{
    if n > 0 {
        let k = n - 1;
        lemma_same_answers_among_first(scene, interval, outcomes, again, k);
        let asked = Narrowing::sweep(interval, outcomes.take(k)).interval;
        assert(reports(outcomes[k], scene[k].spec_hit_root(&asked)));
        assert(reports(again[k], scene[k].spec_hit_root(&asked)));
        assert(outcomes[k] == again[k]);
        assert(outcomes.take(n) =~= outcomes.take(k).push(outcomes[k]));
        assert(again.take(n) =~= again.take(k).push(again[k]));
    } else {
        assert(outcomes.take(0) =~= again.take(0));
    }
}

} // verus!
