//! What holds of timeline resolution for every scene, timeline and instant.

use vstd::prelude::*;

use crate::animator::{
    Assignment, AssignmentView, MissingAnimationTarget, ResolutionView, aims_at,
    assignments_view, easing_of, has_target, is_first_stray, resolution, resolved, resolves_to,
    settled, slot_in_is_insert, target_of, targets, targets_are_exact, track, walk,
    with_value,
};
use crate::ast::{AnimationView, ObjectView, ValueView};
use crate::lookup::{
    base_value, first_index, first_index_is_first, object_names, property_names,
};

verus! {

/// Whether the animation at `i` stands before the one at `j` in a track: it
/// starts earlier, or at the same instant and earlier in the source.
pub open spec fn comes_before(animations: Seq<AnimationView>, i: int, j: int) -> bool {
    animations[i].start < animations[j].start || (animations[i].start == animations[j].start && i
        < j)
}

/// Whether `order` lists the positions of exactly the animations that change
/// the given property, by ascending start and, among equal starts, in source
/// order.
pub open spec fn is_stable_order(
    animations: Seq<AnimationView>,
    object: Seq<char>,
    property: Seq<char>,
    order: Seq<int>,
) -> bool {
    &&& forall|k: int|
        0 <= k < order.len() ==> 0 <= #[trigger] order[k] < animations.len() && aims_at(
            animations[order[k]],
            object,
            property,
        )
    &&& forall|i: int|
        0 <= i < animations.len() && aims_at(#[trigger] animations[i], object, property)
            ==> order.contains(i)
    &&& forall|k: int, l: int|
        0 <= k < l < order.len() ==> comes_before(animations, #[trigger] order[k], #[trigger] order[l])
}

/// The animations at the positions `order`, in that order.
pub open spec fn at_positions(animations: Seq<AnimationView>, order: Seq<int>) -> Seq<AnimationView> {
    order.map_values(|i: int| animations[i])
}

/// The place in `track` behind the last animation that starts no later than
/// `a`, looking from the end.
pub open spec fn slot(track: Seq<AnimationView>, a: AnimationView) -> int
    decreases track.len(),
{
    if track.len() == 0 {
        0
    } else if track.last().start <= a.start {
        track.len() as int
    } else {
        slot(track.drop_last(), a)
    }
}

proof fn slot_bounds(track: Seq<AnimationView>, a: AnimationView)
    ensures
        0 <= slot(track, a) <= track.len(),
        slot(track, a) > 0 ==> track[slot(track, a) - 1].start <= a.start,
        forall|k: int| slot(track, a) <= k < track.len() ==> track[k].start > a.start,
    decreases track.len(),
{
    if track.len() > 0 && track.last().start > a.start {
        let front = track.drop_last();
        slot_bounds(front, a);
        assert forall|k: int| slot(track, a) <= k < track.len() implies track[k].start
            > a.start by {
            if k < front.len() {
                assert(front[k] == track[k]);
            }
        }
        if slot(track, a) > 0 {
            assert(front[slot(track, a) - 1] == track[slot(track, a) - 1]);
        }
    }
}

/// A track is a stable sort: it holds exactly the animations that change the
/// property, each once, by ascending start, and those that start together
/// stand in their source order. The positions are returned.
pub proof fn track_is_stable_sort(
    animations: Seq<AnimationView>,
    object: Seq<char>,
    property: Seq<char>,
) -> (order: Seq<int>)
    ensures
        is_stable_order(animations, object, property, order),
        track(animations, object, property) == at_positions(animations, order),
    decreases animations.len(),
{
    if animations.len() == 0 {
        let order = Seq::<int>::empty();
        assert(at_positions(animations, order) =~= Seq::<AnimationView>::empty());
        order
    } else {
        let n = animations.len() as int;
        let front = animations.drop_last();
        let a = animations.last();
        let before = track_is_stable_sort(front, object, property);
        let earlier = track(front, object, property);
        assert forall|k: int| 0 <= k < before.len() implies front[#[trigger] before[k]]
            == animations[before[k]] by {}
        assert(at_positions(animations, before) =~= at_positions(front, before));
        if !aims_at(a, object, property) {
            assert forall|i: int|
                0 <= i < animations.len() && aims_at(#[trigger] animations[i], object, property)
                implies before.contains(i) by {
                assert(front[i] == animations[i]);
            }
            before
        } else {
            let pos = slot(earlier, a);
            slot_bounds(earlier, a);
            slot_in_is_insert(earlier, a, pos);
            let order = before.insert(pos, n - 1);
            assert(at_positions(animations, order) =~= earlier.insert(pos, a));
            assert forall|i: int|
                0 <= i < animations.len() && aims_at(#[trigger] animations[i], object, property)
                implies order.contains(i) by {
                if i == n - 1 {
                    assert(order[pos] == i);
                } else {
                    assert(front[i] == animations[i]);
                    let k = choose|k: int| 0 <= k < before.len() && before[k] == i;
                    if k < pos {
                        assert(order[k] == i);
                    } else {
                        assert(order[k + 1] == i);
                    }
                }
            }
            assert forall|k: int, l: int| 0 <= k < l < order.len() implies comes_before(
                animations,
                #[trigger] order[k],
                #[trigger] order[l],
            ) by {
                if l < pos {
                    assert(order[k] == before[k] && order[l] == before[l]);
                    assert(comes_before(front, before[k], before[l]));
                } else if l == pos {
                    assert(order[k] == before[k]);
                    assert(earlier[k] == front[before[k]]);
                    if k < pos - 1 {
                        assert(comes_before(front, before[k], before[pos - 1]));
                    }
                    assert(earlier[pos - 1] == front[before[pos - 1]]);
                } else if k < pos {
                    assert(order[k] == before[k] && order[l] == before[l - 1]);
                    assert(comes_before(front, before[k], before[l - 1]));
                } else if k == pos {
                    assert(order[l] == before[l - 1]);
                    assert(earlier[l - 1] == front[before[l - 1]]);
                } else {
                    assert(order[k] == before[k - 1] && order[l] == before[l - 1]);
                    assert(comes_before(front, before[k - 1], before[l - 1]));
                }
            }
            assert forall|k: int| 0 <= k < order.len() implies 0 <= #[trigger] order[k]
                < animations.len() && aims_at(animations[order[k]], object, property) by {
                if k < pos {
                    assert(order[k] == before[k]);
                } else if k > pos {
                    assert(order[k] == before[k - 1]);
                }
            }
            order
        }
    }
}

/// Before anything starts, nothing has changed: when every animation of a
/// property starts after `at`, the property rests at its declared value.
pub proof fn rests_at_base_before_first_start(
    animations: Seq<AnimationView>,
    object: Seq<char>,
    property: Seq<char>,
    base: ValueView,
    at: nat,
)
    requires
        forall|i: int|
            0 <= i < animations.len() && aims_at(#[trigger] animations[i], object, property)
                ==> animations[i].start > at,
    ensures
        resolution(animations, object, property, base, at) == ResolutionView::Settled(base),
{
    let order = track_is_stable_sort(animations, object, property);
    if order.len() > 0 {
        assert(aims_at(animations[order[0]], object, property));
    }
}

/// Whether the animation is under way at `at`: it has an end, has started
/// and has not reached its end.
pub open spec fn under_way(a: AnimationView, at: nat) -> bool {
    a.end is Some && a.start <= at < a.end->0
}

/// A walk that ends in a blend was decided by the first animation of the
/// track that is under way; every animation before it is over, and the blend
/// starts from the target of the one just before it, or from the base.
pub proof fn walk_blends_at(track: Seq<AnimationView>, base: ValueView, at: nat) -> (k: int)
    requires
        walk(track, base, at) is Blending,
    ensures
        0 <= k < track.len(),
        under_way(track[k], at),
        forall|j: int| 0 <= j < k ==> track[j].start <= at && !under_way(#[trigger] track[j], at),
        walk(track, base, at) == (ResolutionView::Blending {
            from: if k == 0 {
                base
            } else {
                track[k - 1].to
            },
            to: track[k].to,
            elapsed: (at - track[k].start) as nat,
            span: (track[k].end->0 - track[k].start) as nat,
            easing: easing_of(track[k].easing),
        }),
    decreases track.len(),
{
    let a = track[0];
    if a.end is Some && at < a.end->0 {
        0
    } else {
        let rest = track.drop_first();
        let k = walk_blends_at(rest, a.to, at);
        assert forall|j: int| 0 <= j < k + 1 implies track[j].start <= at && !under_way(
            #[trigger] track[j],
            at,
        ) by {
            if j > 0 {
                assert(rest[j - 1] == track[j]);
            }
        }
        assert(rest[k] == track[k + 1]);
        if k > 0 {
            assert(rest[k - 1] == track[k]);
        }
        k + 1
    }
}

/// A walk that ends at rest stops at the first animation that has not
/// started, or at the end of the track; every animation before that point is
/// over, and the value is the target of the last of them, or the base.
pub proof fn walk_settles_at(track: Seq<AnimationView>, base: ValueView, at: nat) -> (k: int)
    requires
        walk(track, base, at) is Settled,
    ensures
        0 <= k <= track.len(),
        k < track.len() ==> at < track[k].start,
        forall|j: int| 0 <= j < k ==> track[j].start <= at && !under_way(#[trigger] track[j], at),
        walk(track, base, at) == ResolutionView::Settled(
            if k == 0 {
                base
            } else {
                track[k - 1].to
            },
        ),
    decreases track.len(),
{
    if track.len() == 0 {
        0
    } else {
        let a = track[0];
        if at < a.start {
            0
        } else {
            let rest = track.drop_first();
            let k = walk_settles_at(rest, a.to, at);
            assert forall|j: int| 0 <= j < k + 1 implies track[j].start <= at && !under_way(
                #[trigger] track[j],
                at,
            ) by {
                if j > 0 {
                    assert(rest[j - 1] == track[j]);
                }
            }
            if k < rest.len() {
                assert(rest[k] == track[k + 1]);
            }
            if k > 0 {
                assert(rest[k - 1] == track[k]);
            }
            k + 1
        }
    }
}

/// A property blends only while one of its animations is under way: the
/// blend goes to that animation's target with that animation's easing, the
/// time elapsed is counted from its start and is less than its span, and what
/// is left of the span is what is left until its end.
pub proof fn blending_means_under_way(
    animations: Seq<AnimationView>,
    object: Seq<char>,
    property: Seq<char>,
    base: ValueView,
    at: nat,
) -> (i: int)
    requires
        resolution(animations, object, property, base, at) is Blending,
    ensures
        0 <= i < animations.len(),
        aims_at(animations[i], object, property),
        under_way(animations[i], at),
        resolution(animations, object, property, base, at) matches ResolutionView::Blending {
            to,
            elapsed,
            span,
            easing,
            ..
        } && to == animations[i].to && easing == easing_of(animations[i].easing) && elapsed
            == at - animations[i].start && elapsed < span && span - elapsed == animations[i].end->0
            - at,
{
    let order = track_is_stable_sort(animations, object, property);
    let k = walk_blends_at(track(animations, object, property), base, at);
    order[k]
}

/// A property at rest holds its declared value or the target of one of its
/// animations that has started.
pub proof fn settled_value_is_base_or_target(
    animations: Seq<AnimationView>,
    object: Seq<char>,
    property: Seq<char>,
    base: ValueView,
    at: nat,
)
    requires
        resolution(animations, object, property, base, at) is Settled,
    ensures
        resolution(animations, object, property, base, at) == ResolutionView::Settled(base)
            || exists|i: int|
            0 <= i < animations.len() && aims_at(#[trigger] animations[i], object, property)
                && animations[i].start <= at && resolution(animations, object, property, base, at)
                == ResolutionView::Settled(animations[i].to),
{
    let order = track_is_stable_sort(animations, object, property);
    let k = walk_settles_at(track(animations, object, property), base, at);
    if k > 0 {
        let i = order[k - 1];
        assert(aims_at(animations[i], object, property));
        assert(track(animations, object, property)[k - 1] == animations[i]);
        assert(!under_way(track(animations, object, property)[k - 1], at));
    }
}

/// An animation without an end is a jump: when it is the only animation of
/// its property, the property holds its declared value before the start and
/// the animation's target from the start on.
pub proof fn instant_animation_snaps(
    animations: Seq<AnimationView>,
    i: int,
    base: ValueView,
    at: nat,
)
    requires
        0 <= i < animations.len(),
        animations[i].end is None,
        forall|j: int|
            0 <= j < animations.len() && j != i ==> !aims_at(
                #[trigger] animations[j],
                animations[i].target_object,
                animations[i].property,
            ),
    ensures
        resolution(animations, animations[i].target_object, animations[i].property, base, at) == (
        if at < animations[i].start {
            ResolutionView::Settled(base)
        } else {
            ResolutionView::Settled(animations[i].to)
        }),
{
    let a = animations[i];
    let order = track_is_stable_sort(animations, a.target_object, a.property);
    assert(order.contains(i));
    assert forall|k: int| 0 <= k < order.len() implies order[k] == i by {
        assert(aims_at(animations[order[k]], a.target_object, a.property));
    }
    if order.len() > 1 {
        assert(comes_before(animations, order[0], order[1]));
    }
    let t = track(animations, a.target_object, a.property);
    assert(t =~= seq![a]);
    assert(t.drop_first() =~= Seq::<AnimationView>::empty());
    if at >= a.start {
        assert(walk(t.drop_first(), a.to, at) == ResolutionView::Settled(a.to));
    }
}

/// Animations chain: when a property has two animations, the first over
/// before the second starts, then while the second is under way the property
/// blends from the target of the first to the target of the second.
pub proof fn second_animation_blends_from_first_target(
    animations: Seq<AnimationView>,
    i: int,
    j: int,
    object: Seq<char>,
    property: Seq<char>,
    base: ValueView,
    at: nat,
)
    requires
        0 <= i < animations.len(),
        0 <= j < animations.len(),
        i != j,
        forall|k: int|
            0 <= k < animations.len() ==> (aims_at(#[trigger] animations[k], object, property)
                <==> k == i || k == j),
        animations[i].end is Some,
        animations[i].start <= animations[i].end->0 <= animations[j].start,
        animations[i].start < animations[j].start || i < j,
        under_way(animations[j], at),
    ensures
        resolution(animations, object, property, base, at) == (ResolutionView::Blending {
            from: animations[i].to,
            to: animations[j].to,
            elapsed: (at - animations[j].start) as nat,
            span: (animations[j].end->0 - animations[j].start) as nat,
            easing: easing_of(animations[j].easing),
        }),
{
    let order = track_is_stable_sort(animations, object, property);
    let ki = choose|k: int| 0 <= k < order.len() && order[k] == i;
    let kj = choose|k: int| 0 <= k < order.len() && order[k] == j;
    assert(order.contains(i) && order.contains(j));
    assert(comes_before(animations, i, j));
    assert(!comes_before(animations, j, i));
    if kj < ki {
        assert(comes_before(animations, order[kj], order[ki]));
    }
    assert(ki < kj);
    assert forall|k: int| 0 <= k < order.len() implies #[trigger] order[k] == order[ki] && k
        == ki || order[k] == order[kj] && k == kj by {
        assert(aims_at(animations[order[k]], object, property));
        if order[k] == i && k != ki {
            if k < ki {
                assert(comes_before(animations, order[k], order[ki]));
            } else {
                assert(comes_before(animations, order[ki], order[k]));
            }
        }
        if order[k] == j && k != kj {
            if k < kj {
                assert(comes_before(animations, order[k], order[kj]));
            } else {
                assert(comes_before(animations, order[kj], order[k]));
            }
        }
    }
    assert(ki == 0 && kj == 1 && order.len() == 2) by {
        let at0 = order[0];
        if order.len() > 2 {
            let at1 = order[1];
            let at2 = order[2];
        } else if order.len() > 1 {
            let at1 = order[1];
        }
    }
    let t = track(animations, object, property);
    assert(t =~= seq![animations[i], animations[j]]);
    let rest = t.drop_first();
    assert(rest =~= seq![animations[j]]);
    assert(rest[0] == animations[j]);
    assert(walk(t, base, at) == walk(rest, animations[i].to, at));
}

/// Whether two outcomes of resolving say the same: the same assignments, or
/// the same missing target.
pub open spec fn same_outcome(
    first: Result<Vec<Assignment>, MissingAnimationTarget>,
    second: Result<Vec<Assignment>, MissingAnimationTarget>,
) -> bool {
    match (first, second) {
        (Ok(a), Ok(b)) => assignments_view(a@) == assignments_view(b@),
        (Err(a), Err(b)) => a@ == b@,
        _ => false,
    }
}

/// Resolving has no hidden state: whatever two resolutions of the same
/// objects against the same animations at the same instant yield, they yield
/// the same.
pub proof fn resolving_again_changes_nothing(
    first: Result<Vec<Assignment>, MissingAnimationTarget>,
    second: Result<Vec<Assignment>, MissingAnimationTarget>,
    items: Seq<ObjectView>,
    animations: Seq<AnimationView>,
    at: nat,
)
    requires
        resolves_to(first, items, animations, at),
        resolves_to(second, items, animations, at),
    ensures
        same_outcome(first, second),
{
    if first is Err {
        let i = choose|i: int|
            is_first_stray(items, animations, i) && first->Err_0@ == target_of(
                #[trigger] animations[i],
            );
        if second is Err {
            let j = choose|j: int|
                is_first_stray(items, animations, j) && second->Err_0@
                    == target_of(#[trigger] animations[j]);
            if i < j {
                assert(has_target(items, animations[i]));
            } else if j < i {
                assert(has_target(items, animations[j]));
            }
        } else {
            assert(has_target(items, animations[i]));
        }
    } else if second is Err {
        let j = choose|j: int|
            is_first_stray(items, animations, j) && second->Err_0@ == target_of(
                #[trigger] animations[j],
            );
        assert(has_target(items, animations[j]));
    }
}

/// An animation with an end runs its course: when it is the only animation
/// of its property, the property holds its declared value before the start,
/// blends from that value while the animation is under way, and holds the
/// animation's target from the end on.
pub proof fn ranged_animation_runs_its_course(
    animations: Seq<AnimationView>,
    i: int,
    base: ValueView,
    at: nat,
)
    requires
        0 <= i < animations.len(),
        animations[i].end is Some,
        forall|j: int|
            0 <= j < animations.len() && j != i ==> !aims_at(
                #[trigger] animations[j],
                animations[i].target_object,
                animations[i].property,
            ),
    ensures
        resolution(animations, animations[i].target_object, animations[i].property, base, at) == (
        if at < animations[i].start {
            ResolutionView::Settled(base)
        } else if at < animations[i].end->0 {
            ResolutionView::Blending {
                from: base,
                to: animations[i].to,
                elapsed: (at - animations[i].start) as nat,
                span: (animations[i].end->0 - animations[i].start) as nat,
                easing: easing_of(animations[i].easing),
            }
        } else {
            ResolutionView::Settled(animations[i].to)
        }),
{
    let a = animations[i];
    let order = track_is_stable_sort(animations, a.target_object, a.property);
    assert(order.contains(i));
    assert forall|k: int| 0 <= k < order.len() implies order[k] == i by {
        assert(aims_at(animations[order[k]], a.target_object, a.property));
    }
    if order.len() > 1 {
        assert(comes_before(animations, order[0], order[1]));
    }
    let t = track(animations, a.target_object, a.property);
    assert(t =~= seq![a]);
    assert(t.drop_first() =~= Seq::<AnimationView>::empty());
    if at >= a.start && at >= a.end->0 {
        assert(walk(t.drop_first(), a.to, at) == ResolutionView::Settled(a.to));
    }
}

/// A property is resolved from its own animations alone: the animations of
/// other properties may be taken out of the timeline, and its track and with
/// it its resolution stay the same.
pub proof fn track_reads_only_its_own_animations(
    animations: Seq<AnimationView>,
    object: Seq<char>,
    property: Seq<char>,
)
    ensures
        track(animations, object, property) == track(
            animations.filter(|a: AnimationView| aims_at(a, object, property)),
            object,
            property,
        ),
    decreases animations.len(),
{
    let own = |a: AnimationView| aims_at(a, object, property);
    if animations.len() == 0 {
        assert(animations.filter(own) =~= Seq::<AnimationView>::empty());
    } else {
        let front = animations.drop_last();
        let last = animations.last();
        track_reads_only_its_own_animations(front, object, property);
        assert(animations =~= front.push(last));
        Seq::lemma_filter_push(front, last, own);
        if aims_at(last, object, property) {
            let kept = animations.filter(own);
            assert(kept == front.filter(own).push(last));
            assert(kept.drop_last() =~= front.filter(own));
            assert(kept.last() == last);
        }
    }
}

/// Writing values in changes no name, no kind and no count: the settled
/// objects have the shape of the declared ones.
pub proof fn settling_keeps_the_shape(items: Seq<ObjectView>, plan: Seq<AssignmentView>)
    ensures
        settled(items, plan).len() == items.len(),
        forall|i: int|
            0 <= i < items.len() ==> {
                &&& (#[trigger] settled(items, plan)[i]).name == items[i].name
                &&& settled(items, plan)[i].kind == items[i].kind
                &&& settled(items, plan)[i].properties.len() == items[i].properties.len()
                &&& forall|j: int|
                    0 <= j < items[i].properties.len() ==> (#[trigger] settled(
                        items,
                        plan,
                    )[i].properties[j]).name == items[i].properties[j].name
            },
    decreases plan.len(),
{
    if plan.len() > 0 {
        settling_keeps_the_shape(items, plan.drop_last());
    }
}

/// What no assignment names stays as declared: a property keeps its value
/// unless the plan has an assignment at rest for its place.
pub proof fn untouched_properties_keep_their_values(
    items: Seq<ObjectView>,
    plan: Seq<AssignmentView>,
    object: int,
    property: int,
)
    requires
        0 <= object < items.len(),
        0 <= property < items[object].properties.len(),
        forall|k: int|
            0 <= k < plan.len() ==> !((#[trigger] plan[k]).object == object && plan[k].property
                == property && plan[k].outcome is Settled),
    ensures
        settled(items, plan)[object].properties[property] == items[object].properties[property],
    decreases plan.len(),
{
    if plan.len() > 0 {
        let front = plan.drop_last();
        assert forall|k: int| 0 <= k < front.len() implies !((#[trigger] front[k]).object == object
            && front[k].property == property && front[k].outcome is Settled) by {
            assert(front[k] == plan[k]);
        }
        untouched_properties_keep_their_values(items, front, object, property);
        settling_keeps_the_shape(items, front);
        assert(plan.last() == plan[plan.len() - 1]);
    }
}

proof fn declared_values_change_nothing(items: Seq<ObjectView>, plan: Seq<AssignmentView>)
    requires
        forall|k: int|
            0 <= k < plan.len() ==> {
                &&& 0 <= (#[trigger] plan[k]).object < items.len()
                &&& 0 <= plan[k].property < items[plan[k].object].properties.len()
                &&& plan[k].outcome == ResolutionView::Settled(
                    items[plan[k].object].properties[plan[k].property].value,
                )
            },
    ensures
        settled(items, plan) == items,
    decreases plan.len(),
{
    if plan.len() > 0 {
        let front = plan.drop_last();
        assert forall|k: int| 0 <= k < front.len() implies {
            &&& 0 <= (#[trigger] front[k]).object < items.len()
            &&& 0 <= front[k].property < items[front[k].object].properties.len()
            &&& front[k].outcome == ResolutionView::Settled(
                items[front[k].object].properties[front[k].property].value,
            )
        } by {
            assert(front[k] == plan[k]);
        }
        declared_values_change_nothing(items, front);
        let last = plan[plan.len() - 1];
        let value = items[last.object].properties[last.property].value;
        let properties = items[last.object].properties;
        assert(properties.update(
            last.property,
            crate::ast::PropertyView { name: properties[last.property].name, value },
        ) =~= properties);
        assert(with_value(items, last.object, last.property, value) =~= items);
    }
}

/// Before anything starts, the whole scene is as declared: when the scene
/// declares every animated property and every animation starts after `at`,
/// writing the resolved values in changes nothing.
pub proof fn scene_is_as_declared_before_first_start(
    items: Seq<ObjectView>,
    animations: Seq<AnimationView>,
    at: nat,
)
    requires
        forall|i: int| 0 <= i < animations.len() ==> has_target(items, #[trigger] animations[i]),
        forall|i: int| 0 <= i < animations.len() ==> (#[trigger] animations[i]).start > at,
    ensures
        settled(items, resolved(items, animations, at)) == items,
{
    let plan = resolved(items, animations, at);
    targets_are_exact(animations);
    assert forall|k: int| 0 <= k < plan.len() implies {
        &&& 0 <= (#[trigger] plan[k]).object < items.len()
        &&& 0 <= plan[k].property < items[plan[k].object].properties.len()
        &&& plan[k].outcome == ResolutionView::Settled(
            items[plan[k].object].properties[plan[k].property].value,
        )
    } by {
        let pair = targets(animations)[k];
        let i = choose|i: int|
            0 <= i < animations.len() && target_of(#[trigger] animations[i]) == targets(
                animations,
            )[k];
        assert(has_target(items, animations[i]));
        first_index_is_first(object_names(items), pair.0);
        let o = first_index(object_names(items), pair.0)->0;
        first_index_is_first(property_names(items[o].properties), pair.1);
        rests_at_base_before_first_start(
            animations,
            pair.0,
            pair.1,
            base_value(items, pair.0, pair.1)->0,
            at,
        );
    }
    declared_values_change_nothing(items, plan);
}

} // verus!
