//! Timeline resolution: what every animated property is doing at an instant.

use vstd::prelude::*;
use vstd::string::*;
use vstd::utf8::*;

use crate::ast::{
    AnimationView, ObjectView, Scalar, Scene, SceneView, Timeline, Value, ValueView, objects_view,
    properties_view,
};
use crate::color::{hex_text, lenient_rgb, read_channels, rgb_to_hex};
use crate::number::whole_u8;
use crate::lookup::{base_value, cell_of, find_cell};
use crate::text::same_text;
use crate::time::Duration;

verus! {

/// How progress through an animation is reshaped before values are blended.
#[derive(Clone, Copy, Debug, PartialEq, Eq, Structural)]
pub enum Easing {
    /// Progress is used as it is.
    Linear,
    /// Slow start: progress squared.
    EaseIn,
    /// Slow end: `t * (2 - t)`.
    EaseOut,
    /// Slow start and slow end.
    EaseInOut,
}

/// The easing that a name stands for; every unknown name is linear.
pub open spec fn easing_named(name: Seq<char>) -> Easing {
    if name == "ease_in"@ {
        Easing::EaseIn
    } else if name == "ease_out"@ {
        Easing::EaseOut
    } else if name == "ease_in_out"@ {
        Easing::EaseInOut
    } else {
        Easing::Linear
    }
}

/// The easing of an animation; without a name it is linear.
pub open spec fn easing_of(name: Option<Seq<char>>) -> Easing {
    match name {
        Some(name) => easing_named(name),
        None => Easing::Linear,
    }
}

impl Easing {
    /// The easing that `name` stands for.
    pub fn from_name(name: &str) -> (easing: Easing)
        ensures
            easing == easing_named(name@),
    {
        if same_text(name, "ease_in") {
            Easing::EaseIn
        } else if same_text(name, "ease_out") {
            Easing::EaseOut
        } else if same_text(name, "ease_in_out") {
            Easing::EaseInOut
        } else {
            Easing::Linear
        }
    }

    /// The easing of an animation with the optional easing name `name`.
    pub fn of(name: &Option<String>) -> (easing: Easing)
        ensures
            easing == easing_of(
                match name {
                    Some(n) => Some(n@),
                    None => None,
                },
            ),
    {
        match name {
            Some(n) => Easing::from_name(n.as_str()),
            None => Easing::Linear,
        }
    }
}

/// What one property is doing at one instant.
#[derive(Debug, PartialEq)]
pub enum Resolution {
    /// The property rests at this value.
    Settled(Value),
    /// The property is under way from `from` to `to`: `elapsed` of the
    /// animation's `span` has passed, and `easing` reshapes that progress.
    Blending { from: Value, to: Value, elapsed: Duration, span: Duration, easing: Easing },
}

/// What a [`Resolution`] holds; times are in nanoseconds.
pub enum ResolutionView {
    Settled(ValueView),
    Blending { from: ValueView, to: ValueView, elapsed: nat, span: nat, easing: Easing },
}

impl View for Resolution {
    type V = ResolutionView;

    open spec fn view(&self) -> ResolutionView {
        match self {
            Resolution::Settled(value) => ResolutionView::Settled(value@),
            Resolution::Blending { from, to, elapsed, span, easing } => ResolutionView::Blending {
                from: from@,
                to: to@,
                elapsed: elapsed@,
                span: span@,
                easing: *easing,
            },
        }
    }
}

/// Whether the animation changes the property `property` of the object
/// `object`.
pub open spec fn aims_at(a: AnimationView, object: Seq<char>, property: Seq<char>) -> bool {
    a.target_object == object && a.property == property
}

/// `track` with `a` put behind every animation that starts no later than `a`.
pub open spec fn slot_in(track: Seq<AnimationView>, a: AnimationView) -> Seq<AnimationView>
    decreases track.len(),
{
    if track.len() == 0 {
        seq![a]
    } else if track.last().start <= a.start {
        track.push(a)
    } else {
        slot_in(track.drop_last(), a).push(track.last())
    }
}

/// The animations of the timeline that change one property, by ascending
/// start; those that start together keep their source order.
pub open spec fn track(animations: Seq<AnimationView>, object: Seq<char>, property: Seq<char>) -> Seq<
    AnimationView,
>
    decreases animations.len(),
{
    if animations.len() == 0 {
        Seq::empty()
    } else {
        let earlier = track(animations.drop_last(), object, property);
        if aims_at(animations.last(), object, property) {
            slot_in(earlier, animations.last())
        } else {
            earlier
        }
    }
}

/// Walks a track from a starting value: an animation that has not started
/// ends the walk, one that is under way decides it, one that is over hands
/// its target on as the next starting value.
pub open spec fn walk(track: Seq<AnimationView>, base: ValueView, at: nat) -> ResolutionView
    decreases track.len(),
{
    if track.len() == 0 {
        ResolutionView::Settled(base)
    } else {
        let a = track[0];
        if at < a.start {
            ResolutionView::Settled(base)
        } else if a.end is Some && at < a.end->0 {
            ResolutionView::Blending {
                from: base,
                to: a.to,
                elapsed: (at - a.start) as nat,
                span: (a.end->0 - a.start) as nat,
                easing: easing_of(a.easing),
            }
        } else {
            walk(track.drop_first(), a.to, at)
        }
    }
}

/// What the property `property` of the object `object` is doing at `at`,
/// given the value `base` that the scene declares for it.
pub open spec fn resolution(
    animations: Seq<AnimationView>,
    object: Seq<char>,
    property: Seq<char>,
    base: ValueView,
    at: nat,
) -> ResolutionView {
    walk(track(animations, object, property), base, at)
}

/// The animations at the positions `order`, in that order.
pub open spec fn picked(animations: Seq<AnimationView>, order: Seq<usize>) -> Seq<AnimationView> {
    order.map_values(|k: usize| animations[k as int])
}

/// Putting `a` at `at` is what `slot_in` does, when `at` is the place behind
/// the last animation that starts no later than `a`.
pub proof fn slot_in_is_insert(track: Seq<AnimationView>, a: AnimationView, at: int)
    requires
        0 <= at <= track.len(),
        at > 0 ==> track[at - 1].start <= a.start,
        forall|k: int| at <= k < track.len() ==> track[k].start > a.start,
    ensures
        slot_in(track, a) == track.insert(at, a),
    decreases track.len(),
{
    if track.len() == 0 {
        assert(track.insert(at, a) =~= seq![a]);
    } else if at == track.len() {
        assert(track.insert(at, a) =~= track.push(a));
    } else {
        slot_in_is_insert(track.drop_last(), a, at);
        assert(track.insert(at, a) =~= track.drop_last().insert(at, a).push(track.last()));
    }
}

/// The positions, in the timeline, of the animations that change the given
/// property, in the order of their track.
pub fn ordered_track(timeline: &Timeline, object: &str, property: &str) -> (order: Vec<usize>)
    ensures
        picked(timeline@, order@) == track(timeline@, object@, property@),
        forall|k: int| 0 <= k < order.len() ==> order@[k] < timeline.animations.len(),
{
    let animations = &timeline.animations;
    let ghost all = timeline@;
    let mut order: Vec<usize> = Vec::new();
    let mut i: usize = 0;
    assert(all.take(0) =~= Seq::<AnimationView>::empty());
    assert(picked(all, order@) =~= Seq::<AnimationView>::empty());
    while i < animations.len()
        invariant
            i <= animations.len(),
            animations == &timeline.animations,
            all == timeline@,
            all.len() == animations.len(),
            picked(all, order@) == track(all.take(i as int), object@, property@),
            forall|k: int| 0 <= k < order.len() ==> order@[k] < i,
        decreases animations.len() - i,
    {
        let a = &animations[i];
        proof {
            assert(all.take(i + 1).drop_last() =~= all.take(i as int));
            assert(all.take(i + 1).last() == all[i as int]);
            assert(all[i as int] == a@);
        }
        if same_text(a.target_object.as_str(), object) && same_text(a.property.as_str(), property) {
            let mut at: usize = order.len();
            while at > 0 && animations[order[at - 1]].start.nanos > a.start.nanos
                invariant
                    at <= order.len(),
                    i < animations.len(),
                    animations == &timeline.animations,
                    all == timeline@,
                    all.len() == animations.len(),
                    a == &animations@[i as int],
                    forall|k: int| 0 <= k < order.len() ==> order@[k] < i,
                    forall|k: int|
                        at <= k < order.len() ==> picked(all, order@)[k].start > a@.start,
                decreases at,
            {
                at -= 1;
            }
            proof {
                let before = picked(all, order@);
                if at > 0 {
                    assert(before[at - 1].start <= a@.start);
                }
                slot_in_is_insert(before, a@, at as int);
                assert(picked(all, order@.insert(at as int, i)) =~= before.insert(at as int, a@));
            }
            order.insert(at, i);
        }
        i += 1;
    }
    assert(all.take(i as int) =~= all);
    order
}

/// What one property is doing at `at`: `base` is the value that the scene
/// declares for it, and the timeline is searched for the animations that
/// change the property `property` of the object `object`.
pub fn resolve_target(
    base: &Value,
    timeline: &Timeline,
    object: &str,
    property: &str,
    at: Duration,
) -> (outcome: Resolution)
    ensures
        outcome@ == resolution(timeline@, object@, property@, base@, at@),
{
    let order = ordered_track(timeline, object, property);
    let animations = &timeline.animations;
    let ghost all = timeline@;
    let ghost whole = picked(all, order@);
    let mut current: &Value = base;
    let mut k: usize = 0;
    assert(whole.skip(0) =~= whole);
    while k < order.len()
        invariant
            k <= order.len(),
            animations == &timeline.animations,
            all == timeline@,
            all.len() == animations.len(),
            whole == picked(all, order@),
            whole == track(all, object@, property@),
            forall|j: int| 0 <= j < order.len() ==> order@[j] < animations.len(),
            walk(whole, base@, at@) == walk(whole.skip(k as int), current@, at@),
        decreases order.len() - k,
    {
        let a = &animations[order[k]];
        proof {
            assert(whole.skip(k as int)[0] == a@);
            assert(whole.skip(k as int).drop_first() =~= whole.skip(k + 1));
        }
        if at.nanos < a.start.nanos {
            return Resolution::Settled(current.clone());
        }
        match a.end {
            Some(end) => {
                if at.nanos < end.nanos {
                    return Resolution::Blending {
                        from: current.clone(),
                        to: a.to.clone(),
                        elapsed: Duration { nanos: at.nanos - a.start.nanos },
                        span: Duration { nanos: end.nanos - a.start.nanos },
                        easing: Easing::of(&a.easing),
                    };
                }
            },
            None => {},
        }
        current = &a.to;
        k += 1;
    }
    Resolution::Settled(current.clone())
}

/// The object and the property that an animation changes.
pub open spec fn target_of(a: AnimationView) -> (Seq<char>, Seq<char>) {
    (a.target_object, a.property)
}

/// The properties that the timeline animates, each once, in the order in
/// which the timeline first names them.
pub open spec fn targets(animations: Seq<AnimationView>) -> Seq<(Seq<char>, Seq<char>)>
    decreases animations.len(),
{
    if animations.len() == 0 {
        Seq::empty()
    } else {
        let earlier = targets(animations.drop_last());
        let pair = target_of(animations.last());
        if earlier.contains(pair) {
            earlier
        } else {
            earlier.push(pair)
        }
    }
}

/// Whether the scene declares the property that the animation changes.
pub open spec fn has_target(items: Seq<ObjectView>, a: AnimationView) -> bool {
    cell_of(items, a.target_object, a.property) is Some
}

/// Whether `i` is the first animation whose property the scene does not
/// declare.
pub open spec fn is_first_stray(items: Seq<ObjectView>, animations: Seq<AnimationView>, i: int) -> bool {
    &&& 0 <= i < animations.len()
    &&& !has_target(items, animations[i])
    &&& forall|j: int| 0 <= j < i ==> has_target(items, animations[j])
}

/// An animation names an object or a property that its scene does not
/// declare, so there is no value to start from.
#[derive(Debug, PartialEq)]
pub struct MissingAnimationTarget {
    pub object: String,
    pub property: String,
}

impl View for MissingAnimationTarget {
    type V = (Seq<char>, Seq<char>);

    open spec fn view(&self) -> (Seq<char>, Seq<char>) {
        (self.object@, self.property@)
    }
}

/// What one animated property of a scene is doing: `object` and `property`
/// are the positions of the object in the scene and of the property in the
/// object.
#[derive(Debug, PartialEq)]
pub struct Assignment {
    pub object: usize,
    pub property: usize,
    pub outcome: Resolution,
}

/// What an [`Assignment`] holds.
pub struct AssignmentView {
    pub object: int,
    pub property: int,
    pub outcome: ResolutionView,
}

impl View for Assignment {
    type V = AssignmentView;

    open spec fn view(&self) -> AssignmentView {
        AssignmentView {
            object: self.object as int,
            property: self.property as int,
            outcome: self.outcome@,
        }
    }
}

/// The views of a list of assignments, in order.
pub open spec fn assignments_view(assignments: Seq<Assignment>) -> Seq<AssignmentView> {
    assignments.map_values(|a: Assignment| a@)
}

/// What the animated property `pair` of a scene is doing at `at`.
pub open spec fn assignment_for(
    items: Seq<ObjectView>,
    animations: Seq<AnimationView>,
    pair: (Seq<char>, Seq<char>),
    at: nat,
) -> AssignmentView {
    let cell = cell_of(items, pair.0, pair.1)->0;
    AssignmentView {
        object: cell.0,
        property: cell.1,
        outcome: resolution(
            animations,
            pair.0,
            pair.1,
            base_value(items, pair.0, pair.1)->0,
            at,
        ),
    }
}

/// What every animated property of a scene is doing at `at`, in the order of
/// `targets`.
pub open spec fn resolved(items: Seq<ObjectView>, animations: Seq<AnimationView>, at: nat) -> Seq<
    AssignmentView,
> {
    targets(animations).map_values(
        |pair: (Seq<char>, Seq<char>)| assignment_for(items, animations, pair, at),
    )
}

/// Whether `outcome` is what resolving a scene with the objects `items`
/// against `animations` at `at` yields: the assignments when the scene
/// declares every animated property, and else the target of the first
/// animation whose property it does not declare.
pub open spec fn resolves_to(
    outcome: Result<Vec<Assignment>, MissingAnimationTarget>,
    items: Seq<ObjectView>,
    animations: Seq<AnimationView>,
    at: nat,
) -> bool {
    match outcome {
        Ok(assignments) => {
            &&& forall|i: int| 0 <= i < animations.len() ==> has_target(items, #[trigger] animations[i])
            &&& assignments_view(assignments@) == resolved(items, animations, at)
        },
        Err(missing) => exists|i: int|
            is_first_stray(items, animations, i) && missing@ == target_of(#[trigger] animations[i]),
    }
}

/// The targets list each animated property exactly once: every entry is the
/// target of an animation, every animation's target is an entry, and no two
/// entries are the same.
pub proof fn targets_are_exact(animations: Seq<AnimationView>)
    ensures
        forall|k: int|
            0 <= k < targets(animations).len() ==> exists|i: int|
                0 <= i < animations.len() && target_of(#[trigger] animations[i]) == (
                #[trigger] targets(animations)[k]),
        forall|i: int|
            0 <= i < animations.len() ==> targets(animations).contains(
                target_of(#[trigger] animations[i]),
            ),
        targets(animations).no_duplicates(),
    decreases animations.len(),
{
    if animations.len() > 0 {
        let front = animations.drop_last();
        let earlier = targets(front);
        let all = targets(animations);
        let pair = target_of(animations.last());
        targets_are_exact(front);
        assert forall|k: int| 0 <= k < all.len() implies exists|i: int|
            0 <= i < animations.len() && target_of(#[trigger] animations[i]) == (
            #[trigger] all[k]) by {
            if k < earlier.len() {
                assert(all[k] == earlier[k]);
                let i = choose|i: int|
                    0 <= i < front.len() && target_of(#[trigger] front[i]) == earlier[k];
                assert(animations[i] == front[i]);
            } else {
                assert(target_of(animations[animations.len() - 1]) == all[k]);
            }
        }
        assert forall|i: int| 0 <= i < animations.len() implies all.contains(
            target_of(#[trigger] animations[i]),
        ) by {
            if i < front.len() {
                assert(front[i] == animations[i]);
                let k = choose|k: int|
                    0 <= k < earlier.len() && earlier[k] == target_of(front[i]);
                assert(all[k] == target_of(animations[i]));
            } else if earlier.contains(pair) {
            } else {
                assert(all[earlier.len() as int] == pair);
            }
        }
    }
}

/// Whether the target of the animation at `i` is among those at `firsts`.
fn seen_before(timeline: &Timeline, firsts: &Vec<usize>, i: usize) -> (seen: bool)
    requires
        i < timeline.animations.len(),
        forall|k: int| 0 <= k < firsts.len() ==> firsts@[k] < timeline.animations.len(),
    ensures
        seen == firsts@.map_values(|k: usize| target_of(timeline@[k as int])).contains(
            target_of(timeline@[i as int]),
        ),
{
    let animations = &timeline.animations;
    let a = &animations[i];
    let ghost pairs = firsts@.map_values(|k: usize| target_of(timeline@[k as int]));
    let mut k: usize = 0;
    while k < firsts.len()
        invariant
            k <= firsts.len(),
            i < animations.len(),
            animations == &timeline.animations,
            a == &animations@[i as int],
            pairs == firsts@.map_values(|k: usize| target_of(timeline@[k as int])),
            forall|j: int| 0 <= j < firsts.len() ==> firsts@[j] < animations.len(),
            forall|j: int| 0 <= j < k ==> pairs[j] != target_of(timeline@[i as int]),
        decreases firsts.len() - k,
    {
        let b = &animations[firsts[k]];
        if same_text(b.target_object.as_str(), a.target_object.as_str()) && same_text(
            b.property.as_str(),
            a.property.as_str(),
        ) {
            assert(pairs[k as int] == target_of(timeline@[i as int]));
            return true;
        }
        k += 1;
    }
    false
}

/// What every animated property of the scene is doing at `at`.
///
/// The result lists each animated property once, in the order in which the
/// timeline first names it, with the place of the property in the scene. The
/// scene itself is not changed. When an animation names an object or a
/// property that the scene does not declare, the first such animation of the
/// timeline is reported instead.
pub fn resolve(scene: &Scene, timeline: &Timeline, at: Duration) -> (outcome: Result<
    Vec<Assignment>,
    MissingAnimationTarget,
>)
    ensures
        resolves_to(outcome, scene@.items, timeline@, at@),
        outcome matches Ok(assignments) ==> forall|k: int|
            0 <= k < assignments.len() ==> assignments@[k].object < scene.items.len()
                && assignments@[k].property < scene.items@[assignments@[k].object as int].properties.len(),
{
    let animations = &timeline.animations;
    let ghost all = timeline@;
    let ghost items = scene@.items;
    let mut firsts: Vec<usize> = Vec::new();
    let mut assignments: Vec<Assignment> = Vec::new();
    let mut i: usize = 0;
    assert(all.take(0) =~= Seq::<AnimationView>::empty());
    assert(firsts@.map_values(|k: usize| target_of(all[k as int])) =~= targets(all.take(0)));
    assert(assignments_view(assignments@) =~= Seq::<AssignmentView>::empty());
    while i < animations.len()
        invariant
            i <= animations.len(),
            animations == &timeline.animations,
            all == timeline@,
            items == scene@.items,
            all.len() == animations.len(),
            forall|k: int| 0 <= k < firsts.len() ==> firsts@[k] < i,
            firsts@.map_values(|k: usize| target_of(all[k as int])) == targets(all.take(i as int)),
            forall|j: int| 0 <= j < i ==> has_target(items, all[j]),
            assignments.len() == firsts.len(),
            forall|k: int|
                0 <= k < assignments.len() ==> assignments@[k]@ == assignment_for(
                    items,
                    all,
                    target_of(all[firsts@[k] as int]),
                    at@,
                ),
            forall|k: int|
                0 <= k < assignments.len() ==> assignments@[k].object < scene.items.len()
                    && assignments@[k].property < scene.items@[assignments@[k].object as int].properties.len(),
        decreases animations.len() - i,
    {
        let a = &animations[i];
        let ghost pairs = firsts@.map_values(|k: usize| target_of(all[k as int]));
        proof {
            assert(all.take(i + 1).drop_last() =~= all.take(i as int));
            assert(all.take(i + 1).last() == all[i as int]);
        }
        if seen_before(timeline, &firsts, i) {
            proof {
                let k = choose|k: int| 0 <= k < pairs.len() && pairs[k] == target_of(all[i as int]);
                assert(has_target(items, all[firsts@[k] as int]));
            }
        } else {
            match find_cell(&scene.items, a.target_object.as_str(), a.property.as_str()) {
                Some((object, property)) => {
                    let base = &scene.items[object].properties[property].value;
                    let outcome = resolve_target(
                        base,
                        timeline,
                        a.target_object.as_str(),
                        a.property.as_str(),
                        at,
                    );
                    proof {
                        assert(objects_view(scene.items@)[object as int] == scene.items@[object as int]@);
                        assert(scene.items@[object as int]@.properties[property as int]
                            == scene.items@[object as int].properties@[property as int]@);
                        assert(firsts@.push(i).map_values(|k: usize| target_of(all[k as int]))
                            =~= pairs.push(target_of(all[i as int])));
                    }
                    firsts.push(i);
                    assignments.push(Assignment { object, property, outcome });
                },
                None => {
                    assert(is_first_stray(items, all, i as int));
                    return Err(
                        MissingAnimationTarget {
                            object: a.target_object.clone(),
                            property: a.property.clone(),
                        },
                    );
                },
            }
        }
        i += 1;
    }
    proof {
        assert(all.take(i as int) =~= all);
        let pairs = firsts@.map_values(|k: usize| target_of(all[k as int]));
        assert(assignments_view(assignments@) =~= resolved(items, all, at@)) by {
            assert forall|k: int| 0 <= k < assignments.len() implies assignments_view(
                assignments@,
            )[k] == resolved(items, all, at@)[k] by {
                assert(pairs[k] == target_of(all[firsts@[k] as int]));
            }
        }
    }
    Ok(assignments)
}

/// Reads a colour text leniently: black for a text that is not six
/// characters long behind its `#` signs, and 0 for each channel that does not
/// spell a number.
pub fn hex_to_rgb(hex: &str) -> (rgb: [u8; 3])
    ensures
        (rgb[0], rgb[1], rgb[2]) == lenient_rgb(hex.spec_bytes()),
{
    match read_channels(hex) {
        Some((r, g, b)) => [
            match r {
                Some(v) => v,
                None => 0,
            },
            match g {
                Some(v) => v,
                None => 0,
            },
            match b {
                Some(v) => v,
                None => 0,
            },
        ],
        None => [0, 0, 0],
    }
}

/// How two values are blended, by their types.
#[derive(Clone, Copy, Debug, PartialEq, Eq)]
#[allow(inconsistent_fields)]
pub enum Blend {
    /// Two numbers: blended as numbers.
    Numbers { from: Scalar, to: Scalar },
    /// Two pairs of numbers: blended coordinate by coordinate.
    Tuples { from: (Scalar, Scalar), to: (Scalar, Scalar) },
    /// Two colours: blended channel by channel, red, green and blue.
    Colors { from: (u8, u8, u8), to: (u8, u8, u8) },
    /// Anything else, two texts among it: no blending, the end value as it
    /// is.
    Jump,
}

/// How `start` and `end` are blended: values of one type that has numbers in
/// it blend, and every other pairing jumps to `end`.
pub open spec fn blend_of(start: ValueView, end: ValueView) -> Blend {
    match (start, end) {
        (ValueView::Number(from), ValueView::Number(to)) => Blend::Numbers { from, to },
        (ValueView::Tuple(x0, y0), ValueView::Tuple(x1, y1)) => Blend::Tuples {
            from: (x0, y0),
            to: (x1, y1),
        },
        (ValueView::Color(from), ValueView::Color(to)) => Blend::Colors {
            from: lenient_rgb(encode_utf8(from)),
            to: lenient_rgb(encode_utf8(to)),
        },
        _ => Blend::Jump,
    }
}

/// How `start` and `end` are blended.
pub fn plan_blend(start: &Value, end: &Value) -> (blend: Blend)
    ensures
        blend == blend_of(start@, end@),
{
    match (start, end) {
        (Value::Number(from), Value::Number(to)) => Blend::Numbers { from: *from, to: *to },
        (Value::Tuple(x0, y0), Value::Tuple(x1, y1)) => Blend::Tuples {
            from: (*x0, *y0),
            to: (*x1, *y1),
        },
        (Value::Color(from), Value::Color(to)) => {
            let a = hex_to_rgb(from.as_str());
            let b = hex_to_rgb(to.as_str());
            Blend::Colors { from: (a[0], a[1], a[2]), to: (b[0], b[1], b[2]) }
        },
        _ => Blend::Jump,
    }
}

/// Values blend exactly when both are numbers, both pairs or both colours.
pub proof fn mismatched_values_jump(start: ValueView, end: ValueView)
    ensures
        blend_of(start, end) is Jump <==> !((start is Number && end is Number) || (start is Tuple
            && end is Tuple) || (start is Color && end is Color)),
{
}

/// The colour value with the given channels: `#rrggbb` in lower case.
pub fn color_value(r: u8, g: u8, b: u8) -> (value: Value)
    ensures
        value@ == ValueView::Color(hex_text(r, g, b)),
{
    Value::Color(rgb_to_hex(r, g, b))
}

/// The colour value whose channels are the whole parts of three numbers,
/// each cut off behind the point, not rounded, and kept between 0 and 255.
pub fn truncated_color(r: Scalar, g: Scalar, b: Scalar) -> (value: Value)
    ensures
        value@ == ValueView::Color(hex_text(whole_u8(r.bits), whole_u8(g.bits), whole_u8(b.bits))),
{
    color_value(r.to_u8(), g.to_u8(), b.to_u8())
}

/// The objects `items` with the value of one property replaced.
pub open spec fn with_value(items: Seq<ObjectView>, object: int, property: int, value: ValueView) -> Seq<
    ObjectView,
> {
    items.update(
        object,
        ObjectView {
            kind: items[object].kind,
            name: items[object].name,
            properties: items[object].properties.update(
                property,
                crate::ast::PropertyView { name: items[object].properties[property].name, value },
            ),
        },
    )
}

/// Writes `value` into the property at `property` of the object at `object`.
/// Says whether there is such a property; where there is none, the scene
/// stays as it is.
pub fn assign(scene: &mut Scene, object: usize, property: usize, value: Value) -> (written: bool)
    ensures
        written == (object < old(scene).items.len() && property < old(scene).items@[object as int].properties.len()),
        written ==> final(scene)@ == (SceneView {
            items: with_value(old(scene)@.items, object as int, property as int, value@),
            ..old(scene)@
        }),
        !written ==> *final(scene) == *old(scene),
{
    if object < scene.items.len() && property < scene.items[object].properties.len() {
        let ghost before = scene@;
        let ghost old_items = scene.items@;
        scene.items[object].properties[property].value = value;
        proof {
            let o = object as int;
            let p = property as int;
            let now = scene.items@;
            assert(now.len() == old_items.len());
            assert(forall|k: int| 0 <= k < now.len() && k != o ==> now[k] == old_items[k]);
            assert(now[o].kind == old_items[o].kind && now[o].name == old_items[o].name);
            let props = now[o].properties@;
            let old_props = old_items[o].properties@;
            assert(props.len() == old_props.len());
            assert(forall|k: int| 0 <= k < props.len() && k != p ==> props[k] == old_props[k]);
            assert(props[p].name == old_props[p].name && props[p].value == value);
            assert(properties_view(props) =~= properties_view(old_props).update(
                p,
                crate::ast::PropertyView { name: old_props[p].name@, value: value@ },
            ));
            assert(scene@.items =~= with_value(before.items, o, p, value@));
        }
        true
    } else {
        false
    }
}

/// The objects `items` with every assignment that is at rest written in:
/// its value stands at its place. Assignments that blend are passed over,
/// and so are places that `items` does not have.
pub open spec fn settled(items: Seq<ObjectView>, plan: Seq<AssignmentView>) -> Seq<ObjectView>
    decreases plan.len(),
{
    if plan.len() == 0 {
        items
    } else {
        let before = settled(items, plan.drop_last());
        let last = plan.last();
        match last.outcome {
            ResolutionView::Settled(value) => if 0 <= last.object < before.len() && 0
                <= last.property < before[last.object].properties.len() {
                with_value(before, last.object, last.property, value)
            } else {
                before
            },
            ResolutionView::Blending { .. } => before,
        }
    }
}

/// A copy of the scene with every assignment of the plan that is at rest
/// written in. What is left to do is to blend the assignments that are under
/// way and to write those values too.
pub fn apply_settled(scene: &Scene, plan: &Vec<Assignment>) -> (resolved: Scene)
    ensures
        resolved@ == (SceneView { items: settled(scene@.items, assignments_view(plan@)), ..scene@ }),
{
    let mut resolved = scene.clone();
    let ghost all = assignments_view(plan@);
    let mut k: usize = 0;
    assert(all.take(0) =~= Seq::<AssignmentView>::empty());
    while k < plan.len()
        invariant
            k <= plan.len(),
            all == assignments_view(plan@),
            resolved@ == (SceneView { items: settled(scene@.items, all.take(k as int)), ..scene@ }),
        decreases plan.len() - k,
    {
        proof {
            assert(all.take(k + 1).drop_last() =~= all.take(k as int));
            assert(all.take(k + 1).last() == plan@[k as int]@);
        }
        match &plan[k].outcome {
            Resolution::Settled(value) => {
                let ghost before = resolved@.items;
                let written = assign(&mut resolved, plan[k].object, plan[k].property, value.clone());
                proof {
                    assert(written == (plan@[k as int].object < before.len() && plan@[k as int].property
                        < before[plan@[k as int].object as int].properties.len()));
                }
            },
            Resolution::Blending { .. } => {},
        }
        k += 1;
    }
    assert(all.take(k as int) =~= all);
    resolved
}

} // verus!
