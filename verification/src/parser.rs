//! From parse tree to script: every rule of the grammar is read into its part
//! of the data model, and each timeline is linked to the scene that it names.
//!
//! A tree that the grammar made is always read. The readers are total all
//! the same: a tree of another shape yields nothing.

use vstd::prelude::*;
use vstd::string::*;
use vstd::utf8::*;

use crate::ast::{
    Animation, AnimationView, BeamScript, BeamScriptView, Camera, Object, ObjectView, Property,
    PropertyView, Scene, SceneView, Timeline, Value, ValueView, animations_view, objects_view,
    properties_view, scenes_view,
};
use crate::syntax::{Pair, Rule, count_of, read_count};
use crate::lookup::{first_index, first_index_is_first};
use crate::text::same_text;
use crate::time::Duration;

verus! {

/// A timeline as it stands in the source: the name of its scene and its
/// animations.
#[derive(Debug, PartialEq)]
pub struct ParsedTimeline {
    pub scene_name: String,
    pub animations: Vec<Animation>,
}

/// What a [`ParsedTimeline`] holds.
pub struct ParsedTimelineView {
    pub scene_name: Seq<char>,
    pub animations: Seq<AnimationView>,
}

impl View for ParsedTimeline {
    type V = ParsedTimelineView;

    open spec fn view(&self) -> ParsedTimelineView {
        ParsedTimelineView {
            scene_name: self.scene_name@,
            animations: animations_view(self.animations@),
        }
    }
}

/// The views of a list of parsed timelines, in order.
pub open spec fn timelines_view(timelines: Seq<ParsedTimeline>) -> Seq<ParsedTimelineView> {
    timelines.map_values(|t: ParsedTimeline| t@)
}

/// The names of a list of scenes, in order.
pub open spec fn scene_names(scenes: Seq<SceneView>) -> Seq<Seq<char>> {
    scenes.map_values(|s: SceneView| s.name)
}

/// The scenes with one timeline linked: the first scene of the timeline's
/// name gets it, in place of any that it had; without such a scene nothing
/// changes.
pub open spec fn link_one(scenes: Seq<SceneView>, timeline: ParsedTimelineView) -> Seq<SceneView> {
    match first_index(scene_names(scenes), timeline.scene_name) {
        Some(i) => scenes.update(
            i,
            SceneView { timeline: Some(timeline.animations), ..scenes[i] },
        ),
        None => scenes,
    }
}

/// The scenes with the timelines linked, one after the other.
pub open spec fn linked(scenes: Seq<SceneView>, timelines: Seq<ParsedTimelineView>) -> Seq<SceneView>
    decreases timelines.len(),
{
    if timelines.len() == 0 {
        scenes
    } else {
        link_one(linked(scenes, timelines.drop_last()), timelines.last())
    }
}

/// The scene names of the timelines that name no scene, in order.
pub open spec fn unlinked(scenes: Seq<SceneView>, timelines: Seq<ParsedTimelineView>) -> Seq<Seq<char>>
    decreases timelines.len(),
{
    if timelines.len() == 0 {
        Seq::empty()
    } else {
        let earlier = unlinked(scenes, timelines.drop_last());
        if first_index(scene_names(scenes), timelines.last().scene_name) is None {
            earlier.push(timelines.last().scene_name)
        } else {
            earlier
        }
    }
}

/// Linking changes no scene's name.
pub proof fn linking_keeps_names(scenes: Seq<SceneView>, timelines: Seq<ParsedTimelineView>)
    ensures
        scene_names(linked(scenes, timelines)) == scene_names(scenes),
    decreases timelines.len(),
{
    if timelines.len() > 0 {
        let before = linked(scenes, timelines.drop_last());
        linking_keeps_names(scenes, timelines.drop_last());
        first_index_is_first(scene_names(before), timelines.last().scene_name);
        assert(scene_names(link_one(before, timelines.last())) =~= scene_names(before));
    }
}

fn copy_animations(animations: &Vec<Animation>) -> (copy: Vec<Animation>)
    ensures
        animations_view(copy@) == animations_view(animations@),
{
    let mut copy: Vec<Animation> = Vec::new();
    let mut i: usize = 0;
    while i < animations.len()
        invariant
            i <= animations.len(),
            copy.len() == i,
            forall|k: int| 0 <= k < i ==> copy@[k]@ == animations@[k]@,
        decreases animations.len() - i,
    {
        copy.push(animations[i].clone());
        i += 1;
    }
    assert(animations_view(copy@) =~= animations_view(animations@));
    copy
}

fn find_scene(scenes: &Vec<Scene>, name: &str) -> (found: Option<usize>)
    ensures
        match found {
            Some(i) => first_index(scene_names(scenes_view(scenes@)), name@) == Some(i as int) && i
                < scenes.len(),
            None => first_index(scene_names(scenes_view(scenes@)), name@) is None,
        },
{
    let ghost names = scene_names(scenes_view(scenes@));
    let mut i: usize = 0;
    while i < scenes.len()
        invariant
            i <= scenes.len(),
            names == scene_names(scenes_view(scenes@)),
            forall|j: int| 0 <= j < i ==> names[j] != name@,
        decreases scenes.len() - i,
    {
        if same_text(scenes[i].name.as_str(), name) {
            proof {
                crate::lookup::is_first_unique(names, name@, i as int);
            }
            return Some(i);
        }
        i += 1;
    }
    proof {
        first_index_is_first(names, name@);
    }
    None
}

/// Links each timeline to the first scene of the name that it gives; a later
/// timeline for a scene replaces an earlier one. A timeline that names no
/// scene is dropped, and its scene name is handed back so that the caller
/// can warn about it.
pub fn link_timelines(scenes: &mut Vec<Scene>, timelines: &Vec<ParsedTimeline>) -> (dropped: Vec<
    String,
>)
    ensures
        scenes_view(final(scenes)@) == linked(scenes_view(old(scenes)@), timelines_view(timelines@)),
        dropped@.map_values(|name: String| name@) == unlinked(
            scenes_view(old(scenes)@),
            timelines_view(timelines@),
        ),
{
    let ghost start = scenes_view(scenes@);
    let ghost all = timelines_view(timelines@);
    let mut dropped: Vec<String> = Vec::new();
    let mut k: usize = 0;
    assert(all.take(0) =~= Seq::<ParsedTimelineView>::empty());
    assert(dropped@.map_values(|name: String| name@) =~= Seq::<Seq<char>>::empty());
    while k < timelines.len()
        invariant
            k <= timelines.len(),
            all == timelines_view(timelines@),
            all.len() == timelines.len(),
            scenes_view(scenes@) == linked(start, all.take(k as int)),
            dropped@.map_values(|name: String| name@) == unlinked(start, all.take(k as int)),
        decreases timelines.len() - k,
    {
        let timeline = &timelines[k];
        let ghost before = scenes_view(scenes@);
        let ghost names_before = dropped@.map_values(|name: String| name@);
        proof {
            assert(all.take(k + 1).drop_last() =~= all.take(k as int));
            assert(all.take(k + 1).last() == timeline@);
            linking_keeps_names(start, all.take(k as int));
        }
        match find_scene(scenes, timeline.scene_name.as_str()) {
            Some(i) => {
                let animations = copy_animations(&timeline.animations);
                let ghost old_scenes = scenes@;
                scenes[i].timeline = Some(Timeline { animations });
                proof {
                    let now = scenes@;
                    assert(now.len() == old_scenes.len());
                    assert(forall|j: int| 0 <= j < now.len() && j != i ==> now[j] == old_scenes[j]);
                    assert(now[i as int].name == old_scenes[i as int].name);
                    assert(now[i as int].items == old_scenes[i as int].items);
                    assert(now[i as int].duration == old_scenes[i as int].duration);
                    first_index_is_first(scene_names(before), timeline@.scene_name);
                    assert(scenes_view(now) =~= link_one(before, timeline@));
                }
            },
            None => {
                proof {
                    assert(dropped@.push(timeline.scene_name).map_values(|name: String| name@)
                        =~= names_before.push(timeline@.scene_name));
                }
                dropped.push(timeline.scene_name.clone());
            },
        }
        k += 1;
    }
    assert(all.take(k as int) =~= all);
    dropped
}

/// The front end of the script language. What the grammar recognises arrives
/// here in three parts: the camera, the scenes and the timelines.
pub struct BeamParser;

impl BeamParser {
    /// Puts the parts of a script together: the timelines are linked to
    /// their scenes, and the scene names of those that name no scene are
    /// handed back beside the script.
    pub fn assemble(camera: Option<Camera>, scenes: Vec<Scene>, timelines: &Vec<ParsedTimeline>) -> (out: (
        BeamScript,
        Vec<String>,
    ))
        ensures
            out.0.camera == camera,
            out.0@.scenes == linked(scenes_view(scenes@), timelines_view(timelines@)),
            out.1@.map_values(|name: String| name@) == unlinked(
                scenes_view(scenes@),
                timelines_view(timelines@),
            ),
    {
        let mut scenes = scenes;
        let dropped = link_timelines(&mut scenes, timelines);
        (BeamScript { camera, scenes }, dropped)
    }
}

/// The span that a count and a unit spell: `s` for seconds, `ms` for
/// milliseconds.
pub open spec fn time_value(value: u64, unit: Seq<char>) -> Option<nat> {
    if unit == "s"@ {
        Some(value as nat * 1_000_000_000)
    } else if unit == "ms"@ {
        Some(value as nat * 1_000_000)
    } else {
        None
    }
}

/// The span of `value` units of time; nothing for a unit other than `s` and
/// `ms`.
pub fn span_of(value: u64, unit: &str) -> (span: Option<Duration>)
    ensures
        match span {
            Some(d) => time_value(value, unit@) == Some(d@),
            None => time_value(value, unit@) is None,
        },
{
    if same_text(unit, "s") {
        Some(Duration::from_secs(value))
    } else if same_text(unit, "ms") {
        Some(Duration::from_millis(value))
    } else {
        None
    }
}

/// The number of double quotes at the front of a text.
pub open spec fn quotes_in_front(text: Seq<char>) -> nat
    decreases text.len(),
{
    if text.len() > 0 && text[0] == '"' {
        1 + quotes_in_front(text.drop_first())
    } else {
        0
    }
}

/// The number of double quotes at the end of a text.
pub open spec fn quotes_behind(text: Seq<char>) -> nat
    decreases text.len(),
{
    if text.len() > 0 && text.last() == '"' {
        1 + quotes_behind(text.drop_last())
    } else {
        0
    }
}

/// A text without the double quotes at its front and at its end.
pub open spec fn unquoted(text: Seq<char>) -> Seq<char> {
    let rest = text.skip(quotes_in_front(text) as int);
    rest.take(rest.len() - quotes_behind(rest))
}

proof fn quotes_in_front_found(text: Seq<char>, n: int)
    requires
        0 <= n <= text.len(),
        forall|k: int| 0 <= k < n ==> text[k] == '"',
        n < text.len() ==> text[n] != '"',
    ensures
        quotes_in_front(text) == n,
    decreases n,
{
    if n > 0 {
        let rest = text.drop_first();
        assert forall|k: int| 0 <= k < n - 1 implies rest[k] == '"' by {
            assert(rest[k] == text[k + 1]);
        }
        if n - 1 < rest.len() {
            assert(rest[n - 1] == text[n]);
        }
        quotes_in_front_found(rest, n - 1);
    }
}

proof fn quotes_behind_found(text: Seq<char>, n: int)
    requires
        0 <= n <= text.len(),
        forall|k: int| text.len() - n <= k < text.len() ==> text[k] == '"',
        n < text.len() ==> text[text.len() - n - 1] != '"',
    ensures
        quotes_behind(text) == n,
    decreases n,
{
    if n > 0 {
        let rest = text.drop_last();
        assert forall|k: int| rest.len() - (n - 1) <= k < rest.len() implies rest[k] == '"' by {
            assert(rest[k] == text[k]);
        }
        if n - 1 < rest.len() {
            assert(rest[rest.len() - (n - 1) - 1] == text[text.len() - n - 1]);
        }
        quotes_behind_found(rest, n - 1);
    }
}

/// The text of a quoted name: the source text without the double quotes
/// around it.
pub fn unquote(source: &str) -> (name: String)
    ensures
        name@ == unquoted(source@),
{
    let len = source.unicode_len();
    let mut start: usize = 0;
    while start < len && source.get_char(start) == '"'
        invariant
            start <= len,
            len == source@.len(),
            forall|k: int| 0 <= k < start ==> source@[k] == '"',
        decreases len - start,
    {
        start += 1;
    }
    let mut end: usize = len;
    while end > start && source.get_char(end - 1) == '"'
        invariant
            start <= end <= len,
            len == source@.len(),
            forall|k: int| end <= k < len ==> source@[k] == '"',
        decreases end,
    {
        end -= 1;
    }
    proof {
        quotes_in_front_found(source@, start as int);
        let rest = source@.skip(start as int);
        assert forall|k: int| rest.len() - (len - end) <= k < rest.len() implies rest[k] == '"' by {
            assert(rest[k] == source@[k + start]);
        }
        if len - end < rest.len() {
            assert(rest[rest.len() - (len - end) - 1] == source@[end - 1]);
        }
        quotes_behind_found(rest, len - end);
        assert(source@.subrange(start as int, end as int) =~= unquoted(source@));
    }
    String::from_str(source.substring_char(start, end))
}

/// The text of a quoted name.
pub fn parse_string_literal(pair: &Pair) -> (name: String)
    ensures
        name@ == unquoted(pair.text@),
{
    unquote(pair.text.as_str())
}

/// The span that a node of a count and a unit spells.
pub open spec fn time_value_of(pair: Pair) -> Option<nat> {
    if pair.inner@.len() >= 2 {
        match count_of(encode_utf8(pair.inner@[0].text@)) {
            Some(count) => time_value(count, pair.inner@[1].text@),
            None => None,
        }
    } else {
        None
    }
}

/// Reads a span of time: a count and, behind it, its unit.
pub fn parse_time_value(pair: &Pair) -> (span: Option<Duration>)
    ensures
        match span {
            Some(d) => time_value_of(*pair) == Some(d@),
            None => time_value_of(*pair) is None,
        },
{
    if pair.inner.len() < 2 {
        return None;
    }
    match read_count(pair.inner[0].text.as_str()) {
        Some(count) => span_of(count, pair.inner[1].text.as_str()),
        None => None,
    }
}

/// The start and the end that the time of an animation spells: a start
/// alone for an instant, both for a range.
pub open spec fn animation_time_of(pair: Pair) -> Option<(nat, Option<nat>)> {
    if pair.inner@.len() >= 1 {
        let kind = pair.inner@[0];
        match kind.rule {
            Rule::AnimationInstant => if kind.inner@.len() >= 1 {
                match time_value_of(kind.inner@[0]) {
                    Some(start) => Some((start, None)),
                    None => None,
                }
            } else {
                None
            },
            Rule::AnimationRange => if kind.inner@.len() >= 2 {
                match (time_value_of(kind.inner@[0]), time_value_of(kind.inner@[1])) {
                    (Some(start), Some(end)) => Some((start, Some(end))),
                    _ => None,
                }
            } else {
                None
            },
            _ => None,
        }
    } else {
        None
    }
}

/// Reads the time of an animation.
pub fn parse_animation_time(pair: &Pair) -> (times: Option<(Duration, Option<Duration>)>)
    ensures
        match times {
            Some((start, end)) => animation_time_of(*pair) == Some(
                (
                    start@,
                    match end {
                        Some(e) => Some(e@),
                        None => None,
                    },
                ),
            ),
            None => animation_time_of(*pair) is None,
        },
{
    if pair.inner.len() < 1 {
        return None;
    }
    let kind = &pair.inner[0];
    match kind.rule {
        Rule::AnimationInstant => {
            if kind.inner.len() < 1 {
                return None;
            }
            match parse_time_value(&kind.inner[0]) {
                Some(start) => Some((start, None)),
                None => None,
            }
        },
        Rule::AnimationRange => {
            if kind.inner.len() < 2 {
                return None;
            }
            match (parse_time_value(&kind.inner[0]), parse_time_value(&kind.inner[1])) {
                (Some(start), Some(end)) => Some((start, Some(end))),
                _ => None,
            }
        },
        _ => None,
    }
}

/// The object and the property that the target of an animation names.
pub open spec fn target_property_of(pair: Pair) -> Option<(Seq<char>, Seq<char>)> {
    if pair.inner@.len() >= 2 {
        Some((unquoted(pair.inner@[0].text@), pair.inner@[1].text@))
    } else {
        None
    }
}

/// Reads the target of an animation: a quoted object name and a property
/// name.
pub fn parse_target_property(pair: &Pair) -> (target: Option<(String, String)>)
    ensures
        match target {
            Some((object, property)) => target_property_of(*pair) == Some((object@, property@)),
            None => target_property_of(*pair) is None,
        },
{
    if pair.inner.len() < 2 {
        return None;
    }
    Some((parse_string_literal(&pair.inner[0]), pair.inner[1].text.clone()))
}

/// The value that a node spells, by the rule of the node inside it.
pub open spec fn value_of(pair: Pair) -> Option<ValueView> {
    if pair.inner@.len() >= 1 {
        let inner = pair.inner@[0];
        match inner.rule {
            Rule::StringLiteral => Some(ValueView::String(unquoted(inner.text@))),
            Rule::Number => match inner.number {
                Some(n) => Some(ValueView::Number(n)),
                None => None,
            },
            Rule::HexColor => Some(ValueView::Color(inner.text@)),
            Rule::Tuple => if inner.inner@.len() >= 2 {
                match (inner.inner@[0].number, inner.inner@[1].number) {
                    (Some(x), Some(y)) => Some(ValueView::Tuple(x, y)),
                    _ => None,
                }
            } else {
                None
            },
            _ => None,
        }
    } else {
        None
    }
}

/// Reads a value.
pub fn parse_value(pair: &Pair) -> (value: Option<Value>)
    ensures
        match value {
            Some(v) => value_of(*pair) == Some(v@),
            None => value_of(*pair) is None,
        },
{
    if pair.inner.len() < 1 {
        return None;
    }
    let inner = &pair.inner[0];
    match inner.rule {
        Rule::StringLiteral => Some(Value::String(parse_string_literal(inner))),
        Rule::Number => match inner.number {
            Some(n) => Some(Value::Number(n)),
            None => None,
        },
        Rule::HexColor => Some(Value::Color(inner.text.clone())),
        Rule::Tuple => {
            if inner.inner.len() < 2 {
                return None;
            }
            match (inner.inner[0].number, inner.inner[1].number) {
                (Some(x), Some(y)) => Some(Value::Tuple(x, y)),
                _ => None,
            }
        },
        _ => None,
    }
}

/// The property that a node spells: a name and a value.
pub open spec fn property_of(pair: Pair) -> Option<PropertyView> {
    if pair.inner@.len() >= 2 {
        match value_of(pair.inner@[1]) {
            Some(value) => Some(PropertyView { name: pair.inner@[0].text@, value }),
            None => None,
        }
    } else {
        None
    }
}

/// Reads a property.
pub fn parse_property(pair: &Pair) -> (property: Option<Property>)
    ensures
        match property {
            Some(p) => property_of(*pair) == Some(p@),
            None => property_of(*pair) is None,
        },
{
    if pair.inner.len() < 2 {
        return None;
    }
    match parse_value(&pair.inner[1]) {
        Some(value) => Some(Property { name: pair.inner[0].text.clone(), value }),
        None => None,
    }
}

/// The properties that a list of nodes spells, if each of them spells one.
pub open spec fn properties_of(pairs: Seq<Pair>) -> Option<Seq<PropertyView>>
    decreases pairs.len(),
{
    if pairs.len() == 0 {
        Some(Seq::empty())
    } else {
        match (properties_of(pairs.drop_last()), property_of(pairs.last())) {
            (Some(front), Some(last)) => Some(front.push(last)),
            _ => None,
        }
    }
}

proof fn properties_fail_for_good(pairs: Seq<Pair>, n: int)
    requires
        0 <= n <= pairs.len(),
        properties_of(pairs.take(n)) is None,
    ensures
        properties_of(pairs) is None,
    decreases pairs.len() - n,
{
    if n < pairs.len() {
        assert(pairs.take(n + 1).drop_last() =~= pairs.take(n));
        properties_fail_for_good(pairs, n + 1);
    } else {
        assert(pairs.take(n) =~= pairs);
    }
}

fn parse_properties(pairs: &Vec<Pair>, from: usize) -> (properties: Option<Vec<Property>>)
    requires
        from <= pairs.len(),
    ensures
        match properties {
            Some(list) => properties_of(pairs@.skip(from as int)) == Some(properties_view(list@)),
            None => properties_of(pairs@.skip(from as int)) is None,
        },
{
    let ghost rest = pairs@.skip(from as int);
    let mut list: Vec<Property> = Vec::new();
    let mut i: usize = from;
    assert(rest.take(0) =~= Seq::<Pair>::empty());
    assert(properties_view(list@) =~= Seq::<PropertyView>::empty());
    while i < pairs.len()
        invariant
            from <= i <= pairs.len(),
            rest == pairs@.skip(from as int),
            properties_of(rest.take(i - from)) == Some(properties_view(list@)),
        decreases pairs.len() - i,
    {
        proof {
            assert(rest.take(i - from + 1).drop_last() =~= rest.take(i - from));
            assert(rest.take(i - from + 1).last() == pairs@[i as int]);
        }
        match parse_property(&pairs[i]) {
            Some(property) => {
                proof {
                    assert(properties_view(list@.push(property)) =~= properties_view(list@).push(
                        property@,
                    ));
                }
                list.push(property);
            },
            None => {
                proof {
                    properties_fail_for_good(rest, i - from + 1);
                }
                return None;
            },
        }
        i += 1;
    }
    assert(rest.take(i - from) =~= rest);
    Some(list)
}

/// The object that a node spells: a kind, a quoted name and properties.
pub open spec fn object_of(pair: Pair) -> Option<ObjectView> {
    if pair.inner@.len() >= 2 {
        match properties_of(pair.inner@.skip(2)) {
            Some(properties) => Some(
                ObjectView {
                    kind: pair.inner@[0].text@,
                    name: unquoted(pair.inner@[1].text@),
                    properties,
                },
            ),
            None => None,
        }
    } else {
        None
    }
}

/// Reads an object.
pub fn parse_object(pair: &Pair) -> (object: Option<Object>)
    ensures
        match object {
            Some(o) => object_of(*pair) == Some(o@),
            None => object_of(*pair) is None,
        },
{
    if pair.inner.len() < 2 {
        return None;
    }
    match parse_properties(&pair.inner, 2) {
        Some(properties) => Some(
            Object {
                kind: pair.inner[0].text.clone(),
                name: parse_string_literal(&pair.inner[1]),
                properties,
            },
        ),
        None => None,
    }
}

/// Reads the camera: its properties.
pub fn parse_camera(pair: &Pair) -> (camera: Option<Camera>)
    ensures
        match camera {
            Some(c) => properties_of(pair.inner@) == Some(c@),
            None => properties_of(pair.inner@) is None,
        },
{
    assert(pair.inner@.skip(0) =~= pair.inner@);
    match parse_properties(&pair.inner, 0) {
        Some(properties) => Some(Camera { properties }),
        None => None,
    }
}

/// The animation that a node spells: its time, its target, the value that
/// it leads to and, behind these, its easing if it has one.
pub open spec fn animation_of(pair: Pair) -> Option<AnimationView> {
    if pair.inner@.len() >= 3 {
        match (
            animation_time_of(pair.inner@[0]),
            target_property_of(pair.inner@[1]),
            value_of(pair.inner@[2]),
        ) {
            (Some((start, end)), Some((target_object, property)), Some(to)) => if pair.inner@.len()
                >= 4 {
                if pair.inner@[3].inner@.len() >= 1 {
                    Some(
                        AnimationView {
                            start,
                            end,
                            target_object,
                            property,
                            to,
                            easing: Some(pair.inner@[3].inner@[0].text@),
                        },
                    )
                } else {
                    None
                }
            } else {
                Some(AnimationView { start, end, target_object, property, to, easing: None })
            },
            _ => None,
        }
    } else {
        None
    }
}

/// Reads an animation.
pub fn parse_animation(pair: &Pair) -> (animation: Option<Animation>)
    ensures
        match animation {
            Some(a) => animation_of(*pair) == Some(a@),
            None => animation_of(*pair) is None,
        },
{
    if pair.inner.len() < 3 {
        return None;
    }
    let times = parse_animation_time(&pair.inner[0]);
    let target = parse_target_property(&pair.inner[1]);
    let to = parse_value(&pair.inner[2]);
    match (times, target, to) {
        (Some((start, end)), Some((target_object, property)), Some(to)) => {
            let easing = if pair.inner.len() >= 4 {
                if pair.inner[3].inner.len() < 1 {
                    return None;
                }
                Some(pair.inner[3].inner[0].text.clone())
            } else {
                None
            };
            Some(Animation { start, end, target_object, property, to, easing })
        },
        _ => None,
    }
}

/// The animations that a list of nodes spells, if each of them spells one.
pub open spec fn animations_of(pairs: Seq<Pair>) -> Option<Seq<AnimationView>>
    decreases pairs.len(),
{
    if pairs.len() == 0 {
        Some(Seq::empty())
    } else {
        match (animations_of(pairs.drop_last()), animation_of(pairs.last())) {
            (Some(front), Some(last)) => Some(front.push(last)),
            _ => None,
        }
    }
}

proof fn animations_fail_for_good(pairs: Seq<Pair>, n: int)
    requires
        0 <= n <= pairs.len(),
        animations_of(pairs.take(n)) is None,
    ensures
        animations_of(pairs) is None,
    decreases pairs.len() - n,
{
    if n < pairs.len() {
        assert(pairs.take(n + 1).drop_last() =~= pairs.take(n));
        animations_fail_for_good(pairs, n + 1);
    } else {
        assert(pairs.take(n) =~= pairs);
    }
}

/// The timeline that a node spells: the quoted name of its scene and its
/// animations.
pub open spec fn timeline_of(pair: Pair) -> Option<ParsedTimelineView> {
    if pair.inner@.len() >= 1 {
        match animations_of(pair.inner@.skip(1)) {
            Some(animations) => Some(
                ParsedTimelineView { scene_name: unquoted(pair.inner@[0].text@), animations },
            ),
            None => None,
        }
    } else {
        None
    }
}

/// Reads a timeline.
pub fn parse_temp_timeline(pair: &Pair) -> (timeline: Option<ParsedTimeline>)
    ensures
        match timeline {
            Some(t) => timeline_of(*pair) == Some(t@),
            None => timeline_of(*pair) is None,
        },
{
    if pair.inner.len() < 1 {
        return None;
    }
    let pairs = &pair.inner;
    let ghost rest = pairs@.skip(1);
    let mut animations: Vec<Animation> = Vec::new();
    let mut i: usize = 1;
    assert(rest.take(0) =~= Seq::<Pair>::empty());
    assert(animations_view(animations@) =~= Seq::<AnimationView>::empty());
    while i < pairs.len()
        invariant
            1 <= i <= pairs.len(),
            pairs == &pair.inner,
            rest == pairs@.skip(1),
            animations_of(rest.take(i - 1)) == Some(animations_view(animations@)),
        decreases pairs.len() - i,
    {
        proof {
            assert(rest.take(i - 1 + 1).drop_last() =~= rest.take(i - 1));
            assert(rest.take(i - 1 + 1).last() == pairs@[i as int]);
        }
        match parse_animation(&pairs[i]) {
            Some(animation) => {
                proof {
                    assert(animations_view(animations@.push(animation)) =~= animations_view(
                        animations@,
                    ).push(animation@));
                }
                animations.push(animation);
            },
            None => {
                proof {
                    animations_fail_for_good(rest, i - 1 + 1);
                }
                return None;
            },
        }
        i += 1;
    }
    assert(rest.take(i - 1) =~= rest);
    Some(ParsedTimeline { scene_name: parse_string_literal(&pair.inner[0]), animations })
}

/// What the body of a scene spells: its objects in order and its duration,
/// the last one where several are given. Nodes that are neither are passed
/// over.
pub open spec fn scene_body_of(pairs: Seq<Pair>) -> Option<(Seq<ObjectView>, Option<nat>)>
    decreases pairs.len(),
{
    if pairs.len() == 0 {
        Some((Seq::empty(), None))
    } else {
        match scene_body_of(pairs.drop_last()) {
            Some((items, duration)) => {
                let last = pairs.last();
                match last.rule {
                    Rule::Object => match object_of(last) {
                        Some(object) => Some((items.push(object), duration)),
                        None => None,
                    },
                    Rule::SceneDuration => if last.inner@.len() >= 1 {
                        match time_value_of(last.inner@[0]) {
                            Some(span) => Some((items, Some(span))),
                            None => None,
                        }
                    } else {
                        None
                    },
                    _ => Some((items, duration)),
                }
            },
            None => None,
        }
    }
}

proof fn scene_body_fails_for_good(pairs: Seq<Pair>, n: int)
    requires
        0 <= n <= pairs.len(),
        scene_body_of(pairs.take(n)) is None,
    ensures
        scene_body_of(pairs) is None,
    decreases pairs.len() - n,
{
    if n < pairs.len() {
        assert(pairs.take(n + 1).drop_last() =~= pairs.take(n));
        scene_body_fails_for_good(pairs, n + 1);
    } else {
        assert(pairs.take(n) =~= pairs);
    }
}

/// The scene that a node spells: a quoted name and a body. It has no
/// timeline yet.
pub open spec fn scene_of(pair: Pair) -> Option<SceneView> {
    if pair.inner@.len() >= 1 {
        match scene_body_of(pair.inner@.skip(1)) {
            Some((items, duration)) => Some(
                SceneView { name: unquoted(pair.inner@[0].text@), items, timeline: None, duration },
            ),
            None => None,
        }
    } else {
        None
    }
}

/// Reads a scene.
pub fn parse_scene(pair: &Pair) -> (scene: Option<Scene>)
    ensures
        match scene {
            Some(s) => scene_of(*pair) == Some(s@),
            None => scene_of(*pair) is None,
        },
{
    if pair.inner.len() < 1 {
        return None;
    }
    let pairs = &pair.inner;
    let ghost rest = pairs@.skip(1);
    let mut items: Vec<Object> = Vec::new();
    let mut duration: Option<Duration> = None;
    let mut i: usize = 1;
    assert(rest.take(0) =~= Seq::<Pair>::empty());
    assert(objects_view(items@) =~= Seq::<ObjectView>::empty());
    while i < pairs.len()
        invariant
            1 <= i <= pairs.len(),
            pairs == &pair.inner,
            rest == pairs@.skip(1),
            scene_body_of(rest.take(i - 1)) == Some(
                (
                    objects_view(items@),
                    match duration {
                        Some(d) => Some(d@),
                        None => None,
                    },
                ),
            ),
        decreases pairs.len() - i,
    {
        let content = &pairs[i];
        proof {
            assert(rest.take(i - 1 + 1).drop_last() =~= rest.take(i - 1));
            assert(rest.take(i - 1 + 1).last() == pairs@[i as int]);
        }
        match content.rule {
            Rule::Object => match parse_object(content) {
                Some(object) => {
                    proof {
                        assert(objects_view(items@.push(object)) =~= objects_view(items@).push(
                            object@,
                        ));
                    }
                    items.push(object);
                },
                None => {
                    proof {
                        scene_body_fails_for_good(rest, i - 1 + 1);
                    }
                    return None;
                },
            },
            Rule::SceneDuration => {
                let span = if content.inner.len() >= 1 {
                    parse_time_value(&content.inner[0])
                } else {
                    None
                };
                match span {
                    Some(d) => {
                        duration = Some(d);
                    },
                    None => {
                        proof {
                            scene_body_fails_for_good(rest, i - 1 + 1);
                        }
                        return None;
                    },
                }
            },
            _ => {},
        }
        i += 1;
    }
    assert(rest.take(i - 1) =~= rest);
    Some(Scene { name: parse_string_literal(&pair.inner[0]), items, timeline: None, duration })
}

/// The parts of a script as they stand in the source.
pub struct PartsView {
    pub camera: Option<Seq<PropertyView>>,
    pub scenes: Seq<SceneView>,
    pub timelines: Seq<ParsedTimelineView>,
}

/// What the nodes of a file spell: the camera, the last one where several
/// are given, the scenes and the timelines, each in order. Comments and the
/// end of the input are passed over; any other node is out of place.
pub open spec fn parts_of(pairs: Seq<Pair>) -> Option<PartsView>
    decreases pairs.len(),
{
    if pairs.len() == 0 {
        Some(PartsView { camera: None, scenes: Seq::empty(), timelines: Seq::empty() })
    } else {
        match parts_of(pairs.drop_last()) {
            Some(parts) => {
                let last = pairs.last();
                match last.rule {
                    Rule::Camera => match properties_of(last.inner@) {
                        Some(camera) => Some(PartsView { camera: Some(camera), ..parts }),
                        None => None,
                    },
                    Rule::Scene => match scene_of(last) {
                        Some(scene) => Some(PartsView { scenes: parts.scenes.push(scene), ..parts }),
                        None => None,
                    },
                    Rule::Timeline => match timeline_of(last) {
                        Some(timeline) => Some(
                            PartsView { timelines: parts.timelines.push(timeline), ..parts },
                        ),
                        None => None,
                    },
                    Rule::EndOfInput | Rule::Comment => Some(parts),
                    _ => None,
                }
            },
            None => None,
        }
    }
}

proof fn parts_fail_for_good(pairs: Seq<Pair>, n: int)
    requires
        0 <= n <= pairs.len(),
        parts_of(pairs.take(n)) is None,
    ensures
        parts_of(pairs) is None,
    decreases pairs.len() - n,
{
    if n < pairs.len() {
        assert(pairs.take(n + 1).drop_last() =~= pairs.take(n));
        parts_fail_for_good(pairs, n + 1);
    } else {
        assert(pairs.take(n) =~= pairs);
    }
}

/// The script that a file spells, with the scene names of the timelines
/// that name no scene.
pub open spec fn script_of(file: Pair) -> Option<(BeamScriptView, Seq<Seq<char>>)> {
    match parts_of(file.inner@) {
        Some(parts) => Some(
            (
                BeamScriptView {
                    camera: parts.camera,
                    scenes: linked(parts.scenes, parts.timelines),
                },
                unlinked(parts.scenes, parts.timelines),
            ),
        ),
        None => None,
    }
}

impl BeamParser {
    /// Turns the tree of a file into a script: reads the camera, the scenes
    /// and the timelines, and links each timeline to its scene. The scene
    /// names of the timelines that name no scene are handed back beside the
    /// script. Yields nothing for a tree that the grammar cannot have made.
    pub fn build(file: &Pair) -> (out: Option<(BeamScript, Vec<String>)>)
        ensures
            match out {
                Some((script, dropped)) => script_of(*file) == Some(
                    (script@, dropped@.map_values(|name: String| name@)),
                ),
                None => script_of(*file) is None,
            },
    {
        let pairs = &file.inner;
        let ghost all = pairs@;
        let mut camera: Option<Camera> = None;
        let mut scenes: Vec<Scene> = Vec::new();
        let mut timelines: Vec<ParsedTimeline> = Vec::new();
        let mut i: usize = 0;
        assert(all.take(0) =~= Seq::<Pair>::empty());
        assert(scenes_view(scenes@) =~= Seq::<SceneView>::empty());
        assert(timelines_view(timelines@) =~= Seq::<ParsedTimelineView>::empty());
        while i < pairs.len()
            invariant
                i <= pairs.len(),
                pairs == &file.inner,
                all == pairs@,
                parts_of(all.take(i as int)) == Some(
                    PartsView {
                        camera: match camera {
                            Some(c) => Some(c@),
                            None => None,
                        },
                        scenes: scenes_view(scenes@),
                        timelines: timelines_view(timelines@),
                    },
                ),
            decreases pairs.len() - i,
        {
            let pair = &pairs[i];
            proof {
                assert(all.take(i + 1).drop_last() =~= all.take(i as int));
                assert(all.take(i + 1).last() == pairs@[i as int]);
            }
            match pair.rule {
                Rule::Camera => match parse_camera(pair) {
                    Some(c) => {
                        camera = Some(c);
                    },
                    None => {
                        proof {
                            parts_fail_for_good(all, i + 1);
                        }
                        return None;
                    },
                },
                Rule::Scene => match parse_scene(pair) {
                    Some(scene) => {
                        proof {
                            assert(scenes_view(scenes@.push(scene)) =~= scenes_view(scenes@).push(
                                scene@,
                            ));
                        }
                        scenes.push(scene);
                    },
                    None => {
                        proof {
                            parts_fail_for_good(all, i + 1);
                        }
                        return None;
                    },
                },
                Rule::Timeline => match parse_temp_timeline(pair) {
                    Some(timeline) => {
                        proof {
                            assert(timelines_view(timelines@.push(timeline)) =~= timelines_view(
                                timelines@,
                            ).push(timeline@));
                        }
                        timelines.push(timeline);
                    },
                    None => {
                        proof {
                            parts_fail_for_good(all, i + 1);
                        }
                        return None;
                    },
                },
                Rule::EndOfInput | Rule::Comment => {},
                _ => {
                    proof {
                        parts_fail_for_good(all, i + 1);
                    }
                    return None;
                },
            }
            i += 1;
        }
        assert(all.take(i as int) =~= all);
        Some(BeamParser::assemble(camera, scenes, &timelines))
    }
}

} // verus!
