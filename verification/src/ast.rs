//! The scene data model and its mathematical views.
//!
//! Every type here is plain data with public fields. Each has a view that
//! replaces text by `Seq<char>`, vectors by `Seq` and time spans by `nat`
//! nanoseconds; the contracts of the rest of the crate speak of those views.

use vstd::prelude::*;

use crate::time::Duration;

verus! {

/// A real number carried as the bit pattern of an IEEE-754 double.
///
/// The crate moves such numbers around, hands them back and reads their
/// whole part; it does no arithmetic on them. Two scalars are equal when
/// their bits are.
#[derive(Clone, Copy, Debug, PartialEq, Eq, Hash, Structural)]
pub struct Scalar {
    pub bits: u64,
}

impl Scalar {
    /// The scalar with the given bit pattern.
    pub fn from_bits(bits: u64) -> (s: Scalar)
        ensures
            s.bits == bits,
    {
        Scalar { bits }
    }

    /// The bit pattern of the scalar.
    pub fn to_bits(&self) -> (bits: u64)
        ensures
            bits == self.bits,
    {
        self.bits
    }
}

/// A typed property value.
#[derive(Debug, PartialEq)]
pub enum Value {
    String(String),
    Number(Scalar),
    Color(String),
    Tuple(Scalar, Scalar),
}

/// What a [`Value`] holds.
pub enum ValueView {
    String(Seq<char>),
    Number(Scalar),
    Color(Seq<char>),
    Tuple(Scalar, Scalar),
}

impl View for Value {
    type V = ValueView;

    open spec fn view(&self) -> ValueView {
        match self {
            Value::String(s) => ValueView::String(s@),
            Value::Number(n) => ValueView::Number(*n),
            Value::Color(c) => ValueView::Color(c@),
            Value::Tuple(x, y) => ValueView::Tuple(*x, *y),
        }
    }
}

impl Clone for Value {
    fn clone(&self) -> (copy: Value)
        ensures
            copy@ == self@,
    {
        match self {
            Value::String(s) => Value::String(s.clone()),
            Value::Number(n) => Value::Number(*n),
            Value::Color(c) => Value::Color(c.clone()),
            Value::Tuple(x, y) => Value::Tuple(*x, *y),
        }
    }
}

/// A named value of an object or of the camera.
#[derive(Debug, PartialEq)]
pub struct Property {
    pub name: String,
    pub value: Value,
}

/// What a [`Property`] holds.
pub struct PropertyView {
    pub name: Seq<char>,
    pub value: ValueView,
}

impl View for Property {
    type V = PropertyView;

    open spec fn view(&self) -> PropertyView {
        PropertyView { name: self.name@, value: self.value@ }
    }
}

impl Clone for Property {
    fn clone(&self) -> (copy: Property)
        ensures
            copy@ == self@,
    {
        Property { name: self.name.clone(), value: self.value.clone() }
    }
}

/// The views of a list of properties, in order.
pub open spec fn properties_view(properties: Seq<Property>) -> Seq<PropertyView> {
    properties.map_values(|p: Property| p@)
}

/// A copy of a list of properties.
pub fn clone_properties(properties: &Vec<Property>) -> (copy: Vec<Property>)
    ensures
        properties_view(copy@) == properties_view(properties@),
{
    let mut copy: Vec<Property> = Vec::new();
    let mut i: usize = 0;
    while i < properties.len()
        invariant
            i <= properties.len(),
            copy.len() == i,
            forall|k: int| 0 <= k < i ==> copy@[k]@ == properties@[k]@,
        decreases properties.len() - i,
    {
        copy.push(properties[i].clone());
        i += 1;
    }
    assert(properties_view(copy@) =~= properties_view(properties@));
    copy
}

/// The camera: a bag of properties, of which the width, the height and the
/// background colour matter to a renderer.
#[derive(Debug, PartialEq)]
pub struct Camera {
    pub properties: Vec<Property>,
}

impl View for Camera {
    type V = Seq<PropertyView>;

    open spec fn view(&self) -> Seq<PropertyView> {
        properties_view(self.properties@)
    }
}

impl Clone for Camera {
    fn clone(&self) -> (copy: Camera)
        ensures
            copy@ == self@,
    {
        Camera { properties: clone_properties(&self.properties) }
    }
}

impl Default for Camera {
    fn default() -> (camera: Camera)
        ensures
            camera@ == Seq::<PropertyView>::empty(),
    {
        let camera = Camera { properties: Vec::new() };
        assert(camera@ =~= Seq::<PropertyView>::empty());
        camera
    }
}

/// A shape in a scene: a kind tag, a name by which animations find it, and
/// its properties in source order.
#[derive(Debug, PartialEq)]
pub struct Object {
    pub kind: String,
    pub name: String,
    pub properties: Vec<Property>,
}

/// What an [`Object`] holds.
pub struct ObjectView {
    pub kind: Seq<char>,
    pub name: Seq<char>,
    pub properties: Seq<PropertyView>,
}

impl View for Object {
    type V = ObjectView;

    open spec fn view(&self) -> ObjectView {
        ObjectView {
            kind: self.kind@,
            name: self.name@,
            properties: properties_view(self.properties@),
        }
    }
}

impl Clone for Object {
    fn clone(&self) -> (copy: Object)
        ensures
            copy@ == self@,
    {
        Object {
            kind: self.kind.clone(),
            name: self.name.clone(),
            properties: clone_properties(&self.properties),
        }
    }
}

/// The views of a list of objects, in order.
pub open spec fn objects_view(objects: Seq<Object>) -> Seq<ObjectView> {
    objects.map_values(|o: Object| o@)
}

/// A copy of a list of objects.
pub fn clone_objects(objects: &Vec<Object>) -> (copy: Vec<Object>)
    ensures
        objects_view(copy@) == objects_view(objects@),
{
    let mut copy: Vec<Object> = Vec::new();
    let mut i: usize = 0;
    while i < objects.len()
        invariant
            i <= objects.len(),
            copy.len() == i,
            forall|k: int| 0 <= k < i ==> copy@[k]@ == objects@[k]@,
        decreases objects.len() - i,
    {
        copy.push(objects[i].clone());
        i += 1;
    }
    assert(objects_view(copy@) =~= objects_view(objects@));
    copy
}

/// One change of one property of one object: at `start` the property jumps
/// to `to` when `end` is absent, and otherwise moves towards `to` until `end`.
#[derive(Debug, PartialEq)]
pub struct Animation {
    pub start: Duration,
    pub end: Option<Duration>,
    pub target_object: String,
    pub property: String,
    pub to: Value,
    pub easing: Option<String>,
}

/// What an [`Animation`] holds; times are in nanoseconds.
pub struct AnimationView {
    pub start: nat,
    pub end: Option<nat>,
    pub target_object: Seq<char>,
    pub property: Seq<char>,
    pub to: ValueView,
    pub easing: Option<Seq<char>>,
}

impl View for Animation {
    type V = AnimationView;

    open spec fn view(&self) -> AnimationView {
        AnimationView {
            start: self.start@,
            end: match self.end {
                Some(end) => Some(end@),
                None => None,
            },
            target_object: self.target_object@,
            property: self.property@,
            to: self.to@,
            easing: match self.easing {
                Some(name) => Some(name@),
                None => None,
            },
        }
    }
}

impl Clone for Animation {
    fn clone(&self) -> (copy: Animation)
        ensures
            copy@ == self@,
    {
        Animation {
            start: self.start,
            end: self.end,
            target_object: self.target_object.clone(),
            property: self.property.clone(),
            to: self.to.clone(),
            easing: match &self.easing {
                Some(name) => Some(name.clone()),
                None => None,
            },
        }
    }
}

/// The views of a list of animations, in order.
pub open spec fn animations_view(animations: Seq<Animation>) -> Seq<AnimationView> {
    animations.map_values(|a: Animation| a@)
}

/// The animations of one scene, in source order.
#[derive(Debug, PartialEq)]
pub struct Timeline {
    pub animations: Vec<Animation>,
}

impl View for Timeline {
    type V = Seq<AnimationView>;

    open spec fn view(&self) -> Seq<AnimationView> {
        animations_view(self.animations@)
    }
}

impl Clone for Timeline {
    fn clone(&self) -> (copy: Timeline)
        ensures
            copy@ == self@,
    {
        let mut animations: Vec<Animation> = Vec::new();
        let mut i: usize = 0;
        while i < self.animations.len()
            invariant
                i <= self.animations.len(),
                animations.len() == i,
                forall|k: int| 0 <= k < i ==> animations@[k]@ == self.animations@[k]@,
            decreases self.animations.len() - i,
        {
            animations.push(self.animations[i].clone());
            i += 1;
        }
        let copy = Timeline { animations };
        assert(copy@ =~= self@);
        copy
    }
}

/// A named set of objects shown together for a stated time.
#[derive(Debug, PartialEq)]
pub struct Scene {
    pub name: String,
    pub items: Vec<Object>,
    pub timeline: Option<Timeline>,
    pub duration: Option<Duration>,
}

/// What a [`Scene`] holds; the duration is in nanoseconds.
pub struct SceneView {
    pub name: Seq<char>,
    pub items: Seq<ObjectView>,
    pub timeline: Option<Seq<AnimationView>>,
    pub duration: Option<nat>,
}

impl View for Scene {
    type V = SceneView;

    open spec fn view(&self) -> SceneView {
        SceneView {
            name: self.name@,
            items: objects_view(self.items@),
            timeline: match self.timeline {
                Some(timeline) => Some(timeline@),
                None => None,
            },
            duration: match self.duration {
                Some(duration) => Some(duration@),
                None => None,
            },
        }
    }
}

impl Clone for Scene {
    fn clone(&self) -> (copy: Scene)
        ensures
            copy@ == self@,
    {
        Scene {
            name: self.name.clone(),
            items: clone_objects(&self.items),
            timeline: match &self.timeline {
                Some(timeline) => Some(timeline.clone()),
                None => None,
            },
            duration: self.duration,
        }
    }
}

/// The views of a list of scenes, in order.
pub open spec fn scenes_view(scenes: Seq<Scene>) -> Seq<SceneView> {
    scenes.map_values(|s: Scene| s@)
}

/// A whole script: an optional camera and the scenes in the order in which
/// they are shown.
#[derive(Debug, PartialEq)]
pub struct BeamScript {
    pub camera: Option<Camera>,
    pub scenes: Vec<Scene>,
}

/// What a [`BeamScript`] holds.
pub struct BeamScriptView {
    pub camera: Option<Seq<PropertyView>>,
    pub scenes: Seq<SceneView>,
}

impl View for BeamScript {
    type V = BeamScriptView;

    open spec fn view(&self) -> BeamScriptView {
        BeamScriptView {
            camera: match self.camera {
                Some(camera) => Some(camera@),
                None => None,
            },
            scenes: scenes_view(self.scenes@),
        }
    }
}

impl Clone for BeamScript {
    fn clone(&self) -> (copy: BeamScript)
        ensures
            copy@ == self@,
    {
        let mut scenes: Vec<Scene> = Vec::new();
        let mut i: usize = 0;
        while i < self.scenes.len()
            invariant
                i <= self.scenes.len(),
                scenes.len() == i,
                forall|k: int| 0 <= k < i ==> scenes@[k]@ == self.scenes@[k]@,
            decreases self.scenes.len() - i,
        {
            scenes.push(self.scenes[i].clone());
            i += 1;
        }
        let copy = BeamScript {
            camera: match &self.camera {
                Some(camera) => Some(camera.clone()),
                None => None,
            },
            scenes,
        };
        assert(copy@.scenes =~= self@.scenes);
        copy
    }
}

impl Default for BeamScript {
    fn default() -> (script: BeamScript)
        ensures
            script@.camera is None,
            script@.scenes == Seq::<SceneView>::empty(),
    {
        let script = BeamScript { camera: None, scenes: Vec::new() };
        assert(script@.scenes =~= Seq::<SceneView>::empty());
        script
    }
}

} // verus!
