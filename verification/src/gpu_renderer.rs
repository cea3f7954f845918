//! What a GPU renderer reads from a scene before it draws. Its fallbacks
//! differ from the software renderer's: a canvas of 1280 by 720 pixels, and
//! zero for every number that a shape does not state.

use vstd::prelude::*;
use vstd::string::*;
use vstd::utf8::*;

use crate::ast::{Camera, Property, PropertyView, Scalar, Value, ValueView, properties_view};
use crate::color::{leading_rgb, read_leading_rgb};
use crate::lookup::{first_property, first_value};
use crate::renderer::{as_color, as_number, as_tuple, camera_properties, canvas_side, side_of};

verus! {

/// The width of the canvas when the camera states none.
pub const DEFAULT_WIDTH: u32 = 1280;

/// The height of the canvas when the camera states none.
pub const DEFAULT_HEIGHT: u32 = 720;

/// The number zero.
pub open spec fn zero() -> Scalar {
    Scalar { bits: 0 }
}

/// The value of the first property called `name`.
pub fn get_property<'a>(properties: &'a Vec<Property>, name: &str) -> (found: Option<&'a Value>)
    ensures
        match found {
            Some(value) => first_value(properties_view(properties@), name@) == Some(value@),
            None => first_value(properties_view(properties@), name@) is None,
        },
{
    first_property(properties, name)
}

/// The number that the first property called `name` holds, or zero.
pub open spec fn number_or_zero(properties: Seq<PropertyView>, name: Seq<char>) -> Scalar {
    match as_number(first_value(properties, name)) {
        Some(n) => n,
        None => zero(),
    }
}

/// The pair that the first property called `name` holds, or the origin.
pub open spec fn tuple_or_origin(properties: Seq<PropertyView>, name: Seq<char>) -> (
    Scalar,
    Scalar,
) {
    match as_tuple(first_value(properties, name)) {
        Some(pair) => pair,
        None => (zero(), zero()),
    }
}

fn number_named(properties: &Vec<Property>, name: &str) -> (number: Scalar)
    ensures
        number == number_or_zero(properties_view(properties@), name@),
{
    match first_property(properties, name) {
        Some(Value::Number(n)) => *n,
        _ => Scalar { bits: 0 },
    }
}

fn tuple_named(properties: &Vec<Property>, name: &str) -> (pair: (Scalar, Scalar))
    ensures
        pair == tuple_or_origin(properties_view(properties@), name@),
{
    match first_property(properties, name) {
        Some(Value::Tuple(x, y)) => (*x, *y),
        _ => (Scalar { bits: 0 }, Scalar { bits: 0 }),
    }
}

/// Where the shape stands: its `position`, or the origin.
pub fn get_position(properties: &Vec<Property>) -> (pair: (Scalar, Scalar))
    ensures
        pair == tuple_or_origin(properties_view(properties@), "position"@),
{
    tuple_named(properties, "position")
}

/// The first corner: `p1`, or the origin.
pub fn get_p1(properties: &Vec<Property>) -> (pair: (Scalar, Scalar))
    ensures
        pair == tuple_or_origin(properties_view(properties@), "p1"@),
{
    tuple_named(properties, "p1")
}

/// The second corner: `p2`, or the origin.
pub fn get_p2(properties: &Vec<Property>) -> (pair: (Scalar, Scalar))
    ensures
        pair == tuple_or_origin(properties_view(properties@), "p2"@),
{
    tuple_named(properties, "p2")
}

/// The third corner: `p3`, or the origin.
pub fn get_p3(properties: &Vec<Property>) -> (pair: (Scalar, Scalar))
    ensures
        pair == tuple_or_origin(properties_view(properties@), "p3"@),
{
    tuple_named(properties, "p3")
}

/// The `radius` of a circle, or zero.
pub fn get_radius(properties: &Vec<Property>) -> (number: Scalar)
    ensures
        number == number_or_zero(properties_view(properties@), "radius"@),
{
    number_named(properties, "radius")
}

/// The `width` of a rectangle, or zero.
pub fn get_width(properties: &Vec<Property>) -> (number: Scalar)
    ensures
        number == number_or_zero(properties_view(properties@), "width"@),
{
    number_named(properties, "width")
}

/// The `height` of a rectangle, or zero.
pub fn get_height(properties: &Vec<Property>) -> (number: Scalar)
    ensures
        number == number_or_zero(properties_view(properties@), "height"@),
{
    number_named(properties, "height")
}

/// The `size` of a square, or zero.
pub fn get_size(properties: &Vec<Property>) -> (number: Scalar)
    ensures
        number == number_or_zero(properties_view(properties@), "size"@),
{
    number_named(properties, "size")
}

/// The horizontal radius `rx` of an ellipse, or zero.
pub fn get_rx(properties: &Vec<Property>) -> (number: Scalar)
    ensures
        number == number_or_zero(properties_view(properties@), "rx"@),
{
    number_named(properties, "rx")
}

/// The vertical radius `ry` of an ellipse, or zero.
pub fn get_ry(properties: &Vec<Property>) -> (number: Scalar)
    ensures
        number == number_or_zero(properties_view(properties@), "ry"@),
{
    number_named(properties, "ry")
}

/// What a shape is filled or outlined with.
#[derive(Clone, Copy, Debug, PartialEq, Eq, Structural)]
pub enum Paint {
    /// The shape states no colour: this part of it is not drawn.
    Absent,
    /// The colour, as red, green and blue.
    Solid(u8, u8, u8),
    /// The shape states a colour whose text spells none.
    Malformed,
}

/// The paint that a value stands for.
pub open spec fn paint_of(value: Option<ValueView>) -> Paint {
    match as_color(value) {
        Some(text) => match leading_rgb(encode_utf8(text)) {
            Some((r, g, b)) => Paint::Solid(r, g, b),
            None => Paint::Malformed,
        },
        None => Paint::Absent,
    }
}

/// The value that decides the fill: the first `fill`, or without any the
/// first `color`.
pub open spec fn fill_value(properties: Seq<PropertyView>) -> Option<ValueView> {
    match first_value(properties, "fill"@) {
        Some(value) => Some(value),
        None => first_value(properties, "color"@),
    }
}

fn paint(value: Option<&Value>) -> (paint: Paint)
    ensures
        paint == paint_of(
            match value {
                Some(v) => Some(v@),
                None => None,
            },
        ),
{
    match value {
        Some(Value::Color(text)) => match read_leading_rgb(text.as_str()) {
            Some((r, g, b)) => Paint::Solid(r, g, b),
            None => Paint::Malformed,
        },
        _ => Paint::Absent,
    }
}

/// What the shape is filled with.
pub fn get_fill_color(properties: &Vec<Property>) -> (fill: Paint)
    ensures
        fill == paint_of(fill_value(properties_view(properties@))),
{
    match first_property(properties, "fill") {
        Some(value) => paint(Some(value)),
        None => paint(first_property(properties, "color")),
    }
}

/// What the shape is outlined with: its `border_color`.
pub fn get_stroke_color(properties: &Vec<Property>) -> (stroke: Paint)
    ensures
        stroke == paint_of(first_value(properties_view(properties@), "border_color"@)),
{
    paint(first_property(properties, "border_color"))
}

/// The width of the canvas: what the camera states, or 1280 pixels.
pub fn get_camera_width(camera: &Option<Camera>) -> (width: u32)
    ensures
        width == side_of(camera_properties(*camera), "width"@, 1280),
{
    canvas_side(camera, "width", DEFAULT_WIDTH)
}

/// The height of the canvas: what the camera states, or 720 pixels.
pub fn get_camera_height(camera: &Option<Camera>) -> (height: u32)
    ensures
        height == side_of(camera_properties(*camera), "height"@, 720),
{
    canvas_side(camera, "height", DEFAULT_HEIGHT)
}

} // verus!
