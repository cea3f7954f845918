//! What a software renderer reads from a scene before it draws: the canvas,
//! the kind of each shape, and typed properties by name.

use vstd::prelude::*;
use vstd::string::*;
use vstd::utf8::*;

use crate::ast::{Camera, Property, PropertyView, Scalar, Value, ValueView, properties_view};
use crate::color::{read_channels, strict_rgb};
use crate::lookup::{first_property, first_value, last_property, last_value};
use crate::number::whole_u32;
use crate::raster::{
    Picture, all_rows, can_hold, compose, plain, rows_of, stacked, width_of,
};
use crate::text::same_text;

verus! {

/// The width of the canvas when the camera states none.
pub const DEFAULT_WIDTH: u32 = 1920;

/// The height of the canvas when the camera states none.
pub const DEFAULT_HEIGHT: u32 = 1080;

/// The background when the camera states none: a dark grey, opaque.
pub fn default_background() -> (rgba: [u8; 4])
    ensures
        rgba == [25u8, 25u8, 25u8, 255u8],
{
    [25, 25, 25, 255]
}

/// The colour that a text spells, opaque; a text that spells none gives
/// white.
pub open spec fn rgba_of(bytes: Seq<u8>) -> [u8; 4] {
    match strict_rgb(bytes) {
        Some((r, g, b)) => [r, g, b, 255u8],
        None => [255u8, 255u8, 255u8, 255u8],
    }
}

/// Reads a colour text strictly: six characters behind the `#` signs, each
/// pair of them a number in base sixteen. The colour is opaque.
pub fn hex_to_rgb(hex: &str) -> (rgba: Option<[u8; 4]>)
    ensures
        rgba == match strict_rgb(hex.spec_bytes()) {
            Some((r, g, b)) => Some([r, g, b, 255u8]),
            None => None,
        },
{
    match read_channels(hex) {
        Some((Some(r), Some(g), Some(b))) => Some([r, g, b, 255]),
        _ => None,
    }
}

/// Reads a colour text; a text that spells no colour gives white.
pub fn hex_to_rgba(hex: &str) -> (rgba: [u8; 4])
    ensures
        rgba == rgba_of(hex.spec_bytes()),
{
    match read_channels(hex) {
        Some((Some(r), Some(g), Some(b))) => [r, g, b, 255],
        _ => [255, 255, 255, 255],
    }
}

/// The number in a value, if it is one.
pub open spec fn as_number(value: Option<ValueView>) -> Option<Scalar> {
    match value {
        Some(ValueView::Number(n)) => Some(n),
        _ => None,
    }
}

/// The pair of numbers in a value, if it is one.
pub open spec fn as_tuple(value: Option<ValueView>) -> Option<(Scalar, Scalar)> {
    match value {
        Some(ValueView::Tuple(x, y)) => Some((x, y)),
        _ => None,
    }
}

/// The colour text in a value, if it is one.
pub open spec fn as_color(value: Option<ValueView>) -> Option<Seq<char>> {
    match value {
        Some(ValueView::Color(text)) => Some(text),
        _ => None,
    }
}

/// The properties of the camera, none without a camera.
pub open spec fn camera_properties(camera: Option<Camera>) -> Seq<PropertyView> {
    match camera {
        Some(camera) => camera@,
        None => Seq::empty(),
    }
}

/// The number that the camera states under `name`: its first property of
/// that name, when that is a number.
pub fn get_camera_property_number(camera: &Option<Camera>, name: &str) -> (number: Option<Scalar>)
    ensures
        number == as_number(first_value(camera_properties(*camera), name@)),
{
    match camera {
        Some(camera) => match first_property(&camera.properties, name) {
            Some(Value::Number(n)) => Some(*n),
            _ => None,
        },
        None => None,
    }
}

/// The colour that the camera states under `name`: its first property of
/// that name, when that is a colour; a text that spells no colour gives
/// white.
pub fn get_camera_property_color(camera: &Option<Camera>, name: &str) -> (rgba: Option<[u8; 4]>)
    ensures
        rgba == match as_color(first_value(camera_properties(*camera), name@)) {
            Some(text) => Some(rgba_of(encode_utf8(text))),
            None => None,
        },
{
    match camera {
        Some(camera) => match first_property(&camera.properties, name) {
            Some(Value::Color(text)) => Some(hex_to_rgba(text.as_str())),
            _ => None,
        },
        None => None,
    }
}

/// The number that an object states under `name`: its last property of that
/// name, when that is a number.
pub fn get_property_number(properties: &Vec<Property>, name: &str) -> (number: Option<Scalar>)
    ensures
        number == as_number(last_value(properties_view(properties@), name@)),
{
    match last_property(properties, name) {
        Some(Value::Number(n)) => Some(*n),
        _ => None,
    }
}

/// The pair of numbers that an object states under `name`: its last property
/// of that name, when that is a pair.
pub fn get_property_tuple(properties: &Vec<Property>, name: &str) -> (pair: Option<
    (Scalar, Scalar),
>)
    ensures
        pair == as_tuple(last_value(properties_view(properties@), name@)),
{
    match last_property(properties, name) {
        Some(Value::Tuple(x, y)) => Some((*x, *y)),
        _ => None,
    }
}

/// The colour text that an object states under `name`: its last property of
/// that name, when that is a colour.
pub fn get_property_color_str(properties: &Vec<Property>, name: &str) -> (text: Option<String>)
    ensures
        match text {
            Some(t) => as_color(last_value(properties_view(properties@), name@)) == Some(t@),
            None => as_color(last_value(properties_view(properties@), name@)) is None,
        },
{
    match last_property(properties, name) {
        Some(Value::Color(text)) => Some(text.clone()),
        _ => None,
    }
}

/// The canvas of a picture: its size in pixels and its background colour.
#[derive(Clone, Copy, Debug, PartialEq, Eq)]
pub struct Canvas {
    pub width: u32,
    pub height: u32,
    pub background: [u8; 4],
}

/// A side of the canvas: the whole part of the number that the camera states
/// under `name`, or `fallback` where it states no number.
pub open spec fn side_of(camera: Seq<PropertyView>, name: Seq<char>, fallback: u32) -> u32 {
    match as_number(first_value(camera, name)) {
        Some(n) => whole_u32(n.bits),
        None => fallback,
    }
}

/// The background of the canvas: the colour that the camera states under
/// `background_color`, or the dark grey where it states no colour.
pub open spec fn background_of(camera: Seq<PropertyView>) -> [u8; 4] {
    match as_color(first_value(camera, "background_color"@)) {
        Some(text) => rgba_of(encode_utf8(text)),
        None => [25u8, 25u8, 25u8, 255u8],
    }
}

/// A side of the canvas.
pub fn canvas_side(camera: &Option<Camera>, name: &str, fallback: u32) -> (side: u32)
    ensures
        side == side_of(camera_properties(*camera), name@, fallback),
{
    match get_camera_property_number(camera, name) {
        Some(n) => n.to_u32(),
        None => fallback,
    }
}

/// The canvas that the camera asks for: 1920 by 1080 pixels on dark grey
/// unless it states otherwise.
pub fn canvas(camera: &Option<Camera>) -> (canvas: Canvas)
    ensures
        canvas.width == side_of(camera_properties(*camera), "width"@, 1920),
        canvas.height == side_of(camera_properties(*camera), "height"@, 1080),
        canvas.background == background_of(camera_properties(*camera)),
{
    let background = match get_camera_property_color(camera, "background_color") {
        Some(rgba) => rgba,
        None => default_background(),
    };
    Canvas {
        width: canvas_side(camera, "width", DEFAULT_WIDTH),
        height: canvas_side(camera, "height", DEFAULT_HEIGHT),
        background,
    }
}

/// The picture of a scene whose shapes are drawn already, each on a layer of
/// its own: the canvas that the camera asks for with the layers laid over
/// it, the first shape lowest. Nothing when a picture of the canvas's size
/// cannot be made.
pub fn render_layers(camera: &Option<Camera>, layers: &Vec<Picture>) -> (picture: Option<Picture>)
    ensures
        picture is Some <==> can_hold(
            side_of(camera_properties(*camera), "width"@, 1920),
            side_of(camera_properties(*camera), "height"@, 1080),
        ),
        picture matches Some(p) ==> {
            let width = side_of(camera_properties(*camera), "width"@, 1920);
            let height = side_of(camera_properties(*camera), "height"@, 1080);
            &&& width_of(p) == width
            &&& rows_of(p) == stacked(
                plain(width as nat, height as nat, background_of(camera_properties(*camera))),
                all_rows(layers@),
            )
        },
{
    let canvas = canvas(camera);
    compose(canvas.width, canvas.height, canvas.background, layers)
}

/// The kinds of shape that a renderer knows.
#[derive(Clone, Copy, Debug, PartialEq, Eq, Structural)]
pub enum Shape {
    Circle,
    Square,
    Triangle,
    Rectangle,
    Ellipse,
    Line,
    Arrow,
    Vector,
    DoubleArrow,
    /// A kind that this crate does not know: nothing is drawn for it.
    Unknown,
}

/// The shape that a kind tag names.
pub open spec fn shape_named(kind: Seq<char>) -> Shape {
    if kind == "circle"@ {
        Shape::Circle
    } else if kind == "square"@ {
        Shape::Square
    } else if kind == "triangle"@ {
        Shape::Triangle
    } else if kind == "rectangle"@ {
        Shape::Rectangle
    } else if kind == "ellipse"@ {
        Shape::Ellipse
    } else if kind == "line"@ {
        Shape::Line
    } else if kind == "arrow"@ {
        Shape::Arrow
    } else if kind == "vector"@ {
        Shape::Vector
    } else if kind == "double_arrow"@ {
        Shape::DoubleArrow
    } else {
        Shape::Unknown
    }
}

/// The shape that the kind tag `kind` names.
pub fn shape_of(kind: &str) -> (shape: Shape)
    ensures
        shape == shape_named(kind@),
{
    if same_text(kind, "circle") {
        Shape::Circle
    } else if same_text(kind, "square") {
        Shape::Square
    } else if same_text(kind, "triangle") {
        Shape::Triangle
    } else if same_text(kind, "rectangle") {
        Shape::Rectangle
    } else if same_text(kind, "ellipse") {
        Shape::Ellipse
    } else if same_text(kind, "line") {
        Shape::Line
    } else if same_text(kind, "arrow") {
        Shape::Arrow
    } else if same_text(kind, "vector") {
        Shape::Vector
    } else if same_text(kind, "double_arrow") {
        Shape::DoubleArrow
    } else {
        Shape::Unknown
    }
}

} // verus!
