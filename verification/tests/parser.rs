use beam::ast::{
    Animation, BeamScript, Camera, Object, Property, Scalar, Scene, Timeline, Value,
};
use beam::parser::{
    link_timelines, parse_animation, parse_animation_time, parse_camera, parse_object,
    parse_property, parse_scene, parse_string_literal, parse_target_property,
    parse_temp_timeline, parse_time_value, parse_value, span_of, unquote, BeamParser,
    ParsedTimeline,
};
use beam::syntax::{read_count, Pair, Rule};
use beam::time::Duration;

fn float(x: f64) -> Scalar {
    Scalar::from_bits(x.to_bits())
}

// Trees as the grammar makes them.

fn node(rule: Rule, text: &str, inner: Vec<Pair>) -> Pair {
    Pair { rule, text: text.to_string(), number: text.parse::<f64>().ok().map(float), inner }
}

fn leaf(rule: Rule, text: &str) -> Pair {
    node(rule, text, vec![])
}

fn quoted(text: &str) -> Pair {
    leaf(Rule::StringLiteral, &format!("\"{}\"", text))
}

fn value(inner: Pair) -> Pair {
    let text = inner.text.clone();
    node(Rule::Other, &text, vec![inner])
}

fn number_value(text: &str) -> Pair {
    value(leaf(Rule::Number, text))
}

fn color_value(text: &str) -> Pair {
    value(leaf(Rule::HexColor, text))
}

fn tuple_value(x: &str, y: &str) -> Pair {
    value(node(
        Rule::Tuple,
        &format!("({}, {})", x, y),
        vec![leaf(Rule::Number, x), leaf(Rule::Number, y)],
    ))
}

fn property_node(name: &str, value: Pair) -> Pair {
    node(Rule::Other, &format!("{}: {}", name, value.text), vec![leaf(Rule::Other, name), value])
}

fn object_node(kind: &str, name: &str, properties: Vec<Pair>) -> Pair {
    let mut inner = vec![leaf(Rule::Other, kind), quoted(name)];
    inner.extend(properties);
    node(Rule::Object, kind, inner)
}

fn time(count: &str, unit: &str) -> Pair {
    node(
        Rule::Other,
        &format!("{}{}", count, unit),
        vec![leaf(Rule::Other, count), leaf(Rule::Other, unit)],
    )
}

fn duration_node(count: &str, unit: &str) -> Pair {
    node(Rule::SceneDuration, "duration", vec![time(count, unit)])
}

fn scene_node(name: &str, contents: Vec<Pair>) -> Pair {
    let mut inner = vec![quoted(name)];
    inner.extend(contents);
    node(Rule::Scene, "scene", inner)
}

fn instant(count: &str, unit: &str) -> Pair {
    node(Rule::Other, "at", vec![node(Rule::AnimationInstant, "at", vec![time(count, unit)])])
}

fn range(from: (&str, &str), to: (&str, &str)) -> Pair {
    node(
        Rule::Other,
        "at",
        vec![node(Rule::AnimationRange, "at", vec![time(from.0, from.1), time(to.0, to.1)])],
    )
}

fn target(object: &str, property: &str) -> Pair {
    node(Rule::Other, "target", vec![quoted(object), leaf(Rule::Other, property)])
}

fn easing(name: &str) -> Pair {
    node(Rule::Other, "with", vec![leaf(Rule::Other, name)])
}

fn animation_node(time: Pair, target: Pair, to: Pair, easing: Option<Pair>) -> Pair {
    let mut inner = vec![time, target, to];
    inner.extend(easing);
    node(Rule::Other, "animation", inner)
}

fn timeline_node(scene: &str, animations: Vec<Pair>) -> Pair {
    let mut inner = vec![quoted(scene)];
    inner.extend(animations);
    node(Rule::Timeline, "timeline", inner)
}

fn camera_node(properties: Vec<Pair>) -> Pair {
    node(Rule::Camera, "camera", properties)
}

fn file(mut parts: Vec<Pair>) -> Pair {
    parts.push(leaf(Rule::EndOfInput, ""));
    node(Rule::File, "file", parts)
}

fn parse(tree: Pair) -> Option<BeamScript> {
    BeamParser::build(&tree).map(|(script, _)| script)
}

fn prop(name: &str, value: Value) -> Property {
    Property { name: name.to_string(), value }
}

#[test]
fn test_parse_scene() {
    let input = file(vec![scene_node(
        "MyFirstAnimation",
        vec![object_node(
            "circle",
            "logo",
            vec![
                property_node("radius", number_value("50")),
                property_node("fill", color_value("#00A0D8")),
                property_node("position", tuple_value("0", "0")),
            ],
        )],
    )]);
    let expected = BeamScript {
        scenes: vec![Scene {
            name: "MyFirstAnimation".to_string(),
            items: vec![Object {
                kind: "circle".to_string(),
                name: "logo".to_string(),
                properties: vec![
                    prop("radius", Value::Number(float(50.0))),
                    prop("fill", Value::Color("#00A0D8".to_string())),
                    prop("position", Value::Tuple(float(0.0), float(0.0))),
                ],
            }],
            timeline: None,
            duration: None,
        }],
        ..Default::default()
    };
    let ast = parse(input).unwrap();
    assert_eq!(ast, expected);
}

#[test]
fn test_parse_scene_with_timeline() {
    let input = file(vec![
        scene_node(
            "MyAnimation",
            vec![object_node("square", "box", vec![property_node("size", number_value("100"))])],
        ),
        timeline_node(
            "MyAnimation",
            vec![animation_node(instant("1", "s"), target("box", "color"), color_value("#FF0000"), None)],
        ),
    ]);
    let expected = BeamScript {
        scenes: vec![Scene {
            name: "MyAnimation".to_string(),
            items: vec![Object {
                kind: "square".to_string(),
                name: "box".to_string(),
                properties: vec![prop("size", Value::Number(float(100.0)))],
            }],
            timeline: Some(Timeline {
                animations: vec![Animation {
                    start: Duration::from_secs(1),
                    end: None,
                    target_object: "box".to_string(),
                    property: "color".to_string(),
                    to: Value::Color("#FF0000".to_string()),
                    easing: None,
                }],
            }),
            duration: None,
        }],
        ..Default::default()
    };
    let ast = parse(input).unwrap();
    assert_eq!(ast, expected);
}

#[test]
fn test_parse_camera() {
    let input = file(vec![camera_node(vec![
        property_node("width", number_value("1280")),
        property_node("height", number_value("720")),
        property_node("background_color", color_value("#333333")),
    ])]);
    let expected = BeamScript {
        camera: Some(Camera {
            properties: vec![
                prop("width", Value::Number(float(1280.0))),
                prop("height", Value::Number(float(720.0))),
                prop("background_color", Value::Color("#333333".to_string())),
            ],
        }),
        ..Default::default()
    };
    let ast = parse(input).unwrap();
    assert_eq!(ast, expected);
}

#[test]
fn test_parse_triangle_scene() {
    let input = file(vec![scene_node(
        "MyTriangleAnimation",
        vec![object_node(
            "triangle",
            "tri",
            vec![
                property_node("p1", tuple_value("10", "10")),
                property_node("p2", tuple_value("100", "10")),
                property_node("p3", tuple_value("55", "100")),
                property_node("fill", color_value("#00FF00")),
            ],
        )],
    )]);
    let expected = BeamScript {
        scenes: vec![Scene {
            name: "MyTriangleAnimation".to_string(),
            items: vec![Object {
                kind: "triangle".to_string(),
                name: "tri".to_string(),
                properties: vec![
                    prop("p1", Value::Tuple(float(10.0), float(10.0))),
                    prop("p2", Value::Tuple(float(100.0), float(10.0))),
                    prop("p3", Value::Tuple(float(55.0), float(100.0))),
                    prop("fill", Value::Color("#00FF00".to_string())),
                ],
            }],
            timeline: None,
            duration: None,
        }],
        ..Default::default()
    };
    let ast = parse(input).unwrap();
    assert_eq!(ast, expected);
}

#[test]
fn test_parse_rotation_animation() {
    let input = file(vec![
        scene_node(
            "Test",
            vec![object_node("square", "s", vec![property_node("position", tuple_value("100", "100"))])],
        ),
        timeline_node(
            "Test",
            vec![animation_node(
                range(("0", "s"), ("1", "s")),
                target("s", "rotation"),
                number_value("360"),
                None,
            )],
        ),
    ]);

    let script = parse(input).unwrap();
    let scene = &script.scenes[0];
    let timeline = scene.timeline.as_ref().unwrap();
    let animation = &timeline.animations[0];

    assert_eq!(animation.property, "rotation");
    assert_eq!(animation.to, Value::Number(float(360.0)));
}

#[test]
fn test_parse_border_color() {
    let input = file(vec![scene_node(
        "Test",
        vec![object_node("square", "s", vec![property_node("border_color", color_value("#FF0000"))])],
    )]);
    let script = parse(input).unwrap();
    let scene = &script.scenes[0];
    let object = &scene.items[0];
    let property = &object.properties[0];

    assert_eq!(property.name, "border_color");
    assert_eq!(property.value, Value::Color("#FF0000".to_string()));
}

#[test]
fn test_parse_rectangle() {
    let input = file(vec![scene_node(
        "Test",
        vec![object_node(
            "rectangle",
            "r",
            vec![
                property_node("width", number_value("100")),
                property_node("height", number_value("50")),
            ],
        )],
    )]);
    let script = parse(input).unwrap();
    let scene = &script.scenes[0];
    let object = &scene.items[0];
    assert_eq!(object.kind, "rectangle");
}

#[test]
fn test_parse_ellipse() {
    let input = file(vec![scene_node(
        "Test",
        vec![object_node(
            "ellipse",
            "e",
            vec![property_node("rx", number_value("50")), property_node("ry", number_value("25"))],
        )],
    )]);
    let script = parse(input).unwrap();
    let scene = &script.scenes[0];
    let object = &scene.items[0];
    assert_eq!(object.kind, "ellipse");
}

#[test]
fn test_parse_line() {
    let input = file(vec![scene_node(
        "Test",
        vec![object_node(
            "line",
            "l",
            vec![
                property_node("p1", tuple_value("0", "0")),
                property_node("p2", tuple_value("100", "100")),
            ],
        )],
    )]);
    let script = parse(input).unwrap();
    let scene = &script.scenes[0];
    let object = &scene.items[0];
    assert_eq!(object.kind, "line");
}

#[test]
fn test_parse_arrow() {
    let input = file(vec![scene_node("Test", vec![object_node("arrow", "a", vec![])])]);
    let script = parse(input).unwrap();
    assert_eq!(script.scenes[0].items[0].kind, "arrow");
}

#[test]
fn test_parse_double_arrow() {
    let input = file(vec![scene_node("Test", vec![object_node("double_arrow", "da", vec![])])]);
    let script = parse(input).unwrap();
    assert_eq!(script.scenes[0].items[0].kind, "double_arrow");
}

#[test]
fn test_parse_vector() {
    let input = file(vec![scene_node("Test", vec![object_node("vector", "v", vec![])])]);
    let script = parse(input).unwrap();
    assert_eq!(script.scenes[0].items[0].kind, "vector");
}

#[test]
fn test_parse_empty_scene() {
    let input = file(vec![scene_node("EmptyScene", vec![])]);
    let script = parse(input).unwrap();
    assert_eq!(script.scenes.len(), 1);
    assert_eq!(script.scenes[0].name, "EmptyScene");
    assert!(script.scenes[0].items.is_empty());
}

#[test]
fn test_parse_scene_with_duration() {
    let input = file(vec![scene_node(
        "TimedScene",
        vec![
            duration_node("5", "s"),
            object_node("circle", "c", vec![property_node("radius", number_value("25"))]),
        ],
    )]);
    let script = parse(input).unwrap();
    assert_eq!(script.scenes[0].duration, Some(Duration::from_secs(5)));
}

#[test]
fn test_parse_duration_milliseconds() {
    let input = file(vec![scene_node("Test", vec![duration_node("1500", "ms")])]);
    let script = parse(input).unwrap();
    assert_eq!(script.scenes[0].duration, Some(Duration::from_millis(1500)));
}

#[test]
fn test_parse_animation_range_with_easing() {
    let input = file(vec![
        scene_node(
            "Test",
            vec![object_node("square", "s", vec![property_node("position", tuple_value("0", "0"))])],
        ),
        timeline_node(
            "Test",
            vec![animation_node(
                range(("1", "s"), ("3", "s")),
                target("s", "position"),
                tuple_value("100", "100"),
                Some(easing("ease_in")),
            )],
        ),
    ]);
    let script = parse(input).unwrap();
    let timeline = script.scenes[0].timeline.as_ref().unwrap();
    let animation = &timeline.animations[0];

    assert_eq!(animation.start, Duration::from_secs(1));
    assert_eq!(animation.end, Some(Duration::from_secs(3)));
    assert_eq!(animation.easing, Some("ease_in".to_string()));
}

#[test]
fn test_parse_multiple_scenes() {
    let input = file(vec![
        scene_node(
            "Scene1",
            vec![object_node("circle", "c1", vec![property_node("radius", number_value("10"))])],
        ),
        scene_node(
            "Scene2",
            vec![object_node("square", "s1", vec![property_node("size", number_value("50"))])],
        ),
    ]);
    let script = parse(input).unwrap();
    assert_eq!(script.scenes.len(), 2);
    assert_eq!(script.scenes[0].name, "Scene1");
    assert_eq!(script.scenes[1].name, "Scene2");
}

#[test]
fn test_parse_invalid_input_fails() {
    let input = file(vec![leaf(Rule::Other, "invalid beam syntax")]);
    let result = parse(input);
    assert!(result.is_none());
}

#[test]
fn test_parse_timeline_for_nonexistent_scene() {
    let input = file(vec![
        scene_node(
            "Scene1",
            vec![object_node("circle", "c", vec![property_node("radius", number_value("10"))])],
        ),
        timeline_node(
            "NonexistentScene",
            vec![animation_node(instant("1", "s"), target("c", "radius"), number_value("20"), None)],
        ),
    ]);
    let (script, dropped) = BeamParser::build(&input).unwrap();
    assert_eq!(script.scenes.len(), 1);
    assert!(script.scenes[0].timeline.is_none());
    assert_eq!(dropped, vec!["NonexistentScene".to_string()]);
}

fn scene(name: &str) -> Scene {
    Scene { name: name.to_string(), items: vec![], timeline: None, duration: None }
}

fn jump(secs: u64, object: &str) -> Animation {
    Animation {
        start: Duration::from_secs(secs),
        end: None,
        target_object: object.to_string(),
        property: "color".to_string(),
        to: Value::Color("#FF0000".to_string()),
        easing: None,
    }
}

fn timeline(scene_name: &str, animations: Vec<Animation>) -> ParsedTimeline {
    ParsedTimeline { scene_name: scene_name.to_string(), animations }
}

#[test]
fn timeline_is_linked_to_the_scene_of_its_name() {
    let mut scenes = vec![scene("MyAnimation"), scene("Other")];
    let dropped = link_timelines(&mut scenes, &vec![timeline("MyAnimation", vec![jump(1, "box")])]);
    assert!(dropped.is_empty());
    assert_eq!(scenes[0].timeline, Some(Timeline { animations: vec![jump(1, "box")] }));
    assert_eq!(scenes[1].timeline, None);
    assert_eq!(scenes[0].name, "MyAnimation");
}

#[test]
fn later_timeline_replaces_earlier_and_first_scene_of_a_name_gets_it() {
    let mut scenes = vec![scene("A"), scene("B"), scene("A")];
    let dropped = link_timelines(
        &mut scenes,
        &vec![
            timeline("A", vec![jump(1, "x")]),
            timeline("C", vec![]),
            timeline("B", vec![jump(2, "y")]),
            timeline("A", vec![jump(3, "z")]),
            timeline("D", vec![]),
        ],
    );
    assert_eq!(dropped, vec!["C".to_string(), "D".to_string()]);
    assert_eq!(scenes[0].timeline, Some(Timeline { animations: vec![jump(3, "z")] }));
    assert_eq!(scenes[1].timeline, Some(Timeline { animations: vec![jump(2, "y")] }));
    assert_eq!(scenes[2].timeline, None);
}

#[test]
fn script_is_assembled_from_its_parts() {
    let camera = Some(Camera { properties: vec![] });
    let (script, dropped) = BeamParser::assemble(
        camera.clone(),
        vec![scene("Scene1"), scene("Scene2")],
        &vec![timeline("Scene2", vec![jump(1, "c")]), timeline("Nowhere", vec![])],
    );
    assert_eq!(script.camera, camera);
    assert_eq!(script.scenes.len(), 2);
    assert_eq!(script.scenes[0].name, "Scene1");
    assert!(script.scenes[0].timeline.is_none());
    assert_eq!(script.scenes[1].timeline, Some(Timeline { animations: vec![jump(1, "c")] }));
    assert_eq!(dropped, vec!["Nowhere".to_string()]);
}

#[test]
fn time_values_have_units() {
    assert_eq!(span_of(5, "s"), Some(Duration::from_secs(5)));
    assert_eq!(span_of(1500, "ms"), Some(Duration::from_millis(1500)));
    assert_eq!(span_of(1500, "ms").unwrap().as_nanos(), 1_500_000_000);
    assert_eq!(span_of(3, "s").unwrap().as_nanos(), 3_000_000_000);
    assert_eq!(span_of(1, "m"), None);
    assert_eq!(span_of(1, ""), None);
    assert_eq!(span_of(1, "S"), None);
    assert_eq!(parse_time_value(&time("5", "s")), Some(Duration::from_secs(5)));
    assert_eq!(parse_time_value(&time("007", "ms")), Some(Duration::from_millis(7)));
    assert_eq!(parse_time_value(&time("5", "h")), None);
    assert_eq!(parse_time_value(&time("five", "s")), None);
    assert_eq!(parse_time_value(&time("99999999999999999999", "s")), None);
    assert_eq!(parse_time_value(&leaf(Rule::Other, "5s")), None);
}

#[test]
fn counts_are_read_as_the_standard_library_reads_them() {
    let samples = [
        "0", "7", "42", "007", "+5", "+", "", "-5", "5 ", " 5", "1_000", "12a", "٣",
        "18446744073709551615", "18446744073709551616", "018446744073709551615",
        "99999999999999999999999", "+18446744073709551615", "++1",
    ];
    for text in samples {
        assert_eq!(read_count(text), text.parse::<u64>().ok(), "{:?}", text);
    }
}

#[test]
fn string_literals_lose_their_quotes() {
    assert_eq!(unquote("\"MyFirstAnimation\""), "MyFirstAnimation");
    assert_eq!(unquote("\"\""), "");
    assert_eq!(unquote("\""), "");
    assert_eq!(unquote(""), "");
    assert_eq!(unquote("plain"), "plain");
    assert_eq!(unquote("\"\"a\"b\"\"\""), "a\"b");
    assert_eq!(unquote("\"héllo wörld\""), "héllo wörld");
    for text in ["\"x\"", "\"\"\"", "a\"", "\"a", "ü\"ü"] {
        assert_eq!(unquote(text), text.trim_matches('"'));
    }
    assert_eq!(parse_string_literal(&quoted("logo")), "logo");
}

#[test]
fn values_are_read_by_rule() {
    assert_eq!(parse_value(&number_value("0.5")), Some(Value::Number(float(0.5))));
    assert_eq!(parse_value(&number_value("-12")), Some(Value::Number(float(-12.0))));
    assert_eq!(parse_value(&value(quoted("hi"))), Some(Value::String("hi".to_string())));
    assert_eq!(parse_value(&color_value("#abcdef")), Some(Value::Color("#abcdef".to_string())));
    assert_eq!(parse_value(&tuple_value("1.5", "2")), Some(Value::Tuple(float(1.5), float(2.0))));
    assert_eq!(parse_value(&value(leaf(Rule::Number, "many"))), None);
    assert_eq!(parse_value(&value(leaf(Rule::Other, "5"))), None);
    assert_eq!(parse_value(&value(node(Rule::Tuple, "(1)", vec![leaf(Rule::Number, "1")]))), None);
    assert_eq!(parse_value(&leaf(Rule::Other, "5")), None);
}

#[test]
fn parts_are_read_one_by_one() {
    assert_eq!(
        parse_property(&property_node("size", number_value("3"))),
        Some(prop("size", Value::Number(float(3.0))))
    );
    assert_eq!(parse_property(&leaf(Rule::Comment, "// note")), None);
    assert_eq!(
        parse_object(&object_node("circle", "c", vec![property_node("r", number_value("1"))])),
        Some(Object {
            kind: "circle".to_string(),
            name: "c".to_string(),
            properties: vec![prop("r", Value::Number(float(1.0)))],
        })
    );
    assert_eq!(parse_object(&object_node("circle", "c", vec![leaf(Rule::Comment, "//")])), None);
    assert_eq!(parse_object(&node(Rule::Object, "circle", vec![leaf(Rule::Other, "circle")])), None);
    assert_eq!(
        parse_camera(&camera_node(vec![property_node("width", number_value("8"))])),
        Some(Camera { properties: vec![prop("width", Value::Number(float(8.0)))] })
    );
    assert_eq!(parse_camera(&camera_node(vec![])), Some(Camera { properties: vec![] }));
    assert_eq!(
        parse_animation_time(&instant("2", "s")),
        Some((Duration::from_secs(2), None))
    );
    assert_eq!(
        parse_animation_time(&range(("250", "ms"), ("2", "s"))),
        Some((Duration::from_millis(250), Some(Duration::from_secs(2))))
    );
    assert_eq!(parse_animation_time(&time("2", "s")), None);
    assert_eq!(
        parse_target_property(&target("box", "color")),
        Some(("box".to_string(), "color".to_string()))
    );
    assert_eq!(parse_target_property(&node(Rule::Other, "t", vec![quoted("box")])), None);
    assert_eq!(
        parse_animation(&animation_node(
            range(("1", "s"), ("3", "s")),
            target("s", "position"),
            tuple_value("100", "100"),
            Some(easing("ease_in")),
        )),
        Some(Animation {
            start: Duration::from_secs(1),
            end: Some(Duration::from_secs(3)),
            target_object: "s".to_string(),
            property: "position".to_string(),
            to: Value::Tuple(float(100.0), float(100.0)),
            easing: Some("ease_in".to_string()),
        })
    );
    assert_eq!(
        parse_animation(&animation_node(
            instant("1", "s"),
            target("s", "position"),
            number_value("1"),
            Some(leaf(Rule::Other, "with")),
        )),
        None
    );
    assert_eq!(
        parse_temp_timeline(&timeline_node(
            "S",
            vec![animation_node(instant("1", "s"), target("c", "color"), color_value("#FF0000"), None)],
        )),
        Some(timeline("S", vec![jump(1, "c")]))
    );
    assert_eq!(parse_temp_timeline(&timeline_node("S", vec![leaf(Rule::Other, "x")])), None);
}

#[test]
fn scenes_keep_their_last_duration_and_pass_over_other_nodes() {
    let tree = scene_node(
        "S",
        vec![
            duration_node("1", "s"),
            leaf(Rule::Comment, "// note"),
            object_node("circle", "a", vec![]),
            duration_node("2", "s"),
            object_node("square", "b", vec![]),
        ],
    );
    let scene = parse_scene(&tree).unwrap();
    assert_eq!(scene.duration, Some(Duration::from_secs(2)));
    assert_eq!(scene.items.len(), 2);
    assert_eq!(scene.items[0].name, "a");
    assert_eq!(scene.items[1].name, "b");
    assert!(scene.timeline.is_none());
    assert_eq!(parse_scene(&scene_node("S", vec![duration_node("1", "h")])), None);
    assert_eq!(parse_scene(&node(Rule::Scene, "scene", vec![])), None);
}

#[test]
fn last_camera_of_a_file_counts() {
    let tree = file(vec![
        camera_node(vec![property_node("width", number_value("1"))]),
        leaf(Rule::Comment, "// note"),
        camera_node(vec![property_node("width", number_value("2"))]),
    ]);
    let script = parse(tree).unwrap();
    assert_eq!(
        script.camera,
        Some(Camera { properties: vec![prop("width", Value::Number(float(2.0)))] })
    );
    assert!(script.scenes.is_empty());
}
