use beam::animator::{
    apply_settled, assign, color_value, hex_to_rgb, plan_blend, resolve, resolve_target,
    truncated_color,
    Assignment, Blend, Easing, MissingAnimationTarget, Resolution,
};
use beam::ast::{Animation, Object, Property, Scalar, Scene, Timeline, Value};
use beam::time::Duration;

fn num(x: f64) -> Scalar {
    Scalar::from_bits(x.to_bits())
}

fn as_double(s: Scalar) -> f64 {
    f64::from_bits(s.to_bits())
}

fn tuple(x: f64, y: f64) -> Value {
    Value::Tuple(num(x), num(y))
}

// The arithmetic on doubles that the library leaves to its caller.
fn apply_easing(t: f64, easing_type: &str) -> f64 {
    match Easing::from_name(easing_type) {
        Easing::EaseIn => t * t,
        Easing::EaseOut => t * (2.0 - t),
        Easing::EaseInOut => {
            if t < 0.5 {
                2.0 * t * t
            } else {
                -1.0 + (4.0 - 2.0 * t) * t
            }
        }
        Easing::Linear => t,
    }
}

fn eased(t: f64, easing: Easing) -> f64 {
    match easing {
        Easing::EaseIn => apply_easing(t, "ease_in"),
        Easing::EaseOut => apply_easing(t, "ease_out"),
        Easing::EaseInOut => apply_easing(t, "ease_in_out"),
        Easing::Linear => t,
    }
}

fn seconds(duration: Duration) -> f64 {
    let nanos = duration.as_nanos();
    (nanos / 1_000_000_000) as f64 + (nanos % 1_000_000_000) as f64 / 1e9
}

fn progress(elapsed: Duration, span: Duration) -> f64 {
    let animation_duration = seconds(span);
    if animation_duration > 0.0 {
        seconds(elapsed) / animation_duration
    } else {
        1.0
    }
}

fn lerp(start: &Value, end: &Value, factor: f64) -> Value {
    match plan_blend(start, end) {
        Blend::Numbers { from, to } => {
            Value::Number(num(as_double(from) + (as_double(to) - as_double(from)) * factor))
        }
        Blend::Tuples { from, to } => tuple(
            as_double(from.0) + (as_double(to.0) - as_double(from.0)) * factor,
            as_double(from.1) + (as_double(to.1) - as_double(from.1)) * factor,
        ),
        Blend::Colors { from, to } => {
            let r = from.0 as f64 + (to.0 as f64 - from.0 as f64) * factor;
            let g = from.1 as f64 + (to.1 as f64 - from.1 as f64) * factor;
            let b = from.2 as f64 + (to.2 as f64 - from.2 as f64) * factor;
            truncated_color(num(r), num(g), num(b))
        }
        Blend::Jump => end.clone(),
    }
}

fn apply_animations(scene: &mut Scene, timeline: &Timeline, current_time: Duration) {
    let plan = resolve(scene, timeline, current_time)
        .expect("Animated property not found in scene object");
    let mut frame_scene = apply_settled(scene, &plan);
    for Assignment { object, property, outcome } in plan {
        if let Resolution::Blending { from, to, elapsed, span, easing } = outcome {
            let factor = progress(elapsed, span);
            assert!(assign(&mut frame_scene, object, property, lerp(&from, &to, eased(factor, easing))));
        }
    }
    *scene = frame_scene;
}

fn one_object(kind: &str, name: &str, property: &str, value: Value, secs: u64) -> Scene {
    Scene {
        name: "TestScene".to_string(),
        items: vec![Object {
            kind: kind.to_string(),
            name: name.to_string(),
            properties: vec![Property { name: property.to_string(), value }],
        }],
        timeline: None,
        duration: Some(Duration::from_secs(secs)),
    }
}

fn ranged(start: u64, end: u64, object: &str, property: &str, to: Value, easing: Option<&str>) -> Animation {
    Animation {
        start: Duration::from_secs(start),
        end: Some(Duration::from_secs(end)),
        target_object: object.to_string(),
        property: property.to_string(),
        to,
        easing: easing.map(|e| e.to_string()),
    }
}

fn first_value(scene: &Scene, property: &str) -> Value {
    scene.items[0].properties.iter().find(|p| p.name == property).unwrap().value.clone()
}

#[test]
fn test_ease_in_animation() {
    let mut scene = one_object("square", "test_square", "position", tuple(0.0, 0.0), 1);
    let timeline = Timeline {
        animations: vec![ranged(0, 1, "test_square", "position", tuple(100.0, 0.0), Some("ease_in"))],
    };

    let current_time = Duration::from_millis(500); // 0.5s
    assert_eq!(
        resolve(&scene, &timeline, current_time),
        Ok(vec![Assignment {
            object: 0,
            property: 0,
            outcome: Resolution::Blending {
                from: tuple(0.0, 0.0),
                to: tuple(100.0, 0.0),
                elapsed: Duration::from_millis(500),
                span: Duration::from_secs(1),
                easing: Easing::EaseIn,
            },
        }])
    );
    apply_animations(&mut scene, &timeline, current_time);

    assert_eq!(first_value(&scene, "position"), tuple(25.0, 0.0));
}

#[test]
fn test_ease_out_animation() {
    let mut scene = one_object("square", "test_square", "position", tuple(0.0, 0.0), 1);
    let timeline = Timeline {
        animations: vec![ranged(0, 1, "test_square", "position", tuple(100.0, 0.0), Some("ease_out"))],
    };

    let current_time = Duration::from_millis(500); // 0.5s
    apply_animations(&mut scene, &timeline, current_time);

    assert_eq!(first_value(&scene, "position"), tuple(75.0, 0.0));
}

#[test]
fn test_ease_in_out_animation() {
    let mut scene = one_object("square", "test_square", "position", tuple(0.0, 0.0), 1);
    let timeline = Timeline {
        animations: vec![ranged(
            0,
            1,
            "test_square",
            "position",
            tuple(100.0, 0.0),
            Some("ease_in_out"),
        )],
    };

    let current_time = Duration::from_millis(500); // 0.5s
    apply_animations(&mut scene, &timeline, current_time);

    assert_eq!(first_value(&scene, "position"), tuple(50.0, 0.0));
}

#[test]
fn test_lerp_number() {
    let start = Value::Number(num(0.0));
    let end = Value::Number(num(100.0));
    assert_eq!(plan_blend(&start, &end), Blend::Numbers { from: num(0.0), to: num(100.0) });
    let result = lerp(&start, &end, 0.5);
    assert_eq!(result, Value::Number(num(50.0)));
}

#[test]
fn test_lerp_tuple() {
    let start = tuple(0.0, 0.0);
    let end = tuple(100.0, 200.0);
    assert_eq!(
        plan_blend(&start, &end),
        Blend::Tuples { from: (num(0.0), num(0.0)), to: (num(100.0), num(200.0)) }
    );
    let result = lerp(&start, &end, 0.5);
    assert_eq!(result, tuple(50.0, 100.0));
}

#[test]
fn test_lerp_color() {
    let start = Value::Color("#000000".to_string());
    let end = Value::Color("#ffffff".to_string());
    assert_eq!(plan_blend(&start, &end), Blend::Colors { from: (0, 0, 0), to: (255, 255, 255) });
    let result = lerp(&start, &end, 0.5);
    assert_eq!(result, Value::Color("#7f7f7f".to_string()));
}

#[test]
fn test_lerp_unsupported_types() {
    let start = Value::String("start".to_string());
    let end = Value::String("end".to_string());
    assert_eq!(plan_blend(&start, &end), Blend::Jump);
    let result = lerp(&start, &end, 0.5);
    assert_eq!(result, Value::String("end".to_string()));
}

#[test]
fn animator_test_hex_to_rgb() {
    assert_eq!(hex_to_rgb("#FF0000"), [255, 0, 0]);
    assert_eq!(hex_to_rgb("#00FF00"), [0, 255, 0]);
    assert_eq!(hex_to_rgb("#0000FF"), [0, 0, 255]);
    assert_eq!(hex_to_rgb("#FFFFFF"), [255, 255, 255]);
    assert_eq!(hex_to_rgb("#000000"), [0, 0, 0]);
    assert_eq!(hex_to_rgb("invalid"), [0, 0, 0]);
}

#[test]
fn test_apply_easing_ease_in() {
    assert_eq!(apply_easing(0.0, "ease_in"), 0.0);
    assert_eq!(apply_easing(0.5, "ease_in"), 0.25);
    assert_eq!(apply_easing(1.0, "ease_in"), 1.0);
}

#[test]
fn test_apply_easing_ease_out() {
    assert_eq!(apply_easing(0.0, "ease_out"), 0.0);
    assert_eq!(apply_easing(0.5, "ease_out"), 0.75);
    assert_eq!(apply_easing(1.0, "ease_out"), 1.0);
}

#[test]
fn test_apply_easing_ease_in_out() {
    assert_eq!(apply_easing(0.0, "ease_in_out"), 0.0);
    assert_eq!(apply_easing(0.25, "ease_in_out"), 0.125);
    assert_eq!(apply_easing(0.5, "ease_in_out"), 0.5);
    assert_eq!(apply_easing(0.75, "ease_in_out"), 0.875);
    assert_eq!(apply_easing(1.0, "ease_in_out"), 1.0);
}

#[test]
fn test_apply_easing_unknown() {
    assert_eq!(apply_easing(0.5, "unknown"), 0.5);
}

#[test]
fn test_multiple_animations_same_property() {
    let mut scene = one_object("square", "test_square", "position", tuple(0.0, 0.0), 3);
    let timeline = Timeline {
        animations: vec![
            ranged(0, 1, "test_square", "position", tuple(50.0, 0.0), None),
            ranged(1, 2, "test_square", "position", tuple(100.0, 0.0), None),
        ],
    };

    let current_time = Duration::from_millis(1500);
    assert_eq!(
        resolve(&scene, &timeline, current_time),
        Ok(vec![Assignment {
            object: 0,
            property: 0,
            outcome: Resolution::Blending {
                from: tuple(50.0, 0.0),
                to: tuple(100.0, 0.0),
                elapsed: Duration::from_millis(500),
                span: Duration::from_secs(1),
                easing: Easing::Linear,
            },
        }])
    );
    apply_animations(&mut scene, &timeline, current_time);

    assert_eq!(first_value(&scene, "position"), tuple(75.0, 0.0));
}

#[test]
fn test_instant_animation() {
    let mut scene = one_object("circle", "test_circle", "radius", Value::Number(num(10.0)), 2);
    let timeline = Timeline {
        animations: vec![Animation {
            start: Duration::from_secs(1),
            end: None,
            target_object: "test_circle".to_string(),
            property: "radius".to_string(),
            to: Value::Number(num(50.0)),
            easing: None,
        }],
    };

    let current_time = Duration::from_millis(1500);
    apply_animations(&mut scene, &timeline, current_time);

    assert_eq!(first_value(&scene, "radius"), Value::Number(num(50.0)));
}

#[test]
fn test_animation_before_start_time() {
    let mut scene = one_object("square", "test_square", "size", Value::Number(num(100.0)), 2);
    let timeline = Timeline {
        animations: vec![ranged(1, 2, "test_square", "size", Value::Number(num(200.0)), None)],
    };

    let current_time = Duration::from_millis(500);
    apply_animations(&mut scene, &timeline, current_time);

    assert_eq!(first_value(&scene, "size"), Value::Number(num(100.0)));
}

#[test]
fn instant_animation_snaps_exactly_at_its_start() {
    let base = Value::Number(num(10.0));
    let timeline = Timeline {
        animations: vec![Animation {
            start: Duration::from_secs(1),
            end: None,
            target_object: "c".to_string(),
            property: "radius".to_string(),
            to: Value::Number(num(50.0)),
            easing: None,
        }],
    };
    let just_before = Duration::from_nanos(999_999_999);
    assert_eq!(
        resolve_target(&base, &timeline, "c", "radius", just_before),
        Resolution::Settled(Value::Number(num(10.0)))
    );
    assert_eq!(
        resolve_target(&base, &timeline, "c", "radius", Duration::from_secs(1)),
        Resolution::Settled(Value::Number(num(50.0)))
    );
    assert_eq!(
        resolve_target(&base, &timeline, "c", "radius", Duration::from_secs(7)),
        Resolution::Settled(Value::Number(num(50.0)))
    );
}

#[test]
fn ranged_animation_is_over_at_its_end() {
    let base = Value::Number(num(0.0));
    let timeline = Timeline {
        animations: vec![ranged(1, 3, "o", "p", Value::Number(num(8.0)), Some("ease_out"))],
    };
    assert_eq!(
        resolve_target(&base, &timeline, "o", "p", Duration::from_secs(1)),
        Resolution::Blending {
            from: Value::Number(num(0.0)),
            to: Value::Number(num(8.0)),
            elapsed: Duration::from_secs(0),
            span: Duration::from_secs(2),
            easing: Easing::EaseOut,
        }
    );
    assert_eq!(
        resolve_target(&base, &timeline, "o", "p", Duration::from_nanos(2_999_999_999)),
        Resolution::Blending {
            from: Value::Number(num(0.0)),
            to: Value::Number(num(8.0)),
            elapsed: Duration::from_nanos(1_999_999_999),
            span: Duration::from_secs(2),
            easing: Easing::EaseOut,
        }
    );
    assert_eq!(
        resolve_target(&base, &timeline, "o", "p", Duration::from_secs(3)),
        Resolution::Settled(Value::Number(num(8.0)))
    );
}

#[test]
fn zero_length_range_is_a_jump() {
    let base = Value::Number(num(1.0));
    let timeline = Timeline {
        animations: vec![ranged(2, 2, "o", "p", Value::Number(num(9.0)), None)],
    };
    assert_eq!(
        resolve_target(&base, &timeline, "o", "p", Duration::from_secs(2)),
        Resolution::Settled(Value::Number(num(9.0)))
    );
}

#[test]
fn animations_are_walked_by_start_not_by_source_order() {
    let base = Value::Number(num(0.0));
    let timeline = Timeline {
        animations: vec![
            ranged(5, 6, "o", "p", Value::Number(num(3.0)), None),
            ranged(1, 2, "o", "p", Value::Number(num(1.0)), None),
            ranged(3, 4, "o", "p", Value::Number(num(2.0)), None),
            ranged(1, 2, "other", "p", Value::Number(num(77.0)), None),
        ],
    };
    assert_eq!(
        resolve_target(&base, &timeline, "o", "p", Duration::from_millis(3500)),
        Resolution::Blending {
            from: Value::Number(num(1.0)),
            to: Value::Number(num(2.0)),
            elapsed: Duration::from_millis(500),
            span: Duration::from_secs(1),
            easing: Easing::Linear,
        }
    );
    assert_eq!(
        resolve_target(&base, &timeline, "o", "p", Duration::from_millis(4500)),
        Resolution::Settled(Value::Number(num(2.0)))
    );
    assert_eq!(
        resolve_target(&base, &timeline, "o", "p", Duration::from_secs(10)),
        Resolution::Settled(Value::Number(num(3.0)))
    );
}

#[test]
fn equal_starts_keep_source_order() {
    let base = Value::String("base".to_string());
    let instant = |to: &str| Animation {
        start: Duration::from_secs(1),
        end: None,
        target_object: "o".to_string(),
        property: "p".to_string(),
        to: Value::String(to.to_string()),
        easing: None,
    };
    let timeline = Timeline { animations: vec![instant("first"), instant("second")] };
    assert_eq!(
        resolve_target(&base, &timeline, "o", "p", Duration::from_secs(1)),
        Resolution::Settled(Value::String("second".to_string()))
    );
}

#[test]
fn first_animation_under_way_wins_over_later_overlapping_ones() {
    let base = Value::Number(num(0.0));
    let timeline = Timeline {
        animations: vec![
            ranged(0, 10, "o", "p", Value::Number(num(1.0)), None),
            ranged(2, 4, "o", "p", Value::Number(num(2.0)), None),
        ],
    };
    assert_eq!(
        resolve_target(&base, &timeline, "o", "p", Duration::from_secs(3)),
        Resolution::Blending {
            from: Value::Number(num(0.0)),
            to: Value::Number(num(1.0)),
            elapsed: Duration::from_secs(3),
            span: Duration::from_secs(10),
            easing: Easing::Linear,
        }
    );
}

#[test]
fn resolving_twice_gives_the_same_and_leaves_the_scene_alone() {
    let scene = one_object("square", "s", "size", Value::Number(num(100.0)), 2);
    let before = scene.clone();
    let timeline = Timeline {
        animations: vec![ranged(0, 2, "s", "size", Value::Number(num(200.0)), Some("ease_in"))],
    };
    let first = resolve(&scene, &timeline, Duration::from_secs(1));
    let second = resolve(&scene, &timeline, Duration::from_secs(1));
    assert_eq!(first, second);
    assert_eq!(scene, before);
}

#[test]
fn each_target_is_assigned_once_in_order_of_first_mention() {
    let scene = Scene {
        name: "S".to_string(),
        items: vec![
            Object {
                kind: "circle".to_string(),
                name: "a".to_string(),
                properties: vec![
                    Property { name: "x".to_string(), value: Value::Number(num(1.0)) },
                    Property { name: "y".to_string(), value: Value::Number(num(2.0)) },
                ],
            },
            Object {
                kind: "circle".to_string(),
                name: "b".to_string(),
                properties: vec![Property { name: "x".to_string(), value: Value::Number(num(3.0)) }],
            },
        ],
        timeline: None,
        duration: None,
    };
    let jump = |secs: u64, object: &str, property: &str, to: f64| Animation {
        start: Duration::from_secs(secs),
        end: None,
        target_object: object.to_string(),
        property: property.to_string(),
        to: Value::Number(num(to)),
        easing: None,
    };
    let timeline = Timeline {
        animations: vec![
            jump(1, "b", "x", 30.0),
            jump(5, "a", "y", 20.0),
            jump(2, "b", "x", 31.0),
            jump(0, "a", "x", 10.0),
        ],
    };
    let plan = resolve(&scene, &timeline, Duration::from_secs(3)).unwrap();
    assert_eq!(
        plan,
        vec![
            Assignment { object: 1, property: 0, outcome: Resolution::Settled(Value::Number(num(31.0))) },
            Assignment { object: 0, property: 1, outcome: Resolution::Settled(Value::Number(num(2.0))) },
            Assignment { object: 0, property: 0, outcome: Resolution::Settled(Value::Number(num(10.0))) },
        ]
    );
}

#[test]
fn missing_object_or_property_is_reported() {
    let scene = one_object("square", "s", "size", Value::Number(num(100.0)), 2);
    let timeline = Timeline {
        animations: vec![
            ranged(0, 1, "s", "size", Value::Number(num(1.0)), None),
            ranged(0, 1, "s", "colour", Value::Number(num(1.0)), None),
            ranged(0, 1, "ghost", "size", Value::Number(num(1.0)), None),
        ],
    };
    assert_eq!(
        resolve(&scene, &timeline, Duration::from_secs(0)),
        Err(MissingAnimationTarget { object: "s".to_string(), property: "colour".to_string() })
    );
    let timeline = Timeline {
        animations: vec![ranged(0, 1, "ghost", "size", Value::Number(num(1.0)), None)],
    };
    assert_eq!(
        resolve(&scene, &timeline, Duration::from_secs(0)),
        Err(MissingAnimationTarget { object: "ghost".to_string(), property: "size".to_string() })
    );
}

#[test]
fn assign_writes_one_value_and_refuses_places_that_do_not_exist() {
    let mut scene = one_object("square", "s", "size", Value::Number(num(100.0)), 2);
    let before = scene.clone();
    assert!(!assign(&mut scene, 1, 0, Value::Number(num(5.0))));
    assert!(!assign(&mut scene, 0, 1, Value::Number(num(5.0))));
    assert_eq!(scene, before);
    assert!(assign(&mut scene, 0, 0, Value::Number(num(5.0))));
    assert_eq!(first_value(&scene, "size"), Value::Number(num(5.0)));
    assert_eq!(scene.items[0].properties[0].name, "size");
}

#[test]
fn easing_names() {
    assert_eq!(Easing::from_name("ease_in"), Easing::EaseIn);
    assert_eq!(Easing::from_name("ease_out"), Easing::EaseOut);
    assert_eq!(Easing::from_name("ease_in_out"), Easing::EaseInOut);
    assert_eq!(Easing::from_name("linear"), Easing::Linear);
    assert_eq!(Easing::from_name("Ease_In"), Easing::Linear);
    assert_eq!(Easing::from_name(""), Easing::Linear);
    assert_eq!(Easing::of(&None), Easing::Linear);
    assert_eq!(Easing::of(&Some("ease_out".to_string())), Easing::EaseOut);
}

#[test]
fn blends_by_type() {
    let n = Value::Number(num(1.0));
    let t = tuple(1.0, 2.0);
    let c = Value::Color("#102030".to_string());
    let s = Value::String("x".to_string());
    assert_eq!(plan_blend(&n, &t), Blend::Jump);
    assert_eq!(plan_blend(&t, &c), Blend::Jump);
    assert_eq!(plan_blend(&c, &s), Blend::Jump);
    assert_eq!(plan_blend(&s, &n), Blend::Jump);
    assert_eq!(
        plan_blend(&c, &Value::Color("nonsense".to_string())),
        Blend::Colors { from: (0x10, 0x20, 0x30), to: (0, 0, 0) }
    );
}

#[test]
fn lenient_colours() {
    assert_eq!(hex_to_rgb("##a0B1c2"), [0xa0, 0xb1, 0xc2]);
    assert_eq!(hex_to_rgb("a0B1c2"), [0xa0, 0xb1, 0xc2]);
    assert_eq!(hex_to_rgb("#zz10ff"), [0, 0x10, 0xff]);
    assert_eq!(hex_to_rgb("#+a10ff"), [0x0a, 0x10, 0xff]);
    assert_eq!(hex_to_rgb("#-a10ff"), [0, 0x10, 0xff]);
    assert_eq!(hex_to_rgb("#fff"), [0, 0, 0]);
    assert_eq!(hex_to_rgb("#ff00ff0"), [0, 0, 0]);
    assert_eq!(hex_to_rgb(""), [0, 0, 0]);
}

#[test]
fn colour_values_are_lower_case_hex() {
    assert_eq!(color_value(0, 0, 0), Value::Color("#000000".to_string()));
    assert_eq!(color_value(127, 127, 127), Value::Color("#7f7f7f".to_string()));
    assert_eq!(color_value(0xAB, 0x0C, 0xF9), Value::Color("#ab0cf9".to_string()));
    for v in [0u8, 1, 9, 10, 15, 16, 99, 128, 254, 255] {
        let text = match color_value(v, 255 - v, v / 2) {
            Value::Color(text) => text,
            _ => unreachable!(),
        };
        assert_eq!(text, format!("#{:02x}{:02x}{:02x}", v, 255 - v, v / 2));
        assert_eq!(hex_to_rgb(&text), [v, 255 - v, v / 2]);
    }
}

#[test]
fn channels_are_cut_not_rounded() {
    assert_eq!(truncated_color(num(127.5), num(127.999), num(128.0)), Value::Color("#7f7f80".to_string()));
    assert_eq!(truncated_color(num(-3.0), num(255.9), num(300.0)), Value::Color("#00ffff".to_string()));
    assert_eq!(truncated_color(num(f64::NAN), num(0.99), num(f64::INFINITY)), Value::Color("#0000ff".to_string()));
    for x in [0.0, 0.5, 1.0, 15.99, 16.0, 100.3, 254.999, 255.0, 255.5, 256.0, 1e9, -0.1, -1e9] {
        assert_eq!(truncated_color(num(x), num(x), num(x)), color_value(x as u8, x as u8, x as u8), "{}", x);
    }
}

#[test]
fn settled_values_are_written_into_a_copy() {
    let scene = Scene {
        name: "S".to_string(),
        items: vec![Object {
            kind: "circle".to_string(),
            name: "a".to_string(),
            properties: vec![
                Property { name: "x".to_string(), value: Value::Number(num(1.0)) },
                Property { name: "y".to_string(), value: Value::Number(num(2.0)) },
                Property { name: "z".to_string(), value: Value::Number(num(3.0)) },
            ],
        }],
        timeline: None,
        duration: Some(Duration::from_secs(4)),
    };
    let before = scene.clone();
    let timeline = Timeline {
        animations: vec![
            Animation {
                start: Duration::from_secs(1),
                end: None,
                target_object: "a".to_string(),
                property: "y".to_string(),
                to: Value::Number(num(20.0)),
                easing: None,
            },
            ranged(0, 4, "a", "z", Value::Number(num(30.0)), None),
        ],
    };
    let plan = resolve(&scene, &timeline, Duration::from_secs(2)).unwrap();
    let resolved = apply_settled(&scene, &plan);
    assert_eq!(scene, before);
    assert_eq!(resolved.name, "S");
    assert_eq!(resolved.duration, Some(Duration::from_secs(4)));
    assert_eq!(resolved.items[0].properties[0].value, Value::Number(num(1.0)));
    assert_eq!(resolved.items[0].properties[1].value, Value::Number(num(20.0)));
    assert_eq!(resolved.items[0].properties[2].value, Value::Number(num(3.0)));
    let early = resolve(&scene, &timeline, Duration::from_nanos(0)).unwrap();
    let timeline = Timeline { animations: vec![timeline.animations[0].clone()] };
    let nothing_yet = resolve(&scene, &timeline, Duration::from_millis(999)).unwrap();
    assert_eq!(apply_settled(&scene, &nothing_yet), scene);
    assert_eq!(apply_settled(&scene, &early), scene);
    let stray = vec![Assignment {
        object: 3,
        property: 0,
        outcome: Resolution::Settled(Value::Number(num(9.0))),
    }];
    assert_eq!(apply_settled(&scene, &stray), scene);
}
