use beam::ast::{BeamScript, Scene, Timeline};
use beam::scheduler::{
    frame_count, frame_file_name, frame_time, scene_duration, schedule, total_frame_count, Shot,
    FRAME_RATE,
};
use beam::time::Duration;

fn lasting(duration: Option<Duration>, animated: bool) -> Scene {
    Scene {
        name: "S".to_string(),
        items: vec![],
        timeline: if animated { Some(Timeline { animations: vec![] }) } else { None },
        duration,
    }
}

#[test]
fn one_and_a_half_seconds_take_ninety_frames() {
    assert_eq!(FRAME_RATE, 60);
    assert_eq!(frame_count(Duration::from_millis(1500)), 90);
}

#[test]
fn frame_counts_round_up() {
    assert_eq!(frame_count(Duration::from_nanos(0)), 0);
    assert_eq!(frame_count(Duration::from_nanos(1)), 1);
    assert_eq!(frame_count(Duration::from_nanos(16_666_666)), 1);
    assert_eq!(frame_count(Duration::from_nanos(16_666_667)), 2);
    assert_eq!(frame_count(Duration::from_millis(50)), 3);
    assert_eq!(frame_count(Duration::from_millis(51)), 4);
    assert_eq!(frame_count(Duration::from_secs(2)), 120);
    assert_eq!(frame_count(Duration::from_millis(350)), 21);
    assert_eq!(frame_count(Duration::from_secs(u64::MAX)), u64::MAX);
    assert_eq!(frame_count(Duration::from_nanos(u128::MAX)), u64::MAX);
    assert_eq!(frame_count(Duration::from_secs(1 << 40)), 60 << 40);
    for millis in 0..20_000u64 {
        assert_eq!(frame_count(Duration::from_millis(millis)), (millis * 60 + 999) / 1000, "{}", millis);
    }
    assert_eq!(frame_count(Duration::from_millis(4150)), 249);
}

#[test]
fn a_scene_without_duration_lasts_two_seconds() {
    assert_eq!(scene_duration(&lasting(None, false)), Duration::from_secs(2));
    assert_eq!(scene_duration(&lasting(Some(Duration::from_millis(7)), false)), Duration::from_millis(7));
}

#[test]
fn frames_are_a_sixtieth_of_a_second_apart() {
    assert_eq!(frame_time(0), Duration::from_nanos(0));
    assert_eq!(frame_time(1), Duration::from_nanos(16_666_667));
    assert_eq!(frame_time(2), Duration::from_nanos(33_333_333));
    assert_eq!(frame_time(3), Duration::from_millis(50));
    assert_eq!(frame_time(30), Duration::from_millis(500));
    assert_eq!(frame_time(60), Duration::from_secs(1));
    assert_eq!(frame_time(90), Duration::from_millis(1500));
    assert_eq!(frame_time(u64::MAX).as_nanos(), (u64::MAX as u128 * 1_000_000_000 + 30) / 60);
    for i in 0..100_000u64 {
        let nanos = std::time::Duration::from_secs_f64(i as f64 / 60.0).as_nanos();
        assert_eq!(frame_time(i).as_nanos(), nanos, "{}", i);
    }
}

#[test]
fn scenes_follow_one_another() {
    let script = BeamScript {
        camera: None,
        scenes: vec![
            lasting(Some(Duration::from_millis(1500)), true),
            lasting(None, false),
            lasting(Some(Duration::from_nanos(0)), true),
            lasting(Some(Duration::from_secs(1)), false),
        ],
    };
    assert_eq!(total_frame_count(&script), Some(270));
    assert_eq!(
        schedule(&script),
        Some(vec![
            Shot { scene: 0, first_frame: 0, frames: 90, animated: true },
            Shot { scene: 1, first_frame: 90, frames: 120, animated: false },
            Shot { scene: 2, first_frame: 210, frames: 0, animated: true },
            Shot { scene: 3, first_frame: 210, frames: 60, animated: false },
        ])
    );
    let empty = BeamScript::default();
    assert_eq!(total_frame_count(&empty), Some(0));
    assert_eq!(schedule(&empty), Some(vec![]));
}

#[test]
fn too_many_frames_are_not_scheduled() {
    let script = BeamScript {
        camera: None,
        scenes: vec![lasting(Some(Duration::from_secs(u64::MAX)), false), lasting(None, false)],
    };
    assert_eq!(total_frame_count(&script), None);
    assert_eq!(schedule(&script), None);
    let script = BeamScript {
        camera: None,
        scenes: vec![lasting(Some(Duration::from_secs(u64::MAX)), false)],
    };
    assert_eq!(total_frame_count(&script), Some(u64::MAX));
}

#[test]
fn slot_names_are_zero_padded() {
    assert_eq!(frame_file_name(0), "frame_00000.png");
    assert_eq!(frame_file_name(7), "frame_00007.png");
    assert_eq!(frame_file_name(99_999), "frame_99999.png");
    assert_eq!(frame_file_name(100_000), "frame_100000.png");
    assert_eq!(frame_file_name(u64::MAX), "frame_18446744073709551615.png");
    for i in [1u64, 10, 42, 100, 1_000, 12_345, 1_234_567] {
        assert_eq!(frame_file_name(i), format!("frame_{:05}.png", i));
    }
}
