use bevy_flipbook::remap_info::{AnimationClip, OsRemap, RemapInfo};

fn clip(start: u32, end: u32) -> AnimationClip {
    AnimationClip {
        start_frame: start,
        end_frame: end,
        framerate_bits: 30.0f32.to_bits(),
        looping: true,
    }
}

fn bits(v: [f32; 3]) -> [u32; 3] {
    [v[0].to_bits(), v[1].to_bits(), v[2].to_bits()]
}

/// The sample bake: 128 frames, clips Walk, Run and Survey (not in start order).
fn sample() -> RemapInfo {
    RemapInfo {
        os_remap: OsRemap {
            min_bits: bits([-8.0, -46.2, -18.5]),
            max_bits: bits([55.1, 52.0, 54.7]),
            frames: 128,
        },
        animations: vec![
            ("Walk".to_string(), clip(82, 99)),
            ("Run".to_string(), clip(99, 127)),
            ("Survey".to_string(), clip(0, 82)),
        ],
    }
}

#[test]
fn parses_animations() {
    let info = sample();
    assert_eq!(info.animations.len(), 3);

    let walk = info.clip("Walk").unwrap();
    assert_eq!(walk.start_frame, 82);
    assert_eq!(walk.end_frame, 99);
    assert_eq!(walk.frame_count(), 17);
    assert!(walk.looping);
}

#[test]
fn clips_ordered_by_start_frame() {
    let info = sample();
    let ordered = info.clips_ordered();
    assert_eq!(ordered[0].0, "Survey");
    assert_eq!(ordered[1].0, "Walk");
    assert_eq!(ordered[2].0, "Run");
}

#[test]
fn clip_lookup_of_unknown_name_is_none() {
    let info = sample();
    assert!(info.clip("Jump").is_none());
    assert!(info.clip("walk").is_none());
    assert_eq!(info.clip("Survey").unwrap().frame_count(), 82);
}

#[test]
fn clips_ordered_keeps_every_clip() {
    let mut info = sample();
    info.animations.push(("Idle".to_string(), clip(82, 90)));
    let ordered = info.clips_ordered();
    assert_eq!(ordered.len(), 4);
    let starts: Vec<u32> = ordered.iter().map(|(_, c)| c.start_frame).collect();
    assert_eq!(starts, vec![0, 82, 82, 99]);
    let mut names: Vec<String> = ordered.iter().map(|(n, _)| n.clone()).collect();
    names.sort();
    assert_eq!(names, vec!["Idle", "Run", "Survey", "Walk"]);
}

#[test]
fn clips_ordered_of_no_clips_is_empty() {
    let mut info = sample();
    info.animations.clear();
    assert!(info.clips_ordered().is_empty());
}

#[test]
fn frame_count_of_empty_clip_is_zero() {
    assert_eq!(clip(5, 5).frame_count(), 0);
}

#[test]
fn distinct_names_are_detected() {
    let mut info = sample();
    assert!(info.has_distinct_names());
    info.animations.push(("Run".to_string(), clip(0, 1)));
    assert!(!info.has_distinct_names());
    info.animations.clear();
    assert!(info.has_distinct_names());
}
