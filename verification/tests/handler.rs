use bevy_flipbook::material::VatSettings;
use bevy_flipbook::remap_info::{AnimationClip, OsRemap, RemapInfo};
use bevy_flipbook::slot::VatSlot;
use bevy_flipbook::VatHandler;

fn clip(start: u32, end: u32, fps: f32) -> AnimationClip {
    AnimationClip {
        start_frame: start,
        end_frame: end,
        framerate_bits: fps.to_bits(),
        looping: true,
    }
}

#[test]
fn handler_allocates_updates_and_reclaims() {
    let mut handler = VatHandler::default();
    let mat = 42;
    let a = handler.allocate_slot(mat);
    let b = handler.allocate_slot(mat);
    assert_eq!((a, b), (0, 1));
    handler.update_slot(mat, b, 3.0f32.to_bits(), clip(10, 40, 30.0));
    let dirty = handler.dirty_buffer_iter();
    assert_eq!(dirty.len(), 1);
    assert_eq!(dirty[0].1[1], VatSlot::new(3.0f32.to_bits(), 10, 30, 0));
    handler.acknowledge(mat);
    assert!(!handler.has_dirty());

    // The entity holding slot `b` is despawned, and a new one takes its place.
    handler.free_slot(mat, b);
    assert_eq!(handler.allocate_slot(mat), b);
    assert!(handler.has_slot(mat, b));
    assert!(handler.can_allocate(mat));
}

#[test]
fn freeing_on_unknown_material_changes_nothing() {
    let mut handler = VatHandler::default();
    handler.free_slot(1, 0);
    assert!(!handler.has_dirty());
    assert!(!handler.has_slot(1, 0));
}

#[test]
fn settings_from_remap_info() {
    let info = RemapInfo {
        os_remap: OsRemap {
            min_bits: [1, 2, 3],
            max_bits: [4, 5, 6],
            frames: 128,
        },
        animations: vec![
            ("Walk".to_string(), clip(82, 99, 24.0)),
            ("Survey".to_string(), clip(0, 82, 30.0)),
            ("Run".to_string(), clip(99, 127, 60.0)),
        ],
    };
    let s = VatSettings::from_remap_info(&info);
    assert_eq!(s.bounds_min_bits, [1, 2, 3]);
    assert_eq!(s.bounds_max_bits, [4, 5, 6]);
    assert_eq!(s.frame_count, 128);
    assert_eq!(s.y_resolution, 256);
    assert_eq!(f32::from_bits(s.fps_bits), 30.0);
    assert_eq!(s.time_offset_bits, 0);
    assert_eq!(s.clip_start_frame, 0);
    assert_eq!(s.clip_frame_count, 128);
}
