use bevy_flipbook::remap_info::AnimationClip;
use bevy_flipbook::slot::{VatSlot, VatSlotBuffers};

fn make_clip(start: u32, end: u32) -> AnimationClip {
    AnimationClip {
        start_frame: start,
        end_frame: end,
        framerate_bits: 30.0f32.to_bits(),
        looping: true,
    }
}

/// The key that stands for the default material handle.
const DEFAULT_MATERIAL: u64 = 0;

#[test]
fn has_dirty_initially_false() {
    let buffers = VatSlotBuffers::default();
    assert!(!buffers.has_dirty());
}

#[test]
fn has_dirty_true_after_allocate() {
    let mut buffers = VatSlotBuffers::default();
    buffers.allocate_slot(DEFAULT_MATERIAL);
    assert!(buffers.has_dirty());
}

#[test]
fn has_dirty_clears_when_caller_acknowledges() {
    let mut buffers = VatSlotBuffers::default();
    buffers.allocate_slot(DEFAULT_MATERIAL);
    for (handle, _) in buffers.dirty_buffer_iter() {
        buffers.acknowledge(handle);
    }
    assert!(!buffers.has_dirty());
}

#[test]
fn has_dirty_remains_if_caller_does_not_acknowledge() {
    let mut buffers = VatSlotBuffers::default();
    buffers.allocate_slot(DEFAULT_MATERIAL);
    // Consume the buffers without acknowledging them (simulates a failed upload).
    buffers.dirty_buffer_iter().iter().for_each(|_| ());
    assert!(
        buffers.has_dirty(),
        "dirty must stay set so the upload retries next frame"
    );
}

#[test]
fn has_dirty_remains_if_iter_dropped_unconsumed() {
    let mut buffers = VatSlotBuffers::default();
    buffers.allocate_slot(DEFAULT_MATERIAL);
    let _ = buffers.dirty_buffer_iter(); // dropped without looking
    assert!(buffers.has_dirty());
}

#[test]
fn has_dirty_true_after_update_slot() {
    let mut buffers = VatSlotBuffers::default();
    let handle = DEFAULT_MATERIAL;
    let slot_id = buffers.allocate_slot(handle);
    for (h, _) in buffers.dirty_buffer_iter() {
        buffers.acknowledge(h);
    }
    assert!(!buffers.has_dirty(), "should be clean after flush");

    buffers.update_slot(handle, slot_id, 0.0f32.to_bits(), make_clip(0, 10));
    assert!(buffers.has_dirty(), "should be dirty after update_slot");
}

#[test]
fn dirty_buffers_hold_the_slot_contents() {
    let mut buffers = VatSlotBuffers::default();
    let a = buffers.allocate_slot(3);
    let b = buffers.allocate_slot(3);
    buffers.update_slot_with_rate(3, b, 2.5f32.to_bits(), make_clip(82, 99), 1.5f32.to_bits());
    let dirty = buffers.dirty_buffer_iter();
    assert_eq!(dirty.len(), 1);
    assert_eq!(dirty[0].0, 3);
    assert_eq!(dirty[0].1.len(), 2);
    assert_eq!(dirty[0].1[a as usize], VatSlot::default());
    assert_eq!(
        dirty[0].1[b as usize],
        VatSlot::new(2.5f32.to_bits(), 82, 17, 1.5f32.to_bits())
    );
}

#[test]
fn update_slot_keeps_the_rate() {
    let mut buffers = VatSlotBuffers::default();
    let s = buffers.allocate_slot(1);
    buffers.update_slot_with_rate(1, s, 0, make_clip(0, 10), 2.0f32.to_bits());
    buffers.update_slot(1, s, 7, make_clip(10, 30));
    let dirty = buffers.dirty_buffer_iter();
    assert_eq!(dirty[0].1[0], VatSlot::new(7, 10, 20, 2.0f32.to_bits()));
}

#[test]
fn only_dirty_materials_are_reported() {
    let mut buffers = VatSlotBuffers::default();
    buffers.allocate_slot(1);
    buffers.allocate_slot(2);
    buffers.acknowledge(1);
    let dirty = buffers.dirty_buffer_iter();
    assert_eq!(dirty.len(), 1);
    assert_eq!(dirty[0].0, 2);
    buffers.acknowledge(2);
    assert!(!buffers.has_dirty());
    assert!(buffers.dirty_buffer_iter().is_empty());
}

#[test]
fn freeing_does_not_mark_dirty_and_reuses_slot() {
    let mut buffers = VatSlotBuffers::default();
    let a = buffers.allocate_slot(4);
    let _b = buffers.allocate_slot(4);
    buffers.acknowledge(4);
    buffers.free_slot(4, a);
    assert!(!buffers.has_dirty());
    let again = buffers.allocate_slot(4);
    assert_eq!(again, a);
    assert!(buffers.has_dirty());
    let dirty = buffers.dirty_buffer_iter();
    assert_eq!(dirty[0].1.len(), 2);
}

#[test]
fn materials_have_independent_slots() {
    let mut buffers = VatSlotBuffers::default();
    assert_eq!(buffers.allocate_slot(10), 0);
    assert_eq!(buffers.allocate_slot(10), 1);
    assert_eq!(buffers.allocate_slot(11), 0);
    buffers.free_slot(12, 0);
    assert!(buffers.has_slot(10, 1));
    assert!(!buffers.has_slot(11, 1));
    assert!(!buffers.has_slot(12, 0));
}
