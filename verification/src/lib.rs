//! Slot bookkeeping and clip metadata for GPU vertex-animation-texture
//! (VAT) playback: many mesh instances share one material, and each plays
//! its own clip through a slot of that material's slot buffer.
pub mod material;
pub mod remap_info;
pub mod slot;

use vstd::prelude::*;

use crate::remap_info::AnimationClip;
use crate::slot::{any_dirty, buffer_or_empty, BufferModel, VatSlot, VatSlotBuffers};

verus! {

/// Owns the slot buffers of every VAT material, keyed by a material's
/// numeric key.
pub struct VatHandler {
    slot_buffers: VatSlotBuffers,
}

impl View for VatHandler {
    type V = Map<u64, BufferModel>;

    closed spec fn view(&self) -> Map<u64, BufferModel> {
        self.slot_buffers@
    }
}

impl Default for VatHandler {
    fn default() -> (r: Self)
        ensures
            r@ == Map::<u64, BufferModel>::empty(),
            r.wf(),
    {
        VatHandler { slot_buffers: VatSlotBuffers::default() }
    }
}

impl VatHandler {
    /// Every material's buffer is well formed.
    pub open spec fn wf(&self) -> bool {
        forall|h: u64| #[trigger] self@.contains_key(h) ==> self@[h].wf()
    }

    /// Whether `allocate_slot` can hand out one more slot for `mat_handle`.
    pub fn can_allocate(&self, mat_handle: u64) -> (r: bool)
        ensures
            r == buffer_or_empty(self@, mat_handle).alloc.can_allocate(),
    {
        self.slot_buffers.can_allocate(mat_handle)
    }

    /// Whether `mat_handle` has a buffer with an entry for `slot_id`, as
    /// `update_slot` needs.
    pub fn has_slot(&self, mat_handle: u64, slot_id: u32) -> (r: bool)
        ensures
            r == (self@.contains_key(mat_handle) && (slot_id as nat) < self@[mat_handle].slots.len()),
    {
        self.slot_buffers.has_slot(mat_handle, slot_id)
    }

    /// Allocates a slot for a mesh instance drawn with the material
    /// `mat_handle`.
    pub fn allocate_slot(&mut self, mat_handle: u64) -> (slot_id: u32)
        requires
            old(self).wf(),
            buffer_or_empty(old(self)@, mat_handle).alloc.can_allocate(),
        ensures
            final(self).wf(),
            slot_id == buffer_or_empty(old(self)@, mat_handle).alloc.allocated(),
            final(self)@ == old(self)@.insert(
                mat_handle,
                buffer_or_empty(old(self)@, mat_handle).after_allocate(),
            ),
            !buffer_or_empty(old(self)@, mat_handle).alloc.is_live(slot_id),
            final(self)@[mat_handle].alloc.live()
                == buffer_or_empty(old(self)@, mat_handle).alloc.live().insert(slot_id),
            final(self)@[mat_handle].dirty,
            (slot_id as nat) < final(self)@[mat_handle].slots.len(),
            forall|i: int|
                0 <= i < buffer_or_empty(old(self)@, mat_handle).slots.len() ==> #[trigger] final(self)@[mat_handle].slots[i]
                    == buffer_or_empty(old(self)@, mat_handle).slots[i],
    {
        self.slot_buffers.allocate_slot(mat_handle)
    }

    /// Sets the clip that slot `slot_id` of `mat_handle` plays, started at
    /// the global time `time_offset_bits`; the playback rate stays. A freshly
    /// allocated slot's rate is `0.0` (as `VatSlot::default` has it), so set
    /// a rate with `update_slot_with_rate` on a new slot where the shader
    /// multiplies time by it.
    pub fn update_slot(
        &mut self,
        mat_handle: u64,
        slot_id: u32,
        time_offset_bits: u32,
        animation_clip: AnimationClip,
    )
        requires
            old(self).wf(),
            old(self)@.contains_key(mat_handle),
            (slot_id as nat) < old(self)@[mat_handle].slots.len(),
            animation_clip.start_frame <= animation_clip.end_frame,
        ensures
            final(self).wf(),
            final(self)@ == old(self)@.insert(
                mat_handle,
                old(self)@[mat_handle].after_update(
                    slot_id,
                    VatSlot::playing(
                        time_offset_bits,
                        animation_clip,
                        old(self)@[mat_handle].slots[slot_id as int].rate_bits,
                    ),
                ),
            ),
            final(self)@[mat_handle].slots.len() == old(self)@[mat_handle].slots.len(),
            final(self)@[mat_handle].slots[slot_id as int] == (VatSlot {
                time_offset_bits,
                clip_start_frame: animation_clip.start_frame,
                clip_frame_count: (animation_clip.end_frame - animation_clip.start_frame) as u32,
                rate_bits: old(self)@[mat_handle].slots[slot_id as int].rate_bits,
            }),
            forall|i: int|
                0 <= i < old(self)@[mat_handle].slots.len() && i != slot_id ==> #[trigger] final(self)@[mat_handle].slots[i]
                    == old(self)@[mat_handle].slots[i],
            final(self)@[mat_handle].dirty,
    {
        self.slot_buffers.update_slot(mat_handle, slot_id, time_offset_bits, animation_clip)
    }

    /// Sets the clip and the playback rate of slot `slot_id` of `mat_handle`.
    pub fn update_slot_with_rate(
        &mut self,
        mat_handle: u64,
        slot_id: u32,
        time_offset_bits: u32,
        animation_clip: AnimationClip,
        rate_bits: u32,
    )
        requires
            old(self).wf(),
            old(self)@.contains_key(mat_handle),
            (slot_id as nat) < old(self)@[mat_handle].slots.len(),
            animation_clip.start_frame <= animation_clip.end_frame,
        ensures
            final(self).wf(),
            final(self)@ == old(self)@.insert(
                mat_handle,
                old(self)@[mat_handle].after_update(
                    slot_id,
                    VatSlot::playing(time_offset_bits, animation_clip, rate_bits),
                ),
            ),
            final(self)@[mat_handle].slots.len() == old(self)@[mat_handle].slots.len(),
            final(self)@[mat_handle].slots[slot_id as int] == (VatSlot {
                time_offset_bits,
                clip_start_frame: animation_clip.start_frame,
                clip_frame_count: (animation_clip.end_frame - animation_clip.start_frame) as u32,
                rate_bits,
            }),
            forall|i: int|
                0 <= i < old(self)@[mat_handle].slots.len() && i != slot_id ==> #[trigger] final(self)@[mat_handle].slots[i]
                    == old(self)@[mat_handle].slots[i],
            final(self)@[mat_handle].dirty,
    {
        self.slot_buffers.update_slot_with_rate(
            mat_handle,
            slot_id,
            time_offset_bits,
            animation_clip,
            rate_bits,
        )
    }

    /// Gives slot `slot_id` of `mat_handle` back, as when the entity that
    /// owned it is despawned.
    pub fn free_slot(&mut self, mat_handle: u64, slot_id: u32)
        requires
            old(self).wf(),
        ensures
            final(self).wf(),
            final(self)@ == if old(self)@.contains_key(mat_handle) {
                old(self)@.insert(mat_handle, old(self)@[mat_handle].after_free(slot_id))
            } else {
                old(self)@
            },
            old(self)@.contains_key(mat_handle) ==> final(self)@[mat_handle].slots == old(self)@[mat_handle].slots
                && final(self)@[mat_handle].dirty == old(self)@[mat_handle].dirty,
    {
        proof {
            assert forall|h: u64| #[trigger] self.slot_buffers@.contains_key(h) implies self.slot_buffers@[h].wf() by {
                assert(self@.contains_key(h));
            }
        }
        self.slot_buffers.free_slot(mat_handle, slot_id)
    }

    /// The buffers that wait for an upload, with their materials' keys.
    pub fn dirty_buffer_iter(&self) -> (r: Vec<(u64, Vec<VatSlot>)>)
        ensures
            forall|i: int|
                0 <= i < r@.len() ==> {
                    let h = (#[trigger] r@[i]).0;
                    &&& self@.contains_key(h)
                    &&& self@[h].dirty
                    &&& r@[i].1@ == self@[h].slots
                },
            forall|h: u64|
                self@.contains_key(h) && (#[trigger] self@[h]).dirty ==> exists|i: int|
                    0 <= i < r@.len() && (#[trigger] r@[i]).0 == h,
            forall|i: int, j: int| 0 <= i < j < r@.len() ==> (#[trigger] r@[i]).0 != (#[trigger] r@[j]).0,
    {
        self.slot_buffers.dirty_buffer_iter()
    }

    /// Records that the buffer of `mat_handle` was uploaded.
    pub fn acknowledge(&mut self, mat_handle: u64)
        requires
            old(self).wf(),
        ensures
            final(self).wf(),
            final(self)@ == if old(self)@.contains_key(mat_handle) {
                old(self)@.insert(mat_handle, old(self)@[mat_handle].after_acknowledge())
            } else {
                old(self)@
            },
    {
        self.slot_buffers.acknowledge(mat_handle)
    }

    /// Whether any material's buffer waits for an upload.
    pub fn has_dirty(&self) -> (r: bool)
        ensures
            r == any_dirty(self@),
    {
        self.slot_buffers.has_dirty()
    }
}

} // verus!
