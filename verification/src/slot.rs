//! Per-material buffers of animation slots: each material owns a list of
//! slots that the vertex shader reads, an allocator of slot indices, and a
//! flag that says whether the list changed since it was last uploaded.
pub mod allocator;

use std::collections::HashMap;
use vstd::prelude::*;
use vstd::std_specs::hash::spec_hash_map_iter;
use vstd::std_specs::iter::IteratorSpec;

use crate::remap_info::AnimationClip;
use crate::slot::allocator::{AllocatorModel, SlotAllocator};

verus! {

broadcast use vstd::std_specs::hash::group_hash_axioms;

/// What one mesh instance plays: the global time its clip started at
/// (`time_offset_bits`, the bit pattern of an `f32`), the clip's first frame
/// and length, and the playback rate (`rate_bits`, the bit pattern of an `f32`).
#[derive(Clone, Copy, Debug, PartialEq, Eq, Structural)]
pub struct VatSlot {
    pub time_offset_bits: u32,
    pub clip_start_frame: u32,
    pub clip_frame_count: u32,
    pub rate_bits: u32,
}

impl VatSlot {
    /// The slot a fresh index starts with: everything zero (`0.0` for the
    /// float fields).
    pub open spec fn spec_default() -> VatSlot {
        VatSlot { time_offset_bits: 0, clip_start_frame: 0, clip_frame_count: 0, rate_bits: 0 }
    }

    /// The slot that plays `clip` from `time_offset_bits` at `rate_bits`.
    pub open spec fn playing(time_offset_bits: u32, clip: AnimationClip, rate_bits: u32) -> VatSlot {
        VatSlot {
            time_offset_bits,
            clip_start_frame: clip.start_frame,
            clip_frame_count: clip.spec_frame_count() as u32,
            rate_bits,
        }
    }

    pub fn new(
        time_offset_bits: u32,
        clip_start_frame: u32,
        clip_frame_count: u32,
        rate_bits: u32,
    ) -> (r: Self)
        ensures
            r == (VatSlot { time_offset_bits, clip_start_frame, clip_frame_count, rate_bits }),
    {
        VatSlot { time_offset_bits, clip_start_frame, clip_frame_count, rate_bits }
    }
}

impl Default for VatSlot {
    fn default() -> (r: Self)
        ensures
            r == VatSlot::spec_default(),
    {
        VatSlot { time_offset_bits: 0, clip_start_frame: 0, clip_frame_count: 0, rate_bits: 0 }
    }
}

/// One material's buffer, as mathematics.
pub struct BufferModel {
    pub slots: Seq<VatSlot>,
    pub alloc: AllocatorModel,
    pub dirty: bool,
}

impl BufferModel {
    /// Every index the allocator ever issued has its entry in the list.
    pub open spec fn wf(self) -> bool {
        &&& self.alloc.wf()
        &&& self.slots.len() == self.alloc.next
    }

    /// A buffer no slot was allocated from yet.
    pub open spec fn empty() -> BufferModel {
        BufferModel {
            slots: Seq::empty(),
            alloc: AllocatorModel { next: 0, free: Seq::empty() },
            dirty: false,
        }
    }

    /// After an allocation: a fresh index gets a default entry, a reused one
    /// keeps what it held, and the buffer must be uploaded.
    pub open spec fn after_allocate(self) -> BufferModel {
        let slot = self.alloc.allocated();
        BufferModel {
            slots: if slot as nat >= self.slots.len() {
                self.slots.push(VatSlot::spec_default())
            } else {
                self.slots
            },
            alloc: self.alloc.after_allocate(),
            dirty: true,
        }
    }

    /// After entry `slot` is overwritten with `value`.
    pub open spec fn after_update(self, slot: u32, value: VatSlot) -> BufferModel {
        BufferModel { slots: self.slots.update(slot as int, value), alloc: self.alloc, dirty: true }
    }

    /// After `slot` is given back to the allocator.
    pub open spec fn after_free(self, slot: u32) -> BufferModel {
        BufferModel { slots: self.slots, alloc: self.alloc.after_free(slot), dirty: self.dirty }
    }

    /// After the caller acknowledged an upload of the buffer.
    pub open spec fn after_acknowledge(self) -> BufferModel {
        BufferModel { slots: self.slots, alloc: self.alloc, dirty: false }
    }
}

/// The buffer of one material: the slots, their allocator, and whether the
/// slots changed since they were last uploaded.
pub struct VatSlotBuffer {
    buffer: Vec<VatSlot>,
    allocator: SlotAllocator,
    dirty: bool,
}

impl View for VatSlotBuffer {
    type V = BufferModel;

    closed spec fn view(&self) -> BufferModel {
        BufferModel { slots: self.buffer@, alloc: self.allocator@, dirty: self.dirty }
    }
}

impl Default for VatSlotBuffer {
    fn default() -> (r: Self)
        ensures
            r@ == BufferModel::empty(),
    {
        let r = VatSlotBuffer { buffer: Vec::new(), allocator: SlotAllocator::default(), dirty: false };
        assert(r@.slots =~= Seq::<VatSlot>::empty());
        r
    }
}

impl VatSlotBuffer {
    /// The slots, copied.
    fn slots_copy(&self) -> (r: Vec<VatSlot>)
        ensures
            r@ == self@.slots,
    {
        let mut r: Vec<VatSlot> = Vec::new();
        let n = self.buffer.len();
        let mut i: usize = 0;
        while i < n
            invariant
                n == self.buffer@.len(),
                0 <= i <= n,
                r@ == self.buffer@.take(i as int),
            decreases n - i,
        {
            r.push(self.buffer[i]);
            i = i + 1;
            assert(r@ =~= self.buffer@.take(i as int));
        }
        assert(self.buffer@.take(n as int) =~= self.buffer@);
        r
    }
}

/// The buffer of the material keyed `h`, or an empty one where it has none.
pub open spec fn buffer_or_empty(m: Map<u64, BufferModel>, h: u64) -> BufferModel {
    if m.contains_key(h) {
        m[h]
    } else {
        BufferModel::empty()
    }
}

/// Some material's buffer waits for an upload.
pub open spec fn any_dirty(m: Map<u64, BufferModel>) -> bool {
    exists|h: u64| m.contains_key(h) && (#[trigger] m[h]).dirty
}

/// Allocating never disturbs an existing entry: every entry the buffer had
/// keeps its value, the list grows by at most one entry, which is the
/// all-zero slot, the slot handed out has an entry, and the buffer is due
/// for upload whether or not it was acknowledged before.
pub proof fn lemma_allocate_keeps_entries(b: BufferModel)
    requires
        b.wf(),
        b.alloc.can_allocate(),
    ensures
        ({
            let n = b.after_allocate();
            &&& n.dirty
            &&& forall|i: int| 0 <= i < b.slots.len() ==> #[trigger] n.slots[i] == b.slots[i]
            &&& n.slots.len() == b.slots.len() || (n.slots.len() == b.slots.len() + 1
                && n.slots[b.slots.len() as int] == (VatSlot {
                time_offset_bits: 0,
                clip_start_frame: 0,
                clip_frame_count: 0,
                rate_bits: 0,
            }))
            &&& (b.alloc.allocated() as nat) < n.slots.len()
            &&& n.wf()
        }),
{
    crate::slot::allocator::lemma_allocate_fresh(b.alloc);
}

/// Updating a slot writes that one entry and nothing else: the list keeps
/// its length, entry `slot` becomes `value`, every other entry keeps its
/// value, the allocator is untouched and the buffer is due for upload.
pub proof fn lemma_update_touches_one_entry(b: BufferModel, slot: u32, value: VatSlot)
    requires
        (slot as nat) < b.slots.len(),
    ensures
        ({
            let n = b.after_update(slot, value);
            &&& n.slots.len() == b.slots.len()
            &&& n.slots[slot as int] == value
            &&& forall|i: int| 0 <= i < b.slots.len() && i != slot ==> #[trigger] n.slots[i] == b.slots[i]
            &&& n.alloc == b.alloc
            &&& n.dirty
        }),
{
}

/// The entry written for a clip holds the start time and rate given, the
/// clip's first frame, and its length: counting that many frames from the
/// first frame ends at the clip's end frame.
pub proof fn lemma_playing_slot_fields(time_offset_bits: u32, clip: AnimationClip, rate_bits: u32)
    requires
        clip.start_frame <= clip.end_frame,
    ensures
        ({
            let v = VatSlot::playing(time_offset_bits, clip, rate_bits);
            &&& v.time_offset_bits == time_offset_bits
            &&& v.rate_bits == rate_bits
            &&& v.clip_start_frame == clip.start_frame
            &&& clip.start_frame + v.clip_frame_count == clip.end_frame
        }),
{
    crate::remap_info::lemma_frame_count_spans_clip(clip);
}

/// Freeing a slot changes only the allocator: the entries stay, and a
/// buffer with changes not yet uploaded stays due for upload (a clean one
/// stays clean).
pub proof fn lemma_free_keeps_entries_and_dirty(b: BufferModel, slot: u32)
    ensures
        b.after_free(slot).slots == b.slots,
        b.after_free(slot).dirty == b.dirty,
{
}

/// Acknowledging an upload changes only the dirty flag, which it clears.
pub proof fn lemma_acknowledge_clears_only_dirty(b: BufferModel)
    ensures
        b.after_acknowledge().slots == b.slots,
        b.after_acknowledge().alloc == b.alloc,
        !b.after_acknowledge().dirty,
{
}

/// Every live slot of a well-formed buffer has its entry in the slot list,
/// so a slot that `allocate_slot` handed out can always be updated.
pub proof fn lemma_live_slot_has_entry(b: BufferModel, slot: u32)
    requires
        b.wf(),
        b.alloc.is_live(slot),
    ensures
        (slot as nat) < b.slots.len(),
{
}

/// Allocating keeps a buffer well formed, and the slot handed out has its
/// entry.
pub proof fn lemma_allocate_keeps_wf(b: BufferModel)
    requires
        b.wf(),
        b.alloc.can_allocate(),
    ensures
        b.after_allocate().wf(),
        (b.alloc.allocated() as nat) < b.after_allocate().slots.len(),
{
    crate::slot::allocator::lemma_allocate_fresh(b.alloc);
}

/// Reclamation: after a live slot is freed, the next allocation from the
/// same buffer hands out that very slot, with the slot list and allocator
/// exactly as they were before the free; only the buffer is due for upload.
pub proof fn lemma_reclaim_slot(b: BufferModel, slot: u32)
    requires
        b.wf(),
        b.alloc.is_live(slot),
    ensures
        b.after_free(slot).alloc.can_allocate(),
        b.after_free(slot).alloc.allocated() == slot,
        b.after_free(slot).after_allocate() == (BufferModel { dirty: true, ..b }),
{
    crate::slot::allocator::lemma_free_then_allocate(b.alloc, slot);
}

/// Reclamation across the buffers of all materials: when an entity's slot
/// is freed (`free_slot`) and another entity of the same material then
/// allocates (`allocate_slot`), it receives that same slot, and every
/// buffer is as it was before the free, the material's buffer being due
/// for upload.
pub proof fn lemma_reclaim_across_materials(m: Map<u64, BufferModel>, h: u64, slot: u32)
    requires
        m.contains_key(h),
        m[h].wf(),
        m[h].alloc.is_live(slot),
    ensures
        ({
            let freed = m.insert(h, m[h].after_free(slot));
            &&& buffer_or_empty(freed, h).alloc.can_allocate()
            &&& buffer_or_empty(freed, h).alloc.allocated() == slot
            &&& freed.insert(h, buffer_or_empty(freed, h).after_allocate()) == m.insert(
                h,
                BufferModel { dirty: true, ..m[h] },
            )
        }),
{
    lemma_reclaim_slot(m[h], slot);
    let freed = m.insert(h, m[h].after_free(slot));
    assert(freed.insert(h, buffer_or_empty(freed, h).after_allocate()) =~= m.insert(
        h,
        BufferModel { dirty: true, ..m[h] },
    ));
}

/// The buffers after the upload of each material of `handles`, in order,
/// was acknowledged.
pub open spec fn after_acknowledge_all(m: Map<u64, BufferModel>, handles: Seq<u64>) -> Map<
    u64,
    BufferModel,
>
    decreases handles.len(),
{
    if handles.len() == 0 {
        m
    } else {
        let h = handles.last();
        let rest = after_acknowledge_all(m, handles.drop_last());
        if rest.contains_key(h) {
            rest.insert(h, rest[h].after_acknowledge())
        } else {
            rest
        }
    }
}

/// Acknowledging changes no slot and no allocator, and a buffer is clean
/// afterwards exactly when it was clean before or was acknowledged.
pub proof fn lemma_acknowledge_all(m: Map<u64, BufferModel>, handles: Seq<u64>)
    ensures
        after_acknowledge_all(m, handles).dom() == m.dom(),
        forall|h: u64|
            #[trigger] m.contains_key(h) ==> {
                let n = after_acknowledge_all(m, handles);
                &&& n[h].slots == m[h].slots
                &&& n[h].alloc == m[h].alloc
                &&& n[h].dirty == (m[h].dirty && !handles.contains(h))
            },
    decreases handles.len(),
{
    if handles.len() > 0 {
        let init = handles.drop_last();
        lemma_acknowledge_all(m, init);
        assert forall|h: u64| handles.contains(h) <==> (init.contains(h) || h == handles.last()) by {
            if handles.contains(h) {
                let k = choose|k: int| 0 <= k < handles.len() && handles[k] == h;
                if k < handles.len() - 1 {
                    assert(init[k] == h);
                }
            }
            if init.contains(h) {
                let k = choose|k: int| 0 <= k < init.len() && init[k] == h;
                assert(handles[k] == h);
            }
            if h == handles.last() {
                assert(handles[handles.len() - 1] == h);
            }
        }
        assert(after_acknowledge_all(m, handles).dom() =~= m.dom());
    }
}

/// Once the caller acknowledges every material that `dirty_buffer_iter`
/// reported, no buffer waits for an upload; acknowledging only some of them
/// leaves the others waiting.
pub proof fn lemma_acknowledged_buffers_are_clean(m: Map<u64, BufferModel>, handles: Seq<u64>)
    ensures
        (forall|h: u64| m.contains_key(h) && (#[trigger] m[h]).dirty ==> handles.contains(h))
            ==> !any_dirty(after_acknowledge_all(m, handles)),
        forall|h: u64|
            m.contains_key(h) && (#[trigger] m[h]).dirty && !handles.contains(h)
                ==> after_acknowledge_all(m, handles)[h].dirty,
{
    lemma_acknowledge_all(m, handles);
}

/// The slot buffers of all materials, keyed by a material's numeric key.
pub struct VatSlotBuffers {
    buffers: HashMap<u64, VatSlotBuffer>,
}

impl View for VatSlotBuffers {
    type V = Map<u64, BufferModel>;

    closed spec fn view(&self) -> Map<u64, BufferModel> {
        self.buffers@.map_values(|b: VatSlotBuffer| b@)
    }
}

impl Default for VatSlotBuffers {
    fn default() -> (r: Self)
        ensures
            r@ == Map::<u64, BufferModel>::empty(),
            r.wf(),
    {
        let r = VatSlotBuffers { buffers: HashMap::new() };
        assert(r@ =~= Map::<u64, BufferModel>::empty());
        r
    }
}

impl VatSlotBuffers {
    /// Every material's buffer is well formed.
    pub open spec fn wf(&self) -> bool {
        forall|h: u64| #[trigger] self@.contains_key(h) ==> self@[h].wf()
    }

    /// Whether `allocate_slot` can hand out one more slot for `mat_handle`.
    pub fn can_allocate(&self, mat_handle: u64) -> (r: bool)
        ensures
            r == buffer_or_empty(self@, mat_handle).alloc.can_allocate(),
    {
        match self.buffers.get(&mat_handle) {
            Some(b) => b.allocator.can_allocate(),
            None => true,
        }
    }

    /// Whether `mat_handle` has a buffer with an entry for `slot_id`, as
    /// `update_slot` needs.
    pub fn has_slot(&self, mat_handle: u64, slot_id: u32) -> (r: bool)
        ensures
            r == (self@.contains_key(mat_handle) && (slot_id as nat) < self@[mat_handle].slots.len()),
    {
        match self.buffers.get(&mat_handle) {
            Some(b) => (slot_id as usize) < b.buffer.len(),
            None => false,
        }
    }

    /// Allocates a slot in the buffer of `mat_handle` (creating the buffer on
    /// first use) and marks the buffer for upload.
    pub fn allocate_slot(&mut self, mat_handle: u64) -> (slot_id: u32)
        requires
            old(self).wf(),
            buffer_or_empty(old(self)@, mat_handle).alloc.can_allocate(),
        ensures
            final(self).wf(),
            slot_id == buffer_or_empty(old(self)@, mat_handle).alloc.allocated(),
            final(self)@ == old(self)@.insert(
                mat_handle,
                buffer_or_empty(old(self)@, mat_handle).after_allocate(),
            ),
            !buffer_or_empty(old(self)@, mat_handle).alloc.is_live(slot_id),
            final(self)@[mat_handle].alloc.live()
                == buffer_or_empty(old(self)@, mat_handle).alloc.live().insert(slot_id),
            final(self)@[mat_handle].dirty,
            (slot_id as nat) < final(self)@[mat_handle].slots.len(),
            forall|i: int|
                0 <= i < buffer_or_empty(old(self)@, mat_handle).slots.len() ==> #[trigger] final(self)@[mat_handle].slots[i]
                    == buffer_or_empty(old(self)@, mat_handle).slots[i],
    {
        proof {
            lemma_allocate_keeps_entries(buffer_or_empty(self@, mat_handle));
        }
        let ghost before = buffer_or_empty(self@, mat_handle);
        let mut buffer = match self.buffers.remove(&mat_handle) {
            Some(b) => b,
            None => VatSlotBuffer::default(),
        };
        assert(buffer@ == before);
        let slot_id = buffer.allocator.allocate();
        if slot_id as usize >= buffer.buffer.len() {
            buffer.buffer.push(VatSlot::default());
        }
        buffer.dirty = true;
        assert(buffer@ == before.after_allocate());
        self.buffers.insert(mat_handle, buffer);
        assert(self@ =~= old(self)@.insert(mat_handle, before.after_allocate()));
        slot_id
    }

    /// Points slot `slot_id` of `mat_handle` at `animation_clip`, started at
    /// `time_offset_bits` and played at `rate_bits`, and marks the buffer
    /// for upload.
    pub fn update_slot_with_rate(
        &mut self,
        mat_handle: u64,
        slot_id: u32,
        time_offset_bits: u32,
        animation_clip: AnimationClip,
        rate_bits: u32,
    )
        requires
            old(self).wf(),
            old(self)@.contains_key(mat_handle),
            (slot_id as nat) < old(self)@[mat_handle].slots.len(),
            animation_clip.start_frame <= animation_clip.end_frame,
        ensures
            final(self).wf(),
            final(self)@ == old(self)@.insert(
                mat_handle,
                old(self)@[mat_handle].after_update(
                    slot_id,
                    VatSlot::playing(time_offset_bits, animation_clip, rate_bits),
                ),
            ),
            final(self)@[mat_handle].slots.len() == old(self)@[mat_handle].slots.len(),
            final(self)@[mat_handle].slots[slot_id as int] == (VatSlot {
                time_offset_bits,
                clip_start_frame: animation_clip.start_frame,
                clip_frame_count: (animation_clip.end_frame - animation_clip.start_frame) as u32,
                rate_bits,
            }),
            forall|i: int|
                0 <= i < old(self)@[mat_handle].slots.len() && i != slot_id ==> #[trigger] final(self)@[mat_handle].slots[i]
                    == old(self)@[mat_handle].slots[i],
            final(self)@[mat_handle].dirty,
    {
        proof {
            lemma_update_touches_one_entry(
                self@[mat_handle],
                slot_id,
                VatSlot::playing(time_offset_bits, animation_clip, rate_bits),
            );
            lemma_playing_slot_fields(time_offset_bits, animation_clip, rate_bits);
        }
        let ghost before = self@[mat_handle];
        let mut buffer = match self.buffers.remove(&mat_handle) {
            Some(b) => b,
            None => VatSlotBuffer::default(),
        };
        assert(buffer@ == before);
        let value = VatSlot::new(
            time_offset_bits,
            animation_clip.start_frame,
            animation_clip.frame_count(),
            rate_bits,
        );
        buffer.buffer.set(slot_id as usize, value);
        buffer.dirty = true;
        assert(buffer@ == before.after_update(slot_id, value));
        self.buffers.insert(mat_handle, buffer);
        assert(self@ =~= old(self)@.insert(mat_handle, before.after_update(slot_id, value)));
    }

    /// Points slot `slot_id` of `mat_handle` at `animation_clip`, started at
    /// `time_offset_bits`, keeps the slot's playback rate, and marks the
    /// buffer for upload. A freshly allocated slot's rate is `0.0` (as
    /// `VatSlot::default` has it), so set a rate with
    /// `update_slot_with_rate` on a new slot where the shader multiplies
    /// time by it.
    pub fn update_slot(
        &mut self,
        mat_handle: u64,
        slot_id: u32,
        time_offset_bits: u32,
        animation_clip: AnimationClip,
    )
        requires
            old(self).wf(),
            old(self)@.contains_key(mat_handle),
            (slot_id as nat) < old(self)@[mat_handle].slots.len(),
            animation_clip.start_frame <= animation_clip.end_frame,
        ensures
            final(self).wf(),
            final(self)@ == old(self)@.insert(
                mat_handle,
                old(self)@[mat_handle].after_update(
                    slot_id,
                    VatSlot::playing(
                        time_offset_bits,
                        animation_clip,
                        old(self)@[mat_handle].slots[slot_id as int].rate_bits,
                    ),
                ),
            ),
            final(self)@[mat_handle].slots.len() == old(self)@[mat_handle].slots.len(),
            final(self)@[mat_handle].slots[slot_id as int] == (VatSlot {
                time_offset_bits,
                clip_start_frame: animation_clip.start_frame,
                clip_frame_count: (animation_clip.end_frame - animation_clip.start_frame) as u32,
                rate_bits: old(self)@[mat_handle].slots[slot_id as int].rate_bits,
            }),
            forall|i: int|
                0 <= i < old(self)@[mat_handle].slots.len() && i != slot_id ==> #[trigger] final(self)@[mat_handle].slots[i]
                    == old(self)@[mat_handle].slots[i],
            final(self)@[mat_handle].dirty,
    {
        let rate_bits = match self.buffers.get(&mat_handle) {
            Some(b) => b.buffer[slot_id as usize].rate_bits,
            None => 0,
        };
        self.update_slot_with_rate(mat_handle, slot_id, time_offset_bits, animation_clip, rate_bits);
    }

    /// Gives slot `slot_id` of `mat_handle` back for reuse. Nothing happens
    /// where the material has no buffer or the slot is not live.
    pub fn free_slot(&mut self, mat_handle: u64, slot_id: u32)
        requires
            old(self).wf(),
        ensures
            final(self).wf(),
            final(self)@ == if old(self)@.contains_key(mat_handle) {
                old(self)@.insert(mat_handle, old(self)@[mat_handle].after_free(slot_id))
            } else {
                old(self)@
            },
            old(self)@.contains_key(mat_handle) ==> final(self)@[mat_handle].slots == old(self)@[mat_handle].slots
                && final(self)@[mat_handle].dirty == old(self)@[mat_handle].dirty,
    {
        proof {
            if self@.contains_key(mat_handle) {
                lemma_free_keeps_entries_and_dirty(self@[mat_handle], slot_id);
            }
        }
        match self.buffers.remove(&mat_handle) {
            Some(b) => {
                let ghost before = b@;
                assert(old(self)@.contains_key(mat_handle));
                assert(before == old(self)@[mat_handle]);
                let mut buffer = b;
                buffer.allocator.free(slot_id);
                assert(buffer@ == before.after_free(slot_id));
                self.buffers.insert(mat_handle, buffer);
                assert(self@ =~= old(self)@.insert(mat_handle, before.after_free(slot_id)));
            },
            None => {
                assert(self@ =~= old(self)@);
            },
        }
    }

    /// Records that the buffer of `mat_handle` was uploaded: it is clean
    /// until it changes again.
    pub fn acknowledge(&mut self, mat_handle: u64)
        requires
            old(self).wf(),
        ensures
            final(self).wf(),
            final(self)@ == if old(self)@.contains_key(mat_handle) {
                old(self)@.insert(mat_handle, old(self)@[mat_handle].after_acknowledge())
            } else {
                old(self)@
            },
    {
        match self.buffers.remove(&mat_handle) {
            Some(b) => {
                let ghost before = b@;
                let mut buffer = b;
                buffer.dirty = false;
                assert(buffer@ == before.after_acknowledge());
                self.buffers.insert(mat_handle, buffer);
                assert(self@ =~= old(self)@.insert(mat_handle, before.after_acknowledge()));
            },
            None => {
                assert(self@ =~= old(self)@);
            },
        }
    }

    /// Whether any material's buffer waits for an upload.
    pub fn has_dirty(&self) -> (r: bool)
        ensures
            r == any_dirty(self@),
    {
        let ghost all = spec_hash_map_iter(&self.buffers).remaining();
        for kv in it: self.buffers.iter()
            invariant
                it.seq() == all,
                all == spec_hash_map_iter(&self.buffers).remaining(),
                forall|j: int| 0 <= j < it.index() ==> !(#[trigger] all[j]).1.dirty,
        {
            if kv.1.dirty {
                assert(self.buffers@.contains_key(*kv.0));
                assert(self@[*kv.0].dirty);
                return true;
            }
        }
        assert forall|h: u64| self@.contains_key(h) implies !(#[trigger] self@[h]).dirty by {
            assert(all.contains((&h, &self.buffers@[h])));
        }
        false
    }

    /// The buffers that wait for an upload, each with its material's key and
    /// a copy of its slots. Taking them changes nothing: a buffer stays
    /// dirty until `acknowledge` is called for it, so a failed upload is
    /// retried.
    pub fn dirty_buffer_iter(&self) -> (r: Vec<(u64, Vec<VatSlot>)>)
        ensures
            forall|i: int|
                0 <= i < r@.len() ==> {
                    let h = (#[trigger] r@[i]).0;
                    &&& self@.contains_key(h)
                    &&& self@[h].dirty
                    &&& r@[i].1@ == self@[h].slots
                },
            forall|h: u64|
                self@.contains_key(h) && (#[trigger] self@[h]).dirty ==> exists|i: int|
                    0 <= i < r@.len() && (#[trigger] r@[i]).0 == h,
            forall|i: int, j: int| 0 <= i < j < r@.len() ==> (#[trigger] r@[i]).0 != (#[trigger] r@[j]).0,
    {
        let ghost all = spec_hash_map_iter(&self.buffers).remaining();
        let mut r: Vec<(u64, Vec<VatSlot>)> = Vec::new();
        let ghost mut src: Seq<int> = Seq::empty();
        for kv in it: self.buffers.iter()
            invariant
                it.seq() == all,
                all == spec_hash_map_iter(&self.buffers).remaining(),
                all.no_duplicates(),
                src.len() == r@.len(),
                forall|k: int| 0 <= k < src.len() ==> 0 <= #[trigger] src[k] < it.index(),
                forall|a: int, b: int| 0 <= a < b < src.len() ==> #[trigger] src[a] < #[trigger] src[b],
                forall|k: int|
                    0 <= k < r@.len() ==> {
                        let h = (#[trigger] r@[k]).0;
                        &&& h == *all[src[k]].0
                        &&& self@.contains_key(h)
                        &&& self@[h].dirty
                        &&& r@[k].1@ == self@[h].slots
                    },
                forall|j: int|
                    0 <= j < it.index() && (#[trigger] all[j]).1.dirty ==> exists|k: int|
                        0 <= k < src.len() && src[k] == j,
        {
            let ghost idx = it.index();
            let ghost old_src = src;
            assert(kv == all[idx]);
            if kv.1.dirty {
                let slots = kv.1.slots_copy();
                r.push((*kv.0, slots));
                proof {
                    src = src.push(idx);
                }
            }
            proof {
                assert forall|j: int| 0 <= j < idx + 1 && (#[trigger] all[j]).1.dirty implies exists|k: int|
                    0 <= k < src.len() && src[k] == j by {
                    if j < idx {
                        let k = choose|k: int| 0 <= k < old_src.len() && old_src[k] == j;
                        assert(src[k] == j);
                    } else {
                        assert(src[src.len() - 1] == j);
                    }
                }
            }
        }
        proof {
            assert forall|h: u64|
                self@.contains_key(h) && (#[trigger] self@[h]).dirty implies exists|i: int|
                    0 <= i < r@.len() && (#[trigger] r@[i]).0 == h by {
                assert(all.contains((&h, &self.buffers@[h])));
                let j = choose|j: int| 0 <= j < all.len() && all[j] == (&h, &self.buffers@[h]);
                assert(all[j].1.dirty);
                let k = choose|k: int| 0 <= k < src.len() && src[k] == j;
                assert(r@[k].0 == h);
            }
            assert forall|a: int, b: int| 0 <= a < b < r@.len() implies (#[trigger] r@[a]).0 != (#[trigger] r@[b]).0 by {
                if r@[a].0 == r@[b].0 {
                    let ja = src[a];
                    let jb = src[b];
                    assert(self.buffers@[*all[ja].0] == *all[ja].1);
                    assert(self.buffers@[*all[jb].0] == *all[jb].1);
                    assert(all[ja] == all[jb]);
                }
            }
        }
        r
    }
}

} // verus!
