//! Hands out VAT buffer slot indices and takes them back for reuse.
use vstd::prelude::*;

verus! {

/// What an allocator holds, as mathematics: how many slot indices it has
/// ever issued (`next`, the issued ones being `0..next`), and the issued
/// indices that were given back and wait for reuse, most recent last.
pub struct AllocatorModel {
    pub next: nat,
    pub free: Seq<u32>,
}

impl AllocatorModel {
    /// The state every allocator keeps: each freed index was issued, and
    /// none is waiting twice.
    pub open spec fn wf(self) -> bool {
        &&& self.next <= u32::MAX
        &&& self.free.no_duplicates()
        &&& forall|i: int| 0 <= i < self.free.len() ==> (#[trigger] self.free[i] as nat) < self.next
    }

    /// A slot is live when it was issued and has not been given back since.
    pub open spec fn is_live(self, slot: u32) -> bool {
        &&& (slot as nat) < self.next
        &&& !self.free.contains(slot)
    }

    /// All live slots.
    pub open spec fn live(self) -> Set<u32> {
        Set::new(|slot: u32| self.is_live(slot))
    }

    /// Whether one more slot can be handed out without the counter
    /// overflowing.
    pub open spec fn can_allocate(self) -> bool {
        self.free.len() > 0 || self.next < u32::MAX
    }

    /// The slot the next allocation hands out: the most recently freed
    /// one, else a fresh index.
    pub open spec fn allocated(self) -> u32 {
        if self.free.len() > 0 {
            self.free.last()
        } else {
            self.next as u32
        }
    }

    /// The state after an allocation.
    pub open spec fn after_allocate(self) -> AllocatorModel {
        if self.free.len() > 0 {
            AllocatorModel { next: self.next, free: self.free.drop_last() }
        } else {
            AllocatorModel { next: self.next + 1, free: self.free }
        }
    }

    /// The state after `slot` is given back; freeing a slot that is not
    /// live changes nothing.
    pub open spec fn after_free(self, slot: u32) -> AllocatorModel {
        if self.is_live(slot) {
            AllocatorModel { next: self.next, free: self.free.push(slot) }
        } else {
            self
        }
    }
}

/// An allocation hands out a slot that is not live, keeps the allocator
/// well formed, and adds exactly that slot to the live ones.
pub proof fn lemma_allocate_fresh(m: AllocatorModel)
    requires
        m.wf(),
        m.can_allocate(),
    ensures
        !m.is_live(m.allocated()),
        m.after_allocate().wf(),
        m.after_allocate().is_live(m.allocated()),
        m.after_allocate().live() == m.live().insert(m.allocated()),
{
    let a = m.allocated();
    let n = m.after_allocate();
    if m.free.len() > 0 {
        assert(m.free.contains(a)) by {
            assert(m.free[m.free.len() - 1] == a);
        }
        assert forall|s: u32| n.is_live(s) <==> m.live().insert(a).contains(s) by {
            if s != a {
                assert(m.free.contains(s) <==> m.free.drop_last().contains(s)) by {
                    if m.free.contains(s) {
                        let k = choose|k: int| 0 <= k < m.free.len() && m.free[k] == s;
                        assert(k != m.free.len() - 1);
                        assert(m.free.drop_last()[k] == s);
                    }
                }
            } else {
                assert(!m.free.drop_last().contains(a)) by {
                    if m.free.drop_last().contains(a) {
                        let k = choose|k: int| 0 <= k < m.free.len() - 1 && m.free.drop_last()[k] == a;
                        assert(m.free[k] == m.free[m.free.len() - 1]);
                    }
                }
            }
        }
        assert(n.live() =~= m.live().insert(a));
    } else {
        assert(!m.free.contains(a));
        assert forall|s: u32| n.is_live(s) <==> m.live().insert(a).contains(s) by {}
        assert(n.live() =~= m.live().insert(a));
    }
}

/// Giving back a live slot keeps the allocator well formed and removes
/// exactly that slot from the live ones; giving back anything else is a no-op.
pub proof fn lemma_free_releases(m: AllocatorModel, slot: u32)
    requires
        m.wf(),
    ensures
        m.after_free(slot).wf(),
        m.after_free(slot).live() == m.live().remove(slot),
{
    let n = m.after_free(slot);
    if m.is_live(slot) {
        assert forall|s: u32| n.is_live(s) <==> m.live().remove(slot).contains(s) by {
            assert(m.free.push(slot).contains(s) <==> (m.free.contains(s) || s == slot)) by {
                if m.free.push(slot).contains(s) {
                    let k = choose|k: int| 0 <= k < m.free.len() + 1 && m.free.push(slot)[k] == s;
                    if k < m.free.len() {
                        assert(m.free[k] == s);
                    }
                }
                if m.free.contains(s) {
                    let k = choose|k: int| 0 <= k < m.free.len() && m.free[k] == s;
                    assert(m.free.push(slot)[k] == s);
                }
                if s == slot {
                    assert(m.free.push(slot)[m.free.len() as int] == s);
                }
            }
        }
        assert(n.live() =~= m.live().remove(slot));
    } else {
        assert(n.live() =~= m.live().remove(slot));
    }
}

/// Reclamation: once a live slot is given back, the next allocation hands
/// that same slot out again and restores the allocator exactly.
pub proof fn lemma_free_then_allocate(m: AllocatorModel, slot: u32)
    requires
        m.wf(),
        m.is_live(slot),
    ensures
        m.after_free(slot).can_allocate(),
        m.after_free(slot).allocated() == slot,
        m.after_free(slot).after_allocate() == m,
{
    assert(m.free.push(slot).drop_last() =~= m.free);
}

/// The empty allocator, as `SlotAllocator::default` makes it.
pub open spec fn fresh_allocator() -> AllocatorModel {
    AllocatorModel { next: 0, free: Seq::empty() }
}

/// The state after `n` allocations in a row, starting from `m`.
pub open spec fn after_allocations(m: AllocatorModel, n: nat) -> AllocatorModel
    decreases n,
{
    if n == 0 {
        m
    } else {
        after_allocations(m, (n - 1) as nat).after_allocate()
    }
}

/// A new allocator with nothing freed hands out 0, 1, 2, ... in turn: after
/// `n` allocations (`n <= u32::MAX`) it has issued exactly `n` slots and none
/// waits for reuse, and the `k`-th allocation (counting from 0) handed out
/// slot `k`, so the slots handed out are strictly increasing and all below `n`.
pub proof fn lemma_fresh_allocations_count_up(n: nat)
    requires
        n <= u32::MAX,
    ensures
        after_allocations(fresh_allocator(), n) == (AllocatorModel { next: n, free: Seq::empty() }),
        forall|k: nat|
            k < n ==> {
                &&& (#[trigger] after_allocations(fresh_allocator(), k)).can_allocate()
                &&& after_allocations(fresh_allocator(), k).allocated() == k
            },
    decreases n,
{
    if n > 0 {
        lemma_fresh_allocations_count_up((n - 1) as nat);
    }
}

/// Hands out slot indices: fresh ones counting up from zero, and reuses
/// indices that were given back, most recently freed first.
pub struct SlotAllocator {
    next_slot: u32,
    free_list: Vec<u32>,
}

impl View for SlotAllocator {
    type V = AllocatorModel;

    closed spec fn view(&self) -> AllocatorModel {
        AllocatorModel { next: self.next_slot as nat, free: self.free_list@ }
    }
}

impl Default for SlotAllocator {
    fn default() -> (r: Self)
        ensures
            r@ == fresh_allocator(),
            r@.wf(),
    {
        let r = SlotAllocator { next_slot: 0, free_list: Vec::new() };
        assert(r@.free =~= Seq::<u32>::empty());
        r
    }
}

impl SlotAllocator {
    /// How many slot indices this allocator has ever issued.
    pub fn next_slot(&self) -> (r: u32)
        ensures
            r as nat == self@.next,
    {
        self.next_slot
    }

    /// Whether `allocate` can hand out a slot without the counter overflowing.
    pub fn can_allocate(&self) -> (r: bool)
        ensures
            r == self@.can_allocate(),
    {
        self.free_list.len() > 0 || self.next_slot < u32::MAX
    }

    /// Hands out the most recently freed slot, or else the next fresh index.
    pub fn allocate(&mut self) -> (slot: u32)
        requires
            old(self)@.wf(),
            old(self)@.can_allocate(),
        ensures
            slot == old(self)@.allocated(),
            final(self)@ == old(self)@.after_allocate(),
            final(self)@.wf(),
            !old(self)@.is_live(slot),
            final(self)@.live() == old(self)@.live().insert(slot),
    {
        proof {
            lemma_allocate_fresh(self@);
        }
        match self.free_list.pop() {
            Some(slot) => slot,
            None => {
                let next_slot = self.next_slot;
                self.next_slot = self.next_slot + 1;
                next_slot
            },
        }
    }

    /// Gives `slot` back for reuse. A slot that is not live (never issued,
    /// or already free) is ignored, so no index is ever handed out twice.
    pub fn free(&mut self, slot: u32)
        requires
            old(self)@.wf(),
        ensures
            final(self)@ == old(self)@.after_free(slot),
            final(self)@.wf(),
            final(self)@.live() == old(self)@.live().remove(slot),
    {
        proof {
            lemma_free_releases(self@, slot);
        }
        if slot >= self.next_slot {
            return;
        }
        let n = self.free_list.len();
        let mut i: usize = 0;
        while i < n
            invariant
                n == self.free_list@.len(),
                0 <= i <= n,
                self@ == old(self)@,
                old(self)@.wf(),
                (slot as nat) < old(self)@.next,
                forall|k: int| 0 <= k < i ==> self.free_list@[k] != slot,
            decreases n - i,
        {
            if self.free_list[i] == slot {
                return;
            }
            i = i + 1;
        }
        self.free_list.push(slot);
    }
}

} // verus!
