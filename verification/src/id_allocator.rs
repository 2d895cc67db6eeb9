//! ID allocation for JavaScript references and Rust-owned object handles.

use crate::{JSIDX_OFFSET, JSIDX_RESERVED};
use std::collections::BTreeSet;
use vstd::prelude::*;

verus! {

broadcast use {vstd::std_specs::btree::group_btree_axioms, vstd::laws_cmp::group_laws_cmp};

/// Abstract state of an [`IdSlab`]: the live IDs, the released-and-recycled
/// IDs ready for reuse, and the next never-issued ID.
pub struct SlabState {
    pub live: Set<u64>,
    pub free: Set<u64>,
    pub next: u64,
}

impl SlabState {
    /// Live and reusable IDs are disjoint and all of them were issued before `next`.
    pub open spec fn wf(self) -> bool {
        &&& self.live.finite()
        &&& self.free.finite()
        &&& self.live.disjoint(self.free)
        &&& forall|x: u64| #[trigger] self.live.contains(x) ==> x < self.next
        &&& forall|x: u64| #[trigger] self.free.contains(x) ==> x < self.next
    }

    /// Every ID the slab knows of is at least `lo`, and so is `next`.
    pub open spec fn all_at_least(self, lo: u64) -> bool {
        &&& lo <= self.next
        &&& forall|x: u64| #[trigger] self.live.contains(x) ==> lo <= x
        &&& forall|x: u64| #[trigger] self.free.contains(x) ==> lo <= x
    }

    /// `x` is the smallest reusable ID.
    pub open spec fn is_min_free(self, x: u64) -> bool {
        &&& self.free.contains(x)
        &&& forall|y: u64| #[trigger] self.free.contains(y) ==> x <= y
    }

    /// An allocation can proceed without exhausting the ID space.
    pub open spec fn can_alloc(self) -> bool {
        !self.free.is_empty() || self.next < u64::MAX
    }

    /// The ID that `alloc` hands out: the smallest reusable ID if there is
    /// one, otherwise the next never-issued ID.
    pub open spec fn alloc_choice(self, id: u64) -> bool {
        if self.free.is_empty() {
            id == self.next
        } else {
            self.is_min_free(id)
        }
    }

    /// The state after `alloc` handed out `id`.
    pub open spec fn after_alloc(self, id: u64) -> SlabState {
        SlabState {
            live: self.live.insert(id),
            free: self.free.remove(id),
            next: if self.free.is_empty() { (self.next + 1) as u64 } else { self.next },
        }
    }

    /// The state after `reserve_exact(id)`.
    pub open spec fn after_reserve(self, id: u64) -> SlabState {
        SlabState {
            live: self.live.insert(id),
            free: self.free.remove(id),
            next: if id >= self.next { (id + 1) as u64 } else { self.next },
        }
    }

    /// The state after `release(id)`.
    pub open spec fn after_release(self, id: u64) -> SlabState {
        SlabState { live: self.live.remove(id), ..self }
    }

    /// The state after `recycle(id)`.
    pub open spec fn after_recycle(self, id: u64) -> SlabState {
        SlabState { free: self.free.insert(id), ..self }
    }
}

/// A small ID-only slab.
///
/// IDs move through three states: unallocated, live (after `alloc` or
/// `reserve_exact`) and released (after `release`, before `recycle`).
/// Keeping `release` and `recycle` separate lets callers delay reuse until
/// the remote side has completed any required cleanup.
pub struct IdSlab {
    live_ids: BTreeSet<u64>,
    free_ids: BTreeSet<u64>,
    next_id: u64,
}

impl View for IdSlab {
    type V = SlabState;

    closed spec fn view(&self) -> SlabState {
        SlabState { live: self.live_ids@, free: self.free_ids@, next: self.next_id }
    }
}

impl IdSlab {
    pub fn new(first_id: u64) -> (s: Self)
        ensures
            s@ == (SlabState { live: Set::empty(), free: Set::empty(), next: first_id }),
            s@.wf(),
    {
        IdSlab { live_ids: BTreeSet::new(), free_ids: BTreeSet::new(), next_id: first_id }
    }

    /// Hand out the smallest recycled ID, or a fresh one when none is reusable.
    pub fn alloc_id(&mut self) -> (id: u64)
        requires
            old(self)@.wf(),
            old(self)@.can_alloc(),
        ensures
            old(self)@.alloc_choice(id),
            !old(self)@.live.contains(id),
            final(self)@ == old(self)@.after_alloc(id),
            final(self)@.wf(),
    {
        if let Some(id) = first_of(&self.free_ids) {
            self.free_ids.remove(&id);
            self.mark_live(id);
            return id;
        }
        let id = self.next_id;
        self.next_id = next_heap_id_after(self.next_id);
        self.mark_live(id);
        assert(old(self)@.free.remove(id) =~= old(self)@.free);
        id
    }

    /// Mark an ID chosen elsewhere as live, taking it out of the reuse pool
    /// and moving the fresh-ID counter past it.
    pub fn reserve_exact(&mut self, id: u64)
        requires
            old(self)@.wf(),
            !old(self)@.live.contains(id),
            id >= old(self)@.next ==> id < u64::MAX,
        ensures
            final(self)@ == old(self)@.after_reserve(id),
            final(self)@.wf(),
    {
        self.free_ids.remove(&id);
        if id >= self.next_id {
            self.next_id = next_heap_id_after(id);
        }
        self.mark_live(id);
    }

    /// Move a live ID to the released state.
    pub fn release(&mut self, id: u64)
        requires
            old(self)@.wf(),
            old(self)@.live.contains(id),
        ensures
            final(self)@ == old(self)@.after_release(id),
            final(self)@.wf(),
    {
        let removed = self.live_ids.remove(&id);
        assert(removed);
    }

    /// Make a released ID available for reuse.
    pub fn recycle(&mut self, id: u64)
        requires
            old(self)@.wf(),
            !old(self)@.live.contains(id),
            id < old(self)@.next,
        ensures
            final(self)@ == old(self)@.after_recycle(id),
            final(self)@.wf(),
    {
        self.free_ids.insert(id);
    }

    /// Recycle `id` unless it has become live again; reports whether it was recycled.
    pub fn recycle_if_released(&mut self, id: u64) -> (recycled: bool)
        requires
            old(self)@.wf(),
            id < old(self)@.next,
        ensures
            recycled == !old(self)@.live.contains(id),
            final(self)@ == (if recycled { old(self)@.after_recycle(id) } else { old(self)@ }),
            final(self)@.wf(),
    {
        if self.live_ids.contains(&id) {
            return false;
        }
        self.free_ids.insert(id);
        true
    }

    /// Whether `id` is live.
    pub fn contains(&self, id: u64) -> (r: bool)
        ensures
            r == self@.live.contains(id),
    {
        self.live_ids.contains(&id)
    }

    /// Whether `id` is waiting in the reuse pool.
    pub fn is_reusable(&self, id: u64) -> (r: bool)
        ensures
            r == self@.free.contains(id),
    {
        self.free_ids.contains(&id)
    }

    fn mark_live(&mut self, id: u64)
        requires
            !old(self)@.live.contains(id),
        ensures
            final(self)@ == (SlabState { live: old(self)@.live.insert(id), ..old(self)@ }),
    {
        let inserted = self.live_ids.insert(id);
        assert(inserted);
    }
}

/// Abstract state of [`HeapIds`].
pub struct HeapState {
    pub slab: SlabState,
    /// IDs allocated for values JS sent without an ID, awaiting installation.
    pub pending: Seq<u64>,
    /// IDs reserved as placeholders for JS function return values.
    pub reserved: Seq<u64>,
}

impl HeapState {
    /// The slab is well formed and never hands out an ID below `JSIDX_RESERVED`.
    pub open spec fn wf(self) -> bool {
        self.slab.wf() && self.slab.all_at_least(JSIDX_RESERVED)
    }
}

/// Heap IDs Rust allocated for values JS sent without encoding an ID.
pub type InstallIdBatch = Vec<u64>;

/// Allocator for JavaScript heap slots mirrored on the Rust side.
pub struct HeapIds {
    slab: IdSlab,
    /// IDs allocated while decoding the current inbound message, awaiting the
    /// next outbound's install prelude.
    pending_install_ids: Vec<u64>,
    /// IDs reserved as placeholders for JS function return values.
    reserved_placeholder_ids: Vec<u64>,
}

impl View for HeapIds {
    type V = HeapState;

    closed spec fn view(&self) -> HeapState {
        HeapState {
            slab: self.slab@,
            pending: self.pending_install_ids@,
            reserved: self.reserved_placeholder_ids@,
        }
    }
}

impl HeapIds {
    pub fn new() -> (h: Self)
        ensures
            h@.slab == (SlabState { live: Set::empty(), free: Set::empty(), next: JSIDX_RESERVED }),
            h@.pending == Seq::<u64>::empty(),
            h@.reserved == Seq::<u64>::empty(),
            h@.wf(),
    {
        HeapIds {
            slab: IdSlab::new(JSIDX_RESERVED),
            pending_install_ids: Vec::new(),
            reserved_placeholder_ids: Vec::new(),
        }
    }

    fn next_heap_id(&mut self) -> (id: u64)
        requires
            old(self)@.wf(),
            old(self)@.slab.can_alloc(),
        ensures
            old(self)@.slab.alloc_choice(id),
            final(self)@ == (HeapState { slab: old(self)@.slab.after_alloc(id), ..old(self)@ }),
            final(self)@.wf(),
            JSIDX_RESERVED <= id,
    {
        self.slab.alloc_id()
    }

    /// Record a heap ID that JS allocated, so Rust-side allocations cannot collide with it.
    pub fn observe_js_heap_id(&mut self, id: u64)
        requires
            old(self)@.wf(),
            id >= JSIDX_RESERVED ==> !old(self)@.slab.live.contains(id),
            id >= JSIDX_RESERVED && id >= old(self)@.slab.next ==> id < u64::MAX,
        ensures
            final(self)@ == (HeapState {
                slab: if id >= JSIDX_RESERVED { old(self)@.slab.after_reserve(id) } else { old(self)@.slab },
                ..old(self)@
            }),
            final(self)@.wf(),
    {
        if id >= JSIDX_RESERVED {
            self.slab.reserve_exact(id);
        }
    }

    /// Allocate a heap ID for a return-value placeholder and remember it for JS.
    pub fn next_placeholder_id(&mut self) -> (id: u64)
        requires
            old(self)@.wf(),
            old(self)@.slab.can_alloc(),
        ensures
            old(self)@.slab.alloc_choice(id),
            final(self)@ == (HeapState {
                slab: old(self)@.slab.after_alloc(id),
                reserved: old(self)@.reserved.push(id),
                ..old(self)@
            }),
            final(self)@.wf(),
            JSIDX_RESERVED <= id,
    {
        let id = self.next_heap_id();
        self.reserved_placeholder_ids.push(id);
        id
    }

    /// Allocate a heap ID for a value JS sent without one; it joins the pending install batch.
    pub fn next_inbound_js_heap_id(&mut self) -> (id: u64)
        requires
            old(self)@.wf(),
            old(self)@.slab.can_alloc(),
        ensures
            old(self)@.slab.alloc_choice(id),
            final(self)@ == (HeapState {
                slab: old(self)@.slab.after_alloc(id),
                pending: old(self)@.pending.push(id),
                ..old(self)@
            }),
            final(self)@.wf(),
            JSIDX_RESERVED <= id,
    {
        let id = self.slab.alloc_id();
        self.pending_install_ids.push(id);
        id
    }

    /// Release the slot of a live heap ID (IDs below `JSIDX_RESERVED` are never released).
    pub fn release_heap_slot(&mut self, id: u64)
        requires
            old(self)@.wf(),
            id >= JSIDX_RESERVED,
            old(self)@.slab.live.contains(id),
        ensures
            final(self)@ == (HeapState { slab: old(self)@.slab.after_release(id), ..old(self)@ }),
            final(self)@.wf(),
    {
        self.slab.release(id);
    }

    /// Make a released heap ID reusable; reserved JS IDs are ignored.
    pub fn recycle_heap_id(&mut self, id: u64)
        requires
            old(self)@.wf(),
            id >= JSIDX_RESERVED ==> !old(self)@.slab.live.contains(id) && id < old(self)@.slab.next,
        ensures
            final(self)@ == (HeapState {
                slab: if id >= JSIDX_RESERVED { old(self)@.slab.after_recycle(id) } else { old(self)@.slab },
                ..old(self)@
            }),
            final(self)@.wf(),
    {
        if id >= JSIDX_RESERVED {
            self.slab.recycle(id);
        }
    }

    /// Recycle a heap ID unless it is reserved or live again; reports whether it was recycled.
    pub fn recycle_heap_id_if_released(&mut self, id: u64) -> (recycled: bool)
        requires
            old(self)@.wf(),
            id >= JSIDX_RESERVED ==> id < old(self)@.slab.next,
        ensures
            recycled == (id >= JSIDX_RESERVED && !old(self)@.slab.live.contains(id)),
            final(self)@ == (HeapState {
                slab: if recycled { old(self)@.slab.after_recycle(id) } else { old(self)@.slab },
                ..old(self)@
            }),
            final(self)@.wf(),
    {
        id >= JSIDX_RESERVED && self.slab.recycle_if_released(id)
    }

    /// Take the IDs JS should install for objects it sent to Rust.
    pub fn take_pending_install_ids(&mut self) -> (batch: InstallIdBatch)
        ensures
            batch@ == old(self)@.pending,
            final(self)@ == (HeapState { pending: Seq::<u64>::empty(), ..old(self)@ }),
    {
        let mut batch = Vec::new();
        std::mem::swap(&mut batch, &mut self.pending_install_ids);
        batch
    }

    /// Take the IDs JS should reserve for pending Rust-to-JS return values.
    pub fn take_reserved_placeholder_ids(&mut self) -> (ids: Vec<u64>)
        ensures
            ids@ == old(self)@.reserved,
            final(self)@ == (HeapState { reserved: Seq::<u64>::empty(), ..old(self)@ }),
    {
        let mut ids = Vec::new();
        std::mem::swap(&mut ids, &mut self.reserved_placeholder_ids);
        ids
    }
}

/// Abstract state of [`BorrowIds`].
pub struct BorrowState {
    /// Borrow stack pointer: the last borrow ID handed out, growing down from `JSIDX_OFFSET`.
    pub pointer: u64,
    /// Saved stack pointers of the enclosing operations.
    pub frames: Seq<u64>,
}

impl BorrowState {
    pub open spec fn wf(self) -> bool {
        &&& 1 <= self.pointer <= JSIDX_OFFSET
        &&& forall|i: int| 0 <= i < self.frames.len() ==> 1 <= #[trigger] self.frames[i] <= JSIDX_OFFSET
    }

    /// The state after handing out one borrow ID.
    pub open spec fn after_borrow(self) -> BorrowState {
        BorrowState { pointer: (self.pointer - 1) as u64, ..self }
    }

    /// The state after handing out `k` borrow IDs.
    pub open spec fn after_borrows(self, k: nat) -> BorrowState
        decreases k,
    {
        if k == 0 {
            self
        } else {
            self.after_borrows((k - 1) as nat).after_borrow()
        }
    }

    /// The state after `push_frame`.
    pub open spec fn after_push(self) -> BorrowState {
        BorrowState { frames: self.frames.push(self.pointer), ..self }
    }

    /// The state after `pop_frame`.
    pub open spec fn after_pop(self) -> BorrowState {
        BorrowState { pointer: self.frames.last(), frames: self.frames.drop_last() }
    }
}

/// The borrow stack: indices 1-127, growing downward from `JSIDX_OFFSET`.
pub struct BorrowIds {
    stack_pointer: u64,
    frame_stack: Vec<u64>,
}

impl View for BorrowIds {
    type V = BorrowState;

    closed spec fn view(&self) -> BorrowState {
        BorrowState { pointer: self.stack_pointer, frames: self.frame_stack@ }
    }
}

impl BorrowIds {
    pub fn new() -> (b: Self)
        ensures
            b@ == (BorrowState { pointer: JSIDX_OFFSET, frames: Seq::<u64>::empty() }),
            b@.wf(),
    {
        BorrowIds { stack_pointer: JSIDX_OFFSET, frame_stack: Vec::new() }
    }

    /// Hand out the next borrow ID; the stack holds at most 127 borrowed references.
    pub fn next_borrow_id(&mut self) -> (id: u64)
        requires
            old(self)@.wf(),
            old(self)@.pointer > 1,
        ensures
            id == old(self)@.pointer - 1,
            final(self)@ == old(self)@.after_borrow(),
            final(self)@.wf(),
    {
        self.stack_pointer = self.stack_pointer - 1;
        assert(self@.frames == old(self)@.frames);
        self.stack_pointer
    }

    /// Save the stack pointer before a nested operation.
    pub fn push_frame(&mut self)
        requires
            old(self)@.wf(),
        ensures
            final(self)@ == old(self)@.after_push(),
            final(self)@.wf(),
    {
        self.frame_stack.push(self.stack_pointer);
        assert forall|i: int| 0 <= i < self@.frames.len() implies 1 <= #[trigger] self@.frames[i]
            <= JSIDX_OFFSET by {
            if i < old(self)@.frames.len() {
                assert(self@.frames[i] == old(self)@.frames[i]);
            }
        }
    }

    /// Restore the stack pointer saved by the matching `push_frame`.
    pub fn pop_frame(&mut self)
        requires
            old(self)@.wf(),
            old(self)@.frames.len() > 0,
        ensures
            final(self)@ == old(self)@.after_pop(),
            final(self)@.wf(),
    {
        let saved = self.frame_stack.pop();
        match saved {
            Some(saved_pointer) => {
                self.stack_pointer = saved_pointer;
            },
            None => {},
        }
    }
}

/// Handles for Rust-owned exported objects: handle 0 is never used, released
/// handles are reused smallest first.
pub struct ObjectHandles {
    slab: IdSlab,
}

impl View for ObjectHandles {
    type V = SlabState;

    closed spec fn view(&self) -> SlabState {
        self.slab@
    }
}

/// Well-formed handle state: a well-formed slab of IDs in `1..=u32::MAX`.
pub open spec fn handles_wf(s: SlabState) -> bool {
    s.wf() && s.all_at_least(1) && s.next <= u32::MAX
}

/// A handle can be allocated without exhausting the `u32` handle space.
pub open spec fn handles_can_alloc(s: SlabState) -> bool {
    !s.free.is_empty() || s.next < u32::MAX
}

impl ObjectHandles {
    pub fn new() -> (h: Self)
        ensures
            h@ == (SlabState { live: Set::empty(), free: Set::empty(), next: 1 }),
            handles_wf(h@),
    {
        ObjectHandles { slab: IdSlab::new(1) }
    }

    /// Hand out the smallest released handle, or a fresh one.
    pub fn next_handle(&mut self) -> (handle: u32)
        requires
            handles_wf(old(self)@),
            handles_can_alloc(old(self)@),
        ensures
            old(self)@.alloc_choice(handle as u64),
            final(self)@ == old(self)@.after_alloc(handle as u64),
            handles_wf(final(self)@),
            handle >= 1,
    {
        if self.slab.next_id == u32::MAX as u64 {
            proof {
                assert(!self@.free.is_empty());
            }
        }
        let id = self.slab.alloc_id();
        id as u32
    }

    /// Release a live handle and make it immediately reusable.
    pub fn release_handle(&mut self, handle: u32)
        requires
            handles_wf(old(self)@),
            old(self)@.live.contains(handle as u64),
        ensures
            final(self)@ == old(self)@.after_release(handle as u64).after_recycle(handle as u64),
            handles_wf(final(self)@),
    {
        self.slab.release(handle as u64);
        self.slab.recycle(handle as u64);
    }

    /// Whether `handle` is live.
    pub fn is_live(&self, handle: u32) -> (r: bool)
        ensures
            r == self@.live.contains(handle as u64),
    {
        self.slab.contains(handle as u64)
    }
}

/// Abstract state of an [`IdAllocator`].
pub struct AllocatorState {
    pub heap: HeapState,
    pub borrows: BorrowState,
    pub objects: SlabState,
}

impl AllocatorState {
    pub open spec fn wf(self) -> bool {
        self.heap.wf() && self.borrows.wf() && handles_wf(self.objects)
    }
}

/// Allocates the IDs and handles used by the runtime.
pub struct IdAllocator {
    heap: HeapIds,
    borrows: BorrowIds,
    objects: ObjectHandles,
}

impl View for IdAllocator {
    type V = AllocatorState;

    closed spec fn view(&self) -> AllocatorState {
        AllocatorState { heap: self.heap@, borrows: self.borrows@, objects: self.objects@ }
    }
}

impl IdAllocator {
    pub fn new() -> (a: Self)
        ensures
            a@.heap.slab == (SlabState { live: Set::empty(), free: Set::empty(), next: JSIDX_RESERVED }),
            a@.heap.pending == Seq::<u64>::empty(),
            a@.heap.reserved == Seq::<u64>::empty(),
            a@.borrows == (BorrowState { pointer: JSIDX_OFFSET, frames: Seq::<u64>::empty() }),
            a@.objects == (SlabState { live: Set::empty(), free: Set::empty(), next: 1 }),
            a@.wf(),
    {
        IdAllocator { heap: HeapIds::new(), borrows: BorrowIds::new(), objects: ObjectHandles::new() }
    }

    /// Record a heap ID allocated by JS in a response.
    pub fn observe_js_heap_id(&mut self, id: u64)
        requires
            old(self)@.wf(),
            id >= JSIDX_RESERVED ==> !old(self)@.heap.slab.live.contains(id),
            id >= JSIDX_RESERVED && id >= old(self)@.heap.slab.next ==> id < u64::MAX,
        ensures
            final(self)@ == (AllocatorState {
                heap: HeapState {
                    slab: if id >= JSIDX_RESERVED { old(self)@.heap.slab.after_reserve(id) } else { old(self)@.heap.slab },
                    ..old(self)@.heap
                },
                ..old(self)@
            }),
            final(self)@.wf(),
    {
        self.heap.observe_js_heap_id(id);
    }

    /// The next heap ID for a return-value placeholder.
    pub fn next_placeholder_id(&mut self) -> (id: u64)
        requires
            old(self)@.wf(),
            old(self)@.heap.slab.can_alloc(),
        ensures
            old(self)@.heap.slab.alloc_choice(id),
            final(self)@ == (AllocatorState {
                heap: HeapState {
                    slab: old(self)@.heap.slab.after_alloc(id),
                    reserved: old(self)@.heap.reserved.push(id),
                    ..old(self)@.heap
                },
                ..old(self)@
            }),
            final(self)@.wf(),
    {
        self.heap.next_placeholder_id()
    }

    /// The heap ID for a value JS sent without one.
    pub fn next_inbound_js_heap_id(&mut self) -> (id: u64)
        requires
            old(self)@.wf(),
            old(self)@.heap.slab.can_alloc(),
        ensures
            old(self)@.heap.slab.alloc_choice(id),
            final(self)@ == (AllocatorState {
                heap: HeapState {
                    slab: old(self)@.heap.slab.after_alloc(id),
                    pending: old(self)@.heap.pending.push(id),
                    ..old(self)@.heap
                },
                ..old(self)@
            }),
            final(self)@.wf(),
    {
        self.heap.next_inbound_js_heap_id()
    }

    /// The next borrow ID from the borrow stack (indices 1-127).
    pub fn next_borrow_id(&mut self) -> (id: u64)
        requires
            old(self)@.wf(),
            old(self)@.borrows.pointer > 1,
        ensures
            id == old(self)@.borrows.pointer - 1,
            final(self)@ == (AllocatorState { borrows: BorrowState { pointer: id, ..old(self)@.borrows }, ..old(self)@ }),
            final(self)@.wf(),
    {
        self.borrows.next_borrow_id()
    }

    /// Push a borrow frame before a nested operation.
    pub fn push_borrow_frame(&mut self)
        requires
            old(self)@.wf(),
        ensures
            final(self)@ == (AllocatorState {
                borrows: BorrowState {
                    frames: old(self)@.borrows.frames.push(old(self)@.borrows.pointer),
                    ..old(self)@.borrows
                },
                ..old(self)@
            }),
            final(self)@.wf(),
    {
        self.borrows.push_frame();
    }

    /// Pop a borrow frame after a nested operation completes.
    pub fn pop_borrow_frame(&mut self)
        requires
            old(self)@.wf(),
            old(self)@.borrows.frames.len() > 0,
        ensures
            final(self)@ == (AllocatorState {
                borrows: BorrowState {
                    pointer: old(self)@.borrows.frames.last(),
                    frames: old(self)@.borrows.frames.drop_last(),
                },
                ..old(self)@
            }),
            final(self)@.wf(),
    {
        self.borrows.pop_frame();
    }

    /// Release a heap ID's slot.
    pub fn release_heap_slot(&mut self, id: u64)
        requires
            old(self)@.wf(),
            id >= JSIDX_RESERVED,
            old(self)@.heap.slab.live.contains(id),
        ensures
            final(self)@ == (AllocatorState {
                heap: HeapState { slab: old(self)@.heap.slab.after_release(id), ..old(self)@.heap },
                ..old(self)@
            }),
            final(self)@.wf(),
    {
        self.heap.release_heap_slot(id);
    }

    /// Make a released heap ID reusable.
    pub fn recycle_heap_id(&mut self, id: u64)
        requires
            old(self)@.wf(),
            id >= JSIDX_RESERVED ==> !old(self)@.heap.slab.live.contains(id) && id < old(self)@.heap.slab.next,
        ensures
            final(self)@ == (AllocatorState {
                heap: HeapState {
                    slab: if id >= JSIDX_RESERVED { old(self)@.heap.slab.after_recycle(id) } else { old(self)@.heap.slab },
                    ..old(self)@.heap
                },
                ..old(self)@
            }),
            final(self)@.wf(),
    {
        self.heap.recycle_heap_id(id);
    }

    /// Recycle a heap ID unless it is reserved or live again.
    pub fn recycle_heap_id_if_released(&mut self, id: u64) -> (recycled: bool)
        requires
            old(self)@.wf(),
            id >= JSIDX_RESERVED ==> id < old(self)@.heap.slab.next,
        ensures
            recycled == (id >= JSIDX_RESERVED && !old(self)@.heap.slab.live.contains(id)),
            final(self)@ == (AllocatorState {
                heap: HeapState {
                    slab: if recycled { old(self)@.heap.slab.after_recycle(id) } else { old(self)@.heap.slab },
                    ..old(self)@.heap
                },
                ..old(self)@
            }),
            final(self)@.wf(),
    {
        self.heap.recycle_heap_id_if_released(id)
    }

    /// Take the IDs JS should install for objects it sent to Rust.
    pub fn take_pending_install_ids(&mut self) -> (batch: InstallIdBatch)
        ensures
            batch@ == old(self)@.heap.pending,
            final(self)@ == (AllocatorState {
                heap: HeapState { pending: Seq::<u64>::empty(), ..old(self)@.heap },
                ..old(self)@
            }),
    {
        self.heap.take_pending_install_ids()
    }

    /// Take the IDs JS should reserve for pending return values.
    pub fn take_reserved_placeholder_ids(&mut self) -> (ids: Vec<u64>)
        ensures
            ids@ == old(self)@.heap.reserved,
            final(self)@ == (AllocatorState {
                heap: HeapState { reserved: Seq::<u64>::empty(), ..old(self)@.heap },
                ..old(self)@
            }),
    {
        self.heap.take_reserved_placeholder_ids()
    }

    /// Allocate a handle for a Rust-owned exported object.
    pub fn next_object_handle(&mut self) -> (handle: u32)
        requires
            old(self)@.wf(),
            handles_can_alloc(old(self)@.objects),
        ensures
            old(self)@.objects.alloc_choice(handle as u64),
            final(self)@ == (AllocatorState { objects: old(self)@.objects.after_alloc(handle as u64), ..old(self)@ }),
            final(self)@.wf(),
            handle >= 1,
    {
        self.objects.next_handle()
    }

    /// Release an object handle for reuse.
    pub fn release_object_handle(&mut self, handle: u32)
        requires
            old(self)@.wf(),
            old(self)@.objects.live.contains(handle as u64),
        ensures
            final(self)@ == (AllocatorState {
                objects: old(self)@.objects.after_release(handle as u64).after_recycle(handle as u64),
                ..old(self)@
            }),
            final(self)@.wf(),
    {
        self.objects.release_handle(handle);
    }

    /// Whether an object handle is live.
    pub fn is_object_handle_live(&self, handle: u32) -> (r: bool)
        ensures
            r == self@.objects.live.contains(handle as u64),
    {
        self.objects.is_live(handle)
    }
}

/// Law: `alloc` is deterministic; at most one ID satisfies its choice.
pub proof fn lemma_alloc_choice_unique(s: SlabState, a: u64, b: u64)
    requires
        s.wf(),
        s.alloc_choice(a),
        s.alloc_choice(b),
    ensures
        a == b,
{
}

/// Law: an allocated ID was not live, so no ID is handed out twice while live,
/// and the slab stays well formed.
pub proof fn lemma_alloc_is_fresh(s: SlabState, id: u64)
    requires
        s.wf(),
        s.can_alloc(),
        s.alloc_choice(id),
    ensures
        !s.live.contains(id),
        s.after_alloc(id).wf(),
        s.after_alloc(id).live.contains(id),
{
}

/// Law: releasing and recycling an ID smaller than every reusable ID makes it
/// the next ID that `alloc` hands out (recycled IDs are reused in order).
pub proof fn lemma_recycled_id_reused_first(s: SlabState, id: u64)
    requires
        s.wf(),
        s.live.contains(id),
        forall|y: u64| #[trigger] s.free.contains(y) ==> id < y,
    ensures
        s.after_release(id).after_recycle(id).alloc_choice(id),
        s.after_release(id).after_recycle(id).after_alloc(id).live == s.live,
{
    let t = s.after_release(id).after_recycle(id);
    assert(t.free.contains(id));
    assert(t.after_alloc(id).live =~= s.live);
}

/// Law: a reserved ID is never handed out by `alloc` while it stays live.
pub proof fn lemma_reserved_id_not_reallocated(s: SlabState, r: u64, id: u64)
    requires
        s.wf(),
        !s.live.contains(r),
        r >= s.next ==> r < u64::MAX,
        s.after_reserve(r).alloc_choice(id),
    ensures
        id != r,
{
}

/// Law: whatever is borrowed after `push_frame`, `pop_frame` restores the
/// borrow stack pointer and the frame stack.
pub proof fn lemma_borrow_frame_restores_pointer(b: BorrowState, k: nat)
    ensures
        b.after_push().after_borrows(k).after_pop() == b,
{
    lemma_borrows_keep_frames(b.after_push(), k);
    assert(b.after_push().frames.drop_last() =~= b.frames);
}

proof fn lemma_borrows_keep_frames(b: BorrowState, k: nat)
    ensures
        b.after_borrows(k).frames == b.frames,
    decreases k,
{
    if k > 0 {
        lemma_borrows_keep_frames(b, (k - 1) as nat);
    }
}

/// `BTreeSet::first`: the documentation promises the smallest element of the
/// set, or `None` for an empty set.
#[verifier::external_body]
fn first_of(set: &BTreeSet<u64>) -> (r: Option<u64>)
    ensures
        r is None <==> set@.is_empty(),
        r matches Some(x) ==> set@.contains(x) && forall|y: u64| #[trigger] set@.contains(y) ==> x <= y,
{
    set.first().copied()
}

/// The ID after `id`; the ID space ends at `u64::MAX`.
pub fn next_heap_id_after(id: u64) -> (r: u64)
    requires
        id < u64::MAX,
    ensures
        r == id + 1,
{
    id + 1
}

} // verus!
