//! The per-webview runtime: the outbound batch, the ID allocator, the type
//! cache and the store of Rust objects exported to JavaScript.
//!
//! Every Rust-to-JS message starts with a prelude of ID lists: the heap IDs
//! Rust allocated for objects JS sent without an ID (which JS must install),
//! and, for Evaluates, the placeholder IDs JS must fill with return values.

use crate::id_allocator::{handles_can_alloc, AllocatorState, BorrowState, HeapState, IdAllocator, SlabState};
use crate::encode::batchable::{BatchableResult, Placeholder};
use crate::encode::{BinaryEncode, WireValue};
use crate::JSIDX_RESERVED;
use crate::ipc::{extend_vec, frame_bytes, u64_words, EncodedData, MessageType, Wire};
use crate::object_store::ObjectHandle;
use crate::type_cache::{TypeCache, TypeCacheState};
use std::collections::BTreeMap;
use vstd::prelude::*;

verus! {

broadcast use {vstd::std_specs::btree::group_btree_axioms, vstd::laws_cmp::group_laws_cmp};

/// Abstract state of an [`EncodedData`].
pub struct EncoderState {
    pub wire: Wire,
    pub recycle: Seq<u64>,
    pub pending_types: Seq<u32>,
    pub needs_flush: bool,
}

pub open spec fn encoder_state(e: EncodedData) -> EncoderState {
    EncoderState {
        wire: e.wire(),
        recycle: e.heap_ids_to_recycle_after_flush@,
        pending_types: e.pending_type_ids@,
        needs_flush: e.needs_flush,
    }
}

/// A fresh Evaluate message: just the message-type byte.
pub open spec fn evaluate_encoder() -> EncoderState {
    EncoderState {
        wire: Wire::of_u8(MessageType::Evaluate.byte()),
        recycle: Seq::empty(),
        pending_types: Seq::empty(),
        needs_flush: false,
    }
}

/// The words of an ID list: its length, then each ID as a low and a high word.
pub open spec fn id_pairs(ids: Seq<u64>) -> Seq<u32>
    decreases ids.len(),
{
    if ids.len() == 0 {
        Seq::empty()
    } else {
        id_pairs(ids.drop_last()) + u64_words(ids.last())
    }
}

pub open spec fn id_list_words(ids: Seq<u64>) -> Seq<u32> {
    seq![ids.len() as u32] + id_pairs(ids)
}

/// The prelude of a Rust-to-JS message: the install list, then, for an
/// Evaluate, the reserved-placeholder list.
pub open spec fn prelude_words(install: Seq<u64>, reserved: Option<Seq<u64>>) -> Seq<u32> {
    id_list_words(install) + match reserved {
        Some(r) => id_list_words(r),
        None => Seq::<u32>::empty(),
    }
}

/// `w` with `prelude` in front of its word stream.
pub open spec fn with_prelude(w: Wire, prelude: Seq<u32>) -> Wire {
    Wire { u32s: prelude + w.u32s, ..w }
}

/// Abstract state of a [`Runtime`].
pub struct RuntimeState<O> {
    pub encoder: EncoderState,
    pub ids: AllocatorState,
    pub batching: bool,
    pub types: TypeCacheState,
    pub objects: Map<u32, O>,
    /// Per-operation frames of object handles to drop once the operation ends.
    pub free_frames: Seq<Seq<u32>>,
    pub webview: u64,
    /// Number of JS-to-Rust callbacks currently executing.
    pub depth: u32,
}

impl<O> RuntimeState<O> {
    /// The allocator and type cache are well formed and every stored object
    /// sits at a live handle.
    pub open spec fn wf(self) -> bool {
        &&& self.ids.wf()
        &&& self.types.wf()
        &&& forall|h: u32| #[trigger] self.objects.contains_key(h) ==> self.ids.objects.live.contains(h as u64)
    }

    /// The prelude-and-message of the pending Evaluate fits the 32-bit framing.
    pub open spec fn message_fits(self) -> bool {
        &&& self.ids.heap.pending.len() <= u32::MAX
        &&& self.ids.heap.reserved.len() <= u32::MAX
        &&& with_prelude(
            self.encoder.wire,
            prelude_words(self.ids.heap.pending, Some(self.ids.heap.reserved)),
        ).byte_len() <= u32::MAX
    }

    /// The bytes `take_message` sends.
    pub open spec fn message_bytes(self) -> Seq<u8> {
        frame_bytes(
            with_prelude(
                self.encoder.wire,
                prelude_words(self.ids.heap.pending, Some(self.ids.heap.reserved)),
            ),
        )
    }

    /// The state `take_message` leaves: a fresh Evaluate, no pending install
    /// or placeholder IDs, and the message's new type IDs awaiting JS's ack.
    pub open spec fn after_take_message(self) -> RuntimeState<O> {
        RuntimeState {
            encoder: evaluate_encoder(),
            ids: AllocatorState {
                heap: HeapState { pending: Seq::empty(), reserved: Seq::empty(), ..self.ids.heap },
                ..self.ids
            },
            types: TypeCacheState {
                frames: self.types.frames.push(self.encoder.pending_types),
                ..self.types
            },
            ..self
        }
    }

    /// The state after the heap slot `id` was reserved for a return value.
    pub open spec fn after_placeholder(self, id: u64) -> RuntimeState<O> {
        RuntimeState {
            ids: AllocatorState {
                heap: HeapState {
                    slab: self.ids.heap.slab.after_alloc(id),
                    reserved: self.ids.heap.reserved.push(id),
                    ..self.ids.heap
                },
                ..self.ids
            },
            ..self
        }
    }

    /// Whether the outbound batch holds no operation.
    pub open spec fn is_idle(self) -> bool {
        self.encoder.wire.byte_len() <= 17
    }
}

/// A Rust-to-JS message ready to send.
pub struct OutboundMessage {
    pub bytes: Vec<u8>,
    /// An Evaluate sent while no JS-to-Rust callback is running.
    pub top_level: bool,
}

/// State for batching operations and the store of exported Rust objects.
/// Every evaluation is a batch; it may hold a single operation.
pub struct Runtime<O> {
    /// The encoder accumulating batched operations.
    pub encoder: EncodedData,
    /// Heap, borrow-stack and object-handle IDs that mirror the JS runtime.
    pub id_allocator: IdAllocator,
    is_batching: bool,
    /// Function-type definitions JS has been told about.
    pub type_cache: TypeCache,
    objects: BTreeMap<u32, O>,
    objects_to_free: Vec<Vec<u32>>,
    webview_id: u64,
    inbound_evaluate_depth: u32,
}

impl<O> View for Runtime<O> {
    type V = RuntimeState<O>;

    closed spec fn view(&self) -> RuntimeState<O> {
        RuntimeState {
            encoder: encoder_state(self.encoder),
            ids: self.id_allocator@,
            batching: self.is_batching,
            types: self.type_cache@,
            objects: self.objects@,
            free_frames: self.objects_to_free@.map_values(|v: Vec<u32>| v@),
            webview: self.webview_id,
            depth: self.inbound_evaluate_depth,
        }
    }
}

/// Append an ID list to `buf`: its length, then each ID's low and high word.
pub fn push_id_list(buf: &mut Vec<u32>, ids: &[u64])
    requires
        ids@.len() <= u32::MAX,
    ensures
        final(buf)@ == old(buf)@ + id_list_words(ids@),
{
    buf.push(ids.len() as u32);
    let mut i: usize = 0;
    while i < ids.len()
        invariant
            i <= ids.len(),
            ids@.len() <= u32::MAX,
            buf@ == old(buf)@ + seq![ids@.len() as u32] + id_pairs(ids@.take(i as int)),
        decreases ids.len() - i,
    {
        let id = ids[i];
        buf.push((id % 0x1_0000_0000) as u32);
        buf.push((id / 0x1_0000_0000) as u32);
        assert(ids@.take(i + 1).drop_last() =~= ids@.take(i as int));
        assert(id_pairs(ids@.take(i + 1)) == id_pairs(ids@.take(i as int)) + u64_words(id));
        assert(buf@ =~= old(buf)@ + seq![ids@.len() as u32] + id_pairs(ids@.take(i + 1)));
        i = i + 1;
    }
    assert(ids@.take(i as int) =~= ids@);
    assert(buf@ =~= old(buf)@ + id_list_words(ids@));
}

/// Put the ID-list prelude in front of a Rust-to-JS message's word stream.
pub fn prepend_rust_to_js_prelude(
    encoder: &mut EncodedData,
    install_ids: &[u64],
    reserved_ids: Option<&[u64]>,
)
    requires
        install_ids@.len() <= u32::MAX,
        reserved_ids matches Some(r) ==> r@.len() <= u32::MAX,
    ensures
        final(encoder).wire() == with_prelude(
            old(encoder).wire(),
            prelude_words(
                install_ids@,
                match reserved_ids {
                    Some(r) => Some(r@),
                    None => None,
                },
            ),
        ),
        final(encoder).same_meta(old(encoder)),
{
    let mut prelude: Vec<u32> = Vec::new();
    push_id_list(&mut prelude, install_ids);
    match reserved_ids {
        Some(reserved) => {
            push_id_list(&mut prelude, reserved);
        },
        None => {},
    }
    let ghost reserved_view = match reserved_ids {
        Some(r) => Some(r@),
        None => None::<Seq<u64>>,
    };
    assert(prelude@ =~= prelude_words(install_ids@, reserved_view));
    encoder.insert_u32s(0, prelude.as_slice());
    assert(old(encoder).u32_buf@.subrange(0, 0) + prelude@ + old(encoder).u32_buf@.subrange(
        0,
        old(encoder).u32_buf@.len() as int,
    ) =~= prelude@ + old(encoder).u32_buf@);
    assert(encoder.wire() =~= with_prelude(old(encoder).wire(), prelude@));
}

impl<O> Runtime<O> {
    /// A runtime for the webview `webview_id`, with an empty Evaluate batch.
    pub fn new(webview_id: u64) -> (r: Self)
        ensures
            r@.encoder == evaluate_encoder(),
            r@.ids.heap.slab.live.is_empty(),
            r@.ids.heap.slab.free.is_empty(),
            r@.ids.heap.pending.len() == 0,
            r@.ids.heap.reserved.len() == 0,
            r@.ids.objects.live.is_empty(),
            r@.ids.objects.free.is_empty(),
            r@.ids.objects.next == 1,
            !r@.batching,
            r@.types.types.len() == 0,
            r@.types.frames.len() == 0,
            r@.objects == Map::<u32, O>::empty(),
            r@.free_frames.len() == 0,
            r@.webview == webview_id,
            r@.depth == 0,
            r@.wf(),
    {
        let r = Runtime {
            encoder: Self::new_encoder_for_evaluate(),
            id_allocator: IdAllocator::new(),
            is_batching: false,
            type_cache: TypeCache::new(),
            objects: BTreeMap::new(),
            objects_to_free: Vec::new(),
            webview_id,
            inbound_evaluate_depth: 0,
        };
        assert(r@.free_frames =~= Seq::<Seq<u32>>::empty());
        r
    }

    /// An Evaluate message holding only its message-type byte.
    pub fn new_encoder_for_evaluate() -> (e: EncodedData)
        ensures
            encoder_state(e) == evaluate_encoder(),
    {
        let mut encoder = EncodedData::new();
        encoder.push_u8(MessageType::Evaluate.to_u8());
        assert(encoder.wire() =~= Wire::of_u8(MessageType::Evaluate.byte()));
        encoder
    }

    /// A JS-to-Rust callback started executing.
    pub fn enter_inbound_evaluate(&mut self)
        requires
            old(self)@.depth < u32::MAX,
        ensures
            final(self)@ == (RuntimeState { depth: (old(self)@.depth + 1) as u32, ..old(self)@ }),
    {
        self.inbound_evaluate_depth = self.inbound_evaluate_depth + 1;
    }

    /// Allocate the heap slot of a JS object sent without an ID; the slot
    /// joins the install list shipped with the next Rust-to-JS message.
    pub fn get_next_inbound_js_heap_id(&mut self) -> (id: u64)
        requires
            old(self)@.wf(),
            old(self)@.ids.heap.slab.can_alloc(),
        ensures
            old(self)@.ids.heap.slab.alloc_choice(id),
            final(self)@ == (RuntimeState {
                ids: AllocatorState {
                    heap: HeapState {
                        slab: old(self)@.ids.heap.slab.after_alloc(id),
                        pending: old(self)@.ids.heap.pending.push(id),
                        ..old(self)@.ids.heap
                    },
                    ..old(self)@.ids
                },
                ..old(self)@
            }),
            final(self)@.wf(),
    {
        self.id_allocator.next_inbound_js_heap_id()
    }

    /// How many JS-to-Rust callbacks are executing.
    pub fn inbound_evaluate_depth(&self) -> (d: u32)
        ensures
            d == self@.depth,
    {
        self.inbound_evaluate_depth
    }

    /// Whether an exported object is stored at `handle`.
    pub fn contains_object(&self, handle: u32) -> (r: bool)
        ensures
            r == self@.objects.contains_key(handle),
    {
        self.objects.contains_key(&handle)
    }

    /// A JS-to-Rust callback finished executing.
    pub fn leave_inbound_evaluate(&mut self)
        requires
            old(self)@.depth > 0,
        ensures
            final(self)@ == (RuntimeState { depth: (old(self)@.depth - 1) as u32, ..old(self)@ }),
    {
        self.inbound_evaluate_depth = self.inbound_evaluate_depth - 1;
    }

    /// Whether a JS-to-Rust callback is executing: outbound Evaluates are then
    /// nested answers rather than fresh top-level calls.
    pub fn in_inbound_evaluate(&self) -> (r: bool)
        ensures
            r == (self@.depth > 0),
    {
        self.inbound_evaluate_depth > 0
    }

    /// Swap in a fresh Evaluate batch and hand out the old one.
    pub fn take_encoder(&mut self) -> (e: EncodedData)
        ensures
            encoder_state(e) == old(self)@.encoder,
            final(self)@ == (RuntimeState { encoder: evaluate_encoder(), ..old(self)@ }),
    {
        let mut next = Self::new_encoder_for_evaluate();
        std::mem::swap(&mut next, &mut self.encoder);
        next
    }

    /// Append what was encoded while an operation was being built, leaving
    /// out the inner encoder's message-type byte.
    pub fn extend_encoder(&mut self, other: &EncodedData)
        requires
            other.u8_buf@.len() >= 1,
        ensures
            final(self)@ == (RuntimeState {
                encoder: EncoderState {
                    wire: old(self)@.encoder.wire.append(
                        Wire { u8s: other.wire().u8s.drop_first(), ..other.wire() },
                    ),
                    recycle: old(self)@.encoder.recycle + other.heap_ids_to_recycle_after_flush@,
                    pending_types: old(self)@.encoder.pending_types + other.pending_type_ids@,
                    needs_flush: old(self)@.encoder.needs_flush || other.needs_flush,
                },
                ..old(self)@
            }),
    {
        let mut i: usize = 1;
        while i < other.u8_buf.len()
            invariant
                1 <= i <= other.u8_buf@.len(),
                self.encoder.u8_buf@ == old(self).encoder.u8_buf@ + other.u8_buf@.subrange(1, i as int),
                self.encoder.u16_buf@ == old(self).encoder.u16_buf@,
                self.encoder.u32_buf@ == old(self).encoder.u32_buf@,
                self.encoder.str_buf@ == old(self).encoder.str_buf@,
                self.encoder.same_meta(&old(self).encoder),
                self.id_allocator == old(self).id_allocator,
                self.type_cache == old(self).type_cache,
                self.objects == old(self).objects,
                self.objects_to_free == old(self).objects_to_free,
                self.is_batching == old(self).is_batching,
                self.webview_id == old(self).webview_id,
                self.inbound_evaluate_depth == old(self).inbound_evaluate_depth,
            decreases other.u8_buf.len() - i,
        {
            self.encoder.u8_buf.push(other.u8_buf[i]);
            assert(other.u8_buf@.subrange(1, i + 1) =~= other.u8_buf@.subrange(1, i as int).push(
                other.u8_buf@[i as int],
            ));
            i = i + 1;
        }
        assert(other.u8_buf@.subrange(1, i as int) =~= other.u8_buf@.drop_first());
        extend_vec(&mut self.encoder.u32_buf, &other.u32_buf);
        extend_vec(&mut self.encoder.u16_buf, &other.u16_buf);
        extend_vec(&mut self.encoder.str_buf, &other.str_buf);
        extend_vec(
            &mut self.encoder.heap_ids_to_recycle_after_flush,
            &other.heap_ids_to_recycle_after_flush,
        );
        extend_vec(&mut self.encoder.pending_type_ids, &other.pending_type_ids);
        self.encoder.needs_flush = self.encoder.needs_flush || other.needs_flush;
        assert(self@.encoder.wire =~= old(self)@.encoder.wire.append(
            Wire { u8s: other.wire().u8s.drop_first(), ..other.wire() },
        ));
    }

    /// Prepend the prelude to `encoder` and frame it. Evaluates (those with
    /// reserved IDs) push their newly introduced type IDs as a frame awaiting
    /// JS's ack; they are top level when no callback is on the stack.
    fn finish_rust_to_js_message(
        &mut self,
        encoder: EncodedData,
        reserved_ids: Option<&[u64]>,
    ) -> (m: OutboundMessage)
        requires
            old(self)@.wf(),
            old(self)@.ids.heap.pending.len() <= u32::MAX,
            reserved_ids matches Some(r) ==> r@.len() <= u32::MAX,
            with_prelude(
                encoder.wire(),
                prelude_words(
                    old(self)@.ids.heap.pending,
                    match reserved_ids {
                        Some(r) => Some(r@),
                        None => None,
                    },
                ),
            ).byte_len() <= u32::MAX,
        ensures
            m.bytes@ == frame_bytes(
                with_prelude(
                    encoder.wire(),
                    prelude_words(
                        old(self)@.ids.heap.pending,
                        match reserved_ids {
                            Some(r) => Some(r@),
                            None => None,
                        },
                    ),
                ),
            ),
            m.top_level == (reserved_ids is Some && old(self)@.depth == 0),
            final(self)@ == (RuntimeState {
                ids: AllocatorState {
                    heap: HeapState { pending: Seq::empty(), ..old(self)@.ids.heap },
                    ..old(self)@.ids
                },
                types: if reserved_ids is Some {
                    TypeCacheState {
                        frames: old(self)@.types.frames.push(encoder.pending_type_ids@),
                        ..old(self)@.types
                    }
                } else {
                    old(self)@.types
                },
                ..old(self)@
            }),
            final(self)@.wf(),
    {
        let mut encoder = encoder;
        let install_ids = self.id_allocator.take_pending_install_ids();
        prepend_rust_to_js_prelude(&mut encoder, install_ids.as_slice(), reserved_ids);
        let pending_type_ids = encoder.take_pending_type_ids();
        let is_evaluate = reserved_ids.is_some();
        if is_evaluate {
            self.type_cache.push_pending_frame(pending_type_ids);
        }
        let top_level = is_evaluate && !self.in_inbound_evaluate();
        OutboundMessage { bytes: encoder.to_bytes(), top_level }
    }

    /// Take the pending Evaluate as a framed message and reset the batch.
    /// Also hands out the heap IDs whose reuse must wait for JS's answer.
    pub fn take_message(&mut self) -> (r: (OutboundMessage, Vec<u64>))
        requires
            old(self)@.wf(),
            old(self)@.message_fits(),
        ensures
            r.0.bytes@ == old(self)@.message_bytes(),
            r.0.top_level == (old(self)@.depth == 0),
            r.1@ == old(self)@.encoder.recycle,
            final(self)@ == old(self)@.after_take_message(),
            final(self)@.wf(),
    {
        let reserved_ids = self.id_allocator.take_reserved_placeholder_ids();
        let mut encoder = self.take_encoder();
        let recycle = encoder.take_heap_ids_to_recycle_after_flush();
        assert(self@.ids.heap.slab == old(self)@.ids.heap.slab);
        assert(self@.ids.objects == old(self)@.ids.objects);
        assert(self@.ids.wf());
        assert(self@.types == old(self)@.types);
        assert(self@.objects == old(self)@.objects);
        assert(self@.wf());
        let msg = self.finish_rust_to_js_message(encoder, Some(reserved_ids.as_slice()));
        assert(self@.encoder == evaluate_encoder());
        (msg, recycle)
    }

    /// Frame a Respond: the install prelude (no placeholder list), then `encoder`.
    pub fn finish_respond_message(&mut self, encoder: EncodedData) -> (m: OutboundMessage)
        requires
            old(self)@.wf(),
            old(self)@.ids.heap.pending.len() <= u32::MAX,
            with_prelude(encoder.wire(), prelude_words(old(self)@.ids.heap.pending, None)).byte_len()
                <= u32::MAX,
        ensures
            m.bytes@ == frame_bytes(
                with_prelude(encoder.wire(), prelude_words(old(self)@.ids.heap.pending, None)),
            ),
            !m.top_level,
            final(self)@ == (RuntimeState {
                ids: AllocatorState {
                    heap: HeapState { pending: Seq::empty(), ..old(self)@.ids.heap },
                    ..old(self)@.ids
                },
                ..old(self)@
            }),
            final(self)@.wf(),
    {
        self.finish_rust_to_js_message(encoder, None)
    }

    /// Whether the batch holds no operation: the 12 offset bytes, the
    /// message-type byte and at most one header word.
    pub fn is_empty(&self) -> (r: bool)
        ensures
            r == self@.is_idle(),
    {
        let n: u128 = 12 + 4 * (self.encoder.u32_buf.len() as u128) + 2 * (
        self.encoder.u16_buf.len() as u128) + self.encoder.u8_buf.len() as u128
            + self.encoder.str_buf.len() as u128;
        n <= 17
    }

    pub fn set_batching(&mut self, batching: bool)
        ensures
            final(self)@ == (RuntimeState { batching, ..old(self)@ }),
    {
        self.is_batching = batching;
    }

    pub fn is_batching(&self) -> (r: bool)
        ensures
            r == self@.batching,
    {
        self.is_batching
    }

    /// The webview this runtime belongs to.
    pub fn webview_id(&self) -> (r: u64)
        ensures
            r == self@.webview,
    {
        self.webview_id
    }

    /// Get or create the type ID of a function-type definition; the flag says
    /// whether JS has acknowledged the full definition.
    pub fn get_or_create_type_id(&mut self, type_bytes: &[u8]) -> (r: (u32, bool))
        requires
            old(self)@.wf(),
            old(self)@.types.types.contains(type_bytes@) || old(self)@.types.types.len() < u32::MAX,
        ensures
            (r, final(self)@.types) == old(self)@.types.lookup(type_bytes@),
            final(self)@ == (RuntimeState { types: final(self)@.types, ..old(self)@ }),
            final(self)@.wf(),
    {
        self.type_cache.get_or_create_type_id(type_bytes)
    }

    /// An inbound Respond arrived: acknowledge the type IDs of the Evaluate it answers.
    pub fn pop_and_ack_type_cache_frame(&mut self)
        requires
            old(self)@.wf(),
        ensures
            final(self)@ == (RuntimeState { types: old(self)@.types.after_pop_and_ack(), ..old(self)@ }),
            final(self)@.wf(),
    {
        self.type_cache.pop_and_ack_pending_frame();
    }

    /// The next borrow ID from the borrow stack, which grows down from
    /// `JSIDX_OFFSET` toward 1.
    pub fn get_next_borrow_id(&mut self) -> (id: u64)
        requires
            old(self)@.wf(),
            old(self)@.ids.borrows.pointer > 1,
        ensures
            id == old(self)@.ids.borrows.pointer - 1,
            final(self)@ == (RuntimeState {
                ids: AllocatorState { borrows: BorrowState { pointer: id, ..old(self)@.ids.borrows }, ..old(self)@.ids },
                ..old(self)@
            }),
            final(self)@.wf(),
    {
        self.id_allocator.next_borrow_id()
    }

    /// The next heap ID for a return-value placeholder; JS fills it when the
    /// batch runs.
    pub fn get_next_placeholder_id(&mut self) -> (id: u64)
        requires
            old(self)@.wf(),
            old(self)@.ids.heap.slab.can_alloc(),
        ensures
            old(self)@.ids.heap.slab.alloc_choice(id),
            final(self)@ == (RuntimeState {
                ids: AllocatorState {
                    heap: HeapState {
                        slab: old(self)@.ids.heap.slab.after_alloc(id),
                        reserved: old(self)@.ids.heap.reserved.push(id),
                        ..old(self)@.ids.heap
                    },
                    ..old(self)@.ids
                },
                ..old(self)@
            }),
            final(self)@.wf(),
    {
        self.id_allocator.next_placeholder_id()
    }

    /// Open a frame for object handles to drop when the current operation ends.
    pub fn push_ids_to_free(&mut self)
        ensures
            final(self)@ == (RuntimeState {
                free_frames: old(self)@.free_frames.push(Seq::empty()),
                ..old(self)@
            }),
    {
        self.objects_to_free.push(Vec::new());
        assert(self@.free_frames =~= old(self)@.free_frames.push(Seq::empty()));
    }

    /// Store an exported object at a fresh handle.
    pub fn insert_object(&mut self, obj: O) -> (handle: u32)
        requires
            old(self)@.wf(),
            handles_can_alloc(old(self)@.ids.objects),
        ensures
            old(self)@.ids.objects.alloc_choice(handle as u64),
            !old(self)@.objects.contains_key(handle),
            final(self)@ == (RuntimeState {
                ids: AllocatorState {
                    objects: old(self)@.ids.objects.after_alloc(handle as u64),
                    ..old(self)@.ids
                },
                objects: old(self)@.objects.insert(handle, obj),
                ..old(self)@
            }),
            final(self)@.wf(),
    {
        let handle = self.id_allocator.next_object_handle();
        proof {
            crate::id_allocator::lemma_alloc_is_fresh(old(self)@.ids.objects, handle as u64);
        }
        self.objects.insert(handle, obj);
        handle
    }

    /// The object stored at `handle`.
    pub fn get_object(&self, handle: u32) -> (r: &O)
        requires
            self@.objects.contains_key(handle),
        ensures
            *r == self@.objects[handle],
    {
        self.objects.get(&handle).unwrap()
    }

    /// Check out the object at `handle`; the handle stays live.
    pub fn take_object(&mut self, handle: u32) -> (r: O)
        requires
            old(self)@.wf(),
            old(self)@.objects.contains_key(handle),
        ensures
            r == old(self)@.objects[handle],
            final(self)@ == (RuntimeState { objects: old(self)@.objects.remove(handle), ..old(self)@ }),
            final(self)@.wf(),
    {
        self.objects.remove(&handle).unwrap()
    }

    /// Put a checked-out object back at its live handle.
    pub fn reinsert_object(&mut self, handle: u32, obj: O)
        requires
            old(self)@.wf(),
            old(self)@.ids.objects.live.contains(handle as u64),
            !old(self)@.objects.contains_key(handle),
        ensures
            final(self)@ == (RuntimeState { objects: old(self)@.objects.insert(handle, obj), ..old(self)@ }),
            final(self)@.wf(),
    {
        self.objects.insert(handle, obj);
    }

    /// Remove the object at `handle` and release the handle for reuse.
    pub fn remove_object(&mut self, handle: u32) -> (r: O)
        requires
            old(self)@.wf(),
            old(self)@.objects.contains_key(handle),
        ensures
            r == old(self)@.objects[handle],
            final(self)@ == (RuntimeState {
                ids: AllocatorState {
                    objects: old(self)@.ids.objects.after_release(handle as u64).after_recycle(handle as u64),
                    ..old(self)@.ids
                },
                objects: old(self)@.objects.remove(handle),
                ..old(self)@
            }),
            final(self)@.wf(),
    {
        let obj = self.objects.remove(&handle).unwrap();
        self.id_allocator.release_object_handle(handle);
        obj
    }

    /// Remove the object at `handle`, if any, releasing its handle.
    pub fn remove_object_untyped(&mut self, handle: u32) -> (r: Option<O>)
        requires
            old(self)@.wf(),
        ensures
            r == (if old(self)@.objects.contains_key(handle) {
                Some(old(self)@.objects[handle])
            } else {
                None
            }),
            final(self)@ == (if old(self)@.objects.contains_key(handle) {
                RuntimeState {
                    ids: AllocatorState {
                        objects: old(self)@.ids.objects.after_release(handle as u64).after_recycle(
                            handle as u64,
                        ),
                        ..old(self)@.ids
                    },
                    objects: old(self)@.objects.remove(handle),
                    ..old(self)@
                }
            } else {
                old(self)@
            }),
            final(self)@.wf(),
    {
        let object = self.objects.remove(&handle);
        if object.is_some() {
            self.id_allocator.release_object_handle(handle);
        } else {
            assert(self@.objects =~= old(self)@.objects);
        }
        object
    }

    /// Drop an object now, or, while an operation is being encoded, queue its
    /// handle to be dropped once that operation has run.
    pub fn release_object_handle(&mut self, handle: ObjectHandle) -> (r: Option<O>)
        requires
            old(self)@.wf(),
        ensures
            old(self)@.free_frames.len() > 0 ==> {
                &&& r is None
                &&& final(self)@ == (RuntimeState {
                    free_frames: old(self)@.free_frames.update(
                        old(self)@.free_frames.len() - 1,
                        old(self)@.free_frames.last().push(handle@),
                    ),
                    ..old(self)@
                })
            },
            old(self)@.free_frames.len() == 0 ==> {
                &&& r == (if old(self)@.objects.contains_key(handle@) {
                    Some(old(self)@.objects[handle@])
                } else {
                    None
                })
                &&& final(self)@ == (if old(self)@.objects.contains_key(handle@) {
                    RuntimeState {
                        ids: AllocatorState {
                            objects: old(self)@.ids.objects.after_release(handle@ as u64).after_recycle(
                                handle@ as u64,
                            ),
                            ..old(self)@.ids
                        },
                        objects: old(self)@.objects.remove(handle@),
                        ..old(self)@
                    }
                } else {
                    old(self)@
                })
            },
            final(self)@.wf(),
    {
        match self.objects_to_free.pop() {
            Some(mut handles) => {
                handles.push(handle.raw());
                self.objects_to_free.push(handles);
                assert(self@.free_frames =~= old(self)@.free_frames.update(
                    old(self)@.free_frames.len() - 1,
                    old(self)@.free_frames.last().push(handle@),
                ));
                None
            },
            None => self.remove_object_untyped(handle.raw()),
        }
    }

    /// Close the current operation's frame. Nested operations hand their
    /// handles to the enclosing frame; the outermost hands them back to drop.
    pub fn pop_and_release_objects(&mut self) -> (r: Vec<u32>)
        requires
            old(self)@.free_frames.len() > 0,
        ensures
            old(self)@.free_frames.len() > 1 ==> {
                &&& r@.len() == 0
                &&& final(self)@ == (RuntimeState {
                    free_frames: old(self)@.free_frames.drop_last().update(
                        old(self)@.free_frames.len() - 2,
                        old(self)@.free_frames[old(self)@.free_frames.len() - 2]
                            + old(self)@.free_frames.last(),
                    ),
                    ..old(self)@
                })
            },
            old(self)@.free_frames.len() == 1 ==> {
                &&& r@ == old(self)@.free_frames.last()
                &&& final(self)@ == (RuntimeState { free_frames: Seq::empty(), ..old(self)@ })
            },
    {
        let handles = self.objects_to_free.pop().unwrap();
        assert(self@.free_frames =~= old(self)@.free_frames.drop_last());
        match self.objects_to_free.pop() {
            Some(mut parent) => {
                extend_vec(&mut parent, &handles);
                self.objects_to_free.push(parent);
                assert(self@.free_frames =~= old(self)@.free_frames.drop_last().update(
                    old(self)@.free_frames.len() - 2,
                    old(self)@.free_frames[old(self)@.free_frames.len() - 2]
                        + old(self)@.free_frames.last(),
                ));
                Vec::new()
            },
            None => {
                assert(self@.free_frames =~= Seq::<Seq<u32>>::empty());
                handles
            },
        }
    }
}

/// Whether `runtime` is inside a `batch` call.
pub fn is_batching<O>(runtime: &Runtime<O>) -> (r: bool)
    ensures
        r == runtime@.batching,
{
    runtime.is_batching()
}

/// Take the pending batch as a message to send, unless it holds no operation.
/// The caller sends the message, waits for JS's answer, and then recycles
/// the returned heap IDs that are still released.
pub fn force_flush<O>(runtime: &mut Runtime<O>) -> (r: Option<(OutboundMessage, Vec<u64>)>)
    requires
        old(runtime)@.wf(),
        old(runtime)@.message_fits(),
    ensures
        old(runtime)@.is_idle() ==> r is None && final(runtime)@ == old(runtime)@,
        !old(runtime)@.is_idle() ==> {
            &&& r matches Some((msg, ids)) && msg.bytes@ == old(runtime)@.message_bytes()
                && msg.top_level == (old(runtime)@.depth == 0) && ids@ == old(runtime)@.encoder.recycle
            &&& final(runtime)@ == old(runtime)@.after_take_message()
        },
        final(runtime)@.wf(),
{
    if runtime.is_empty() {
        None
    } else {
        Some(runtime.take_message())
    }
}

/// A Respond message holding only its message-type byte.
pub fn respond_encoder() -> (e: EncodedData)
    ensures
        encoder_state(e) == (EncoderState {
            wire: Wire::of_u8(MessageType::Respond.byte()),
            ..evaluate_encoder()
        }),
{
    let mut encoder = EncodedData::new();
    encoder.push_u8(MessageType::Respond.to_u8());
    assert(encoder.wire() =~= Wire::of_u8(MessageType::Respond.byte()));
    encoder
}

/// Law: taking the pending batch leaves an idle one behind, so a flush
/// right after a flush sends nothing.
pub proof fn lemma_taken_batch_is_idle<O>(s: RuntimeState<O>)
    ensures
        s.after_take_message().is_idle(),
{
}

/// Put an operation into the current batch: the function's ID, then its
/// arguments, with a fresh frame for the objects to drop once it ends.
/// Returns whether the batch must be sent before the operation's result is
/// known: when not batching, or when something in the batch cannot wait.
pub fn encode_operation<O, A: BinaryEncode>(runtime: &mut Runtime<O>, fn_id: u32, args: A) -> (must_flush: bool)
    ensures
        final(runtime)@ == (RuntimeState {
            encoder: EncoderState {
                wire: old(runtime)@.encoder.wire.append(Wire::of_u32(fn_id)).append(
                    A::wire_of(args.model()),
                ),
                ..old(runtime)@.encoder
            },
            free_frames: old(runtime)@.free_frames.push(Seq::empty()),
            ..old(runtime)@
        }),
        must_flush == (!old(runtime)@.batching || old(runtime)@.encoder.needs_flush),
{
    runtime.push_ids_to_free();
    runtime.encoder.push_u32(fn_id);
    args.encode(&mut runtime.encoder);
    assert(runtime@.encoder.wire == old(runtime)@.encoder.wire.append(Wire::of_u32(fn_id)).append(
        A::wire_of(args.model()),
    ));
    !runtime.is_batching() || runtime.encoder.needs_flush
}

/// What a JavaScript call settles before anything is sent: the result to
/// hand out without waiting, if there is one, and whether the batch must be
/// sent now.
pub struct JsCallPlan<R> {
    pub placeholder: Option<R>,
    pub send_now: bool,
}

/// Start a JavaScript call returning an `R`: put it into the batch, reserve
/// its result's placeholder, and decide whether the batch must be sent now.
/// It must be when not batching, when something in the batch cannot wait,
/// or when the result can only come from JavaScript's answer.
pub fn plan_js_call<O, A: BinaryEncode, R: BatchableResult>(
    runtime: &mut Runtime<O>,
    fn_id: u32,
    args: A,
) -> (plan: JsCallPlan<R>)
    requires
        old(runtime)@.wf(),
        R::placeholder_mode() == Placeholder::Reserved ==> old(runtime)@.ids.heap.slab.can_alloc(),
    ensures
        ({
            let encoded = RuntimeState {
                encoder: EncoderState {
                    wire: old(runtime)@.encoder.wire.append(Wire::of_u32(fn_id)).append(
                        A::wire_of(args.model()),
                    ),
                    ..old(runtime)@.encoder
                },
                free_frames: old(runtime)@.free_frames.push(Seq::empty()),
                ..old(runtime)@
            };
            match R::placeholder_mode() {
                Placeholder::Flush => plan.placeholder is None && final(runtime)@ == encoded,
                Placeholder::Known => plan.placeholder is Some && final(runtime)@ == encoded,
                Placeholder::Reserved => exists|id: u64|
                    {
                        &&& encoded.ids.heap.slab.alloc_choice(id)
                        &&& final(runtime)@ == #[trigger] encoded.after_placeholder(id)
                        &&& plan.placeholder matches Some(v) && R::is_placeholder(v, id)
                    },
            }
        }),
        plan.send_now == (!old(runtime)@.batching || old(runtime)@.encoder.needs_flush
            || R::placeholder_mode() == Placeholder::Flush),
        final(runtime)@.wf(),
{
    let must_flush = encode_operation(runtime, fn_id, args);
    let placeholder = R::try_placeholder(runtime);
    let send_now = must_flush || placeholder.is_none();
    JsCallPlan { placeholder, send_now }
}

/// A heap ID whose JavaScript reference was just dropped. While batching, the
/// drop still waits in the batch, so the ID becomes reusable only once the
/// batch has been flushed; otherwise it is reusable at once.
pub fn recycle_heap_id_after_js_drop<O>(runtime: &mut Runtime<O>, id: u64)
    requires
        old(runtime)@.wf(),
        !old(runtime)@.batching && id >= JSIDX_RESERVED ==> !old(runtime)@.ids.heap.slab.live.contains(id)
            && id < old(runtime)@.ids.heap.slab.next,
    ensures
        old(runtime)@.batching ==> final(runtime)@ == (RuntimeState {
            encoder: EncoderState {
                recycle: old(runtime)@.encoder.recycle.push(id),
                ..old(runtime)@.encoder
            },
            ..old(runtime)@
        }),
        !old(runtime)@.batching ==> final(runtime)@ == (RuntimeState {
            ids: AllocatorState {
                heap: HeapState {
                    slab: recycle_slab(old(runtime)@.ids.heap.slab, id),
                    ..old(runtime)@.ids.heap
                },
                ..old(runtime)@.ids
            },
            ..old(runtime)@
        }),
        final(runtime)@.wf(),
{
    if runtime.is_batching() {
        runtime.encoder.defer_heap_id_recycle_until_flush(id);
    } else {
        runtime.id_allocator.recycle_heap_id(id);
    }
}

/// The heap slab after `recycle_heap_id(id)`: reserved IDs are never recycled.
pub open spec fn recycle_slab(slab: SlabState, id: u64) -> SlabState {
    if id >= JSIDX_RESERVED {
        slab.after_recycle(id)
    } else {
        slab
    }
}

/// The heap slab after recycling, in order, each of `ids` that is neither
/// reserved nor live again.
pub open spec fn recycle_released(slab: SlabState, ids: Seq<u64>) -> SlabState
    decreases ids.len(),
{
    if ids.len() == 0 {
        slab
    } else {
        let s = recycle_released(slab, ids.drop_last());
        let id = ids.last();
        if id >= JSIDX_RESERVED && !s.live.contains(id) {
            s.after_recycle(id)
        } else {
            s
        }
    }
}

/// Recycling keeps the live IDs and the next fresh ID.
proof fn lemma_recycle_released_keeps(slab: SlabState, ids: Seq<u64>)
    ensures
        recycle_released(slab, ids).live == slab.live,
        recycle_released(slab, ids).next == slab.next,
    decreases ids.len(),
{
    if ids.len() > 0 {
        lemma_recycle_released_keeps(slab, ids.drop_last());
    }
}

/// After a flush was answered: the heap IDs whose reuse waited for it become
/// reusable, unless JavaScript handed one of them out again meanwhile.
pub fn recycle_heap_ids_after_flush<O>(runtime: &mut Runtime<O>, ids: Vec<u64>)
    requires
        old(runtime)@.wf(),
        forall|i: int|
            0 <= i < ids@.len() && #[trigger] ids@[i] >= JSIDX_RESERVED ==> ids@[i]
                < old(runtime)@.ids.heap.slab.next,
    ensures
        final(runtime)@ == (RuntimeState {
            ids: AllocatorState {
                heap: HeapState {
                    slab: recycle_released(old(runtime)@.ids.heap.slab, ids@),
                    ..old(runtime)@.ids.heap
                },
                ..old(runtime)@.ids
            },
            ..old(runtime)@
        }),
        final(runtime)@.wf(),
{
    let n = ids.len();
    let mut i: usize = 0;
    while i < n
        invariant
            n == ids@.len(),
            i <= n,
            old(runtime)@.wf(),
            runtime@.wf(),
            forall|k: int|
                0 <= k < ids@.len() && #[trigger] ids@[k] >= JSIDX_RESERVED ==> ids@[k]
                    < old(runtime)@.ids.heap.slab.next,
            runtime@ == (RuntimeState {
                ids: AllocatorState {
                    heap: HeapState {
                        slab: recycle_released(old(runtime)@.ids.heap.slab, ids@.take(i as int)),
                        ..old(runtime)@.ids.heap
                    },
                    ..old(runtime)@.ids
                },
                ..old(runtime)@
            }),
        decreases n - i,
    {
        let id = ids[i];
        proof {
            lemma_recycle_released_keeps(old(runtime)@.ids.heap.slab, ids@.take(i as int));
            assert(ids@.take(i + 1).drop_last() =~= ids@.take(i as int));
        }
        runtime.id_allocator.recycle_heap_id_if_released(id);
        i = i + 1;
    }
    assert(ids@.take(n as int) =~= ids@);
}

/// Run `f` with batching switched on. Operations that return JS handles are
/// queued rather than sent; when this is the outermost batch, whatever is
/// still queued afterwards is handed to `flush` (which sends it and waits for
/// the answer), and batching is then switched back off.
pub fn batch<O, R, F, G>(runtime: Runtime<O>, f: F, flush: G) -> (res: (Runtime<O>, R))
    where
        F: FnOnce(Runtime<O>) -> (Runtime<O>, R),
        G: FnOnce(Runtime<O>, OutboundMessage, Vec<u64>) -> Runtime<O>,
    requires
        forall|rt: Runtime<O>|
            rt@ == (RuntimeState { batching: true, ..runtime@ }) ==> #[trigger] f.requires((rt,)),
        forall|rt: Runtime<O>, out: (Runtime<O>, R)|
            #[trigger] f.ensures((rt,), out) ==> out.0@.wf() && out.0@.message_fits(),
        forall|rt: Runtime<O>, m: OutboundMessage, ids: Vec<u64>| #[trigger] flush.requires((rt, m, ids)),
    ensures
        exists|rt: Runtime<O>, out: (Runtime<O>, R)|
            {
                &&& rt@ == (RuntimeState { batching: true, ..runtime@ })
                &&& #[trigger] f.ensures((rt,), out)
                &&& res.1 == out.1
                &&& if runtime@.batching || out.0@.is_idle() {
                    res.0@ == (RuntimeState { batching: runtime@.batching, ..out.0@ })
                } else {
                    exists|taken: Runtime<O>, m: OutboundMessage, ids: Vec<u64>, flushed: Runtime<O>|
                        {
                            &&& taken@ == out.0@.after_take_message()
                            &&& m.bytes@ == out.0@.message_bytes()
                            &&& ids@ == out.0@.encoder.recycle
                            &&& #[trigger] flush.ensures((taken, m, ids), flushed)
                            &&& res.0@ == (RuntimeState { batching: false, ..flushed@ })
                        }
                }
            },
{
    let mut runtime = runtime;
    let currently_batching = runtime.is_batching();
    runtime.set_batching(true);
    let (mut runtime, result) = f(runtime);
    if !currently_batching {
        match force_flush(&mut runtime) {
            Some((message, ids)) => {
                runtime = flush(runtime, message, ids);
            },
            None => {},
        }
    }
    runtime.set_batching(currently_batching);
    (runtime, result)
}

} // verus!
