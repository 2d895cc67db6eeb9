//! Wire forms of JS handles, exported-object handles and callback registrations.

use super::{push_tag, BinaryDecode, BinaryEncode, EncodeTypeDef, Parsed, TypeTag, WireCodec, WireValue};
use crate::batch::{Runtime, RuntimeState};
use crate::closure::ScopedClosure;
use crate::id_allocator::{AllocatorState, HeapState};
use crate::ipc::{DecodeError, DecodeErrorKind, DecodedData, EncodedData, Wire};
use crate::object_store::ObjectHandle;
use crate::value::JsValue;
use core::marker::PhantomData;
use std::vec::Vec;
use vstd::prelude::*;

verus! {

impl WireValue for ObjectHandle {
    type Model = u32;

    open spec fn model(&self) -> u32 {
        self@
    }
}

impl EncodeTypeDef for ObjectHandle {
    open spec fn type_def() -> Seq<u8> {
        seq![TypeTag::U32.byte()]
    }

    fn encode_type_def(buf: &mut Vec<u8>) {
        push_tag(buf, TypeTag::U32);
    }
}

impl BinaryEncode for ObjectHandle {
    open spec fn wire_of(m: u32) -> Wire {
        Wire::of_u32(m)
    }

    fn encode(self, encoder: &mut EncodedData) {
        encoder.push_u32(self.raw());
    }
}

impl BinaryDecode for ObjectHandle {
    open spec fn parse(w: Wire) -> Parsed<u32> {
        <u32 as BinaryDecode>::parse(w)
    }

    fn decode(decoder: &mut DecodedData) -> (r: Result<ObjectHandle, DecodeError>) {
        match u32::decode(decoder) {
            Ok(raw) => Ok(ObjectHandle::from_raw(raw)),
            Err(e) => Err(e),
        }
    }
}

impl WireCodec for ObjectHandle {
    open spec fn encodable(m: u32) -> bool {
        true
    }

    proof fn lemma_roundtrip(m: u32, rest: Wire) {
        <u32 as WireCodec>::lemma_roundtrip(m, rest);
    }
}

impl WireValue for JsValue {
    type Model = u64;

    open spec fn model(&self) -> u64 {
        self@
    }
}

/// JS values travel as heap references.
impl EncodeTypeDef for JsValue {
    open spec fn type_def() -> Seq<u8> {
        seq![TypeTag::HeapRef.byte()]
    }

    fn encode_type_def(buf: &mut Vec<u8>) {
        push_tag(buf, TypeTag::HeapRef);
    }
}

/// A JS value is sent as its heap ID.
/// Decode a JavaScript value from an inbound message. JavaScript sends heap
/// references without IDs: the next inbound heap slot is allocated for the
/// value, and its ID goes back to JavaScript in the install list of the next
/// Rust-to-JS message.
pub fn decode_js_value<O>(runtime: &mut Runtime<O>) -> (v: JsValue)
    requires
        old(runtime)@.wf(),
        old(runtime)@.ids.heap.slab.can_alloc(),
    ensures
        old(runtime)@.ids.heap.slab.alloc_choice(v@),
        final(runtime)@ == (RuntimeState {
            ids: AllocatorState {
                heap: HeapState {
                    slab: old(runtime)@.ids.heap.slab.after_alloc(v@),
                    pending: old(runtime)@.ids.heap.pending.push(v@),
                    ..old(runtime)@.ids.heap
                },
                ..old(runtime)@.ids
            },
            ..old(runtime)@
        }),
        final(runtime)@.wf(),
{
    JsValue::from_id(runtime.get_next_inbound_js_heap_id())
}

impl BinaryEncode for JsValue {
    open spec fn wire_of(m: u64) -> Wire {
        Wire::of_u64(m)
    }

    fn encode(self, encoder: &mut EncodedData) {
        encoder.push_u64(self.id());
    }
}

impl<'a, T: ?Sized> WireValue for ScopedClosure<'a, T> {
    type Model = u64;

    open spec fn model(&self) -> u64 {
        self.js()@
    }
}

/// Closures travel as heap references to their JS functions.
impl<'a, T: ?Sized> EncodeTypeDef for ScopedClosure<'a, T> {
    open spec fn type_def() -> Seq<u8> {
        seq![TypeTag::HeapRef.byte()]
    }

    fn encode_type_def(buf: &mut Vec<u8>) {
        push_tag(buf, TypeTag::HeapRef);
    }
}

/// Who owns a callback registered with JavaScript.
#[derive(Clone, Copy, Debug, PartialEq, Eq, Structural)]
pub enum CallbackPolicy {
    RustOwned,
    JsOwned,
    JsOwnedOnce,
}

impl CallbackPolicy {
    /// The policy's number on the wire.
    pub open spec fn code(self) -> u32 {
        match self {
            CallbackPolicy::RustOwned => 0,
            CallbackPolicy::JsOwned => 1,
            CallbackPolicy::JsOwnedOnce => 2,
        }
    }

    pub fn to_u32(self) -> (r: u32)
        ensures
            r == self.code(),
    {
        match self {
            CallbackPolicy::RustOwned => 0,
            CallbackPolicy::JsOwned => 1,
            CallbackPolicy::JsOwnedOnce => 2,
        }
    }
}

/// A callback registration: the handle of the stored Rust callback and its
/// ownership policy. `F` records the callback's signature.
pub struct CallbackKey<F: ?Sized>(ObjectHandle, CallbackPolicy, PhantomData<F>);

impl<F: ?Sized> CallbackKey<F> {
    pub closed spec fn handle(&self) -> ObjectHandle {
        self.0
    }

    pub closed spec fn policy(&self) -> CallbackPolicy {
        self.1
    }

    /// A key for a callback JavaScript owns.
    pub fn new(handle: ObjectHandle) -> (k: Self)
        ensures
            k.handle() == handle,
            k.policy() == CallbackPolicy::JsOwned,
    {
        Self::new_with_policy(handle, CallbackPolicy::JsOwned)
    }

    pub fn new_with_policy(handle: ObjectHandle, policy: CallbackPolicy) -> (k: Self)
        ensures
            k.handle() == handle,
            k.policy() == policy,
    {
        CallbackKey(handle, policy, PhantomData)
    }
}

impl<F: ?Sized> WireValue for CallbackKey<F> {
    type Model = (u32, CallbackPolicy);

    open spec fn model(&self) -> (u32, CallbackPolicy) {
        (self.handle()@, self.policy())
    }
}

/// The handle, then the policy, as two words.
impl<F: ?Sized> BinaryEncode for CallbackKey<F> {
    open spec fn wire_of(m: (u32, CallbackPolicy)) -> Wire {
        Wire::of_words(seq![m.0, m.1.code()])
    }

    fn encode(self, encoder: &mut EncodedData) {
        self.0.encode(encoder);
        encoder.push_u32(self.1.to_u32());
        proof {
            assert(Wire::of_u32(self.handle()@).append(Wire::of_u32(self.policy().code())) =~= Wire::of_words(
                seq![self.handle()@, self.policy().code()],
            ));
            crate::ipc::lemma_append_assoc(
                old(encoder).wire(),
                Wire::of_u32(self.handle()@),
                Wire::of_u32(self.policy().code()),
            );
        }
    }
}

/// Marker for closures whose first argument is borrowed.
pub struct BorrowedFirstArg;

/// Conversion of a closure into a closure handle of type `Output`; `M`
/// tells the conversions for different signatures apart.
pub trait IntoClosure<M, Output> {
    fn into_closure(self) -> Output;
}

/// The type definition of a callback: the callback tag, the parameter count,
/// the parameters' definitions (a borrowed first parameter is just the
/// borrowed-reference tag) and the return type's definition.
pub open spec fn callback_type_def(borrow_first: bool, args: Seq<Seq<u8>>, ret: Seq<u8>) -> Seq<u8> {
    seq![TypeTag::Callback.byte(), (args.len() + if borrow_first { 1int } else { 0int }) as u8]
        + (if borrow_first { seq![TypeTag::BorrowedRef.byte()] } else { Seq::empty() })
        + args.fold_left(Seq::empty(), |acc: Seq<u8>, a: Seq<u8>| acc + a) + ret
}

/// Write a callback's type definition from its parts.
pub fn encode_callback_type_def(
    buf: &mut Vec<u8>,
    borrow_first: bool,
    arg_defs: &[Vec<u8>],
    ret_def: &[u8],
)
    requires
        arg_defs@.len() + (if borrow_first { 1int } else { 0int }) <= u8::MAX,
    ensures
        final(buf)@ == old(buf)@ + callback_type_def(
            borrow_first,
            arg_defs@.map_values(|v: Vec<u8>| v@),
            ret_def@,
        ),
{
    let ghost args = arg_defs@.map_values(|v: Vec<u8>| v@);
    push_tag(buf, TypeTag::Callback);
    let count: u8 = if borrow_first { arg_defs.len() as u8 + 1 } else { arg_defs.len() as u8 };
    buf.push(count);
    if borrow_first {
        push_tag(buf, TypeTag::BorrowedRef);
    }
    let ghost head = buf@;
    let mut i: usize = 0;
    while i < arg_defs.len()
        invariant
            i <= arg_defs@.len(),
            args == arg_defs@.map_values(|v: Vec<u8>| v@),
            buf@ == head + args.take(i as int).fold_left(Seq::empty(), |acc: Seq<u8>, a: Seq<u8>| acc + a),
        decreases arg_defs.len() - i,
    {
        let def = &arg_defs[i];
        let mut j: usize = 0;
        let ghost before = buf@;
        while j < def.len()
            invariant
                j <= def@.len(),
                buf@ == before + def@.take(j as int),
            decreases def.len() - j,
        {
            buf.push(def[j]);
            assert(def@.take(j + 1) =~= def@.take(j as int).push(def@[j as int]));
            j = j + 1;
        }
        assert(def@.take(j as int) =~= def@);
        proof {
            let f = |acc: Seq<u8>, a: Seq<u8>| acc + a;
            assert(args.take(i + 1).drop_last() =~= args.take(i as int));
            assert(args.take(i + 1).last() == def@);
            assert(args.take(i + 1).fold_left(Seq::empty(), f) == f(
                args.take(i + 1).drop_last().fold_left(Seq::empty(), f),
                args.take(i + 1).last(),
            ));
            assert(buf@ =~= head + args.take(i + 1).fold_left(Seq::empty(), f));
        }
        i = i + 1;
    }
    assert(args.take(i as int) =~= args);
    let ghost before_ret = buf@;
    let mut k: usize = 0;
    while k < ret_def.len()
        invariant
            k <= ret_def@.len(),
            buf@ == before_ret + ret_def@.take(k as int),
        decreases ret_def.len() - k,
    {
        buf.push(ret_def[k]);
        assert(ret_def@.take(k + 1) =~= ret_def@.take(k as int).push(ret_def@[k as int]));
        k = k + 1;
    }
    assert(ret_def@.take(k as int) =~= ret_def@);
    assert(buf@ =~= old(buf)@ + callback_type_def(borrow_first, args, ret_def@));
}

} // verus!
