//! How the result of a JavaScript call is had: as a placeholder that JS
//! fills in later, as a value known in advance, or only after the batch has
//! been sent and answered.

use crate::batch::{Runtime, RuntimeState};
use crate::clamped::Clamped;
use crate::closure::{CallbackOwnership, Closure, ScopedClosure};
use crate::sys::JsOption;
use crate::value::JsValue;
use std::marker::PhantomData;
use vstd::prelude::*;

verus! {

/// How results of a type are had while batching.
#[derive(Clone, Copy, Debug, PartialEq, Eq, Structural)]
pub enum Placeholder {
    /// Only the answer to the sent batch gives the value.
    Flush,
    /// The value is known without asking JavaScript.
    Known,
    /// A heap slot is reserved now; JavaScript puts the result there.
    Reserved,
}

/// Return types of JavaScript calls, as batching treats them.
pub trait BatchableResult: Sized {
    /// How results of this type are had while batching.
    spec fn placeholder_mode() -> Placeholder;

    /// `r` is the result that stands for the reserved heap slot `id`.
    spec fn is_placeholder(r: Self, id: u64) -> bool;

    /// The result to hand out before the batch is sent, if there is one:
    /// a handle to a freshly reserved heap slot, a value known in advance,
    /// or nothing when the value must come from JavaScript's answer.
    fn try_placeholder<O>(runtime: &mut Runtime<O>) -> (r: Option<Self>)
        requires
            old(runtime)@.wf(),
            Self::placeholder_mode() == Placeholder::Reserved ==> old(runtime)@.ids.heap.slab.can_alloc(),
        ensures
            final(runtime)@.wf(),
            match Self::placeholder_mode() {
                Placeholder::Flush => r is None && final(runtime)@ == old(runtime)@,
                Placeholder::Known => r is Some && final(runtime)@ == old(runtime)@,
                Placeholder::Reserved => exists|id: u64|
                    {
                        &&& old(runtime)@.ids.heap.slab.alloc_choice(id)
                        &&& final(runtime)@ == #[trigger] old(runtime)@.after_placeholder(id)
                        &&& r matches Some(v) && Self::is_placeholder(v, id)
                    },
            },
    ;
}

impl BatchableResult for JsValue {
    open spec fn placeholder_mode() -> Placeholder {
        Placeholder::Reserved
    }

    open spec fn is_placeholder(r: JsValue, id: u64) -> bool {
        r@ == id
    }

    fn try_placeholder<O>(runtime: &mut Runtime<O>) -> (r: Option<JsValue>) {
        let id = runtime.get_next_placeholder_id();
        assert(runtime@ == old(runtime)@.after_placeholder(id));
        Some(JsValue::from_id(id))
    }
}

impl<F: ?Sized> BatchableResult for ScopedClosure<'static, F> {
    open spec fn placeholder_mode() -> Placeholder {
        Placeholder::Reserved
    }

    open spec fn is_placeholder(r: Closure<F>, id: u64) -> bool {
        r.js()@ == id && r.ownership() is NoCallback
    }

    fn try_placeholder<O>(runtime: &mut Runtime<O>) -> (r: Option<Closure<F>>) {
        let id = runtime.get_next_placeholder_id();
        assert(runtime@ == old(runtime)@.after_placeholder(id));
        Some(ScopedClosure::from_parts(JsValue::from_id(id), CallbackOwnership::NoCallback))
    }
}

impl<T> BatchableResult for JsOption<T> {
    open spec fn placeholder_mode() -> Placeholder {
        Placeholder::Reserved
    }

    open spec fn is_placeholder(r: JsOption<T>, id: u64) -> bool {
        r.obj@ == id
    }

    fn try_placeholder<O>(runtime: &mut Runtime<O>) -> (r: Option<JsOption<T>>) {
        let id = runtime.get_next_placeholder_id();
        assert(runtime@ == old(runtime)@.after_placeholder(id));
        Some(JsOption { obj: JsValue::from_id(id), generics: PhantomData })
    }
}

impl BatchableResult for () {
    open spec fn placeholder_mode() -> Placeholder {
        Placeholder::Known
    }

    open spec fn is_placeholder(r: (), id: u64) -> bool {
        true
    }

    fn try_placeholder<O>(runtime: &mut Runtime<O>) -> (r: Option<()>) {
        Some(())
    }
}

impl BatchableResult for bool {
    open spec fn placeholder_mode() -> Placeholder {
        Placeholder::Flush
    }

    open spec fn is_placeholder(r: bool, id: u64) -> bool {
        false
    }

    fn try_placeholder<O>(runtime: &mut Runtime<O>) -> (r: Option<bool>) {
        None
    }
}

impl BatchableResult for char {
    open spec fn placeholder_mode() -> Placeholder {
        Placeholder::Flush
    }

    open spec fn is_placeholder(r: char, id: u64) -> bool {
        false
    }

    fn try_placeholder<O>(runtime: &mut Runtime<O>) -> (r: Option<char>) {
        None
    }
}

impl BatchableResult for u8 {
    open spec fn placeholder_mode() -> Placeholder {
        Placeholder::Flush
    }

    open spec fn is_placeholder(r: u8, id: u64) -> bool {
        false
    }

    fn try_placeholder<O>(runtime: &mut Runtime<O>) -> (r: Option<u8>) {
        None
    }
}

impl BatchableResult for u16 {
    open spec fn placeholder_mode() -> Placeholder {
        Placeholder::Flush
    }

    open spec fn is_placeholder(r: u16, id: u64) -> bool {
        false
    }

    fn try_placeholder<O>(runtime: &mut Runtime<O>) -> (r: Option<u16>) {
        None
    }
}

impl BatchableResult for u32 {
    open spec fn placeholder_mode() -> Placeholder {
        Placeholder::Flush
    }

    open spec fn is_placeholder(r: u32, id: u64) -> bool {
        false
    }

    fn try_placeholder<O>(runtime: &mut Runtime<O>) -> (r: Option<u32>) {
        None
    }
}

impl BatchableResult for u64 {
    open spec fn placeholder_mode() -> Placeholder {
        Placeholder::Flush
    }

    open spec fn is_placeholder(r: u64, id: u64) -> bool {
        false
    }

    fn try_placeholder<O>(runtime: &mut Runtime<O>) -> (r: Option<u64>) {
        None
    }
}

impl BatchableResult for u128 {
    open spec fn placeholder_mode() -> Placeholder {
        Placeholder::Flush
    }

    open spec fn is_placeholder(r: u128, id: u64) -> bool {
        false
    }

    fn try_placeholder<O>(runtime: &mut Runtime<O>) -> (r: Option<u128>) {
        None
    }
}

impl BatchableResult for i8 {
    open spec fn placeholder_mode() -> Placeholder {
        Placeholder::Flush
    }

    open spec fn is_placeholder(r: i8, id: u64) -> bool {
        false
    }

    fn try_placeholder<O>(runtime: &mut Runtime<O>) -> (r: Option<i8>) {
        None
    }
}

impl BatchableResult for i16 {
    open spec fn placeholder_mode() -> Placeholder {
        Placeholder::Flush
    }

    open spec fn is_placeholder(r: i16, id: u64) -> bool {
        false
    }

    fn try_placeholder<O>(runtime: &mut Runtime<O>) -> (r: Option<i16>) {
        None
    }
}

impl BatchableResult for i32 {
    open spec fn placeholder_mode() -> Placeholder {
        Placeholder::Flush
    }

    open spec fn is_placeholder(r: i32, id: u64) -> bool {
        false
    }

    fn try_placeholder<O>(runtime: &mut Runtime<O>) -> (r: Option<i32>) {
        None
    }
}

impl BatchableResult for i64 {
    open spec fn placeholder_mode() -> Placeholder {
        Placeholder::Flush
    }

    open spec fn is_placeholder(r: i64, id: u64) -> bool {
        false
    }

    fn try_placeholder<O>(runtime: &mut Runtime<O>) -> (r: Option<i64>) {
        None
    }
}

impl BatchableResult for i128 {
    open spec fn placeholder_mode() -> Placeholder {
        Placeholder::Flush
    }

    open spec fn is_placeholder(r: i128, id: u64) -> bool {
        false
    }

    fn try_placeholder<O>(runtime: &mut Runtime<O>) -> (r: Option<i128>) {
        None
    }
}

impl BatchableResult for isize {
    open spec fn placeholder_mode() -> Placeholder {
        Placeholder::Flush
    }

    open spec fn is_placeholder(r: isize, id: u64) -> bool {
        false
    }

    fn try_placeholder<O>(runtime: &mut Runtime<O>) -> (r: Option<isize>) {
        None
    }
}

impl BatchableResult for usize {
    open spec fn placeholder_mode() -> Placeholder {
        Placeholder::Flush
    }

    open spec fn is_placeholder(r: usize, id: u64) -> bool {
        false
    }

    fn try_placeholder<O>(runtime: &mut Runtime<O>) -> (r: Option<usize>) {
        None
    }
}

impl BatchableResult for String {
    open spec fn placeholder_mode() -> Placeholder {
        Placeholder::Flush
    }

    open spec fn is_placeholder(r: String, id: u64) -> bool {
        false
    }

    fn try_placeholder<O>(runtime: &mut Runtime<O>) -> (r: Option<String>) {
        None
    }
}

impl<T> BatchableResult for Option<T> {
    open spec fn placeholder_mode() -> Placeholder {
        Placeholder::Flush
    }

    open spec fn is_placeholder(r: Option<T>, id: u64) -> bool {
        false
    }

    fn try_placeholder<O>(runtime: &mut Runtime<O>) -> (r: Option<Option<T>>) {
        None
    }
}

impl<T, E> BatchableResult for Result<T, E> {
    open spec fn placeholder_mode() -> Placeholder {
        Placeholder::Flush
    }

    open spec fn is_placeholder(r: Result<T, E>, id: u64) -> bool {
        false
    }

    fn try_placeholder<O>(runtime: &mut Runtime<O>) -> (r: Option<Result<T, E>>) {
        None
    }
}

impl<T> BatchableResult for Vec<T> {
    open spec fn placeholder_mode() -> Placeholder {
        Placeholder::Flush
    }

    open spec fn is_placeholder(r: Vec<T>, id: u64) -> bool {
        false
    }

    fn try_placeholder<O>(runtime: &mut Runtime<O>) -> (r: Option<Vec<T>>) {
        None
    }
}

impl BatchableResult for Clamped<Vec<u8>> {
    open spec fn placeholder_mode() -> Placeholder {
        Placeholder::Flush
    }

    open spec fn is_placeholder(r: Clamped<Vec<u8>>, id: u64) -> bool {
        false
    }

    fn try_placeholder<O>(runtime: &mut Runtime<O>) -> (r: Option<Clamped<Vec<u8>>>) {
        None
    }
}

} // verus!
