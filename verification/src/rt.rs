//! Runtime support used by generated wasm-bindgen-style code: the ABI word,
//! generic-erasure markers and the state machine behind promise futures.

use crate::closure::ScopedClosure;
use crate::error::JsError;
use crate::sys::{JsOption, Null, Undefined};
use crate::value::JsValue;
use vstd::prelude::*;

verus! {

/// A word of the Wasm ABI.
#[derive(Clone, Copy, Debug, Default, PartialEq, Eq, Structural)]
pub struct WasmWord(pub u32);

/// Types whose generic parameters erase to one run-time representation `Repr`.
pub trait ErasableGeneric {
    type Repr;
}

/// Owned generic values whose representation is that of `ConcreteTarget`.
pub trait ErasableGenericOwn<ConcreteTarget> {}

impl<T: ErasableGeneric, C: ErasableGeneric<Repr = T::Repr>> ErasableGenericOwn<C> for T {}

/// Borrowed generic values whose representation is that of `Target`.
pub trait ErasableGenericBorrow<Target: ?Sized> {}

impl<T: ErasableGeneric, C: ErasableGeneric<Repr = T::Repr>> ErasableGenericBorrow<C> for T {}

/// Mutably borrowed generic values whose representation is that of `Target`.
pub trait ErasableGenericBorrowMut<Target: ?Sized> {}

impl<T: ErasableGeneric, C: ErasableGeneric<Repr = T::Repr>> ErasableGenericBorrowMut<C> for T {}

impl ErasableGeneric for JsValue {
    type Repr = JsValue;
}

impl ErasableGeneric for Undefined {
    type Repr = JsValue;
}

impl ErasableGeneric for Null {
    type Repr = JsValue;
}

impl ErasableGeneric for JsError {
    type Repr = JsValue;
}

impl<T> ErasableGeneric for JsOption<T> {
    type Repr = JsValue;
}

impl<'a, T: ?Sized> ErasableGeneric for ScopedClosure<'a, T> {
    type Repr = JsValue;
}

impl ErasableGeneric for () {
    type Repr = ();
}

impl ErasableGeneric for bool {
    type Repr = bool;
}

impl ErasableGeneric for char {
    type Repr = char;
}

impl ErasableGeneric for i8 {
    type Repr = i8;
}

impl ErasableGeneric for i16 {
    type Repr = i16;
}

impl ErasableGeneric for i32 {
    type Repr = i32;
}

impl ErasableGeneric for i64 {
    type Repr = i64;
}

impl ErasableGeneric for i128 {
    type Repr = i128;
}

impl ErasableGeneric for isize {
    type Repr = isize;
}

impl ErasableGeneric for u8 {
    type Repr = u8;
}

impl ErasableGeneric for u16 {
    type Repr = u16;
}

impl ErasableGeneric for u32 {
    type Repr = u32;
}

impl ErasableGeneric for u64 {
    type Repr = u64;
}

impl ErasableGeneric for u128 {
    type Repr = u128;
}

impl ErasableGeneric for usize {
    type Repr = usize;
}

impl<T: ErasableGeneric> ErasableGeneric for Option<T> {
    type Repr = Option<T::Repr>;
}

impl<T: ErasableGeneric, E: ErasableGeneric> ErasableGeneric for Result<T, E> {
    type Repr = Result<T::Repr, E::Repr>;
}

impl<T: ErasableGeneric> ErasableGeneric for Vec<T> {
    type Repr = Vec<T::Repr>;
}

/// Where a promise future stands.
pub enum PromiseFutureState<C> {
    /// `then` was called but the call attaching the callbacks has not
    /// returned; JS may already call back into Rust.
    Attaching,
    /// The promise is unsettled; the callback pair `C` must stay alive.
    Pending(C),
    /// The promise settled and waits to be observed by `poll`.
    Ready(Result<JsValue, JsValue>),
    /// The future completed or was dropped.
    Consumed,
}

/// A future for the settlement of a JS promise.
///
/// The Rust-to-JS call that attaches the `then` callbacks crosses the event
/// loop, so a promise can settle before the attaching call returns: the
/// state machine accepts a settlement before the callbacks are stored. `C`
/// is the callback pair kept alive while pending, `W` the waker of the task
/// waiting on the future.
pub struct PromiseFuture<C, W> {
    state: PromiseFutureState<C>,
    task: Option<W>,
}

/// What `poll` answers.
pub enum PromisePoll {
    Ready(Result<JsValue, JsValue>),
    Pending,
}

impl<C, W> PromiseFuture<C, W> {
    pub closed spec fn state(&self) -> PromiseFutureState<C> {
        self.state
    }

    pub closed spec fn task(&self) -> Option<W> {
        self.task
    }

    /// A future whose callbacks are being attached.
    pub fn new() -> (f: Self)
        ensures
            f.state() is Attaching,
            f.task() is None,
    {
        PromiseFuture { state: PromiseFutureState::Attaching, task: None }
    }

    /// The promise settled with `value`. The first settlement wins. Hands
    /// back the waker to wake and the callbacks that may now be dropped.
    pub fn finish(&mut self, value: Result<JsValue, JsValue>) -> (r: (Option<W>, Option<C>))
        ensures
            match old(self).state() {
                PromiseFutureState::Attaching => {
                    &&& final(self).state() == PromiseFutureState::<C>::Ready(value)
                    &&& final(self).task() is None
                    &&& r == (old(self).task(), None::<C>)
                },
                PromiseFutureState::Pending(c) => {
                    &&& final(self).state() == PromiseFutureState::<C>::Ready(value)
                    &&& final(self).task() is None
                    &&& r == (old(self).task(), Some(c))
                },
                _ => *final(self) == *old(self) && r == (None::<W>, None::<C>),
            },
    {
        let mut state = PromiseFutureState::Ready(value);
        std::mem::swap(&mut state, &mut self.state);
        match state {
            PromiseFutureState::Attaching => {
                let task = self.task.take();
                (task, None)
            },
            PromiseFutureState::Pending(callbacks) => {
                let task = self.task.take();
                (task, Some(callbacks))
            },
            other => {
                self.state = other;
                (None, None)
            },
        }
    }

    /// The attaching call returned with the callback pair. If the promise
    /// already settled, the callbacks are handed back to be dropped.
    pub fn attached(&mut self, callbacks: C) -> (r: Option<C>)
        ensures
            old(self).state() is Attaching ==> {
                &&& final(self).state() == PromiseFutureState::Pending(callbacks)
                &&& final(self).task() == old(self).task()
                &&& r is None
            },
            !(old(self).state() is Attaching) ==> *final(self) == *old(self) && r == Some(callbacks),
    {
        if matches!(self.state, PromiseFutureState::Attaching) {
            self.state = PromiseFutureState::Pending(callbacks);
            None
        } else {
            Some(callbacks)
        }
    }

    /// Whether the future has completed or was dropped.
    pub fn is_consumed(&self) -> (r: bool)
        ensures
            r == (self.state() is Consumed),
    {
        matches!(self.state, PromiseFutureState::Consumed)
    }

    /// Poll the future on behalf of the task woken by `waker`. A settled
    /// promise completes the future; polling a completed future is refused.
    pub fn poll(&mut self, waker: W) -> (r: PromisePoll)
        requires
            !(old(self).state() is Consumed),
        ensures
            match old(self).state() {
                PromiseFutureState::Ready(v) => {
                    &&& r == PromisePoll::Ready(v)
                    &&& final(self).state() is Consumed
                    &&& final(self).task() == old(self).task()
                },
                _ => {
                    &&& r is Pending
                    &&& final(self).state() == old(self).state()
                    &&& final(self).task() == Some(waker)
                },
            },
    {
        let mut state = PromiseFutureState::Consumed;
        std::mem::swap(&mut state, &mut self.state);
        match state {
            PromiseFutureState::Ready(result) => PromisePoll::Ready(result),
            PromiseFutureState::Consumed => PromisePoll::Pending,
            other => {
                self.state = other;
                self.task = Some(waker);
                PromisePoll::Pending
            },
        }
    }

    /// The future is dropped: it is consumed, and callbacks still pending are
    /// handed back to be dropped.
    pub fn release(&mut self) -> (r: Option<C>)
        ensures
            final(self).state() is Consumed,
            final(self).task() == old(self).task(),
            r == match old(self).state() {
                PromiseFutureState::Pending(c) => Some(c),
                _ => None::<C>,
            },
    {
        let mut state = PromiseFutureState::Consumed;
        std::mem::swap(&mut state, &mut self.state);
        match state {
            PromiseFutureState::Pending(callbacks) => Some(callbacks),
            _ => None,
        }
    }
}

} // verus!
