//! Handles for Rust closures passed to JavaScript.

use crate::value::JsValue;
use core::marker::PhantomData;
use vstd::prelude::*;

verus! {

/// Who disposes of the JS-side function that backs a closure. Encoding an
/// owned closure by value detaches it, because JavaScript takes ownership;
/// borrowed encodings keep Rust's ownership. Only `Owned` disposes on drop.
#[derive(Clone, Copy, Debug, PartialEq, Eq, Structural)]
pub enum CallbackOwnership {
    /// No Rust callback backs this closure (it wraps a plain JS function).
    NoCallback,
    /// Rust owns the callback and disposes of it.
    Owned,
    /// Ownership was handed to JavaScript; encoders still flush so JS has the
    /// function before the call that needs it.
    Detached,
}

impl CallbackOwnership {
    /// Encoding the closure requires an immediate flush, so JS has the
    /// function before it is called.
    pub fn needs_flush(&self) -> (r: bool)
        ensures
            r == !(*self is NoCallback),
    {
        !matches!(self, CallbackOwnership::NoCallback)
    }

    /// `Owned` becomes `Detached`; the other states stay.
    pub fn detach(&mut self)
        ensures
            *final(self) == (if *old(self) is Owned {
                CallbackOwnership::Detached
            } else {
                *old(self)
            }),
    {
        if matches!(self, CallbackOwnership::Owned) {
            *self = CallbackOwnership::Detached;
        }
    }

    /// Whether dropping the closure must dispose of its JS function.
    pub fn disposes_on_drop(&self) -> (r: bool)
        ensures
            r == (*self is Owned),
    {
        matches!(self, CallbackOwnership::Owned)
    }
}

/// Borrowed or owned handle of a Rust closure that JavaScript can call.
pub struct ScopedClosure<'a, T: ?Sized> {
    _phantom: PhantomData<(&'a (), Box<T>)>,
    callback: CallbackOwnership,
    value: JsValue,
}

/// Owned closure handle.
pub type Closure<T> = ScopedClosure<'static, T>;

impl<'a, T: ?Sized> ScopedClosure<'a, T> {
    /// The JS function this closure is.
    pub closed spec fn js(&self) -> JsValue {
        self.value
    }

    /// Who disposes of the JS function.
    pub closed spec fn ownership(&self) -> CallbackOwnership {
        self.callback
    }

    /// A closure handle for the JS function `value`, owned as `callback` says.
    pub fn from_parts(value: JsValue, callback: CallbackOwnership) -> (c: Self)
        ensures
            c.js() == value,
            c.ownership() == callback,
    {
        ScopedClosure { _phantom: PhantomData, callback, value }
    }

    /// Who disposes of the JS function.
    pub fn callback_ownership(&self) -> (r: CallbackOwnership)
        ensures
            r == self.ownership(),
    {
        self.callback
    }

    /// Hand ownership of the JS function over to JavaScript.
    pub fn detach(&mut self)
        ensures
            final(self).js() == old(self).js(),
            final(self).ownership() == (if old(self).ownership() is Owned {
                CallbackOwnership::Detached
            } else {
                old(self).ownership()
            }),
    {
        self.callback.detach();
    }

    /// The JS function of this closure.
    pub fn as_js_value(&self) -> (r: &JsValue)
        ensures
            *r == self.js(),
    {
        &self.value
    }

    /// Give the closure up without disposing of its JS function.
    pub fn forget(self) {
    }

    /// The JS function of this closure; the function is no longer disposed
    /// of by Rust.
    pub fn into_js_value(self) -> (r: JsValue)
        ensures
            r == self.js(),
    {
        self.value
    }
}

/// Closures that are safe to invoke through panic-catching glue.
pub trait MaybeUnwindSafe {}

impl<T: ?Sized> MaybeUnwindSafe for T {}

/// Closure signatures usable as the `T` of a [`ScopedClosure`].
pub trait WasmClosure {
    /// The `'static` form of the signature.
    type Static: ?Sized;
    /// The mutable form of the signature.
    type AsMut: ?Sized;
}

/// Conversion of a Rust closure into the JS closure type `T`.
pub trait IntoWasmClosure<T: ?Sized> {
    fn into_closure(self) -> Closure<T>;

    fn into_closure_box(self: Box<Self>) -> Closure<T>;
}

/// Conversion of a shared borrow of a Rust closure into the JS closure type `T`.
pub trait IntoWasmClosureRef<T: ?Sized + WasmClosure> {
    fn into_scoped_closure_ref<'a>(t: &'a Self) -> ScopedClosure<'a, T::Static>;
}

/// Conversion of a mutable borrow of a Rust closure into the JS closure type `T`.
pub trait IntoWasmClosureRefMut<T: ?Sized + WasmClosure> {
    fn into_scoped_closure_ref_mut<'a>(t: &'a mut Self) -> ScopedClosure<'a, T::Static>;
}

/// Conversion of an `FnOnce(A...) -> R` into a closure that may be called once.
pub trait WasmClosureFnOnce<T: ?Sized, A, R>: Sized {
    fn into_closure(self) -> Closure<T>;
}

/// Conversion of an aborting `FnOnce(A...) -> R` into a closure that may be called once.
pub trait WasmClosureFnOnceAbort<T: ?Sized, A, R>: Sized {
    fn into_closure(self) -> Closure<T>;
}

/// Closure types that can be boxed and handed to JavaScript.
pub trait WryWasmClosure<M> {
    fn into_js_closure(boxed: Box<Self>) -> Closure<Self>;
}

impl<T: ?Sized + WasmClosure> ScopedClosure<'static, T> {
    /// An owned closure from `t`.
    pub fn new<F: IntoWasmClosure<T> + MaybeUnwindSafe>(t: F) -> (c: Self)
        ensures
            call_ensures(F::into_closure, (t,), c),
    {
        Self::own(t)
    }

    /// An owned closure from `t`.
    pub fn own<F: IntoWasmClosure<T> + MaybeUnwindSafe>(t: F) -> (c: Self)
        ensures
            call_ensures(F::into_closure, (t,), c),
    {
        F::into_closure(t)
    }

    /// An owned closure from `t`, which aborts instead of unwinding.
    pub fn own_aborting<F: IntoWasmClosure<T>>(t: F) -> (c: Self)
        ensures
            call_ensures(F::into_closure, (t,), c),
    {
        F::into_closure(t)
    }

    /// An owned closure from `t`, asserted to be unwind safe.
    pub fn own_assert_unwind_safe<F: IntoWasmClosure<T>>(t: F) -> (c: Self)
        ensures
            call_ensures(F::into_closure, (t,), c),
    {
        F::into_closure(t)
    }

    /// An owned closure from a boxed closure.
    pub fn wrap<F: IntoWasmClosure<T> + ?Sized + MaybeUnwindSafe>(data: Box<F>) -> (c: Self)
        ensures
            call_ensures(F::into_closure_box, (data,), c),
    {
        F::into_closure_box(data)
    }

    /// An owned closure from a boxed closure, which aborts instead of unwinding.
    pub fn wrap_aborting<F: IntoWasmClosure<T> + ?Sized>(data: Box<F>) -> (c: Self)
        ensures
            call_ensures(F::into_closure_box, (data,), c),
    {
        F::into_closure_box(data)
    }

    /// An owned closure from a boxed closure, asserted to be unwind safe.
    pub fn wrap_assert_unwind_safe<F: IntoWasmClosure<T> + ?Sized>(data: Box<F>) -> (c: Self)
        ensures
            call_ensures(F::into_closure_box, (data,), c),
    {
        F::into_closure_box(data)
    }

    /// A closure borrowing `t` for `'a`.
    pub fn borrow<'a, F: IntoWasmClosureRef<T> + MaybeUnwindSafe + ?Sized>(t: &'a F) -> (c:
        ScopedClosure<'a, T::Static>)
        ensures
            call_ensures(F::into_scoped_closure_ref, (t,), c),
    {
        F::into_scoped_closure_ref(t)
    }

    /// A closure borrowing `t`, which aborts instead of unwinding.
    pub fn borrow_aborting<'a, F: IntoWasmClosureRef<T> + ?Sized>(t: &'a F) -> (c: ScopedClosure<
        'a,
        T::Static,
    >)
        ensures
            call_ensures(F::into_scoped_closure_ref, (t,), c),
    {
        F::into_scoped_closure_ref(t)
    }

    /// A closure borrowing `t`, asserted to be unwind safe.
    pub fn borrow_assert_unwind_safe<'a, F: IntoWasmClosureRef<T> + ?Sized>(t: &'a F) -> (c:
        ScopedClosure<'a, T::Static>)
        ensures
            call_ensures(F::into_scoped_closure_ref, (t,), c),
    {
        F::into_scoped_closure_ref(t)
    }

    /// A closure borrowing `t` mutably for `'a`.
    pub fn borrow_mut<'a, F: IntoWasmClosureRefMut<T> + MaybeUnwindSafe + ?Sized>(t: &'a mut F) -> (c:
        ScopedClosure<'a, T::Static>)
        ensures
            exists|r: &mut F| &*r == &*old(t) && call_ensures(F::into_scoped_closure_ref_mut, (r,), c),
    {
        F::into_scoped_closure_ref_mut(t)
    }

    /// A closure borrowing `t` mutably, which aborts instead of unwinding.
    pub fn borrow_mut_aborting<'a, F: IntoWasmClosureRefMut<T> + ?Sized>(t: &'a mut F) -> (c:
        ScopedClosure<'a, T::Static>)
        ensures
            exists|r: &mut F| &*r == &*old(t) && call_ensures(F::into_scoped_closure_ref_mut, (r,), c),
    {
        F::into_scoped_closure_ref_mut(t)
    }

    /// A closure borrowing `t` mutably, asserted to be unwind safe.
    pub fn borrow_mut_assert_unwind_safe<'a, F: IntoWasmClosureRefMut<T> + ?Sized>(
        t: &'a mut F,
    ) -> (c: ScopedClosure<'a, T::Static>)
        ensures
            exists|r: &mut F| &*r == &*old(t) && call_ensures(F::into_scoped_closure_ref_mut, (r,), c),
    {
        F::into_scoped_closure_ref_mut(t)
    }

    /// A closure from a function that may be called only once.
    pub fn once<F: WasmClosureFnOnce<T, A, R> + MaybeUnwindSafe, A, R>(fn_once: F) -> (c: Self)
        ensures
            call_ensures(<F as WasmClosureFnOnce<T, A, R>>::into_closure, (fn_once,), c),
    {
        <F as WasmClosureFnOnce<T, A, R>>::into_closure(fn_once)
    }

    /// A once-callable closure that aborts instead of unwinding.
    pub fn once_aborting<F: WasmClosureFnOnceAbort<T, A, R>, A, R>(fn_once: F) -> (c: Self)
        ensures
            call_ensures(<F as WasmClosureFnOnceAbort<T, A, R>>::into_closure, (fn_once,), c),
    {
        <F as WasmClosureFnOnceAbort<T, A, R>>::into_closure(fn_once)
    }

    /// A once-callable closure, asserted to be unwind safe.
    pub fn once_assert_unwind_safe<F: WasmClosureFnOnceAbort<T, A, R>, A, R>(fn_once: F) -> (c:
        Self)
        ensures
            call_ensures(<F as WasmClosureFnOnceAbort<T, A, R>>::into_closure, (fn_once,), c),
    {
        Self::once_aborting(fn_once)
    }

    /// The JS function of a once-callable closure made from `fn_once`.
    pub fn once_into_js<F: WasmClosureFnOnce<T, A, R> + MaybeUnwindSafe, A, R>(fn_once: F) -> (v:
        JsValue)
        ensures
            exists|c: Self|
                call_ensures(<F as WasmClosureFnOnce<T, A, R>>::into_closure, (fn_once,), c)
                    && v == c.js(),
    {
        Self::once(fn_once).into_js_value()
    }
}

} // verus!
