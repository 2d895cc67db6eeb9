//! JavaScript errors and unwrapping that would throw in JavaScript.

use crate::value::JsValue;
use vstd::prelude::*;

verus! {

/// A JavaScript `Error` object.
pub struct JsError {
    value: JsValue,
}

impl JsError {
    pub closed spec fn js(&self) -> JsValue {
        self.value
    }

    /// View the JS value `value` as an error.
    pub fn from_value(value: JsValue) -> (e: JsError)
        ensures
            e.js() == value,
    {
        JsError { value }
    }

    /// The underlying JS value.
    pub fn into_value(self) -> (v: JsValue)
        ensures
            v == self.js(),
    {
        self.value
    }

    /// Borrow the underlying JS value.
    pub fn as_value(&self) -> (v: &JsValue)
        ensures
            *v == self.js(),
    {
        &self.value
    }
}

/// Unwrapping that throws a JS exception on failure. Outside Wasm there is
/// nothing to throw, so the value must be present.
pub trait UnwrapThrowExt<T>: Sized {
    /// Whether a value is present.
    spec fn has_value(&self) -> bool;

    /// The value present.
    spec fn value(&self) -> T;

    /// The value; it must be present.
    fn unwrap_throw(self) -> (r: T)
        requires
            self.has_value(),
        ensures
            r == self.value(),
    {
        self.expect_throw("called `unwrap_throw()`")
    }

    /// The value; it must be present (`message` is what would be thrown).
    fn expect_throw(self, message: &str) -> (r: T)
        requires
            self.has_value(),
        ensures
            r == self.value(),
    ;
}

impl<T> UnwrapThrowExt<T> for Option<T> {
    open spec fn has_value(&self) -> bool {
        self is Some
    }

    open spec fn value(&self) -> T {
        self->0
    }

    fn expect_throw(self, message: &str) -> (r: T) {
        self.expect(message)
    }
}

impl<T, E: core::fmt::Debug> UnwrapThrowExt<T> for Result<T, E> {
    open spec fn has_value(&self) -> bool {
        self is Ok
    }

    open spec fn value(&self) -> T {
        self->Ok_0
    }

    fn expect_throw(self, message: &str) -> (r: T) {
        self.expect(message)
    }
}

} // verus!
