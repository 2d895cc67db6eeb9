//! Casting between JavaScript wrapper types.

use crate::value::JsValue;
use vstd::prelude::*;

verus! {

/// Types that are views of a single [`JsValue`] and can be cast to and from it.
///
/// A cast never changes the referenced JS value: it only changes the Rust
/// type through which that value is seen. Whether a value *is* of a given
/// JS type is a question for the JS side (`instanceof`), so this trait
/// states nothing about the answers of `instanceof` and `is_type_of` in
/// general; implementations may.
pub trait JsCast: Sized {
    /// The JS value this Rust value refers to.
    spec fn js_repr(&self) -> JsValue;

    /// Borrow the underlying JS value.
    fn js_ref(&self) -> (r: &JsValue)
        ensures
            *r == self.js_repr(),
    ;

    /// Convert into the underlying JS value.
    fn into_js(self) -> (r: JsValue)
        ensures
            r == self.js_repr(),
    ;

    /// Whether `val` is an instance of this type.
    fn instanceof(val: &JsValue) -> bool;

    /// Dynamic type check; defaults to `instanceof`.
    fn is_type_of(val: &JsValue) -> (r: bool)
        default_ensures
            call_ensures(Self::instanceof, (val,), r),
    {
        Self::instanceof(val)
    }

    /// View `val` as this type without checking.
    fn unchecked_from_js(val: JsValue) -> (r: Self)
        ensures
            r.js_repr() == val,
    ;

}

/// The checked and unchecked casts that every [`JsCast`] type offers.
pub trait JsCastExt: JsCast {
    /// Whether this value passes `T`'s dynamic type check.
    fn has_type<T: JsCast>(&self) -> (r: bool)
        ensures
            call_ensures(T::is_type_of, (&self.js_repr(),), r),
    ;

    /// Cast to `T` if the dynamic type check passes, else hand `self` back.
    fn dyn_into<T: JsCast>(self) -> (r: Result<T, Self>)
        ensures
            match r {
                Ok(t) => t.js_repr() == self.js_repr() && call_ensures(T::is_type_of, (&self.js_repr(),), true),
                Err(s) => s == self && call_ensures(T::is_type_of, (&self.js_repr(),), false),
            },
    ;

    /// Whether this value is `instanceof T`.
    fn is_instance_of<T: JsCast>(&self) -> (r: bool)
        ensures
            call_ensures(T::instanceof, (&self.js_repr(),), r),
    ;

    /// Cast to `T` without checking.
    fn unchecked_into<T: JsCast>(self) -> (r: T)
        ensures
            r.js_repr() == self.js_repr(),
    ;
}

impl<S: JsCast> JsCastExt for S {
    fn has_type<T: JsCast>(&self) -> bool {
        T::is_type_of(self.js_ref())
    }

    fn dyn_into<T: JsCast>(self) -> (r: Result<T, Self>) {
        if self.has_type::<T>() {
            Ok(self.unchecked_into())
        } else {
            Err(self)
        }
    }

    fn is_instance_of<T: JsCast>(&self) -> bool {
        T::instanceof(self.js_ref())
    }

    fn unchecked_into<T: JsCast>(self) -> (r: T) {
        T::unchecked_from_js(self.into_js())
    }
}

impl JsCast for JsValue {
    open spec fn js_repr(&self) -> JsValue {
        *self
    }

    fn js_ref(&self) -> (r: &JsValue) {
        self
    }

    fn into_js(self) -> (r: JsValue) {
        self
    }

    /// Every value is a `JsValue`.
    fn instanceof(_val: &JsValue) -> (r: bool)
        ensures
            r,
    {
        true
    }

    fn unchecked_from_js(val: JsValue) -> (r: JsValue) {
        val
    }
}

} // verus!
