//! JavaScript primitive wrappers, nullable values and promise resolution types.

use crate::cast::JsCast;
use crate::value::{is_nullish, JsValue, JSIDX_NULL, JSIDX_UNDEFINED};
use core::marker::PhantomData;
use vstd::prelude::*;

verus! {

/// Values that are either a resolution value or something that resolves to one.
pub trait Promising {
    type Resolution;
}

/// The JavaScript `undefined` value.
pub struct Undefined {
    pub obj: JsValue,
}

/// The JavaScript `null` value.
pub struct Null {
    pub obj: JsValue,
}

impl Default for Undefined {
    fn default() -> (r: Self)
        ensures
            r.obj@ == JSIDX_UNDEFINED,
    {
        Undefined { obj: JsValue::undefined() }
    }
}

impl Default for Null {
    fn default() -> (r: Self)
        ensures
            r.obj@ == JSIDX_NULL,
    {
        Null { obj: JsValue::null() }
    }
}

impl JsCast for Undefined {
    open spec fn js_repr(&self) -> JsValue {
        self.obj
    }

    fn js_ref(&self) -> (r: &JsValue) {
        &self.obj
    }

    fn into_js(self) -> (r: JsValue) {
        self.obj
    }

    fn instanceof(val: &JsValue) -> (r: bool)
        ensures
            r == (val@ == JSIDX_UNDEFINED),
    {
        val.is_undefined()
    }

    fn is_type_of(val: &JsValue) -> (r: bool)
        ensures
            r == (val@ == JSIDX_UNDEFINED),
    {
        val.is_undefined()
    }

    fn unchecked_from_js(val: JsValue) -> (r: Undefined) {
        Undefined { obj: val }
    }
}

impl JsCast for Null {
    open spec fn js_repr(&self) -> JsValue {
        self.obj
    }

    fn js_ref(&self) -> (r: &JsValue) {
        &self.obj
    }

    fn into_js(self) -> (r: JsValue) {
        self.obj
    }

    fn instanceof(val: &JsValue) -> (r: bool)
        ensures
            r == (val@ == JSIDX_NULL),
    {
        val.is_null()
    }

    fn is_type_of(val: &JsValue) -> (r: bool)
        ensures
            r == (val@ == JSIDX_NULL),
    {
        val.is_null()
    }

    fn unchecked_from_js(val: JsValue) -> (r: Null) {
        Null { obj: val }
    }
}

/// A JS value of type `T` that may also be `undefined` or `null`.
pub struct JsOption<T> {
    pub obj: JsValue,
    pub generics: PhantomData<T>,
}

impl<T: JsCast> JsOption<T> {
    /// The empty value (`undefined`).
    pub fn new() -> (r: Self)
        ensures
            r.obj@ == JSIDX_UNDEFINED,
    {
        JsOption { obj: JsValue::undefined(), generics: PhantomData }
    }

    /// A value holding `val`.
    pub fn wrap(val: T) -> (r: Self)
        ensures
            r.obj == val.js_repr(),
    {
        JsOption { obj: val.into_js(), generics: PhantomData }
    }

    /// `Some(v)` becomes a value holding `v`, `None` becomes `undefined`.
    pub fn from_option(opt: Option<T>) -> (r: Self)
        ensures
            match opt {
                Some(v) => r.obj == v.js_repr(),
                None => r.obj@ == JSIDX_UNDEFINED,
            },
    {
        match opt {
            Some(value) => Self::wrap(value),
            None => Self::new(),
        }
    }

    /// Whether the value is `undefined` or `null`.
    pub fn is_empty(&self) -> (r: bool)
        ensures
            r == is_nullish(self.obj),
    {
        self.obj.is_null() || self.obj.is_undefined()
    }

    /// The held value, or `None` when empty.
    pub fn as_option(&self) -> (r: Option<T>)
        ensures
            match r {
                Some(v) => !is_nullish(self.obj) && v.js_repr() == self.obj,
                None => is_nullish(self.obj),
            },
    {
        if self.is_empty() {
            None
        } else {
            Some(T::unchecked_from_js(self.obj))
        }
    }

    /// Consume into the held value, or `None` when empty.
    pub fn into_option(self) -> (r: Option<T>)
        ensures
            match r {
                Some(v) => !is_nullish(self.obj) && v.js_repr() == self.obj,
                None => is_nullish(self.obj),
            },
    {
        if self.is_empty() {
            None
        } else {
            Some(T::unchecked_from_js(self.obj))
        }
    }

    /// The held value; the value must not be empty.
    pub fn unwrap(self) -> (r: T)
        requires
            !is_nullish(self.obj),
        ensures
            r.js_repr() == self.obj,
    {
        self.expect("called `JsOption::unwrap()` on an empty value")
    }

    /// The held value; the value must not be empty (`msg` is the message the
    /// unchecked form panics with).
    pub fn expect(self, msg: &str) -> (r: T)
        requires
            !is_nullish(self.obj),
        ensures
            r.js_repr() == self.obj,
    {
        let obj = self.obj;
        match self.into_option() {
            Some(value) => value,
            None => T::unchecked_from_js(obj),
        }
    }

    /// The held value, or `T::default()` when empty.
    pub fn unwrap_or_default(self) -> (r: T)
        where
            T: Default,
        ensures
            !is_nullish(self.obj) ==> r.js_repr() == self.obj,
            is_nullish(self.obj) ==> call_ensures(T::default, (), r),
    {
        match self.into_option() {
            Some(value) => value,
            None => T::default(),
        }
    }

    /// The held value, or the result of `f` when empty.
    pub fn unwrap_or_else<F: FnOnce() -> T>(self, f: F) -> (r: T)
        requires
            is_nullish(self.obj) ==> f.requires(()),
        ensures
            !is_nullish(self.obj) ==> r.js_repr() == self.obj,
            is_nullish(self.obj) ==> f.ensures((), r),
    {
        match self.into_option() {
            Some(value) => value,
            None => f(),
        }
    }
}

impl<T: JsCast> Default for JsOption<T> {
    fn default() -> (r: Self)
        ensures
            r.obj@ == JSIDX_UNDEFINED,
    {
        Self::new()
    }
}

impl<T: JsCast> JsCast for JsOption<T> {
    open spec fn js_repr(&self) -> JsValue {
        self.obj
    }

    fn js_ref(&self) -> (r: &JsValue) {
        &self.obj
    }

    fn into_js(self) -> (r: JsValue) {
        self.obj
    }

    fn instanceof(val: &JsValue) -> (r: bool)
        ensures
            is_nullish(*val) ==> r,
            !is_nullish(*val) ==> call_ensures(T::is_type_of, (val,), r),
    {
        T::is_type_of(val) || val.is_null() || val.is_undefined()
    }

    fn unchecked_from_js(val: JsValue) -> (r: JsOption<T>) {
        JsOption { obj: val, generics: PhantomData }
    }
}

impl Promising for JsValue {
    type Resolution = JsValue;
}

impl Promising for () {
    type Resolution = Undefined;
}

impl Promising for bool {
    type Resolution = bool;
}

impl Promising for char {
    type Resolution = char;
}

impl Promising for i8 {
    type Resolution = i8;
}

impl Promising for i16 {
    type Resolution = i16;
}

impl Promising for i32 {
    type Resolution = i32;
}

impl Promising for i64 {
    type Resolution = i64;
}

impl Promising for i128 {
    type Resolution = i128;
}

impl Promising for isize {
    type Resolution = isize;
}

impl Promising for u8 {
    type Resolution = u8;
}

impl Promising for u16 {
    type Resolution = u16;
}

impl Promising for u32 {
    type Resolution = u32;
}

impl Promising for u64 {
    type Resolution = u64;
}

impl Promising for u128 {
    type Resolution = u128;
}

impl Promising for usize {
    type Resolution = usize;
}

impl<T: Promising> Promising for Option<T> {
    type Resolution = Option<T::Resolution>;
}

impl<T: Promising, E> Promising for Result<T, E> {
    type Resolution = Result<T::Resolution, E>;
}

} // verus!
