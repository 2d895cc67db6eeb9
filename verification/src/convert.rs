//! Conversion traits with the shape of wasm-bindgen's ABI traits.
//!
//! There is no raw Wasm ABI here: generated glue speaks the binary protocol.
//! The traits keep the bounds that wasm-bindgen-shaped signatures use, and
//! the ABI "words" are heap IDs.

use crate::batch::{Runtime, RuntimeState};
use crate::cast::{JsCast, JsCastExt};
use crate::encode::{BinaryDecode, BinaryEncode, EncodeTypeDef};
use crate::id_allocator::{AllocatorState, BorrowState};
use crate::ipc::{DecodeError, DecodedData};
use crate::value::JsValue;
use core::ops::Deref;
use vstd::prelude::*;

verus! {

/// Values that convert into a heap ID.
pub trait IntoAbiId: Sized {
    spec fn abi_id(&self) -> u32;

    fn into_abi_id(self) -> (r: u32)
        ensures
            r == self.abi_id(),
    ;
}

/// Values that can be recreated from a heap ID.
pub trait FromAbiId: Sized {
    /// `self` is the value recreated from the heap ID `js`.
    spec fn has_abi_id(&self, js: u32) -> bool;

    fn from_abi_id(js: u32) -> (r: Self)
        ensures
            r.has_abi_id(js),
    ;
}

/// A JS handle converts into its heap ID (cut to 32 bits).
impl<T: JsCast> IntoAbiId for T {
    open spec fn abi_id(&self) -> u32 {
        (self.js_repr()@ % 0x1_0000_0000) as u32
    }

    fn into_abi_id(self) -> (r: u32) {
        (self.into_js().id() % 0x1_0000_0000) as u32
    }
}

/// A JS handle is recreated by viewing the heap slot as `T`.
impl<T: JsCast> FromAbiId for T {
    open spec fn has_abi_id(&self, js: u32) -> bool {
        self.js_repr()@ == js
    }

    fn from_abi_id(js: u32) -> (r: T) {
        T::unchecked_from_js(JsValue::from_id(js as u64))
    }
}

/// Types accepted where wasm-bindgen expects a value converting into the ABI.
pub trait IntoWasmAbi: BinaryEncode + EncodeTypeDef {
    /// The heap ID of a JS handle.
    fn into_abi(self) -> (r: u32)
        where
            Self: IntoAbiId,
        ensures
            r == self.abi_id(),
    {
        self.into_abi_id()
    }
}

/// Types accepted where wasm-bindgen expects a value converting from the ABI.
pub trait FromWasmAbi: BinaryDecode + EncodeTypeDef {
    /// Recreate a JS handle from the heap ID of a live value.
    fn from_abi(js: u32) -> (r: Self)
        where
            Self: FromAbiId,
        ensures
            r.has_abi_id(js),
    {
        Self::from_abi_id(js)
    }
}

/// Types that may appear as `Option<T>` arguments.
pub trait OptionIntoWasmAbi: IntoWasmAbi {}

/// Types that may be received as `Option<T>`.
pub trait OptionFromWasmAbi: FromWasmAbi {}

/// Values that have an ABI representation.
pub trait WasmAbi {}

/// A value recreated from a heap ID that is only borrowed: nothing is
/// released when the anchor goes away.
pub struct AbiRef<T>(T);

impl<T> AbiRef<T> {
    pub closed spec fn inner(&self) -> T {
        self.0
    }
}

impl<T> Deref for AbiRef<T> {
    type Target = T;

    fn deref(&self) -> (r: &T)
        ensures
            *r == self.inner(),
    {
        &self.0
    }
}

/// Types that can be borrowed from the ABI.
pub trait RefFromWasmAbi {
    /// Recreate a non-releasing anchor from the heap ID of a live value.
    fn ref_from_abi(js: u32) -> (r: AbiRef<Self>)
        where
            Self: Sized + FromAbiId,
        ensures
            r.inner().has_abi_id(js),
    {
        AbiRef(Self::from_abi_id(js))
    }
}

impl<T: BinaryEncode + EncodeTypeDef> IntoWasmAbi for T {}

impl<T: BinaryDecode + EncodeTypeDef> FromWasmAbi for T {}

impl<T: IntoWasmAbi> OptionIntoWasmAbi for T {}

impl<T: FromWasmAbi> OptionFromWasmAbi for T {}

impl<T: ?Sized> WasmAbi for T {}

impl<T: ?Sized> RefFromWasmAbi for T {}

/// Conversion of a `JsValue` into a Rust type, checked at run time.
pub trait TryFromJsValue: Sized {
    /// Convert `value`, handing it back when the check fails.
    fn try_from_js_value(value: JsValue) -> (r: Result<Self, JsValue>)
        ensures
            exists|o: Option<Self>|
                call_ensures(Self::try_from_js_value_ref, (&value,), o) && r == match o {
                    Some(v) => Ok::<Self, JsValue>(v),
                    None => Err(value),
                },
    {
        match Self::try_from_js_value_ref(&value) {
            Some(v) => Ok(v),
            None => Err(value),
        }
    }

    fn try_from_js_value_ref(value: &JsValue) -> Option<Self>;
}

/// A JS handle converts when `T`'s dynamic type check passes.
impl<T: JsCast> TryFromJsValue for T {
    fn try_from_js_value_ref(value: &JsValue) -> (r: Option<T>)
        ensures
            r matches Some(v) ==> v.js_repr() == *value,
            call_ensures(T::is_type_of, (value,), r is Some),
    {
        match (*value).dyn_into::<T>() {
            Ok(v) => Some(v),
            Err(_) => None,
        }
    }
}

/// `Self` may be seen as a `Target` whenever `Target: UpcastFrom<Self>`.
pub trait UpcastFrom<S: ?Sized> {}

/// Upcasts that follow `UpcastFrom`: the JS value stays, its type widens.
pub trait Upcast<T: ?Sized> {
    fn upcast_into(self) -> (r: T)
        where
            Self: JsCast,
            T: JsCast,
        ensures
            r.js_repr() == self.js_repr(),
    {
        self.unchecked_into()
    }
}

impl<S: ?Sized, T: UpcastFrom<S> + ?Sized> Upcast<T> for S {}

impl UpcastFrom<JsValue> for JsValue {}

/// JS values whose generic parameters all erase to `JsValue`.
pub trait JsGeneric: JsCast + EncodeTypeDef + BinaryEncode {}

impl<T: JsCast + EncodeTypeDef + BinaryEncode> JsGeneric for T {}

/// Conversion into the canonical JS-generic form.
pub trait IntoJsGeneric {
    type JsCanon: JsGeneric;

    fn to_js(self) -> Self::JsCanon;
}

impl IntoJsGeneric for JsValue {
    type JsCanon = JsValue;

    fn to_js(self) -> (r: JsValue)
        ensures
            r == self,
    {
        self
    }
}

/// Types that can be decoded as references: the anchor keeps the referenced
/// value alive while a callback runs.
pub trait RefFromBinaryDecode {
    type Anchor: Deref<Target = Self>;

    fn ref_decode<O>(decoder: &mut DecodedData, runtime: &mut Runtime<O>) -> (r: Result<
        Self::Anchor,
        DecodeError,
    >)
        requires
            old(runtime)@.wf(),
            old(runtime)@.ids.borrows.pointer > 1,
    ;
}

/// Anchor that holds a value decoded from the borrow stack.
pub struct JsCastAnchor<T: JsCast> {
    value: T,
}

impl<T: JsCast> JsCastAnchor<T> {
    pub closed spec fn held(&self) -> T {
        self.value
    }
}

impl<T: JsCast> Deref for JsCastAnchor<T> {
    type Target = T;

    fn deref(&self) -> (r: &T)
        ensures
            *r == self.held(),
    {
        &self.value
    }
}

/// A borrowed JS handle is not sent as an ID: JS pushes it on its borrow
/// stack, and Rust takes the matching slot from its own borrow stack.
impl<T: JsCast> RefFromBinaryDecode for T {
    type Anchor = JsCastAnchor<T>;

    fn ref_decode<O>(decoder: &mut DecodedData, runtime: &mut Runtime<O>) -> (r: Result<
        JsCastAnchor<T>,
        DecodeError,
    >)
        ensures
            r matches Ok(a) && a.held().js_repr()@ == old(runtime)@.ids.borrows.pointer - 1,
            final(runtime)@ == (RuntimeState {
                ids: AllocatorState {
                    borrows: BorrowState {
                        pointer: (old(runtime)@.ids.borrows.pointer - 1) as u64,
                        ..old(runtime)@.ids.borrows
                    },
                    ..old(runtime)@.ids
                },
                ..old(runtime)@
            }),
            final(decoder).remaining() == old(decoder).remaining(),
    {
        let id = runtime.get_next_borrow_id();
        Ok(JsCastAnchor { value: T::unchecked_from_js(JsValue::from_id(id)) })
    }
}

} // verus!
