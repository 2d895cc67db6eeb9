//! Handles to values that live on the JavaScript heap.

use crate::{JSIDX_OFFSET, JSIDX_RESERVED};
use vstd::prelude::*;

verus! {

/// Heap index of `undefined`.
pub const JSIDX_UNDEFINED: u64 = 128;

/// Heap index of `null`.
pub const JSIDX_NULL: u64 = 129;

/// Heap index of `true`.
pub const JSIDX_TRUE: u64 = 130;

/// Heap index of `false`.
pub const JSIDX_FALSE: u64 = 131;

/// A reference to a JavaScript value, named by its slot in the JS heap mirror.
///
/// Slots below `JSIDX_OFFSET` form the borrow stack, the four slots from
/// `JSIDX_OFFSET` hold the constants `undefined`, `null`, `true` and `false`,
/// and everything from `JSIDX_RESERVED` on is allocated at run time.
/// A handle is plain data here: copying it names the same slot, and freeing
/// a slot goes through the runtime's allocator.
#[derive(Clone, Copy, Debug, PartialEq, Eq, Structural)]
pub struct JsValue {
    idx: u64,
}

impl View for JsValue {
    type V = u64;

    closed spec fn view(&self) -> u64 {
        self.idx
    }
}

/// `v` names `undefined` or `null`.
pub open spec fn is_nullish(v: JsValue) -> bool {
    v@ == JSIDX_UNDEFINED || v@ == JSIDX_NULL
}

impl JsValue {
    /// The handle for the heap slot `id`.
    pub fn from_id(id: u64) -> (v: JsValue)
        ensures
            v@ == id,
    {
        JsValue { idx: id }
    }

    /// The heap slot this handle names.
    pub fn id(&self) -> (id: u64)
        ensures
            id == self@,
    {
        self.idx
    }

    /// The JavaScript `undefined` constant.
    pub fn undefined() -> (v: JsValue)
        ensures
            v@ == JSIDX_UNDEFINED,
    {
        JsValue { idx: JSIDX_UNDEFINED }
    }

    /// The JavaScript `null` constant.
    pub fn null() -> (v: JsValue)
        ensures
            v@ == JSIDX_NULL,
    {
        JsValue { idx: JSIDX_NULL }
    }

    /// The JavaScript boolean constant for `b`.
    pub fn from_bool(b: bool) -> (v: JsValue)
        ensures
            v@ == (if b { JSIDX_TRUE } else { JSIDX_FALSE }),
    {
        if b {
            JsValue { idx: JSIDX_TRUE }
        } else {
            JsValue { idx: JSIDX_FALSE }
        }
    }

    /// Whether this is `undefined`.
    pub fn is_undefined(&self) -> (r: bool)
        ensures
            r == (self@ == JSIDX_UNDEFINED),
    {
        self.idx == JSIDX_UNDEFINED
    }

    /// Whether this is `null`.
    pub fn is_null(&self) -> (r: bool)
        ensures
            r == (self@ == JSIDX_NULL),
    {
        self.idx == JSIDX_NULL
    }

    /// The boolean this handle stands for, when it names one of the two
    /// boolean constants.
    pub fn as_bool(&self) -> (r: Option<bool>)
        ensures
            r == (if self@ == JSIDX_TRUE {
                Some(true)
            } else if self@ == JSIDX_FALSE {
                Some(false)
            } else {
                None::<bool>
            }),
    {
        if self.idx == JSIDX_TRUE {
            Some(true)
        } else if self.idx == JSIDX_FALSE {
            Some(false)
        } else {
            None
        }
    }

    /// Whether the slot is one of the constants the JS runtime pre-populates.
    pub fn is_constant(&self) -> (r: bool)
        ensures
            r == (JSIDX_OFFSET <= self@ && self@ < JSIDX_RESERVED),
    {
        JSIDX_OFFSET <= self.idx && self.idx < JSIDX_RESERVED
    }

    /// Whether the slot belongs to the borrow stack.
    pub fn is_borrowed(&self) -> (r: bool)
        ensures
            r == (self@ < JSIDX_OFFSET),
    {
        self.idx < JSIDX_OFFSET
    }
}

} // verus!
