//! Runtime support for wasm-bindgen-style bindings carried over Wry's IPC.
//!
//! The verified core of the runtime: identifier allocation that mirrors the
//! JavaScript heap, the binary wire format, type-definition caching and the
//! batching prelude.

#![allow(unused_imports)]

pub mod id_allocator;
pub mod ipc;
pub mod clamped;
pub mod encode;
pub mod type_cache;
pub mod value;
pub mod cast;
pub mod sys;
pub mod object_store;
pub mod batch;
pub mod closure;
pub mod convert;
pub mod error;
pub mod events;
pub mod rt;
pub mod text;
pub mod versions;
pub mod api_report;
pub mod manifest;
pub mod webview;
pub mod js_codegen;

use vstd::prelude::*;

verus! {

/// First JavaScript heap index that is not part of the borrow stack.
pub const JSIDX_OFFSET: u64 = 128;

/// First JavaScript heap index not pre-populated by the JS runtime
/// (`undefined`, `null`, `true` and `false` sit at `JSIDX_OFFSET..JSIDX_RESERVED`).
pub const JSIDX_RESERVED: u64 = 132;

} // verus!
