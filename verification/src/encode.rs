//! Encoding and decoding of Rust values on the binary protocol.
//!
//! Every encodable type states, as a spec function of its model, exactly
//! which values it appends to the four streams of a message; every
//! decodable type states, as a spec parser over the streams, what it reads
//! back. [`WireCodec`] ties the two together: decoding what was encoded
//! gives back the value and leaves whatever followed it untouched.

use crate::ipc::{
    is_err_kind, lemma_append_assoc, lemma_append_empty, lemma_u128_words_roundtrip,
    lemma_u64_words_roundtrip, u128_of_words, u64_of_words, DecodeError, DecodeErrorKind,
    DecodedData, EncodedData, Wire,
};
use std::string::String;
use std::vec::Vec;
use vstd::prelude::*;
use vstd::string::StringSliceAdditionalSpecFns;

verus! {

/// The mathematical value a Rust value stands for on the protocol.
pub trait WireValue {
    type Model;

    spec fn model(&self) -> Self::Model;
}

/// Encoding of Rust values into the binary protocol.
pub trait BinaryEncode: WireValue + Sized {
    /// The values appended to the streams for a value with model `m`.
    spec fn wire_of(m: Self::Model) -> Wire;

    fn encode(self, encoder: &mut EncodedData)
        ensures
            final(encoder).appended(old(encoder), Self::wire_of(self.model())),
    ;
}

/// What decoding gives: the model of the value read and the streams left,
/// or the kind of failure.
pub type Parsed<M> = Result<(M, Wire), DecodeErrorKind>;

/// `r` and the remaining streams `rest` agree with the spec parse `p`.
pub open spec fn decodes_as<T: WireValue>(r: Result<T, DecodeError>, p: Parsed<T::Model>, rest: Wire) -> bool {
    match p {
        Ok((m, w)) => match r {
            Ok(v) => v.model() == m && rest == w,
            Err(_) => false,
        },
        Err(k) => is_err_kind(r, k),
    }
}

/// Decoding of values from the binary protocol.
pub trait BinaryDecode: WireValue + Sized {
    /// What decoding reads from the streams `w`.
    spec fn parse(w: Wire) -> Parsed<Self::Model>;

    fn decode(decoder: &mut DecodedData) -> (r: Result<Self, DecodeError>)
        ensures
            decodes_as(r, Self::parse(old(decoder).remaining()), final(decoder).remaining()),
    ;
}

/// Types whose decoding undoes their encoding.
pub trait WireCodec: BinaryEncode + BinaryDecode {
    /// The values the protocol can carry (lengths must fit in a word).
    spec fn encodable(m: Self::Model) -> bool;

    /// Decoding the encoding of `m` gives back `m` and leaves `rest`.
    proof fn lemma_roundtrip(m: Self::Model, rest: Wire)
        requires
            Self::encodable(m),
        ensures
            Self::parse(Self::wire_of(m).append(rest)) == Ok::<(Self::Model, Wire), DecodeErrorKind>((m, rest)),
    ;
}

/// Type tags of the binary type-definition protocol, from which JavaScript
/// builds its decoders.
#[derive(Debug, Clone, Copy, PartialEq, Eq, Structural)]
pub enum TypeTag {
    Null,
    Bool,
    U8,
    U16,
    U32,
    U64,
    U128,
    I8,
    I16,
    I32,
    I64,
    I128,
    F32,
    F64,
    Usize,
    Isize,
    String,
    HeapRef,
    /// Followed by the parameter count, the parameter definitions and the return definition.
    Callback,
    /// Followed by the inner definition.
    Option,
    /// Followed by the ok and the error definitions.
    Result,
    /// Followed by the element definition.
    Array,
    /// A reference on the borrow stack.
    BorrowedRef,
    /// A `Uint8ClampedArray`.
    U8Clamped,
    /// A string enum: followed by the variant count and the variant strings.
    StringEnum,
}

impl TypeTag {
    /// The byte that stands for the tag.
    pub open spec fn byte(self) -> u8 {
        match self {
            TypeTag::Null => 0,
            TypeTag::Bool => 1,
            TypeTag::U8 => 2,
            TypeTag::U16 => 3,
            TypeTag::U32 => 4,
            TypeTag::U64 => 5,
            TypeTag::U128 => 6,
            TypeTag::I8 => 7,
            TypeTag::I16 => 8,
            TypeTag::I32 => 9,
            TypeTag::I64 => 10,
            TypeTag::I128 => 11,
            TypeTag::F32 => 12,
            TypeTag::F64 => 13,
            TypeTag::Usize => 14,
            TypeTag::Isize => 15,
            TypeTag::String => 16,
            TypeTag::HeapRef => 17,
            TypeTag::Callback => 18,
            TypeTag::Option => 19,
            TypeTag::Result => 20,
            TypeTag::Array => 21,
            TypeTag::BorrowedRef => 22,
            TypeTag::U8Clamped => 23,
            TypeTag::StringEnum => 24,
        }
    }

    pub fn to_u8(self) -> (b: u8)
        ensures
            b == self.byte(),
    {
        match self {
            TypeTag::Null => 0,
            TypeTag::Bool => 1,
            TypeTag::U8 => 2,
            TypeTag::U16 => 3,
            TypeTag::U32 => 4,
            TypeTag::U64 => 5,
            TypeTag::U128 => 6,
            TypeTag::I8 => 7,
            TypeTag::I16 => 8,
            TypeTag::I32 => 9,
            TypeTag::I64 => 10,
            TypeTag::I128 => 11,
            TypeTag::F32 => 12,
            TypeTag::F64 => 13,
            TypeTag::Usize => 14,
            TypeTag::Isize => 15,
            TypeTag::String => 16,
            TypeTag::HeapRef => 17,
            TypeTag::Callback => 18,
            TypeTag::Option => 19,
            TypeTag::Result => 20,
            TypeTag::Array => 21,
            TypeTag::BorrowedRef => 22,
            TypeTag::U8Clamped => 23,
            TypeTag::StringEnum => 24,
        }
    }
}

/// Marker for a cached type definition: `[TYPE_CACHED] [type_id: u32]`.
pub const TYPE_CACHED: u8 = 0xFF;

/// Marker for a full type definition, sent the first time a signature is used.
pub const TYPE_FULL: u8 = 0xFE;

/// Types that can describe themselves to JavaScript.
pub trait EncodeTypeDef {
    /// The bytes of the type definition.
    spec fn type_def() -> Seq<u8>;

    fn encode_type_def(buf: &mut Vec<u8>)
        ensures
            final(buf)@ == old(buf)@ + Self::type_def(),
    ;
}

fn push_tag(buf: &mut Vec<u8>, tag: TypeTag)
    ensures
        final(buf)@ == old(buf)@ + seq![tag.byte()],
{
    buf.push(tag.to_u8());
    assert(buf@ =~= old(buf)@ + seq![tag.byte()]);
}

} // verus!

pub mod batchable;
pub mod callbacks;
pub mod clamped;
pub mod containers;
pub mod primitives;
