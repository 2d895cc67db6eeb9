//! Primitive and string binary protocol implementations.

use super::{push_tag, BinaryDecode, BinaryEncode, EncodeTypeDef, Parsed, TypeTag, WireCodec, WireValue};
use crate::ipc::{
    lemma_u128_words_roundtrip, lemma_u64_words_roundtrip, u128_of_words, u64_of_words, DecodeError,
    DecodeErrorKind, DecodedData, EncodedData, Wire,
};
use std::string::String;
use std::vec::Vec;
use vstd::prelude::*;
use vstd::string::StringSliceAdditionalSpecFns;

verus! {

broadcast use {vstd::utf8::char_u32_cast, vstd::utf8::char_is_scalar};

impl WireValue for u8 {
    type Model = u8;

    open spec fn model(&self) -> u8 {
        *self
    }
}

impl EncodeTypeDef for u8 {
    open spec fn type_def() -> Seq<u8> {
        seq![TypeTag::U8.byte()]
    }

    fn encode_type_def(buf: &mut Vec<u8>) {
        push_tag(buf, TypeTag::U8);
    }
}

impl BinaryEncode for u8 {
    open spec fn wire_of(m: u8) -> Wire {
        Wire::of_u8(m)
    }

    fn encode(self, encoder: &mut EncodedData) {
        encoder.push_u8(self);
    }
}

impl BinaryDecode for u8 {
    open spec fn parse(w: Wire) -> Parsed<u8> {
        if w.u8s.len() > 0 { Ok((w.u8s[0], w.after_u8())) } else { Err(DecodeErrorKind::U8BufferEmpty) }
    }

    fn decode(decoder: &mut DecodedData) -> (r: Result<u8, DecodeError>) {
        decoder.take_u8()
    }
}

impl WireCodec for u8 {
    open spec fn encodable(m: u8) -> bool {
        true
    }

    proof fn lemma_roundtrip(m: u8, rest: Wire) {
        
        let w = Self::wire_of(m).append(rest);
        assert(w.after_u8() =~= rest);
    }
}

impl WireValue for u16 {
    type Model = u16;

    open spec fn model(&self) -> u16 {
        *self
    }
}

impl EncodeTypeDef for u16 {
    open spec fn type_def() -> Seq<u8> {
        seq![TypeTag::U16.byte()]
    }

    fn encode_type_def(buf: &mut Vec<u8>) {
        push_tag(buf, TypeTag::U16);
    }
}

impl BinaryEncode for u16 {
    open spec fn wire_of(m: u16) -> Wire {
        Wire::of_u16(m)
    }

    fn encode(self, encoder: &mut EncodedData) {
        encoder.push_u16(self);
    }
}

impl BinaryDecode for u16 {
    open spec fn parse(w: Wire) -> Parsed<u16> {
        if w.u16s.len() > 0 { Ok((w.u16s[0], w.after_u16())) } else { Err(DecodeErrorKind::U16BufferEmpty) }
    }

    fn decode(decoder: &mut DecodedData) -> (r: Result<u16, DecodeError>) {
        decoder.take_u16()
    }
}

impl WireCodec for u16 {
    open spec fn encodable(m: u16) -> bool {
        true
    }

    proof fn lemma_roundtrip(m: u16, rest: Wire) {
        
        let w = Self::wire_of(m).append(rest);
        assert(w.after_u16() =~= rest);
    }
}

impl WireValue for u32 {
    type Model = u32;

    open spec fn model(&self) -> u32 {
        *self
    }
}

impl EncodeTypeDef for u32 {
    open spec fn type_def() -> Seq<u8> {
        seq![TypeTag::U32.byte()]
    }

    fn encode_type_def(buf: &mut Vec<u8>) {
        push_tag(buf, TypeTag::U32);
    }
}

impl BinaryEncode for u32 {
    open spec fn wire_of(m: u32) -> Wire {
        Wire::of_u32(m)
    }

    fn encode(self, encoder: &mut EncodedData) {
        encoder.push_u32(self);
    }
}

impl BinaryDecode for u32 {
    open spec fn parse(w: Wire) -> Parsed<u32> {
        if w.u32s.len() > 0 { Ok((w.u32s[0], w.after_words(1))) } else { Err(DecodeErrorKind::U32BufferEmpty) }
    }

    fn decode(decoder: &mut DecodedData) -> (r: Result<u32, DecodeError>) {
        decoder.take_u32()
    }
}

impl WireCodec for u32 {
    open spec fn encodable(m: u32) -> bool {
        true
    }

    proof fn lemma_roundtrip(m: u32, rest: Wire) {
        
        let w = Self::wire_of(m).append(rest);
        assert(w.after_words(1) =~= rest);
    }
}

impl WireValue for u64 {
    type Model = u64;

    open spec fn model(&self) -> u64 {
        *self
    }
}

impl EncodeTypeDef for u64 {
    open spec fn type_def() -> Seq<u8> {
        seq![TypeTag::U64.byte()]
    }

    fn encode_type_def(buf: &mut Vec<u8>) {
        push_tag(buf, TypeTag::U64);
    }
}

impl BinaryEncode for u64 {
    open spec fn wire_of(m: u64) -> Wire {
        Wire::of_u64(m)
    }

    fn encode(self, encoder: &mut EncodedData) {
        encoder.push_u64(self);
    }
}

impl BinaryDecode for u64 {
    open spec fn parse(w: Wire) -> Parsed<u64> {
        if w.u32s.len() >= 2 { Ok((u64_of_words(w.u32s[0], w.u32s[1]), w.after_words(2))) } else { Err(DecodeErrorKind::U32BufferEmpty) }
    }

    fn decode(decoder: &mut DecodedData) -> (r: Result<u64, DecodeError>) {
        decoder.take_u64()
    }
}

impl WireCodec for u64 {
    open spec fn encodable(m: u64) -> bool {
        true
    }

    proof fn lemma_roundtrip(m: u64, rest: Wire) {
        lemma_u64_words_roundtrip(m);
        let w = Self::wire_of(m).append(rest);
        assert(w.after_words(2) =~= rest);
    }
}

impl WireValue for u128 {
    type Model = u128;

    open spec fn model(&self) -> u128 {
        *self
    }
}

impl EncodeTypeDef for u128 {
    open spec fn type_def() -> Seq<u8> {
        seq![TypeTag::U128.byte()]
    }

    fn encode_type_def(buf: &mut Vec<u8>) {
        push_tag(buf, TypeTag::U128);
    }
}

impl BinaryEncode for u128 {
    open spec fn wire_of(m: u128) -> Wire {
        Wire::of_u128(m)
    }

    fn encode(self, encoder: &mut EncodedData) {
        encoder.push_u128(self);
    }
}

impl BinaryDecode for u128 {
    open spec fn parse(w: Wire) -> Parsed<u128> {
        if w.u32s.len() >= 4 { Ok((u128_of_words(w.u32s), w.after_words(4))) } else { Err(DecodeErrorKind::U32BufferEmpty) }
    }

    fn decode(decoder: &mut DecodedData) -> (r: Result<u128, DecodeError>) {
        decoder.take_u128()
    }
}

impl WireCodec for u128 {
    open spec fn encodable(m: u128) -> bool {
        true
    }

    proof fn lemma_roundtrip(m: u128, rest: Wire) {
        lemma_u128_words_roundtrip(m); assert(Self::wire_of(m).append(rest).u32s.subrange(0, 4) =~= crate::ipc::u128_words(m));
        let w = Self::wire_of(m).append(rest);
        assert(w.after_words(4) =~= rest);
    }
}

impl WireValue for i8 {
    type Model = i8;

    open spec fn model(&self) -> i8 {
        *self
    }
}

impl EncodeTypeDef for i8 {
    open spec fn type_def() -> Seq<u8> {
        seq![TypeTag::I8.byte()]
    }

    fn encode_type_def(buf: &mut Vec<u8>) {
        push_tag(buf, TypeTag::I8);
    }
}

impl BinaryEncode for i8 {
    open spec fn wire_of(m: i8) -> Wire {
        Wire::of_u8(m as u8)
    }

    fn encode(self, encoder: &mut EncodedData) {
        encoder.push_u8(self as u8);
    }
}

impl BinaryDecode for i8 {
    open spec fn parse(w: Wire) -> Parsed<i8> {
        if w.u8s.len() > 0 { Ok((w.u8s[0] as i8, w.after_u8())) } else { Err(DecodeErrorKind::U8BufferEmpty) }
    }

    fn decode(decoder: &mut DecodedData) -> (r: Result<i8, DecodeError>) {
        match decoder.take_u8() { Ok(b) => Ok(b as i8), Err(e) => Err(e) }
    }
}

impl WireCodec for i8 {
    open spec fn encodable(m: i8) -> bool {
        true
    }

    proof fn lemma_roundtrip(m: i8, rest: Wire) {
        assert((m as u8) as i8 == m) by (bit_vector);
        let w = Self::wire_of(m).append(rest);
        assert(w.after_u8() =~= rest);
    }
}

impl WireValue for i16 {
    type Model = i16;

    open spec fn model(&self) -> i16 {
        *self
    }
}

impl EncodeTypeDef for i16 {
    open spec fn type_def() -> Seq<u8> {
        seq![TypeTag::I16.byte()]
    }

    fn encode_type_def(buf: &mut Vec<u8>) {
        push_tag(buf, TypeTag::I16);
    }
}

impl BinaryEncode for i16 {
    open spec fn wire_of(m: i16) -> Wire {
        Wire::of_u16(m as u16)
    }

    fn encode(self, encoder: &mut EncodedData) {
        encoder.push_u16(self as u16);
    }
}

impl BinaryDecode for i16 {
    open spec fn parse(w: Wire) -> Parsed<i16> {
        if w.u16s.len() > 0 { Ok((w.u16s[0] as i16, w.after_u16())) } else { Err(DecodeErrorKind::U16BufferEmpty) }
    }

    fn decode(decoder: &mut DecodedData) -> (r: Result<i16, DecodeError>) {
        match decoder.take_u16() { Ok(b) => Ok(b as i16), Err(e) => Err(e) }
    }
}

impl WireCodec for i16 {
    open spec fn encodable(m: i16) -> bool {
        true
    }

    proof fn lemma_roundtrip(m: i16, rest: Wire) {
        assert((m as u16) as i16 == m) by (bit_vector);
        let w = Self::wire_of(m).append(rest);
        assert(w.after_u16() =~= rest);
    }
}

impl WireValue for i32 {
    type Model = i32;

    open spec fn model(&self) -> i32 {
        *self
    }
}

impl EncodeTypeDef for i32 {
    open spec fn type_def() -> Seq<u8> {
        seq![TypeTag::I32.byte()]
    }

    fn encode_type_def(buf: &mut Vec<u8>) {
        push_tag(buf, TypeTag::I32);
    }
}

impl BinaryEncode for i32 {
    open spec fn wire_of(m: i32) -> Wire {
        Wire::of_u32(m as u32)
    }

    fn encode(self, encoder: &mut EncodedData) {
        encoder.push_u32(self as u32);
    }
}

impl BinaryDecode for i32 {
    open spec fn parse(w: Wire) -> Parsed<i32> {
        if w.u32s.len() > 0 { Ok((w.u32s[0] as i32, w.after_words(1))) } else { Err(DecodeErrorKind::U32BufferEmpty) }
    }

    fn decode(decoder: &mut DecodedData) -> (r: Result<i32, DecodeError>) {
        match decoder.take_u32() { Ok(b) => Ok(b as i32), Err(e) => Err(e) }
    }
}

impl WireCodec for i32 {
    open spec fn encodable(m: i32) -> bool {
        true
    }

    proof fn lemma_roundtrip(m: i32, rest: Wire) {
        assert((m as u32) as i32 == m) by (bit_vector);
        let w = Self::wire_of(m).append(rest);
        assert(w.after_words(1) =~= rest);
    }
}

impl WireValue for i64 {
    type Model = i64;

    open spec fn model(&self) -> i64 {
        *self
    }
}

impl EncodeTypeDef for i64 {
    open spec fn type_def() -> Seq<u8> {
        seq![TypeTag::I64.byte()]
    }

    fn encode_type_def(buf: &mut Vec<u8>) {
        push_tag(buf, TypeTag::I64);
    }
}

impl BinaryEncode for i64 {
    open spec fn wire_of(m: i64) -> Wire {
        Wire::of_u64(m as u64)
    }

    fn encode(self, encoder: &mut EncodedData) {
        encoder.push_u64(self as u64);
    }
}

impl BinaryDecode for i64 {
    open spec fn parse(w: Wire) -> Parsed<i64> {
        if w.u32s.len() >= 2 { Ok((u64_of_words(w.u32s[0], w.u32s[1]) as i64, w.after_words(2))) } else { Err(DecodeErrorKind::U32BufferEmpty) }
    }

    fn decode(decoder: &mut DecodedData) -> (r: Result<i64, DecodeError>) {
        match decoder.take_u64() { Ok(b) => Ok(b as i64), Err(e) => Err(e) }
    }
}

impl WireCodec for i64 {
    open spec fn encodable(m: i64) -> bool {
        true
    }

    proof fn lemma_roundtrip(m: i64, rest: Wire) {
        lemma_u64_words_roundtrip(m as u64); assert((m as u64) as i64 == m) by (bit_vector);
        let w = Self::wire_of(m).append(rest);
        assert(w.after_words(2) =~= rest);
    }
}

impl WireValue for i128 {
    type Model = i128;

    open spec fn model(&self) -> i128 {
        *self
    }
}

impl EncodeTypeDef for i128 {
    open spec fn type_def() -> Seq<u8> {
        seq![TypeTag::I128.byte()]
    }

    fn encode_type_def(buf: &mut Vec<u8>) {
        push_tag(buf, TypeTag::I128);
    }
}

impl BinaryEncode for i128 {
    open spec fn wire_of(m: i128) -> Wire {
        Wire::of_u128(m as u128)
    }

    fn encode(self, encoder: &mut EncodedData) {
        encoder.push_u128(self as u128);
    }
}

impl BinaryDecode for i128 {
    open spec fn parse(w: Wire) -> Parsed<i128> {
        if w.u32s.len() >= 4 { Ok((u128_of_words(w.u32s) as i128, w.after_words(4))) } else { Err(DecodeErrorKind::U32BufferEmpty) }
    }

    fn decode(decoder: &mut DecodedData) -> (r: Result<i128, DecodeError>) {
        match decoder.take_u128() { Ok(b) => Ok(b as i128), Err(e) => Err(e) }
    }
}

impl WireCodec for i128 {
    open spec fn encodable(m: i128) -> bool {
        true
    }

    proof fn lemma_roundtrip(m: i128, rest: Wire) {
        lemma_u128_words_roundtrip(m as u128); assert(Self::wire_of(m).append(rest).u32s.subrange(0, 4) =~= crate::ipc::u128_words(m as u128)); assert((m as u128) as i128 == m) by (bit_vector);
        let w = Self::wire_of(m).append(rest);
        assert(w.after_words(4) =~= rest);
    }
}

impl WireValue for usize {
    type Model = usize;

    open spec fn model(&self) -> usize {
        *self
    }
}

impl EncodeTypeDef for usize {
    open spec fn type_def() -> Seq<u8> {
        seq![TypeTag::Usize.byte()]
    }

    fn encode_type_def(buf: &mut Vec<u8>) {
        push_tag(buf, TypeTag::Usize);
    }
}

impl BinaryEncode for usize {
    open spec fn wire_of(m: usize) -> Wire {
        Wire::of_u64(m as u64)
    }

    fn encode(self, encoder: &mut EncodedData) {
        encoder.push_u64(self as u64);
    }
}

impl BinaryDecode for usize {
    open spec fn parse(w: Wire) -> Parsed<usize> {
        if w.u32s.len() >= 2 { Ok((u64_of_words(w.u32s[0], w.u32s[1]) as usize, w.after_words(2))) } else { Err(DecodeErrorKind::U32BufferEmpty) }
    }

    fn decode(decoder: &mut DecodedData) -> (r: Result<usize, DecodeError>) {
        match decoder.take_u64() { Ok(b) => Ok(b as usize), Err(e) => Err(e) }
    }
}

impl WireCodec for usize {
    open spec fn encodable(m: usize) -> bool {
        true
    }

    proof fn lemma_roundtrip(m: usize, rest: Wire) {
        lemma_u64_words_roundtrip(m as u64); assert((m as u64) as usize == m) by (bit_vector);
        let w = Self::wire_of(m).append(rest);
        assert(w.after_words(2) =~= rest);
    }
}

impl WireValue for isize {
    type Model = isize;

    open spec fn model(&self) -> isize {
        *self
    }
}

impl EncodeTypeDef for isize {
    open spec fn type_def() -> Seq<u8> {
        seq![TypeTag::Isize.byte()]
    }

    fn encode_type_def(buf: &mut Vec<u8>) {
        push_tag(buf, TypeTag::Isize);
    }
}

impl BinaryEncode for isize {
    open spec fn wire_of(m: isize) -> Wire {
        Wire::of_u64(m as u64)
    }

    fn encode(self, encoder: &mut EncodedData) {
        encoder.push_u64(self as u64);
    }
}

impl BinaryDecode for isize {
    open spec fn parse(w: Wire) -> Parsed<isize> {
        if w.u32s.len() >= 2 { Ok((u64_of_words(w.u32s[0], w.u32s[1]) as isize, w.after_words(2))) } else { Err(DecodeErrorKind::U32BufferEmpty) }
    }

    fn decode(decoder: &mut DecodedData) -> (r: Result<isize, DecodeError>) {
        match decoder.take_u64() { Ok(b) => Ok(b as isize), Err(e) => Err(e) }
    }
}

impl WireCodec for isize {
    open spec fn encodable(m: isize) -> bool {
        true
    }

    proof fn lemma_roundtrip(m: isize, rest: Wire) {
        lemma_u64_words_roundtrip(m as u64); assert((m as u64) as isize == m) by (bit_vector);
        let w = Self::wire_of(m).append(rest);
        assert(w.after_words(2) =~= rest);
    }
}

impl WireValue for bool {
    type Model = bool;

    open spec fn model(&self) -> bool {
        *self
    }
}

impl EncodeTypeDef for bool {
    open spec fn type_def() -> Seq<u8> {
        seq![TypeTag::Bool.byte()]
    }

    fn encode_type_def(buf: &mut Vec<u8>) {
        push_tag(buf, TypeTag::Bool);
    }
}

impl BinaryEncode for bool {
    open spec fn wire_of(m: bool) -> Wire {
        Wire::of_u8(if m { 1u8 } else { 0u8 })
    }

    fn encode(self, encoder: &mut EncodedData) {
        encoder.push_u8(if self { 1 } else { 0 });
    }
}

impl BinaryDecode for bool {
    open spec fn parse(w: Wire) -> Parsed<bool> {
        if w.u8s.len() > 0 { Ok((w.u8s[0] != 0, w.after_u8())) } else { Err(DecodeErrorKind::U8BufferEmpty) }
    }

    fn decode(decoder: &mut DecodedData) -> (r: Result<bool, DecodeError>) {
        match decoder.take_u8() { Ok(b) => Ok(b != 0), Err(e) => Err(e) }
    }
}

impl WireCodec for bool {
    open spec fn encodable(m: bool) -> bool {
        true
    }

    proof fn lemma_roundtrip(m: bool, rest: Wire) {
        
        let w = Self::wire_of(m).append(rest);
        assert(w.after_u8() =~= rest);
    }
}

impl WireValue for char {
    type Model = char;

    open spec fn model(&self) -> char {
        *self
    }
}

impl EncodeTypeDef for char {
    open spec fn type_def() -> Seq<u8> {
        seq![TypeTag::U32.byte()]
    }

    fn encode_type_def(buf: &mut Vec<u8>) {
        push_tag(buf, TypeTag::U32);
    }
}

impl BinaryEncode for char {
    open spec fn wire_of(m: char) -> Wire {
        Wire::of_u32(m as u32)
    }

    fn encode(self, encoder: &mut EncodedData) {
        encoder.push_u32(self as u32);
    }
}

impl BinaryDecode for char {
    open spec fn parse(w: Wire) -> Parsed<char> {
        if w.u32s.len() == 0 { Err(DecodeErrorKind::U32BufferEmpty) } else if vstd::utf8::is_scalar(w.u32s[0]) { Ok((w.u32s[0] as char, w.after_words(1))) } else { Err(DecodeErrorKind::Custom) }
    }

    fn decode(decoder: &mut DecodedData) -> (r: Result<char, DecodeError>) {
        match decoder.take_u32() {
            Ok(v) => match char_from_u32(v) {
                Some(c) => {
                    proof { vstd::utf8::char_u32_cast(c, v); }
                    Ok(c)
                },
                None => Err(DecodeError::Custom(String::from_str("invalid char scalar value"))),
            },
            Err(e) => Err(e),
        }
    }
}

impl WireCodec for char {
    open spec fn encodable(m: char) -> bool {
        true
    }

    proof fn lemma_roundtrip(m: char, rest: Wire) {
        vstd::utf8::char_is_scalar(m);
        vstd::utf8::char_u32_cast(m, m as u32);
        
        let w = Self::wire_of(m).append(rest);
        assert(w.after_words(1) =~= rest);
    }
}

impl WireValue for () {
    type Model = ();

    open spec fn model(&self) -> () {
        ()
    }
}

impl EncodeTypeDef for () {
    open spec fn type_def() -> Seq<u8> {
        seq![TypeTag::Null.byte()]
    }

    fn encode_type_def(buf: &mut Vec<u8>) {
        push_tag(buf, TypeTag::Null);
    }
}

impl BinaryEncode for () {
    open spec fn wire_of(m: ()) -> Wire {
        Wire::empty()
    }

    fn encode(self, encoder: &mut EncodedData) {
        proof { crate::ipc::lemma_append_empty(encoder.wire()); }
    }
}

impl BinaryDecode for () {
    open spec fn parse(w: Wire) -> Parsed<()> {
        Ok(((), w))
    }

    fn decode(decoder: &mut DecodedData) -> (r: Result<(), DecodeError>) {
        Ok(())
    }
}

impl WireCodec for () {
    open spec fn encodable(m: ()) -> bool {
        true
    }

    proof fn lemma_roundtrip(m: (), rest: Wire) {
        crate::ipc::lemma_append_empty(rest);
    }
}

/// `char::from_u32`: the documentation promises the character with the
/// given code exactly when it is a Unicode scalar value.
#[verifier::external_body]
fn char_from_u32(v: u32) -> (r: Option<char>)
    ensures
        r is Some <==> vstd::utf8::is_scalar(v),
        r matches Some(c) ==> c as u32 == v,
{
    char::from_u32(v)
}

} // verus!

verus! {

impl WireValue for str {
    type Model = Seq<char>;

    open spec fn model(&self) -> Seq<char> {
        self@
    }
}

impl WireValue for String {
    type Model = Seq<char>;

    open spec fn model(&self) -> Seq<char> {
        self@
    }
}

impl<'a, T: WireValue + ?Sized> WireValue for &'a T {
    type Model = T::Model;

    open spec fn model(&self) -> T::Model {
        (**self).model()
    }
}

impl EncodeTypeDef for str {
    open spec fn type_def() -> Seq<u8> {
        seq![TypeTag::String.byte()]
    }

    fn encode_type_def(buf: &mut Vec<u8>) {
        push_tag(buf, TypeTag::String);
    }
}

impl EncodeTypeDef for String {
    open spec fn type_def() -> Seq<u8> {
        seq![TypeTag::String.byte()]
    }

    fn encode_type_def(buf: &mut Vec<u8>) {
        push_tag(buf, TypeTag::String);
    }
}

impl<'a, T: EncodeTypeDef + ?Sized> EncodeTypeDef for &'a T {
    open spec fn type_def() -> Seq<u8> {
        T::type_def()
    }

    fn encode_type_def(buf: &mut Vec<u8>) {
        T::encode_type_def(buf);
    }
}

/// The stream values of a string with characters `m`.
pub open spec fn str_wire(m: Seq<char>) -> Wire {
    Wire::of_str_bytes(vstd::utf8::encode_utf8(m))
}

/// Push a string: its UTF-8 byte length, then its bytes.
fn encode_str(value: &str, encoder: &mut EncodedData)
    ensures
        final(encoder).appended(old(encoder), str_wire(value@)),
{
    encoder.push_str(value);
}

impl<'a> BinaryEncode for &'a str {
    open spec fn wire_of(m: Seq<char>) -> Wire {
        str_wire(m)
    }

    fn encode(self, encoder: &mut EncodedData) {
        encode_str(self, encoder);
    }
}

impl BinaryEncode for String {
    open spec fn wire_of(m: Seq<char>) -> Wire {
        str_wire(m)
    }

    fn encode(self, encoder: &mut EncodedData) {
        encode_str(self.as_str(), encoder);
    }
}

impl BinaryDecode for String {
    open spec fn parse(w: Wire) -> Parsed<Seq<char>> {
        if w.u32s.len() == 0 {
            Err(DecodeErrorKind::U32BufferEmpty)
        } else if w.strs.len() < w.u32s[0] {
            Err(DecodeErrorKind::StringBufferTooShort)
        } else if !vstd::utf8::valid_utf8(w.strs.take(w.u32s[0] as int)) {
            Err(DecodeErrorKind::InvalidUtf8)
        } else {
            Ok((vstd::utf8::decode_utf8(w.strs.take(w.u32s[0] as int)), w.after_str(w.u32s[0] as int)))
        }
    }

    fn decode(decoder: &mut DecodedData) -> (r: Result<String, DecodeError>) {
        decoder.take_str()
    }
}

impl WireCodec for String {
    open spec fn encodable(m: Seq<char>) -> bool {
        vstd::utf8::encode_utf8(m).len() <= u32::MAX
    }

    proof fn lemma_roundtrip(m: Seq<char>, rest: Wire) {
        let bytes = vstd::utf8::encode_utf8(m);
        vstd::utf8::encode_utf8_valid_utf8(m);
        vstd::utf8::encode_utf8_decode_utf8(m);
        let w = Self::wire_of(m).append(rest);
        assert(w.u32s[0] == bytes.len());
        assert(w.strs.take(bytes.len() as int) =~= bytes);
        assert(w.after_str(bytes.len() as int) =~= rest);
    }
}

impl<'a, T: BinaryEncode + Copy> BinaryEncode for &'a T {
    open spec fn wire_of(m: T::Model) -> Wire {
        T::wire_of(m)
    }

    fn encode(self, encoder: &mut EncodedData) {
        (*self).encode(encoder);
    }
}

} // verus!
