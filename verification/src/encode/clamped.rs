//! `Clamped` byte-array binary protocol implementations.

use super::{push_tag, BinaryDecode, BinaryEncode, EncodeTypeDef, Parsed, TypeTag, WireCodec, WireValue};
use crate::clamped::Clamped;
use crate::ipc::{
    is_err_kind, lemma_after_words_prefix, lemma_append_assoc, lemma_append_empty, DecodeError, DecodeErrorKind,
    DecodedData, EncodedData, Wire,
};
use std::vec::Vec;
use vstd::prelude::*;

verus! {

/// The stream values of a clamped byte array: its length as a word, then its bytes.
pub open spec fn clamped_wire(bytes: Seq<u8>) -> Wire {
    Wire::of_u32(bytes.len() as u32).append(Wire { u8s: bytes, ..Wire::empty() })
}

impl WireValue for Clamped<Vec<u8>> {
    type Model = Seq<u8>;

    open spec fn model(&self) -> Seq<u8> {
        self.0@
    }
}

impl<'a> WireValue for Clamped<&'a [u8]> {
    type Model = Seq<u8>;

    open spec fn model(&self) -> Seq<u8> {
        self.0@
    }
}

impl EncodeTypeDef for Clamped<Vec<u8>> {
    open spec fn type_def() -> Seq<u8> {
        seq![TypeTag::U8Clamped.byte()]
    }

    fn encode_type_def(buf: &mut Vec<u8>) {
        push_tag(buf, TypeTag::U8Clamped);
    }
}

impl<'a> EncodeTypeDef for Clamped<&'a [u8]> {
    open spec fn type_def() -> Seq<u8> {
        seq![TypeTag::U8Clamped.byte()]
    }

    fn encode_type_def(buf: &mut Vec<u8>) {
        push_tag(buf, TypeTag::U8Clamped);
    }
}

fn encode_clamped_bytes(bytes: &[u8], encoder: &mut EncodedData)
    ensures
        final(encoder).appended(old(encoder), clamped_wire(bytes@)),
{
    let len = #[verifier::truncate] (bytes.len() as u32);
    encoder.push_u32(len);
    let ghost mid = encoder.wire();
    let mut i: usize = 0;
    while i < bytes.len()
        invariant
            i <= bytes@.len(),
            encoder.appended(old(encoder), Wire::of_u32(len).append(Wire { u8s: bytes@.take(i as int), ..Wire::empty() })),
        decreases bytes@.len() - i,
    {
        encoder.push_u8(bytes[i]);
        proof {
            assert(bytes@.take(i + 1) =~= bytes@.take(i as int).push(bytes@[i as int]));
            assert(encoder.wire() =~= old(encoder).wire().append(
                Wire::of_u32(len).append(Wire { u8s: bytes@.take(i + 1), ..Wire::empty() }),
            ));
        }
        i = i + 1;
    }
    assert(bytes@.take(i as int) =~= bytes@);
}

impl BinaryEncode for Clamped<Vec<u8>> {
    open spec fn wire_of(m: Seq<u8>) -> Wire {
        clamped_wire(m)
    }

    fn encode(self, encoder: &mut EncodedData) {
        encode_clamped_bytes(self.0.as_slice(), encoder);
    }
}

impl<'a> BinaryEncode for Clamped<&'a [u8]> {
    open spec fn wire_of(m: Seq<u8>) -> Wire {
        clamped_wire(m)
    }

    fn encode(self, encoder: &mut EncodedData) {
        encode_clamped_bytes(self.0, encoder);
    }
}

impl BinaryDecode for Clamped<Vec<u8>> {
    open spec fn parse(w: Wire) -> Parsed<Seq<u8>> {
        if w.u32s.len() == 0 {
            Err(DecodeErrorKind::U32BufferEmpty)
        } else if w.u8s.len() < w.u32s[0] {
            Err(DecodeErrorKind::U8BufferEmpty)
        } else {
            Ok((w.u8s.take(w.u32s[0] as int), Wire { u8s: w.u8s.skip(w.u32s[0] as int), ..w.after_words(1) }))
        }
    }

    fn decode(decoder: &mut DecodedData) -> (r: Result<Clamped<Vec<u8>>, DecodeError>) {
        let ghost w0 = decoder.remaining();
        let len = match decoder.take_u32() {
            Ok(n) => n,
            Err(e) => return Err(e),
        };
        let ghost w1 = decoder.remaining();
        let mut bytes: Vec<u8> = Vec::new();
        let mut i: u32 = 0;
        while i < len
            invariant
                w0 == old(decoder).remaining(),
                w0.u32s.len() > 0,
                len == w0.u32s[0],
                w1 == w0.after_words(1),
                i <= len,
                i <= w1.u8s.len(),
                bytes@ == w1.u8s.take(i as int),
                decoder.remaining() == (Wire { u8s: w1.u8s.skip(i as int), ..w1 }),
            decreases len - i,
        {
            match decoder.take_u8() {
                Ok(b) => {
                    bytes.push(b);
                    proof {
                        assert(bytes@ =~= w1.u8s.take(i + 1));
                        assert(decoder.remaining() =~= (Wire { u8s: w1.u8s.skip(i + 1), ..w1 }));
                    }
                },
                Err(e) => {
                    return Err(e);
                },
            }
            i = i + 1;
        }
        assert(decoder.remaining() =~= (Wire { u8s: w0.u8s.skip(len as int), ..w0.after_words(1) }));
        Ok(Clamped(bytes))
    }
}

impl WireCodec for Clamped<Vec<u8>> {
    open spec fn encodable(m: Seq<u8>) -> bool {
        m.len() <= u32::MAX
    }

    proof fn lemma_roundtrip(m: Seq<u8>, rest: Wire) {
        let w = Self::wire_of(m).append(rest);
        assert(w.u32s[0] == m.len());
        assert(w.u8s.take(m.len() as int) =~= m);
        assert((Wire { u8s: w.u8s.skip(m.len() as int), ..w.after_words(1) }) =~= rest);
    }
}

} // verus!
