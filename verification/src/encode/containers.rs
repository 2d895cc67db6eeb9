//! Option, Result, vector and slice binary protocol implementations.

use super::{push_tag, BinaryDecode, BinaryEncode, EncodeTypeDef, Parsed, TypeTag, WireCodec, WireValue};
use crate::ipc::{
    is_err_kind, lemma_after_u8_prefix, lemma_after_words_prefix, lemma_append_assoc, lemma_append_empty, DecodeError,
    DecodeErrorKind, DecodedData, EncodedData, Wire,
};
use std::vec::Vec;
use vstd::prelude::*;

verus! {

impl<T: WireValue> WireValue for Option<T> {
    type Model = Option<T::Model>;

    open spec fn model(&self) -> Option<T::Model> {
        match self {
            Some(x) => Some(x.model()),
            None => None,
        }
    }
}

impl<T: EncodeTypeDef> EncodeTypeDef for Option<T> {
    open spec fn type_def() -> Seq<u8> {
        seq![TypeTag::Option.byte()] + T::type_def()
    }

    fn encode_type_def(buf: &mut Vec<u8>) {
        push_tag(buf, TypeTag::Option);
        T::encode_type_def(buf);
        assert(buf@ =~= old(buf)@ + Self::type_def());
    }
}

impl<T: BinaryEncode> BinaryEncode for Option<T> {
    open spec fn wire_of(m: Option<T::Model>) -> Wire {
        match m {
            Some(x) => Wire::of_u8(1).append(T::wire_of(x)),
            None => Wire::of_u8(0),
        }
    }

    fn encode(self, encoder: &mut EncodedData) {
        match self {
            Some(val) => {
                encoder.push_u8(1);
                let ghost mid = encoder.wire();
                val.encode(encoder);
                proof { lemma_append_assoc(old(encoder).wire(), Wire::of_u8(1), T::wire_of(val.model())); }
            },
            None => {
                encoder.push_u8(0);
            },
        }
    }
}

impl<T: BinaryDecode> BinaryDecode for Option<T> {
    open spec fn parse(w: Wire) -> Parsed<Option<T::Model>> {
        if w.u8s.len() == 0 {
            Err(DecodeErrorKind::U8BufferEmpty)
        } else if w.u8s[0] != 0 {
            match T::parse(w.after_u8()) {
                Ok((x, rest)) => Ok((Some(x), rest)),
                Err(k) => Err(k),
            }
        } else {
            Ok((None, w.after_u8()))
        }
    }

    fn decode(decoder: &mut DecodedData) -> (r: Result<Option<T>, DecodeError>) {
        let has_value = match decoder.take_u8() {
            Ok(b) => b != 0,
            Err(e) => return Err(e),
        };
        if has_value {
            match T::decode(decoder) {
                Ok(v) => Ok(Some(v)),
                Err(e) => Err(e),
            }
        } else {
            Ok(None)
        }
    }
}

impl<T: WireCodec> WireCodec for Option<T> {
    open spec fn encodable(m: Option<T::Model>) -> bool {
        match m {
            Some(x) => T::encodable(x),
            None => true,
        }
    }

    proof fn lemma_roundtrip(m: Option<T::Model>, rest: Wire) {
        match m {
            Some(x) => {
                lemma_append_assoc(Wire::of_u8(1), T::wire_of(x), rest);
                lemma_after_u8_prefix(1, T::wire_of(x).append(rest));
                T::lemma_roundtrip(x, rest);
            },
            None => {
                lemma_after_u8_prefix(0, rest);
            },
        }
    }
}

/// Law: an `Option` travels as a presence flag in the byte stream, `1` for
/// `Some` followed by the value, `0` alone for `None`; the flag is all that
/// `None` writes, and the value's own streams follow the flag unchanged.
pub proof fn lemma_option_wire_flag<T: BinaryEncode>(x: T::Model)
    ensures
        <Option<T> as BinaryEncode>::wire_of(Some(x)).u8s == seq![1u8] + T::wire_of(x).u8s,
        <Option<T> as BinaryEncode>::wire_of(Some(x)).u16s == T::wire_of(x).u16s,
        <Option<T> as BinaryEncode>::wire_of(Some(x)).u32s == T::wire_of(x).u32s,
        <Option<T> as BinaryEncode>::wire_of(Some(x)).strs == T::wire_of(x).strs,
        <Option<T> as BinaryEncode>::wire_of(None).u8s == seq![0u8],
        <Option<T> as BinaryEncode>::wire_of(None).u16s.len() == 0,
        <Option<T> as BinaryEncode>::wire_of(None).u32s.len() == 0,
        <Option<T> as BinaryEncode>::wire_of(None).strs.len() == 0,
{
}

/// Law: decoding an `Option` reads one flag byte; any nonzero flag means a
/// value follows, which is then decoded (and its failure is the `Option`'s
/// failure), and a zero flag gives `None` with nothing more read. An empty
/// byte stream is an error.
pub proof fn lemma_option_decode_flag<T: BinaryDecode>(w: Wire)
    ensures
        w.u8s.len() == 0 ==> <Option<T> as BinaryDecode>::parse(w) == Err::<(Option<T::Model>, Wire), DecodeErrorKind>(
            DecodeErrorKind::U8BufferEmpty,
        ),
        w.u8s.len() > 0 && w.u8s[0] != 0u8 ==> (match T::parse(Wire { u8s: w.u8s.drop_first(), ..w }) {
            Ok((x, rest)) => <Option<T> as BinaryDecode>::parse(w) == Ok::<(Option<T::Model>, Wire), DecodeErrorKind>(
                (Some(x), rest),
            ),
            Err(k) => <Option<T> as BinaryDecode>::parse(w) == Err::<(Option<T::Model>, Wire), DecodeErrorKind>(k),
        }),
        w.u8s.len() > 0 && w.u8s[0] == 0u8 ==> <Option<T> as BinaryDecode>::parse(w) == Ok::<
            (Option<T::Model>, Wire),
            DecodeErrorKind,
        >((None, Wire { u8s: w.u8s.drop_first(), ..w })),
{
}

impl<T: WireValue, E: WireValue> WireValue for Result<T, E> {
    type Model = Result<T::Model, E::Model>;

    open spec fn model(&self) -> Result<T::Model, E::Model> {
        match self {
            Ok(x) => Ok(x.model()),
            Err(e) => Err(e.model()),
        }
    }
}

impl<T: EncodeTypeDef, E: EncodeTypeDef> EncodeTypeDef for Result<T, E> {
    open spec fn type_def() -> Seq<u8> {
        seq![TypeTag::Result.byte()] + T::type_def() + E::type_def()
    }

    fn encode_type_def(buf: &mut Vec<u8>) {
        push_tag(buf, TypeTag::Result);
        T::encode_type_def(buf);
        E::encode_type_def(buf);
        assert(buf@ =~= old(buf)@ + Self::type_def());
    }
}

impl<T: BinaryEncode, E: BinaryEncode> BinaryEncode for Result<T, E> {
    open spec fn wire_of(m: Result<T::Model, E::Model>) -> Wire {
        match m {
            Ok(x) => Wire::of_u8(1).append(T::wire_of(x)),
            Err(e) => Wire::of_u8(0).append(E::wire_of(e)),
        }
    }

    fn encode(self, encoder: &mut EncodedData) {
        match self {
            Ok(value) => {
                encoder.push_u8(1);
                value.encode(encoder);
                proof { lemma_append_assoc(old(encoder).wire(), Wire::of_u8(1), T::wire_of(value.model())); }
            },
            Err(error) => {
                encoder.push_u8(0);
                error.encode(encoder);
                proof { lemma_append_assoc(old(encoder).wire(), Wire::of_u8(0), E::wire_of(error.model())); }
            },
        }
    }
}

impl<T: BinaryDecode, E: BinaryDecode> BinaryDecode for Result<T, E> {
    open spec fn parse(w: Wire) -> Parsed<Result<T::Model, E::Model>> {
        if w.u8s.len() == 0 {
            Err(DecodeErrorKind::U8BufferEmpty)
        } else if w.u8s[0] != 0 {
            match T::parse(w.after_u8()) {
                Ok((x, rest)) => Ok((Ok(x), rest)),
                Err(k) => Err(k),
            }
        } else {
            match E::parse(w.after_u8()) {
                Ok((e, rest)) => Ok((Err(e), rest)),
                Err(k) => Err(k),
            }
        }
    }

    fn decode(decoder: &mut DecodedData) -> (r: Result<Result<T, E>, DecodeError>) {
        let is_ok = match decoder.take_u8() {
            Ok(b) => b != 0,
            Err(e) => return Err(e),
        };
        if is_ok {
            match T::decode(decoder) {
                Ok(v) => Ok(Ok(v)),
                Err(e) => Err(e),
            }
        } else {
            match E::decode(decoder) {
                Ok(v) => Ok(Err(v)),
                Err(e) => Err(e),
            }
        }
    }
}

impl<T: WireCodec, E: WireCodec> WireCodec for Result<T, E> {
    open spec fn encodable(m: Result<T::Model, E::Model>) -> bool {
        match m {
            Ok(x) => T::encodable(x),
            Err(e) => E::encodable(e),
        }
    }

    proof fn lemma_roundtrip(m: Result<T::Model, E::Model>, rest: Wire) {
        match m {
            Ok(x) => {
                lemma_append_assoc(Wire::of_u8(1), T::wire_of(x), rest);
                lemma_after_u8_prefix(1, T::wire_of(x).append(rest));
                T::lemma_roundtrip(x, rest);
            },
            Err(e) => {
                lemma_append_assoc(Wire::of_u8(0), E::wire_of(e), rest);
                lemma_after_u8_prefix(0, E::wire_of(e).append(rest));
                E::lemma_roundtrip(e, rest);
            },
        }
    }
}

/// Law: a `Result` travels as a flag byte, `1` for `Ok` and `0` for `Err`,
/// followed by the value's or the error's own streams.
pub proof fn lemma_result_wire_flag<T: BinaryEncode, E: BinaryEncode>(x: T::Model, e: E::Model)
    ensures
        <Result<T, E> as BinaryEncode>::wire_of(Ok(x)).u8s == seq![1u8] + T::wire_of(x).u8s,
        <Result<T, E> as BinaryEncode>::wire_of(Ok(x)).u16s == T::wire_of(x).u16s,
        <Result<T, E> as BinaryEncode>::wire_of(Ok(x)).u32s == T::wire_of(x).u32s,
        <Result<T, E> as BinaryEncode>::wire_of(Ok(x)).strs == T::wire_of(x).strs,
        <Result<T, E> as BinaryEncode>::wire_of(Err(e)).u8s == seq![0u8] + E::wire_of(e).u8s,
        <Result<T, E> as BinaryEncode>::wire_of(Err(e)).u16s == E::wire_of(e).u16s,
        <Result<T, E> as BinaryEncode>::wire_of(Err(e)).u32s == E::wire_of(e).u32s,
        <Result<T, E> as BinaryEncode>::wire_of(Err(e)).strs == E::wire_of(e).strs,
{
}

/// Law: decoding a `Result` reads one flag byte; a nonzero flag decodes an
/// `Ok` value and a zero flag an `Err` value from the streams that follow,
/// and a failure of that decoding is the `Result`'s failure.
pub proof fn lemma_result_decode_flag<T: BinaryDecode, E: BinaryDecode>(w: Wire)
    ensures
        w.u8s.len() == 0 ==> <Result<T, E> as BinaryDecode>::parse(w) == Err::<
            (Result<T::Model, E::Model>, Wire),
            DecodeErrorKind,
        >(DecodeErrorKind::U8BufferEmpty),
        w.u8s.len() > 0 && w.u8s[0] != 0u8 ==> (match T::parse(Wire { u8s: w.u8s.drop_first(), ..w }) {
            Ok((x, rest)) => <Result<T, E> as BinaryDecode>::parse(w) == Ok::<
                (Result<T::Model, E::Model>, Wire),
                DecodeErrorKind,
            >((Ok(x), rest)),
            Err(k) => <Result<T, E> as BinaryDecode>::parse(w) == Err::<(Result<T::Model, E::Model>, Wire), DecodeErrorKind>(k),
        }),
        w.u8s.len() > 0 && w.u8s[0] == 0u8 ==> (match E::parse(Wire { u8s: w.u8s.drop_first(), ..w }) {
            Ok((e, rest)) => <Result<T, E> as BinaryDecode>::parse(w) == Ok::<
                (Result<T::Model, E::Model>, Wire),
                DecodeErrorKind,
            >((Err(e), rest)),
            Err(k) => <Result<T, E> as BinaryDecode>::parse(w) == Err::<(Result<T::Model, E::Model>, Wire), DecodeErrorKind>(k),
        }),
{
}

/// The stream values of the elements `ms`, one after the other.
pub open spec fn wires_of<T: BinaryEncode>(ms: Seq<T::Model>) -> Wire
    decreases ms.len(),
{
    if ms.len() == 0 {
        Wire::empty()
    } else {
        wires_of::<T>(ms.drop_last()).append(T::wire_of(ms.last()))
    }
}

/// The stream values of a sequence: its length as a word, then its elements.
pub open spec fn seq_wire<T: BinaryEncode>(ms: Seq<T::Model>) -> Wire {
    Wire::of_u32(ms.len() as u32).append(wires_of::<T>(ms))
}

/// Decode `n` values of `T`, one after the other.
pub open spec fn parse_seq<T: BinaryDecode>(w: Wire, n: nat) -> Parsed<Seq<T::Model>>
    decreases n,
{
    if n == 0 {
        Ok((Seq::empty(), w))
    } else {
        match parse_seq::<T>(w, (n - 1) as nat) {
            Ok((ms, rest)) => match T::parse(rest) {
                Ok((m, rest2)) => Ok((ms.push(m), rest2)),
                Err(k) => Err(k),
            },
            Err(k) => Err(k),
        }
    }
}

/// Decoding a length word and `n` values.
pub open spec fn parse_counted<T: BinaryDecode>(w: Wire) -> Parsed<Seq<T::Model>> {
    if w.u32s.len() == 0 {
        Err(DecodeErrorKind::U32BufferEmpty)
    } else {
        parse_seq::<T>(w.after_words(1), w.u32s[0] as nat)
    }
}

/// Law: the elements written in front of `rest` decode back, leaving `rest`.
pub proof fn lemma_parse_seq_roundtrip<T: WireCodec>(ms: Seq<T::Model>, rest: Wire)
    requires
        forall|i: int| 0 <= i < ms.len() ==> T::encodable(#[trigger] ms[i]),
    ensures
        parse_seq::<T>(wires_of::<T>(ms).append(rest), ms.len()) == Ok::<(Seq<T::Model>, Wire), DecodeErrorKind>((ms, rest)),
    decreases ms.len(),
{
    if ms.len() == 0 {
        lemma_append_empty(rest);
        assert(ms =~= Seq::<T::Model>::empty());
    } else {
        let init = ms.drop_last();
        let last = ms.last();
        let tail = T::wire_of(last).append(rest);
        lemma_append_assoc(wires_of::<T>(init), T::wire_of(last), rest);
        assert forall|i: int| 0 <= i < init.len() implies T::encodable(#[trigger] init[i]) by {
            assert(init[i] == ms[i]);
        }
        lemma_parse_seq_roundtrip::<T>(init, tail);
        assert(T::encodable(ms[ms.len() - 1]));
        T::lemma_roundtrip(last, rest);
        assert(init.push(last) =~= ms);
        assert(wires_of::<T>(ms) == wires_of::<T>(init).append(T::wire_of(last)));
        assert(wires_of::<T>(ms).append(rest) == wires_of::<T>(init).append(tail));
        assert(parse_seq::<T>(wires_of::<T>(init).append(tail), init.len()) == Ok::<(Seq<T::Model>, Wire), DecodeErrorKind>((init, tail)));
        assert(T::parse(tail) == Ok::<(T::Model, Wire), DecodeErrorKind>((last, rest)));
        let n = ms.len();
        assert((n - 1) as nat == init.len());
        assert(parse_seq::<T>(wires_of::<T>(ms).append(rest), n) == Ok::<(Seq<T::Model>, Wire), DecodeErrorKind>((init.push(last), rest)));
    }
}

/// Law: a counted sequence decodes back to its elements, leaving `rest`.
pub proof fn lemma_counted_roundtrip<T: WireCodec>(ms: Seq<T::Model>, rest: Wire)
    requires
        ms.len() <= u32::MAX,
        forall|i: int| 0 <= i < ms.len() ==> T::encodable(#[trigger] ms[i]),
    ensures
        parse_counted::<T>(seq_wire::<T>(ms).append(rest)) == Ok::<(Seq<T::Model>, Wire), DecodeErrorKind>((ms, rest)),
{
    let body = wires_of::<T>(ms).append(rest);
    lemma_append_assoc(Wire::of_u32(ms.len() as u32), wires_of::<T>(ms), rest);
    lemma_after_words_prefix(seq![ms.len() as u32], body);
    assert(seq_wire::<T>(ms).append(rest).u32s[0] == Wire::of_words(seq![ms.len() as u32]).append(body).u32s.subrange(0, 1)[0]);
    lemma_parse_seq_roundtrip::<T>(ms, rest);
}

impl<T: WireValue> WireValue for Vec<T> {
    type Model = Seq<T::Model>;

    open spec fn model(&self) -> Seq<T::Model> {
        Seq::new(self@.len(), |i: int| self@[i].model())
    }
}

impl<T: EncodeTypeDef> EncodeTypeDef for Vec<T> {
    open spec fn type_def() -> Seq<u8> {
        seq![TypeTag::Array.byte()] + T::type_def()
    }

    fn encode_type_def(buf: &mut Vec<u8>) {
        push_tag(buf, TypeTag::Array);
        T::encode_type_def(buf);
        assert(buf@ =~= old(buf)@ + Self::type_def());
    }
}

impl<T: BinaryEncode> BinaryEncode for Vec<T> {
    open spec fn wire_of(m: Seq<T::Model>) -> Wire {
        seq_wire::<T>(m)
    }

    fn encode(self, encoder: &mut EncodedData) {
        let ghost ms = self.model();
        let n = self.len();
        assert(ms.len() == n);
        let len = #[verifier::truncate] (self.len() as u32);
        encoder.push_u32(len);
        let ghost start = encoder.wire();
        proof { lemma_append_empty(start); }
        let mut remaining = self;
        let mut reversed: Vec<T> = Vec::new();
        while remaining.len() > 0
            invariant
                reversed@.len() + remaining@.len() == ms.len(),
                forall|i: int| 0 <= i < remaining@.len() ==> #[trigger] remaining@[i].model() == ms[i],
                forall|i: int| 0 <= i < reversed@.len() ==> #[trigger] reversed@[i].model() == ms[ms.len() - 1 - i],
            decreases remaining@.len(),
        {
            let x = remaining.pop().unwrap();
            reversed.push(x);
        }
        let mut done: usize = 0;
        while reversed.len() > 0
            invariant
                ms.len() <= usize::MAX,
                done + reversed@.len() == ms.len(),
                forall|i: int| 0 <= i < reversed@.len() ==> #[trigger] reversed@[i].model() == ms[ms.len() - 1 - i],
                encoder.appended(old(encoder), Wire::of_u32(len).append(wires_of::<T>(ms.take(done as int)))),
            decreases reversed@.len(),
        {
            let x = reversed.pop().unwrap();
            let ghost before = encoder.wire();
            x.encode(encoder);
            proof {
                assert(x.model() == ms[done as int]);
                assert(ms.take(done + 1).drop_last() =~= ms.take(done as int));
                lemma_append_assoc(old(encoder).wire(), Wire::of_u32(len), wires_of::<T>(ms.take(done as int)));
                lemma_append_assoc(old(encoder).wire(), Wire::of_u32(len).append(wires_of::<T>(ms.take(done as int))), T::wire_of(x.model()));
                lemma_append_assoc(Wire::of_u32(len), wires_of::<T>(ms.take(done as int)), T::wire_of(x.model()));
            }
            done = done + 1;
        }
        assert(ms.take(done as int) =~= ms);
    }
}

impl<T: BinaryDecode> BinaryDecode for Vec<T> {
    open spec fn parse(w: Wire) -> Parsed<Seq<T::Model>> {
        parse_counted::<T>(w)
    }

    fn decode(decoder: &mut DecodedData) -> (r: Result<Vec<T>, DecodeError>) {
        let ghost w0 = decoder.remaining();
        let len = match decoder.take_u32() {
            Ok(n) => n,
            Err(e) => return Err(e),
        };
        let ghost w1 = decoder.remaining();
        let mut out: Vec<T> = Vec::new();
        assert(out.model() =~= Seq::<T::Model>::empty());
        let mut i: u32 = 0;
        while i < len
            invariant
                i <= len,
                w0 == old(decoder).remaining(),
                w1 == w0.after_words(1),
                w0.u32s.len() > 0,
                len == w0.u32s[0],
                parse_seq::<T>(w1, i as nat) == Ok::<(Seq<T::Model>, Wire), DecodeErrorKind>((out.model(), decoder.remaining())),
            decreases len - i,
        {
            let ghost before = decoder.remaining();
            let ghost prev = out.model();
            match T::decode(decoder) {
                Ok(v) => {
                    out.push(v);
                    assert(out.model() =~= prev.push(v.model()));
                },
                Err(e) => {
                    proof {
                        match T::parse(before) {
                            Err(k) => {
                                assert(parse_seq::<T>(w1, (i + 1) as nat) == Err::<(Seq<T::Model>, Wire), DecodeErrorKind>(k));
                                lemma_parse_seq_err_persists::<T>(w1, (i + 1) as nat, len as nat);
                                assert(parse_seq::<T>(w1, len as nat) == Err::<(Seq<T::Model>, Wire), DecodeErrorKind>(k));
                                assert(Self::parse(w0) == Err::<(Seq<T::Model>, Wire), DecodeErrorKind>(k));
                                assert(is_err_kind(Err::<T, DecodeError>(e), k));
                            },
                            Ok(_) => {
                                assert(false);
                            },
                        }
                    }
                    return Err(e);
                },
            }
            i = i + 1;
        }
        Ok(out)
    }
}

proof fn lemma_parse_seq_err_persists<T: BinaryDecode>(w: Wire, n: nat, m: nat)
    requires
        n <= m,
        parse_seq::<T>(w, n) is Err,
    ensures
        parse_seq::<T>(w, m) == parse_seq::<T>(w, n),
    decreases m - n,
{
    if n < m {
        lemma_parse_seq_err_persists::<T>(w, n, (m - 1) as nat);
    }
}

impl<T: WireCodec> WireCodec for Vec<T> {
    open spec fn encodable(m: Seq<T::Model>) -> bool {
        m.len() <= u32::MAX && forall|i: int| 0 <= i < m.len() ==> T::encodable(#[trigger] m[i])
    }

    proof fn lemma_roundtrip(m: Seq<T::Model>, rest: Wire) {
        lemma_counted_roundtrip::<T>(m, rest);
    }
}

impl<T: WireValue> WireValue for [T] {
    type Model = Seq<T::Model>;

    open spec fn model(&self) -> Seq<T::Model> {
        Seq::new(self@.len(), |i: int| self@[i].model())
    }
}

impl<T: EncodeTypeDef> EncodeTypeDef for [T] {
    open spec fn type_def() -> Seq<u8> {
        seq![TypeTag::Array.byte()] + T::type_def()
    }

    fn encode_type_def(buf: &mut Vec<u8>) {
        push_tag(buf, TypeTag::Array);
        T::encode_type_def(buf);
        assert(buf@ =~= old(buf)@ + Self::type_def());
    }
}

impl<'a, T: BinaryEncode + Copy> BinaryEncode for &'a [T] {
    open spec fn wire_of(m: Seq<T::Model>) -> Wire {
        seq_wire::<T>(m)
    }

    fn encode(self, encoder: &mut EncodedData) {
        let ghost ms = self.model();
        let len = #[verifier::truncate] (self.len() as u32);
        encoder.push_u32(len);
        proof { lemma_append_empty(encoder.wire()); }
        let mut i: usize = 0;
        while i < self.len()
            invariant
                i <= self@.len(),
                ms == (*self).model(),
                encoder.appended(old(encoder), Wire::of_u32(len).append(wires_of::<T>(ms.take(i as int)))),
            decreases self@.len() - i,
        {
            let x = self[i];
            x.encode(encoder);
            proof {
                assert(ms.take(i + 1).drop_last() =~= ms.take(i as int));
                lemma_append_assoc(old(encoder).wire(), Wire::of_u32(len), wires_of::<T>(ms.take(i as int)));
                lemma_append_assoc(old(encoder).wire(), Wire::of_u32(len).append(wires_of::<T>(ms.take(i as int))), T::wire_of(x.model()));
                lemma_append_assoc(Wire::of_u32(len), wires_of::<T>(ms.take(i as int)), T::wire_of(x.model()));
            }
            i = i + 1;
        }
        assert(ms.take(i as int) =~= ms);
    }
}

} // verus!
