//! The binary IPC message format shared with the JavaScript runtime.
//!
//! A message carries four independent value streams: 32-bit words, 16-bit
//! halves, single bytes and UTF-8 string bytes. Encoders append to the
//! streams and decoders consume them from the front. On the wire a message
//! is a 12-byte header of three little-endian offsets (where the 16-bit, the
//! byte and the string sections start) followed by the four sections.

use std::string::String;
use std::vec::Vec;
use vstd::prelude::*;
use vstd::string::StringSliceAdditionalSpecFns;

verus! {

/// The four value streams of a message.
#[verifier::ext_equal]
pub struct Wire {
    pub u8s: Seq<u8>,
    pub u16s: Seq<u16>,
    pub u32s: Seq<u32>,
    pub strs: Seq<u8>,
}

impl Wire {
    pub open spec fn empty() -> Wire {
        Wire { u8s: Seq::empty(), u16s: Seq::empty(), u32s: Seq::empty(), strs: Seq::empty() }
    }

    /// Stream-wise concatenation.
    pub open spec fn append(self, other: Wire) -> Wire {
        Wire {
            u8s: self.u8s + other.u8s,
            u16s: self.u16s + other.u16s,
            u32s: self.u32s + other.u32s,
            strs: self.strs + other.strs,
        }
    }

    pub open spec fn of_u8(v: u8) -> Wire {
        Wire { u8s: seq![v], ..Wire::empty() }
    }

    pub open spec fn of_u16(v: u16) -> Wire {
        Wire { u16s: seq![v], ..Wire::empty() }
    }

    pub open spec fn of_words(ws: Seq<u32>) -> Wire {
        Wire { u32s: ws, ..Wire::empty() }
    }

    pub open spec fn of_u32(v: u32) -> Wire {
        Wire::of_words(seq![v])
    }

    pub open spec fn of_u64(v: u64) -> Wire {
        Wire::of_words(u64_words(v))
    }

    pub open spec fn of_u128(v: u128) -> Wire {
        Wire::of_words(u128_words(v))
    }

    /// A string: its byte length as a word, its bytes in the string stream.
    pub open spec fn of_str_bytes(bytes: Seq<u8>) -> Wire {
        Wire { u32s: seq![bytes.len() as u32], strs: bytes, ..Wire::empty() }
    }

    /// Number of bytes the message takes on the wire.
    pub open spec fn byte_len(self) -> int {
        (12 + 4 * self.u32s.len() + 2 * self.u16s.len() + self.u8s.len() + self.strs.len()) as int
    }
}

pub proof fn lemma_append_empty(w: Wire)
    ensures
        w.append(Wire::empty()) == w,
        Wire::empty().append(w) == w,
{
    assert(w.append(Wire::empty()).u8s =~= w.u8s);
    assert(w.append(Wire::empty()).u16s =~= w.u16s);
    assert(w.append(Wire::empty()).u32s =~= w.u32s);
    assert(w.append(Wire::empty()).strs =~= w.strs);
    assert(Wire::empty().append(w).u8s =~= w.u8s);
    assert(Wire::empty().append(w).u16s =~= w.u16s);
    assert(Wire::empty().append(w).u32s =~= w.u32s);
    assert(Wire::empty().append(w).strs =~= w.strs);
}

pub proof fn lemma_append_assoc(a: Wire, b: Wire, c: Wire)
    ensures
        a.append(b).append(c) == a.append(b.append(c)),
{
    assert(a.append(b).append(c).u8s =~= a.append(b.append(c)).u8s);
    assert(a.append(b).append(c).u16s =~= a.append(b.append(c)).u16s);
    assert(a.append(b).append(c).u32s =~= a.append(b.append(c)).u32s);
    assert(a.append(b).append(c).strs =~= a.append(b.append(c)).strs);
}

/// The two words of a `u64`, low word first.
pub open spec fn u64_words(v: u64) -> Seq<u32> {
    seq![(v % 0x1_0000_0000) as u32, (v / 0x1_0000_0000) as u32]
}

/// The four words of a `u128`, lowest word first.
pub open spec fn u128_words(v: u128) -> Seq<u32> {
    seq![
        (v % 0x1_0000_0000) as u32,
        ((v / 0x1_0000_0000) % 0x1_0000_0000) as u32,
        ((v / 0x1_0000_0000_0000_0000) % 0x1_0000_0000) as u32,
        (v / 0x1_0000_0000_0000_0000_0000_0000) as u32
    ]
}

/// Kinds of decoding failure, as contracts name them.
pub enum DecodeErrorKind {
    U8BufferEmpty,
    U16BufferEmpty,
    U32BufferEmpty,
    StringBufferTooShort,
    InvalidUtf8,
    InvalidHeader,
    UnknownMessageType,
    Custom,
}

/// Errors produced while decoding a message.
#[derive(Debug)]
pub enum DecodeError {
    /// The byte stream ran out.
    U8BufferEmpty,
    /// The 16-bit stream ran out.
    U16BufferEmpty,
    /// The 32-bit stream ran out.
    U32BufferEmpty,
    /// A string header asked for more bytes than the string stream holds.
    StringBufferTooShort { needed: usize, available: usize },
    /// String bytes were not UTF-8.
    InvalidUtf8 { len: usize },
    /// The message header is malformed.
    InvalidHeader,
    /// The message-type byte is not one this runtime knows.
    UnknownMessageType(u8),
    /// A value-specific failure.
    Custom(String),
}

/// `r` failed with an error of kind `k`.
pub open spec fn is_err_kind<T>(r: Result<T, DecodeError>, k: DecodeErrorKind) -> bool {
    match r {
        Err(e) => e.kind() == k,
        Ok(_) => false,
    }
}

impl DecodeError {
    pub open spec fn kind(&self) -> DecodeErrorKind {
        match self {
            DecodeError::U8BufferEmpty => DecodeErrorKind::U8BufferEmpty,
            DecodeError::U16BufferEmpty => DecodeErrorKind::U16BufferEmpty,
            DecodeError::U32BufferEmpty => DecodeErrorKind::U32BufferEmpty,
            DecodeError::StringBufferTooShort { .. } => DecodeErrorKind::StringBufferTooShort,
            DecodeError::InvalidUtf8 { .. } => DecodeErrorKind::InvalidUtf8,
            DecodeError::InvalidHeader => DecodeErrorKind::InvalidHeader,
            DecodeError::UnknownMessageType(_) => DecodeErrorKind::UnknownMessageType,
            DecodeError::Custom(_) => DecodeErrorKind::Custom,
        }
    }
}

/// The two kinds of IPC message.
#[derive(Clone, Copy, Debug, PartialEq, Eq, Structural)]
pub enum MessageType {
    /// A call into the other side.
    Evaluate,
    /// The answer to the last Evaluate the other side sent.
    Respond,
}

impl MessageType {
    /// The byte that starts the byte stream of a message of this type.
    pub open spec fn byte(self) -> u8 {
        match self {
            MessageType::Evaluate => 0,
            MessageType::Respond => 1,
        }
    }

    pub fn to_u8(self) -> (b: u8)
        ensures
            b == self.byte(),
    {
        match self {
            MessageType::Evaluate => 0,
            MessageType::Respond => 1,
        }
    }

    pub fn from_u8(b: u8) -> (t: Option<MessageType>)
        ensures
            t matches Some(ty) ==> ty.byte() == b,
            t is None <==> b > 1,
    {
        if b == 0 {
            Some(MessageType::Evaluate)
        } else if b == 1 {
            Some(MessageType::Respond)
        } else {
            None
        }
    }
}

/// A message under construction.
pub struct EncodedData {
    pub u8_buf: Vec<u8>,
    pub u16_buf: Vec<u16>,
    pub u32_buf: Vec<u32>,
    pub str_buf: Vec<u8>,
    /// Heap IDs whose reuse must wait until this message has been flushed.
    pub heap_ids_to_recycle_after_flush: Vec<u64>,
    /// Type IDs whose full definitions this message introduces.
    pub pending_type_ids: Vec<u32>,
    /// Whether sending this message cannot be deferred by batching.
    pub needs_flush: bool,
}

impl EncodedData {
    /// The value streams written so far.
    pub open spec fn wire(&self) -> Wire {
        Wire { u8s: self.u8_buf@, u16s: self.u16_buf@, u32s: self.u32_buf@, strs: self.str_buf@ }
    }

    /// Everything but the value streams is the same in `self` and `other`.
    pub open spec fn same_meta(&self, other: &EncodedData) -> bool {
        &&& self.heap_ids_to_recycle_after_flush@ == other.heap_ids_to_recycle_after_flush@
        &&& self.pending_type_ids@ == other.pending_type_ids@
        &&& self.needs_flush == other.needs_flush
    }

    /// `self` is `old` with `w` appended to its streams.
    pub open spec fn appended(&self, old: &EncodedData, w: Wire) -> bool {
        self.wire() == old.wire().append(w) && self.same_meta(old)
    }

    pub fn new() -> (e: Self)
        ensures
            e.wire() == Wire::empty(),
            e.heap_ids_to_recycle_after_flush@ == Seq::<u64>::empty(),
            e.pending_type_ids@ == Seq::<u32>::empty(),
            !e.needs_flush,
    {
        EncodedData {
            u8_buf: Vec::new(),
            u16_buf: Vec::new(),
            u32_buf: Vec::new(),
            str_buf: Vec::new(),
            heap_ids_to_recycle_after_flush: Vec::new(),
            pending_type_ids: Vec::new(),
            needs_flush: false,
        }
    }

    pub fn push_u8(&mut self, v: u8)
        ensures
            final(self).appended(old(self), Wire::of_u8(v)),
    {
        self.u8_buf.push(v);
        proof { self.lemma_pushed(old(self), Wire::of_u8(v)); }
    }

    pub fn push_u16(&mut self, v: u16)
        ensures
            final(self).appended(old(self), Wire::of_u16(v)),
    {
        self.u16_buf.push(v);
        proof { self.lemma_pushed(old(self), Wire::of_u16(v)); }
    }

    pub fn push_u32(&mut self, v: u32)
        ensures
            final(self).appended(old(self), Wire::of_u32(v)),
    {
        self.u32_buf.push(v);
        proof { self.lemma_pushed(old(self), Wire::of_u32(v)); }
    }

    pub fn push_u64(&mut self, v: u64)
        ensures
            final(self).appended(old(self), Wire::of_u64(v)),
    {
        self.u32_buf.push((v % 0x1_0000_0000) as u32);
        self.u32_buf.push((v / 0x1_0000_0000) as u32);
        proof { self.lemma_pushed(old(self), Wire::of_u64(v)); }
    }

    pub fn push_u128(&mut self, v: u128)
        ensures
            final(self).appended(old(self), Wire::of_u128(v)),
    {
        self.u32_buf.push((v % 0x1_0000_0000) as u32);
        self.u32_buf.push(((v / 0x1_0000_0000) % 0x1_0000_0000) as u32);
        self.u32_buf.push(((v / 0x1_0000_0000_0000_0000) % 0x1_0000_0000) as u32);
        self.u32_buf.push((v / 0x1_0000_0000_0000_0000_0000_0000) as u32);
        proof { self.lemma_pushed(old(self), Wire::of_u128(v)); }
    }

    /// Push a string: its byte length as a word, then its bytes.
    pub fn push_str(&mut self, s: &str)
        ensures
            final(self).appended(old(self), Wire::of_str_bytes(s.spec_bytes())),
    {
        let bytes = s.as_bytes();
        self.u32_buf.push(#[verifier::truncate] (bytes.len() as u32));
        let mut i: usize = 0;
        while i < bytes.len()
            invariant
                i <= bytes.len(),
                bytes@ == s.spec_bytes(),
                self.u32_buf@ == old(self).u32_buf@.push(bytes.len() as u32),
                self.str_buf@ == old(self).str_buf@ + bytes@.subrange(0, i as int),
                self.u8_buf@ == old(self).u8_buf@,
                self.u16_buf@ == old(self).u16_buf@,
                self.same_meta(old(self)),
            decreases bytes.len() - i,
        {
            self.str_buf.push(bytes[i]);
            assert(bytes@.subrange(0, i + 1) =~= bytes@.subrange(0, i as int).push(bytes@[i as int]));
            i = i + 1;
        }
        assert(bytes@.subrange(0, i as int) =~= bytes@);
        proof { self.lemma_pushed(old(self), Wire::of_str_bytes(s.spec_bytes())); }
    }

    proof fn lemma_pushed(&self, old: &EncodedData, w: Wire)
        requires
            self.u8_buf@ =~= old.u8_buf@ + w.u8s,
            self.u16_buf@ =~= old.u16_buf@ + w.u16s,
            self.u32_buf@ =~= old.u32_buf@ + w.u32s,
            self.str_buf@ =~= old.str_buf@ + w.strs,
            self.same_meta(old),
        ensures
            self.appended(old, w),
    {
    }

    /// Insert `values` into the word stream before position `index`.
    pub fn insert_u32s(&mut self, index: usize, values: &[u32])
        requires
            index <= old(self).u32_buf@.len(),
        ensures
            final(self).u32_buf@ == old(self).u32_buf@.subrange(0, index as int) + values@
                + old(self).u32_buf@.subrange(index as int, old(self).u32_buf@.len() as int),
            final(self).u8_buf@ == old(self).u8_buf@,
            final(self).u16_buf@ == old(self).u16_buf@,
            final(self).str_buf@ == old(self).str_buf@,
            final(self).same_meta(old(self)),
    {
        let mut words: Vec<u32> = Vec::new();
        let mut i: usize = 0;
        while i < index
            invariant
                i <= index <= self.u32_buf@.len(),
                words@ == self.u32_buf@.subrange(0, i as int),
            decreases index - i,
        {
            words.push(self.u32_buf[i]);
            assert(self.u32_buf@.subrange(0, i + 1) =~= self.u32_buf@.subrange(0, i as int).push(self.u32_buf@[i as int]));
            i = i + 1;
        }
        let mut j: usize = 0;
        while j < values.len()
            invariant
                j <= values.len(),
                words@ == self.u32_buf@.subrange(0, index as int) + values@.subrange(0, j as int),
            decreases values.len() - j,
        {
            words.push(values[j]);
            assert(values@.subrange(0, j + 1) =~= values@.subrange(0, j as int).push(values@[j as int]));
            j = j + 1;
        }
        assert(values@.subrange(0, j as int) =~= values@);
        let mut k: usize = index;
        while k < self.u32_buf.len()
            invariant
                index <= k <= self.u32_buf@.len(),
                words@ == self.u32_buf@.subrange(0, index as int) + values@ + self.u32_buf@.subrange(index as int, k as int),
            decreases self.u32_buf.len() - k,
        {
            words.push(self.u32_buf[k]);
            assert(self.u32_buf@.subrange(index as int, k + 1) =~= self.u32_buf@.subrange(index as int, k as int).push(self.u32_buf@[k as int]));
            k = k + 1;
        }
        self.u32_buf = words;
    }

    /// Append all of `other`'s streams and bookkeeping to `self`.
    pub fn extend(&mut self, other: &EncodedData)
        ensures
            final(self).wire() == old(self).wire().append(other.wire()),
            final(self).heap_ids_to_recycle_after_flush@ == old(self).heap_ids_to_recycle_after_flush@ + other.heap_ids_to_recycle_after_flush@,
            final(self).pending_type_ids@ == old(self).pending_type_ids@ + other.pending_type_ids@,
            final(self).needs_flush == (old(self).needs_flush || other.needs_flush),
    {
        extend_vec(&mut self.u8_buf, &other.u8_buf);
        extend_vec(&mut self.u16_buf, &other.u16_buf);
        extend_vec(&mut self.u32_buf, &other.u32_buf);
        extend_vec(&mut self.str_buf, &other.str_buf);
        extend_vec(&mut self.heap_ids_to_recycle_after_flush, &other.heap_ids_to_recycle_after_flush);
        extend_vec(&mut self.pending_type_ids, &other.pending_type_ids);
        self.needs_flush = self.needs_flush || other.needs_flush;
    }

    /// Ask that the message be sent before the current operation returns.
    pub fn mark_needs_flush(&mut self)
        ensures
            final(self).wire() == old(self).wire(),
            final(self).heap_ids_to_recycle_after_flush@ == old(self).heap_ids_to_recycle_after_flush@,
            final(self).pending_type_ids@ == old(self).pending_type_ids@,
            final(self).needs_flush,
    {
        self.needs_flush = true;
    }

    /// Defer the reuse of a heap ID until this message has been flushed.
    pub fn defer_heap_id_recycle_until_flush(&mut self, id: u64)
        ensures
            final(self).wire() == old(self).wire(),
            final(self).heap_ids_to_recycle_after_flush@ == old(self).heap_ids_to_recycle_after_flush@.push(id),
            final(self).pending_type_ids@ == old(self).pending_type_ids@,
            final(self).needs_flush == old(self).needs_flush,
    {
        self.heap_ids_to_recycle_after_flush.push(id);
    }

    pub fn take_heap_ids_to_recycle_after_flush(&mut self) -> (ids: Vec<u64>)
        ensures
            ids@ == old(self).heap_ids_to_recycle_after_flush@,
            final(self).heap_ids_to_recycle_after_flush@ == Seq::<u64>::empty(),
            final(self).wire() == old(self).wire(),
            final(self).pending_type_ids@ == old(self).pending_type_ids@,
            final(self).needs_flush == old(self).needs_flush,
    {
        let mut ids = Vec::new();
        std::mem::swap(&mut ids, &mut self.heap_ids_to_recycle_after_flush);
        ids
    }

    pub fn take_pending_type_ids(&mut self) -> (ids: Vec<u32>)
        ensures
            ids@ == old(self).pending_type_ids@,
            final(self).pending_type_ids@ == Seq::<u32>::empty(),
            final(self).wire() == old(self).wire(),
            final(self).heap_ids_to_recycle_after_flush@ == old(self).heap_ids_to_recycle_after_flush@,
            final(self).needs_flush == old(self).needs_flush,
    {
        let mut ids = Vec::new();
        std::mem::swap(&mut ids, &mut self.pending_type_ids);
        ids
    }

    /// Number of bytes the message takes on the wire.
    pub fn byte_len(&self) -> (n: usize)
        requires
            self.wire().byte_len() <= usize::MAX,
        ensures
            n == self.wire().byte_len(),
    {
        12 + 4 * self.u32_buf.len() + 2 * self.u16_buf.len() + self.u8_buf.len() + self.str_buf.len()
    }
}

pub(crate) fn extend_vec<T: Copy>(dst: &mut Vec<T>, src: &Vec<T>)
    ensures
        final(dst)@ == old(dst)@ + src@,
{
    let mut i: usize = 0;
    while i < src.len()
        invariant
            i <= src.len(),
            dst@ == old(dst)@ + src@.subrange(0, i as int),
        decreases src.len() - i,
    {
        dst.push(src[i]);
        assert(src@.subrange(0, i + 1) =~= src@.subrange(0, i as int).push(src@[i as int]));
        i = i + 1;
    }
    assert(src@.subrange(0, i as int) =~= src@);
}


impl Wire {
    /// The streams after the first byte was consumed.
    pub open spec fn after_u8(self) -> Wire {
        Wire { u8s: self.u8s.drop_first(), ..self }
    }

    /// The streams after the first 16-bit value was consumed.
    pub open spec fn after_u16(self) -> Wire {
        Wire { u16s: self.u16s.drop_first(), ..self }
    }

    /// The streams after the first `n` words were consumed.
    pub open spec fn after_words(self, n: int) -> Wire {
        Wire { u32s: self.u32s.skip(n), ..self }
    }

    /// The streams after a string header and `n` string bytes were consumed.
    pub open spec fn after_str(self, n: int) -> Wire {
        Wire { u32s: self.u32s.drop_first(), strs: self.strs.skip(n), ..self }
    }

    /// No value is left in any stream.
    pub open spec fn is_empty(self) -> bool {
        self.u8s.len() == 0 && self.u16s.len() == 0 && self.u32s.len() == 0 && self.strs.len() == 0
    }
}

/// Law: reading a byte that was written in front of `rest` leaves `rest`.
pub proof fn lemma_after_u8_prefix(b: u8, rest: Wire)
    ensures
        Wire::of_u8(b).append(rest).u8s[0] == b,
        Wire::of_u8(b).append(rest).u8s.len() > 0,
        Wire::of_u8(b).append(rest).after_u8() == rest,
{
    assert(Wire::of_u8(b).append(rest).after_u8() =~= rest);
}

/// Law: reading words that were written in front of `rest` leaves `rest`.
pub proof fn lemma_after_words_prefix(ws: Seq<u32>, rest: Wire)
    ensures
        Wire::of_words(ws).append(rest).u32s.subrange(0, ws.len() as int) == ws,
        Wire::of_words(ws).append(rest).u32s.len() >= ws.len(),
        Wire::of_words(ws).append(rest).after_words(ws.len() as int) == rest,
{
    assert(Wire::of_words(ws).append(rest).u32s.subrange(0, ws.len() as int) =~= ws);
    assert(Wire::of_words(ws).append(rest).after_words(ws.len() as int) =~= rest);
}

/// The `u64` whose words, low word first, are `lo` and `hi`.
pub open spec fn u64_of_words(lo: u32, hi: u32) -> u64 {
    (hi as int * 0x1_0000_0000 + lo as int) as u64
}

/// The `u128` whose words, lowest first, are `w`.
pub open spec fn u128_of_words(w: Seq<u32>) -> u128 {
    (w[3] as int * 0x1_0000_0000_0000_0000_0000_0000 + w[2] as int * 0x1_0000_0000_0000_0000
        + w[1] as int * 0x1_0000_0000 + w[0] as int) as u128
}

pub proof fn lemma_u64_words_roundtrip(v: u64)
    ensures
        u64_of_words(u64_words(v)[0], u64_words(v)[1]) == v,
{
    assert(v == (v / 0x1_0000_0000) * 0x1_0000_0000 + v % 0x1_0000_0000) by (nonlinear_arith);
}

pub proof fn lemma_u128_words_roundtrip(v: u128)
    ensures
        u128_of_words(u128_words(v)) == v,
{
    let a: int = 0x1_0000_0000;
    let x = v as int;
    assert(x == (x / a) * a + x % a) by (nonlinear_arith) requires a > 0;
    let x1 = x / a;
    assert(x1 == (x1 / a) * a + x1 % a) by (nonlinear_arith) requires a > 0;
    let x2 = x1 / a;
    assert(x2 == (x2 / a) * a + x2 % a) by (nonlinear_arith) requires a > 0;
    assert(x / (a * a) == x2) by (nonlinear_arith) requires a > 0, x1 == x / a, x2 == x1 / a, x >= 0;
    assert(x / (a * a * a) == x2 / a) by (nonlinear_arith) requires a > 0, x1 == x / a, x2 == x1 / a, x >= 0;
    assert(x < a * a * a * a);
    assert(x2 / a < a) by (nonlinear_arith) requires x < a * a * a * a, x2 / a == x / (a * a * a), a > 0, x >= 0;
    assert(x == (x2 / a) * (a * a * a) + (x2 % a) * (a * a) + (x1 % a) * a + x % a) by (nonlinear_arith)
        requires x == x1 * a + x % a, x1 == x2 * a + x1 % a, x2 == (x2 / a) * a + x2 % a;
}

/// A decoder over the value streams of a received message.
pub struct DecodedData {
    u8s: Vec<u8>,
    u8_pos: usize,
    u16s: Vec<u16>,
    u16_pos: usize,
    u32s: Vec<u32>,
    u32_pos: usize,
    strs: Vec<u8>,
    str_pos: usize,
}

impl DecodedData {
    #[verifier::type_invariant]
    spec fn positions_in_bounds(self) -> bool {
        &&& self.u8_pos <= self.u8s.len()
        &&& self.u16_pos <= self.u16s.len()
        &&& self.u32_pos <= self.u32s.len()
        &&& self.str_pos <= self.strs.len()
    }

    /// The values not yet consumed.
    pub closed spec fn remaining(&self) -> Wire {
        Wire {
            u8s: self.u8s@.skip(self.u8_pos as int),
            u16s: self.u16s@.skip(self.u16_pos as int),
            u32s: self.u32s@.skip(self.u32_pos as int),
            strs: self.strs@.skip(self.str_pos as int),
        }
    }

    /// Take the next byte.
    pub fn take_u8(&mut self) -> (r: Result<u8, DecodeError>)
        ensures
            old(self).remaining().u8s.len() > 0 ==> r == Ok::<u8, DecodeError>(old(self).remaining().u8s[0])
                && final(self).remaining() == old(self).remaining().after_u8(),
            old(self).remaining().u8s.len() == 0 ==> is_err_kind(r, DecodeErrorKind::U8BufferEmpty)
                && final(self).remaining() == old(self).remaining(),
    {
        proof { use_type_invariant(&*self); }
        if self.u8_pos < self.u8s.len() {
            let v = self.u8s[self.u8_pos];
            self.u8_pos = self.u8_pos + 1;
            assert(self.u8s@.skip(self.u8_pos as int) =~= old(self).u8s@.skip(old(self).u8_pos as int).drop_first());
            Ok(v)
        } else {
            Err(DecodeError::U8BufferEmpty)
        }
    }

    /// Take the next 16-bit value.
    pub fn take_u16(&mut self) -> (r: Result<u16, DecodeError>)
        ensures
            old(self).remaining().u16s.len() > 0 ==> r == Ok::<u16, DecodeError>(old(self).remaining().u16s[0])
                && final(self).remaining() == old(self).remaining().after_u16(),
            old(self).remaining().u16s.len() == 0 ==> is_err_kind(r, DecodeErrorKind::U16BufferEmpty)
                && final(self).remaining() == old(self).remaining(),
    {
        proof { use_type_invariant(&*self); }
        if self.u16_pos < self.u16s.len() {
            let v = self.u16s[self.u16_pos];
            self.u16_pos = self.u16_pos + 1;
            assert(self.u16s@.skip(self.u16_pos as int) =~= old(self).u16s@.skip(old(self).u16_pos as int).drop_first());
            Ok(v)
        } else {
            Err(DecodeError::U16BufferEmpty)
        }
    }

    /// Take the next word.
    pub fn take_u32(&mut self) -> (r: Result<u32, DecodeError>)
        ensures
            old(self).remaining().u32s.len() > 0 ==> r == Ok::<u32, DecodeError>(old(self).remaining().u32s[0])
                && final(self).remaining() == old(self).remaining().after_words(1),
            old(self).remaining().u32s.len() == 0 ==> is_err_kind(r, DecodeErrorKind::U32BufferEmpty)
                && final(self).remaining() == old(self).remaining(),
    {
        proof { use_type_invariant(&*self); }
        if self.u32_pos < self.u32s.len() {
            let v = self.u32s[self.u32_pos];
            self.u32_pos = self.u32_pos + 1;
            assert(self.u32s@.skip(self.u32_pos as int) =~= old(self).u32s@.skip(old(self).u32_pos as int).skip(1));
            Ok(v)
        } else {
            Err(DecodeError::U32BufferEmpty)
        }
    }

    /// Take a `u64` carried as two words, low word first.
    pub fn take_u64(&mut self) -> (r: Result<u64, DecodeError>)
        ensures
            old(self).remaining().u32s.len() >= 2 ==> r == Ok::<u64, DecodeError>(
                u64_of_words(old(self).remaining().u32s[0], old(self).remaining().u32s[1]),
            ) && final(self).remaining() == old(self).remaining().after_words(2),
            old(self).remaining().u32s.len() < 2 ==> is_err_kind(r, DecodeErrorKind::U32BufferEmpty)
                && final(self).remaining() == old(self).remaining(),
    {
        proof { use_type_invariant(&*self); }
        if self.u32s.len() - self.u32_pos >= 2 {
            let lo = self.u32s[self.u32_pos];
            let hi = self.u32s[self.u32_pos + 1];
            self.u32_pos = self.u32_pos + 2;
            assert(self.u32s@.skip(self.u32_pos as int) =~= old(self).u32s@.skip(old(self).u32_pos as int).skip(2));
            Ok(hi as u64 * 0x1_0000_0000 + lo as u64)
        } else {
            Err(DecodeError::U32BufferEmpty)
        }
    }

    /// Take a `u128` carried as four words, lowest word first.
    pub fn take_u128(&mut self) -> (r: Result<u128, DecodeError>)
        ensures
            old(self).remaining().u32s.len() >= 4 ==> r == Ok::<u128, DecodeError>(
                u128_of_words(old(self).remaining().u32s),
            ) && final(self).remaining() == old(self).remaining().after_words(4),
            old(self).remaining().u32s.len() < 4 ==> is_err_kind(r, DecodeErrorKind::U32BufferEmpty)
                && final(self).remaining() == old(self).remaining(),
    {
        proof { use_type_invariant(&*self); }
        if self.u32s.len() - self.u32_pos >= 4 {
            let w0 = self.u32s[self.u32_pos];
            let w1 = self.u32s[self.u32_pos + 1];
            let w2 = self.u32s[self.u32_pos + 2];
            let w3 = self.u32s[self.u32_pos + 3];
            self.u32_pos = self.u32_pos + 4;
            assert(self.u32s@.skip(self.u32_pos as int) =~= old(self).u32s@.skip(old(self).u32_pos as int).skip(4));
            Ok(w3 as u128 * 0x1_0000_0000_0000_0000_0000_0000 + w2 as u128 * 0x1_0000_0000_0000_0000
                + w1 as u128 * 0x1_0000_0000 + w0 as u128)
        } else {
            Err(DecodeError::U32BufferEmpty)
        }
    }

    /// Take a string: a word holding its byte length, then that many UTF-8
    /// bytes from the string stream.
    pub fn take_str(&mut self) -> (r: Result<String, DecodeError>)
        ensures
            ({
                let w = old(self).remaining();
                if w.u32s.len() == 0 {
                    is_err_kind(r, DecodeErrorKind::U32BufferEmpty) && final(self).remaining() == w
                } else if w.strs.len() < w.u32s[0] {
                    is_err_kind(r, DecodeErrorKind::StringBufferTooShort)
                        && final(self).remaining() == w.after_words(1)
                } else if !vstd::utf8::valid_utf8(w.strs.take(w.u32s[0] as int)) {
                    is_err_kind(r, DecodeErrorKind::InvalidUtf8)
                        && final(self).remaining() == w.after_str(w.u32s[0] as int)
                } else {
                    r matches Ok(s) && s@ == vstd::utf8::decode_utf8(w.strs.take(w.u32s[0] as int))
                        && final(self).remaining() == w.after_str(w.u32s[0] as int)
                }
            }),
    {
        proof { use_type_invariant(&*self); }
        let len = match self.take_u32() {
            Ok(len) => len,
            Err(e) => return Err(e),
        };
        proof { use_type_invariant(&*self); }
        let available = self.strs.len() - self.str_pos;
        if (len as usize) > available {
            return Err(DecodeError::StringBufferTooShort { needed: len as usize, available });
        }
        let mut bytes: Vec<u8> = Vec::new();
        let start = self.str_pos;
        let end = start + len as usize;
        let mut i = start;
        while i < end
            invariant
                start <= i <= end <= self.strs.len(),
                bytes@ == self.strs@.subrange(start as int, i as int),
            decreases end - i,
        {
            bytes.push(self.strs[i]);
            assert(self.strs@.subrange(start as int, i + 1) =~= self.strs@.subrange(start as int, i as int).push(self.strs@[i as int]));
            i = i + 1;
        }
        self.str_pos = end;
        assert(bytes@ =~= old(self).remaining().strs.take(len as int));
        assert(self.strs@.skip(self.str_pos as int) =~= old(self).remaining().strs.skip(len as int));
        assert(self.u32s@.skip(self.u32_pos as int) =~= old(self).remaining().u32s.drop_first());
        match string_from_utf8(bytes) {
            Some(s) => Ok(s),
            None => Err(DecodeError::InvalidUtf8 { len: len as usize }),
        }
    }

    /// Whether every value has been consumed.
    pub fn is_empty(&self) -> (r: bool)
        ensures
            r == self.remaining().is_empty(),
    {
        proof { use_type_invariant(&*self); }
        self.u8_pos == self.u8s.len() && self.u16_pos == self.u16s.len() && self.u32_pos == self.u32s.len()
            && self.str_pos == self.strs.len()
    }
}

/// `String::from_utf8`: the documentation promises the string of the given
/// bytes exactly when they are valid UTF-8, and an error otherwise.
#[verifier::external_body]
fn string_from_utf8(bytes: Vec<u8>) -> (r: Option<String>)
    ensures
        r is Some <==> vstd::utf8::valid_utf8(bytes@),
        r matches Some(s) ==> s@ == vstd::utf8::decode_utf8(bytes@),
{
    String::from_utf8(bytes).ok()
}


/// Little-endian bytes of a word.
pub open spec fn le4(x: u32) -> Seq<u8> {
    seq![(x % 256) as u8, ((x / 256) % 256) as u8, ((x / 65536) % 256) as u8, (x / 16777216) as u8]
}

/// Little-endian bytes of a 16-bit value.
pub open spec fn le2(x: u16) -> Seq<u8> {
    seq![(x % 256) as u8, (x / 256) as u8]
}

/// The word stored little-endian at `b[i..i + 4]`.
pub open spec fn read_le4(b: Seq<u8>, i: int) -> u32 {
    (b[i] as int + 256 * b[i + 1] as int + 65536 * b[i + 2] as int + 16777216 * b[i + 3] as int) as u32
}

/// The 16-bit value stored little-endian at `b[i..i + 2]`.
pub open spec fn read_le2(b: Seq<u8>, i: int) -> u16 {
    (b[i] as int + 256 * b[i + 1] as int) as u16
}

/// Words laid out little-endian one after the other.
pub open spec fn words_le(ws: Seq<u32>) -> Seq<u8>
    decreases ws.len(),
{
    if ws.len() == 0 {
        Seq::empty()
    } else {
        words_le(ws.drop_last()) + le4(ws.last())
    }
}

/// 16-bit values laid out little-endian one after the other.
pub open spec fn halves_le(hs: Seq<u16>) -> Seq<u8>
    decreases hs.len(),
{
    if hs.len() == 0 {
        Seq::empty()
    } else {
        halves_le(hs.drop_last()) + le2(hs.last())
    }
}

/// The words stored in `b`, four bytes each.
pub open spec fn read_words(b: Seq<u8>) -> Seq<u32> {
    Seq::new(b.len() / 4, |k: int| read_le4(b, 4 * k))
}

/// The 16-bit values stored in `b`, two bytes each.
pub open spec fn read_halves(b: Seq<u8>) -> Seq<u16> {
    Seq::new(b.len() / 2, |k: int| read_le2(b, 2 * k))
}

/// Where the 16-bit section of `w`'s message starts.
pub open spec fn u16_start(w: Wire) -> int {
    (12 + 4 * w.u32s.len()) as int
}

/// Where the byte section of `w`'s message starts.
pub open spec fn u8_start(w: Wire) -> int {
    u16_start(w) + 2 * w.u16s.len()
}

/// Where the string section of `w`'s message starts.
pub open spec fn str_start(w: Wire) -> int {
    u8_start(w) + w.u8s.len()
}

/// The bytes of a message: three section offsets, then the sections.
pub open spec fn frame_bytes(w: Wire) -> Seq<u8> {
    le4(u16_start(w) as u32) + le4(u8_start(w) as u32) + le4(str_start(w) as u32) + words_le(w.u32s)
        + halves_le(w.u16s) + w.u8s + w.strs
}

/// The streams of a message, if its header is well formed.
pub open spec fn parse_frame(b: Seq<u8>) -> Option<Wire> {
    if b.len() < 12 {
        None
    } else {
        let a = read_le4(b, 0) as int;
        let c = read_le4(b, 4) as int;
        let d = read_le4(b, 8) as int;
        if !(12 <= a <= c <= d <= b.len()) || (a - 12) % 4 != 0 || (c - a) % 2 != 0 {
            None
        } else {
            Some(Wire {
                u32s: read_words(b.subrange(12, a)),
                u16s: read_halves(b.subrange(a, c)),
                u8s: b.subrange(c, d),
                strs: b.subrange(d, b.len() as int),
            })
        }
    }
}

proof fn lemma_le4_read(x: u32)
    ensures
        read_le4(le4(x), 0) == x,
{
    let b = le4(x);
    assert(b[0] as int == x % 256);
    assert(b[1] as int == (x / 256) % 256);
    assert(b[2] as int == (x / 65536) % 256);
    assert(b[3] as int == x / 16777216) by (nonlinear_arith) requires x < 0x1_0000_0000, b[3] == (x / 16777216) as u8;
    assert(x as int == x % 256 + 256 * ((x / 256) % 256) + 65536 * ((x / 65536) % 256) + 16777216 * (x / 16777216))
        by (nonlinear_arith);
}

proof fn lemma_le2_read(x: u16)
    ensures
        read_le2(le2(x), 0) == x,
{
    let b = le2(x);
    assert(b[1] as int == x / 256) by (nonlinear_arith) requires x < 0x1_0000, b[1] == (x / 256) as u8;
    assert(x as int == x % 256 + 256 * (x / 256)) by (nonlinear_arith);
}

proof fn lemma_read_le4_shift(a: Seq<u8>, b: Seq<u8>, i: int)
    requires
        0 <= i,
        i + 4 <= b.len(),
    ensures
        read_le4(a + b, a.len() + i) == read_le4(b, i),
{
}

proof fn lemma_words_le(ws: Seq<u32>)
    ensures
        words_le(ws).len() == 4 * ws.len(),
        read_words(words_le(ws)) == ws,
    decreases ws.len(),
{
    if ws.len() > 0 {
        let init = ws.drop_last();
        lemma_words_le(init);
        let b = words_le(ws);
        assert(b == words_le(init) + le4(ws.last()));
        assert forall|k: int| 0 <= k < ws.len() implies #[trigger] read_le4(b, 4 * k) == ws[k] by {
            if k < ws.len() - 1 {
                assert(read_words(words_le(init))[k] == init[k]);
                assert(b.subrange(4 * k, 4 * k + 4) =~= words_le(init).subrange(4 * k, 4 * k + 4));
                assert(read_le4(b, 4 * k) == read_le4(words_le(init), 4 * k));
            } else {
                lemma_le4_read(ws.last());
                lemma_read_le4_shift(words_le(init), le4(ws.last()), 0);
            }
        }
        assert(read_words(b) =~= ws);
    } else {
        assert(read_words(words_le(ws)) =~= ws);
    }
}

proof fn lemma_halves_le(hs: Seq<u16>)
    ensures
        halves_le(hs).len() == 2 * hs.len(),
        read_halves(halves_le(hs)) == hs,
    decreases hs.len(),
{
    if hs.len() > 0 {
        let init = hs.drop_last();
        lemma_halves_le(init);
        let b = halves_le(hs);
        assert(b == halves_le(init) + le2(hs.last()));
        assert forall|k: int| 0 <= k < hs.len() implies #[trigger] read_le2(b, 2 * k) == hs[k] by {
            if k < hs.len() - 1 {
                assert(read_halves(halves_le(init))[k] == init[k]);
                assert(read_le2(b, 2 * k) == read_le2(halves_le(init), 2 * k));
            } else {
                lemma_le2_read(hs.last());
                assert(read_le2(b, 2 * k) == read_le2(le2(hs.last()), 0));
            }
        }
        assert(read_halves(b) =~= hs);
    } else {
        assert(read_halves(halves_le(hs)) =~= hs);
    }
}

proof fn lemma_read_le4_prefix(a: Seq<u8>, b: Seq<u8>, i: int)
    requires
        0 <= i,
        i + 4 <= a.len(),
    ensures
        read_le4(a + b, i) == read_le4(a, i),
{
}

proof fn lemma_frame_header(h1: Seq<u8>, h2: Seq<u8>, h3: Seq<u8>, body: Seq<u8>)
    requires
        h1.len() == 4,
        h2.len() == 4,
        h3.len() == 4,
    ensures
        read_le4(h1 + h2 + h3 + body, 0) == read_le4(h1, 0),
        read_le4(h1 + h2 + h3 + body, 4) == read_le4(h2, 0),
        read_le4(h1 + h2 + h3 + body, 8) == read_le4(h3, 0),
{
    let b = h1 + h2 + h3 + body;
    assert(b =~= h1 + (h2 + h3 + body));
    lemma_read_le4_prefix(h1, h2 + h3 + body, 0);
    lemma_read_le4_shift(h1, h2 + h3 + body, 0);
    lemma_read_le4_prefix(h2, h3 + body, 0);
    assert(h2 + h3 + body =~= h2 + (h3 + body));
    assert(b =~= (h1 + h2) + (h3 + body));
    lemma_read_le4_shift(h1 + h2, h3 + body, 0);
    lemma_read_le4_prefix(h3, body, 0);
}

/// Law: a message parses back into exactly the streams it was built from,
/// as long as its size fits the 32-bit offsets of the header.
pub proof fn lemma_frame_roundtrip(w: Wire)
    requires
        w.byte_len() <= u32::MAX,
    ensures
        parse_frame(frame_bytes(w)) == Some(w),
{
    lemma_words_le(w.u32s);
    lemma_halves_le(w.u16s);
    let h1 = le4(u16_start(w) as u32);
    let h2 = le4(u8_start(w) as u32);
    let h3 = le4(str_start(w) as u32);
    let ws = words_le(w.u32s);
    let hs = halves_le(w.u16s);
    let body = ws + hs + w.u8s + w.strs;
    let b = frame_bytes(w);
    assert(b =~= h1 + h2 + h3 + body);
    lemma_frame_header(h1, h2, h3, body);
    lemma_le4_read(u16_start(w) as u32);
    lemma_le4_read(u8_start(w) as u32);
    lemma_le4_read(str_start(w) as u32);
    let a = u16_start(w);
    let c = u8_start(w);
    let d = str_start(w);
    assert(b.subrange(12, a) =~= ws);
    assert(b.subrange(a, c) =~= hs);
    assert(b.subrange(c, d) =~= w.u8s);
    assert(b.subrange(d, b.len() as int) =~= w.strs);
}


fn push_le4(out: &mut Vec<u8>, x: u32)
    ensures
        final(out)@ == old(out)@ + le4(x),
{
    out.push((x % 256) as u8);
    out.push(((x / 256) % 256) as u8);
    out.push(((x / 65536) % 256) as u8);
    out.push((x / 16777216) as u8);
    assert(out@ =~= old(out)@ + le4(x));
}

fn push_le2(out: &mut Vec<u8>, x: u16)
    ensures
        final(out)@ == old(out)@ + le2(x),
{
    out.push((x % 256) as u8);
    out.push((x / 256) as u8);
    assert(out@ =~= old(out)@ + le2(x));
}

fn get_le4(b: &[u8], i: usize) -> (r: u32)
    requires
        i + 4 <= b@.len(),
    ensures
        r == read_le4(b@, i as int),
{
    b[i] as u32 + 256 * (b[i + 1] as u32) + 65536 * (b[i + 2] as u32) + 16777216 * (b[i + 3] as u32)
}

fn get_le2(b: &[u8], i: usize) -> (r: u16)
    requires
        i + 2 <= b@.len(),
    ensures
        r == read_le2(b@, i as int),
{
    b[i] as u16 + 256 * (b[i + 1] as u16)
}

fn copy_range(b: &[u8], start: usize, end: usize) -> (out: Vec<u8>)
    requires
        start <= end <= b@.len(),
    ensures
        out@ == b@.subrange(start as int, end as int),
{
    let mut out: Vec<u8> = Vec::new();
    let mut i = start;
    while i < end
        invariant
            start <= i <= end <= b@.len(),
            out@ == b@.subrange(start as int, i as int),
        decreases end - i,
    {
        out.push(b[i]);
        assert(b@.subrange(start as int, i + 1) =~= b@.subrange(start as int, i as int).push(b@[i as int]));
        i = i + 1;
    }
    out
}

impl EncodedData {
    /// The message bytes: three section offsets, then the word, 16-bit, byte
    /// and string sections. The offsets are 32-bit, so the message must fit
    /// in `u32::MAX` bytes.
    pub fn to_bytes(&self) -> (b: Vec<u8>)
        requires
            self.wire().byte_len() <= u32::MAX,
        ensures
            b@ == frame_bytes(self.wire()),
    {
        let w = Ghost(self.wire());
        let a = (12 + 4 * self.u32_buf.len()) as u32;
        let c = a + 2 * (self.u16_buf.len() as u32);
        let d = c + self.u8_buf.len() as u32;
        let mut out: Vec<u8> = Vec::new();
        push_le4(&mut out, a);
        push_le4(&mut out, c);
        push_le4(&mut out, d);
        let ghost header = out@;
        assert(header =~= le4(u16_start(w@) as u32) + le4(u8_start(w@) as u32) + le4(str_start(w@) as u32));
        let mut i: usize = 0;
        while i < self.u32_buf.len()
            invariant
                i <= self.u32_buf.len(),
                out@ == header + words_le(self.u32_buf@.take(i as int)),
            decreases self.u32_buf.len() - i,
        {
            push_le4(&mut out, self.u32_buf[i]);
            assert(self.u32_buf@.take(i + 1).drop_last() =~= self.u32_buf@.take(i as int));
            i = i + 1;
        }
        assert(self.u32_buf@.take(i as int) =~= self.u32_buf@);
        let ghost after_words = out@;
        let mut j: usize = 0;
        while j < self.u16_buf.len()
            invariant
                j <= self.u16_buf.len(),
                out@ == after_words + halves_le(self.u16_buf@.take(j as int)),
            decreases self.u16_buf.len() - j,
        {
            push_le2(&mut out, self.u16_buf[j]);
            assert(self.u16_buf@.take(j + 1).drop_last() =~= self.u16_buf@.take(j as int));
            j = j + 1;
        }
        assert(self.u16_buf@.take(j as int) =~= self.u16_buf@);
        extend_vec(&mut out, &self.u8_buf);
        extend_vec(&mut out, &self.str_buf);
        assert(out@ =~= frame_bytes(w@));
        out
    }
}

impl DecodedData {
    /// Split a message into its value streams, checking the header.
    pub fn from_bytes(bytes: &[u8]) -> (r: Result<DecodedData, DecodeError>)
        ensures
            match parse_frame(bytes@) {
                Some(w) => r matches Ok(d) && d.remaining() == w,
                None => is_err_kind(r, DecodeErrorKind::InvalidHeader),
            },
    {
        if bytes.len() < 12 {
            return Err(DecodeError::InvalidHeader);
        }
        let a = get_le4(bytes, 0) as usize;
        let c = get_le4(bytes, 4) as usize;
        let d = get_le4(bytes, 8) as usize;
        if !(12 <= a && a <= c && c <= d && d <= bytes.len()) || (a - 12) % 4 != 0 || (c - a) % 2 != 0 {
            return Err(DecodeError::InvalidHeader);
        }
        let ghost region32 = bytes@.subrange(12, a as int);
        let ghost region16 = bytes@.subrange(a as int, c as int);
        let mut u32s: Vec<u32> = Vec::new();
        let mut i: usize = 12;
        while i < a
            invariant
                12 <= i <= a <= bytes@.len(),
                (i - 12) % 4 == 0,
                (a - 12) % 4 == 0,
                region32 == bytes@.subrange(12, a as int),
                u32s@.len() == (i - 12) / 4,
                forall|k: int| 0 <= k < u32s@.len() ==> #[trigger] u32s@[k] == read_le4(region32, 4 * k),
            decreases a - i,
        {
            let v = get_le4(bytes, i);
            assert(read_le4(region32, (i - 12) as int) == v);
            u32s.push(v);
            i = i + 4;
        }
        assert(u32s@ =~= read_words(region32));
        let mut u16s: Vec<u16> = Vec::new();
        let mut j: usize = a;
        while j < c
            invariant
                a <= j <= c <= bytes@.len(),
                (j - a) % 2 == 0,
                (c - a) % 2 == 0,
                region16 == bytes@.subrange(a as int, c as int),
                u16s@.len() == (j - a) / 2,
                forall|k: int| 0 <= k < u16s@.len() ==> #[trigger] u16s@[k] == read_le2(region16, 2 * k),
            decreases c - j,
        {
            let v = get_le2(bytes, j);
            assert(read_le2(region16, (j - a) as int) == v);
            u16s.push(v);
            j = j + 2;
        }
        assert(u16s@ =~= read_halves(region16));
        let u8s = copy_range(bytes, c, d);
        let strs = copy_range(bytes, d, bytes.len());
        let data = DecodedData { u8s, u8_pos: 0, u16s, u16_pos: 0, u32s, u32_pos: 0, strs, str_pos: 0 };
        assert(data.remaining().u8s =~= bytes@.subrange(c as int, d as int));
        assert(data.remaining().u16s =~= read_halves(region16));
        assert(data.remaining().u32s =~= read_words(region32));
        assert(data.remaining().strs =~= bytes@.subrange(d as int, bytes@.len() as int));
        Ok(data)
    }
}
} // verus!
