//! The framing discipline: an 8-byte big-endian length `N`, then `N` bytes of payload.

use vstd::prelude::*;
use crate::buffer::{append_bytes, buf_bytes, buffer_to_vec, buffered_head, buffered_len, take_front};

verus! {

/// Bytes in a length prefix.
pub const PREFIX_LEN: usize = 8;

/// The value of eight bytes read as a big-endian unsigned integer.
pub open spec fn be_value(s: Seq<u8>) -> u64 {
    ((s[0] as u64) << 56u64) | ((s[1] as u64) << 48u64) | ((s[2] as u64) << 40u64)
        | ((s[3] as u64) << 32u64) | ((s[4] as u64) << 24u64) | ((s[5] as u64) << 16u64)
        | ((s[6] as u64) << 8u64) | (s[7] as u64)
}

/// The eight big-endian bytes of `n`.
pub open spec fn be_bytes(n: u64) -> Seq<u8> {
    seq![
        (n >> 56u64) as u8, (n >> 48u64) as u8, (n >> 40u64) as u8, (n >> 32u64) as u8,
        (n >> 24u64) as u8, (n >> 16u64) as u8, (n >> 8u64) as u8, n as u8,
    ]
}

/// The frame that carries `payload`.
pub open spec fn framed(payload: Seq<u8>) -> Seq<u8> {
    be_bytes(payload.len() as u64) + payload
}

/// The length announced by the prefix at the head of `s` (which holds at least 8 bytes).
pub open spec fn announced_len(s: Seq<u8>) -> u64 {
    be_value(s.subrange(0, 8))
}

/// The announced length cannot be held in a `usize`.
pub open spec fn len_unrepresentable(s: Seq<u8>) -> bool {
    s.len() >= 8 && announced_len(s) > usize::MAX
}

/// `s` begins with a whole frame: its prefix and every payload byte it announces.
pub open spec fn holds_frame(s: Seq<u8>) -> bool {
    s.len() >= 8 && announced_len(s) <= usize::MAX && announced_len(s) <= s.len() - 8
}

/// The payload of the frame at the head of `s`.
pub open spec fn head_payload(s: Seq<u8>) -> Seq<u8> {
    s.subrange(8, 8 + announced_len(s) as int)
}

/// What stays buffered after the frame at the head of `s` is taken.
pub open spec fn after_frame(s: Seq<u8>) -> Seq<u8> {
    s.subrange(8 + announced_len(s) as int, s.len() as int)
}

pub proof fn lemma_be_round_trip(n: u64)
    ensures
        be_value(be_bytes(n)) == n,
        be_bytes(n).len() == 8,
{
    let s = be_bytes(n);
    let (b0, b1, b2, b3) = ((n >> 56u64) as u8, (n >> 48u64) as u8, (n >> 40u64) as u8, (n >> 32u64) as u8);
    let (b4, b5, b6, b7) = ((n >> 24u64) as u8, (n >> 16u64) as u8, (n >> 8u64) as u8, n as u8);
    assert(s[0] == b0 && s[1] == b1 && s[2] == b2 && s[3] == b3);
    assert(s[4] == b4 && s[5] == b5 && s[6] == b6 && s[7] == b7);
    assert(((b0 as u64) << 56u64) | ((b1 as u64) << 48u64) | ((b2 as u64) << 40u64)
        | ((b3 as u64) << 32u64) | ((b4 as u64) << 24u64) | ((b5 as u64) << 16u64)
        | ((b6 as u64) << 8u64) | (b7 as u64) == n) by (bit_vector)
        requires
            b0 == (n >> 56u64) as u8, b1 == (n >> 48u64) as u8, b2 == (n >> 40u64) as u8,
            b3 == (n >> 32u64) as u8, b4 == (n >> 24u64) as u8, b5 == (n >> 16u64) as u8,
            b6 == (n >> 8u64) as u8, b7 == n as u8,
    ;
}

/// Why a frame could not be decoded. Every one is fatal to the stream.
#[derive(Debug, Clone, Copy, PartialEq, Eq)]
pub enum CodecError {
    /// The announced payload length cannot be held in a `usize`.
    LengthTooLarge(u64),
    /// The payload bytes do not hold a value of the expected shape.
    MalformedPayload,
}

/// What one decoding attempt gives on the buffered bytes `s`, where `parsed`
/// reads a payload: nothing while a frame is incomplete, the parsed value of a
/// complete frame, or the error.
pub open spec fn frame_outcome<T>(s: Seq<u8>, parsed: spec_fn(Seq<u8>) -> Option<T>) -> Result<Option<T>, CodecError> {
    if len_unrepresentable(s) {
        Err(CodecError::LengthTooLarge(announced_len(s)))
    } else if !holds_frame(s) {
        Ok(None)
    } else {
        match parsed(head_payload(s)) {
            Some(v) => Ok(Some(v)),
            None => Err(CodecError::MalformedPayload),
        }
    }
}

/// What stays buffered after one decoding attempt on `s`.
pub open spec fn kept_after_decode(s: Seq<u8>) -> Seq<u8> {
    if holds_frame(s) {
        after_frame(s)
    } else {
        s
    }
}

/// A complete frame is decoded whatever follows it: its payload comes out and
/// exactly the bytes after it stay buffered.
pub proof fn lemma_frame_then_rest(p: Seq<u8>, rest: Seq<u8>)
    requires
        p.len() + 8 <= usize::MAX,
    ensures
        holds_frame(framed(p) + rest),
        !len_unrepresentable(framed(p) + rest),
        head_payload(framed(p) + rest) == p,
        kept_after_decode(framed(p) + rest) == rest,
{
    let s = framed(p) + rest;
    lemma_be_round_trip(p.len() as u64);
    assert(s.subrange(0, 8) =~= be_bytes(p.len() as u64));
    assert(head_payload(s) =~= p);
    assert(after_frame(s) =~= rest);
}

/// Fed one byte at a time, a frame yields nothing, and keeps every byte, on
/// each proper prefix; with its last byte it yields its payload and leaves
/// nothing buffered. This holds for every payload parser.
pub proof fn lemma_bytewise_delivery<T>(p: Seq<u8>, k: int, parsed: spec_fn(Seq<u8>) -> Option<T>)
    requires
        p.len() + 8 <= usize::MAX,
        0 <= k < framed(p).len(),
    ensures
        frame_outcome(framed(p).subrange(0, k), parsed) == Ok::<Option<T>, CodecError>(None),
        kept_after_decode(framed(p).subrange(0, k)) == framed(p).subrange(0, k),
        holds_frame(framed(p)),
        head_payload(framed(p)) == p,
        kept_after_decode(framed(p)).len() == 0,
{
    let s = framed(p).subrange(0, k);
    lemma_be_round_trip(p.len() as u64);
    lemma_frame_then_rest(p, Seq::empty());
    assert(framed(p) + Seq::<u8>::empty() =~= framed(p));
    if k >= 8 {
        assert(s.subrange(0, 8) =~= be_bytes(p.len() as u64));
    }
}

/// Too few bytes, whether for the prefix or for the payload it announces,
/// give nothing and keep every buffered byte.
pub proof fn lemma_short_input_kept<T>(s: Seq<u8>, parsed: spec_fn(Seq<u8>) -> Option<T>)
    requires
        s.len() < 8 || (announced_len(s) <= usize::MAX && s.len() - 8 < announced_len(s)),
    ensures
        frame_outcome(s, parsed) == Ok::<Option<T>, CodecError>(None),
        kept_after_decode(s) == s,
{
}

fn read_prefix(head: &Vec<u8>) -> (r: u64)
    requires
        head@.len() == 8,
    ensures
        r == be_value(head@),
{
    ((head[0] as u64) << 56u64) | ((head[1] as u64) << 48u64) | ((head[2] as u64) << 40u64)
        | ((head[3] as u64) << 32u64) | ((head[4] as u64) << 24u64) | ((head[5] as u64) << 16u64)
        | ((head[6] as u64) << 8u64) | (head[7] as u64)
}

/// Takes the frame at the head of `src`, if all of it is buffered.
///
/// With fewer than 8 bytes, or fewer payload bytes than announced, the result
/// is `Ok(None)` and the buffer is untouched; a length that no `usize` can hold
/// is an error, again with the buffer untouched. Otherwise the prefix and the
/// payload leave the buffer and the payload is returned.
pub fn decode_frame(src: &mut bytes::BytesMut) -> (r: Result<Option<Vec<u8>>, CodecError>)
    ensures
        ({
            let s = buf_bytes(*old(src));
            &&& len_unrepresentable(s) <==> r is Err
            &&& r is Err ==> r->Err_0 == CodecError::LengthTooLarge(announced_len(s))
            &&& holds_frame(s) <==> (r is Ok && r->Ok_0 is Some)
            &&& holds_frame(s) ==> r->Ok_0->Some_0@ == head_payload(s)
            &&& buf_bytes(*final(src)) == kept_after_decode(s)
        }),
{
    let len = buffered_len(src);
    if len < PREFIX_LEN {
        return Ok(None);
    }
    let head = buffered_head(src, PREFIX_LEN);
    let announced = read_prefix(&head);
    if announced > usize::MAX as u64 {
        return Err(CodecError::LengthTooLarge(announced));
    }
    let n = announced as usize;
    if len - PREFIX_LEN < n {
        return Ok(None);
    }
    let _prefix = take_front(src, PREFIX_LEN);
    let payload = take_front(src, n);
    let out = buffer_to_vec(&payload);
    proof {
        let s = buf_bytes(*old(src));
        assert(out@ =~= head_payload(s));
        assert(buf_bytes(*src) =~= after_frame(s));
    }
    Ok(Some(out))
}

/// Appends to `dst` the frame that carries `payload`: its length as 8
/// big-endian bytes, then the payload itself.
pub fn encode_frame(payload: &[u8], dst: &mut bytes::BytesMut)
    ensures
        buf_bytes(*final(dst)) == buf_bytes(*old(dst)) + framed(payload@),
{
    let n = payload.len() as u64;
    let prefix: [u8; 8] = [
        (n >> 56u64) as u8, (n >> 48u64) as u8, (n >> 40u64) as u8, (n >> 32u64) as u8,
        (n >> 24u64) as u8, (n >> 16u64) as u8, (n >> 8u64) as u8, n as u8,
    ];
    assert(prefix@ =~= be_bytes(n));
    append_bytes(dst, &prefix);
    append_bytes(dst, payload);
    assert(buf_bytes(*dst) =~= buf_bytes(*old(dst)) + framed(payload@));
}

} // verus!
