//! The two typed codecs: requests outbound, data replies (words) inbound.
//! Both frame their payload with the discipline of `frame`.

use vstd::prelude::*;
use crate::buffer::buf_bytes;
use crate::frame::{
    decode_frame, encode_frame, framed, frame_outcome, head_payload, holds_frame,
    kept_after_decode, lemma_frame_then_rest, CodecError,
};
use crate::serial::{
    deserialize_fields, deserialize_tag, deserialize_words, fields_parse, le16, le32,
    lemma_le16_round_trip, lemma_le32_round_trip, lemma_words_round_trip, serialize_fields,
    serialize_tag, serialize_words, tag_parse, words_parse, words_payload,
};

verus! {

/// Register address.
pub type Address = u16;

/// Number of items to read.
pub type Quantity = u16;

/// One outbound command.
#[derive(Debug, Clone, Copy, PartialEq, Eq, Structural)]
pub enum Request {
    ReadHoldingRegisters(Address, Quantity),
    ReadCoils(Address, Quantity),
    ReadDiscreteInputs(Address, Quantity),
    ReadInputRegisters(Address, Quantity),
    Disconnect,
}

// The tag that stands first in a request's payload names its kind, in the
// order of the variants of `Request`.

/// Tag of `Request::ReadHoldingRegisters`.
pub const TAG_READ_HOLDING_REGISTERS: u32 = 0;
/// Tag of `Request::ReadCoils`.
pub const TAG_READ_COILS: u32 = 1;
/// Tag of `Request::ReadDiscreteInputs`.
pub const TAG_READ_DISCRETE_INPUTS: u32 = 2;
/// Tag of `Request::ReadInputRegisters`.
pub const TAG_READ_INPUT_REGISTERS: u32 = 3;
/// Tag of `Request::Disconnect`.
pub const TAG_DISCONNECT: u32 = 4;

/// The read request of tag `t`, or `None` where `t` names no read request.
pub open spec fn read_request_of(t: u32, a: u16, c: u16) -> Option<Request> {
    if t == TAG_READ_HOLDING_REGISTERS {
        Some(Request::ReadHoldingRegisters(a, c))
    } else if t == TAG_READ_COILS {
        Some(Request::ReadCoils(a, c))
    } else if t == TAG_READ_DISCRETE_INPUTS {
        Some(Request::ReadDiscreteInputs(a, c))
    } else if t == TAG_READ_INPUT_REGISTERS {
        Some(Request::ReadInputRegisters(a, c))
    } else {
        None
    }
}

/// The payload of a request: its tag as a little-endian `u32`, then, for a
/// read, the address and the count as little-endian `u16`s.
pub open spec fn request_payload(v: Request) -> Seq<u8> {
    match v {
        Request::ReadHoldingRegisters(a, c) => le32(TAG_READ_HOLDING_REGISTERS) + le16(a) + le16(c),
        Request::ReadCoils(a, c) => le32(TAG_READ_COILS) + le16(a) + le16(c),
        Request::ReadDiscreteInputs(a, c) => le32(TAG_READ_DISCRETE_INPUTS) + le16(a) + le16(c),
        Request::ReadInputRegisters(a, c) => le32(TAG_READ_INPUT_REGISTERS) + le16(a) + le16(c),
        Request::Disconnect => le32(TAG_DISCONNECT),
    }
}

/// The request that a payload holds; `None` for an unknown tag or missing fields.
pub open spec fn request_parse(b: Seq<u8>) -> Option<Request> {
    match tag_parse(b) {
        None => None,
        Some(t) => if t == TAG_DISCONNECT {
            Some(Request::Disconnect)
        } else {
            match fields_parse(b) {
                None => None,
                Some(f) => read_request_of(f.0, f.1, f.2),
            }
        },
    }
}

/// What decoding a request from the buffered bytes `s` gives.
pub open spec fn request_decoded(s: Seq<u8>) -> Result<Option<Request>, CodecError> {
    frame_outcome(s, |b: Seq<u8>| request_parse(b))
}

/// What decoding a data reply from the buffered bytes `s` gives.
pub open spec fn words_decoded(s: Seq<u8>) -> Result<Option<Seq<u16>>, CodecError> {
    frame_outcome(s, |b: Seq<u8>| words_parse(b))
}

/// A decoded data reply, its words seen as a sequence.
pub open spec fn words_outcome_view(r: Result<Option<Vec<u16>>, CodecError>) -> Result<Option<Seq<u16>>, CodecError> {
    match r {
        Ok(Some(v)) => Ok(Some(v@)),
        Ok(None) => Ok(None),
        Err(e) => Err(e),
    }
}

fn parse_request(b: &[u8]) -> (r: Result<Request, CodecError>)
    ensures
        r is Ok <==> request_parse(b@) is Some,
        r is Ok ==> r->Ok_0 == request_parse(b@)->Some_0,
        r is Err ==> r->Err_0 == CodecError::MalformedPayload,
{
    let t = match deserialize_tag(b) {
        Ok(t) => t,
        Err(_) => return Err(CodecError::MalformedPayload),
    };
    if t == TAG_DISCONNECT {
        return Ok(Request::Disconnect);
    }
    let (t, a, c) = match deserialize_fields(b) {
        Ok(f) => f,
        Err(_) => return Err(CodecError::MalformedPayload),
    };
    if t == TAG_READ_HOLDING_REGISTERS {
        Ok(Request::ReadHoldingRegisters(a, c))
    } else if t == TAG_READ_COILS {
        Ok(Request::ReadCoils(a, c))
    } else if t == TAG_READ_DISCRETE_INPUTS {
        Ok(Request::ReadDiscreteInputs(a, c))
    } else if t == TAG_READ_INPUT_REGISTERS {
        Ok(Request::ReadInputRegisters(a, c))
    } else {
        Err(CodecError::MalformedPayload)
    }
}

fn serialize_request(v: Request) -> (r: Vec<u8>)
    ensures
        r@ == request_payload(v),
{
    let out = match v {
        Request::ReadHoldingRegisters(a, c) => serialize_fields(TAG_READ_HOLDING_REGISTERS, a, c),
        Request::ReadCoils(a, c) => serialize_fields(TAG_READ_COILS, a, c),
        Request::ReadDiscreteInputs(a, c) => serialize_fields(TAG_READ_DISCRETE_INPUTS, a, c),
        Request::ReadInputRegisters(a, c) => serialize_fields(TAG_READ_INPUT_REGISTERS, a, c),
        Request::Disconnect => serialize_tag(TAG_DISCONNECT),
    };
    match out {
        Ok(b) => b,
        Err(_) => unreached(),
    }
}

/// Frames requests: the outbound direction.
pub struct ModbusRequestCodec;

impl ModbusRequestCodec {
    /// Takes the next request from `src` if its whole frame is buffered.
    pub fn decode(&mut self, src: &mut bytes::BytesMut) -> (r: Result<Option<Request>, CodecError>)
        ensures
            r == request_decoded(buf_bytes(*old(src))),
            buf_bytes(*final(src)) == kept_after_decode(buf_bytes(*old(src))),
    {
        match decode_frame(src) {
            Err(e) => Err(e),
            Ok(None) => Ok(None),
            Ok(Some(payload)) => match parse_request(payload.as_slice()) {
                Ok(v) => Ok(Some(v)),
                Err(e) => Err(e),
            },
        }
    }

    /// Appends the frame of `item` to `dst`, leaving the bytes already there untouched.
    pub fn encode(&mut self, item: Request, dst: &mut bytes::BytesMut) -> (r: Result<(), CodecError>)
        ensures
            r is Ok,
            buf_bytes(*final(dst)) == buf_bytes(*old(dst)) + framed(request_payload(item)),
    {
        let payload = serialize_request(item);
        encode_frame(payload.as_slice(), dst);
        Ok(())
    }
}

/// Frames data replies, each an ordered sequence of words: the inbound direction.
pub struct ModbusDataCodec;

impl ModbusDataCodec {
    /// Takes the next data reply from `src` if its whole frame is buffered.
    pub fn decode(&mut self, src: &mut bytes::BytesMut) -> (r: Result<Option<Vec<u16>>, CodecError>)
        ensures
            words_outcome_view(r) == words_decoded(buf_bytes(*old(src))),
            buf_bytes(*final(src)) == kept_after_decode(buf_bytes(*old(src))),
    {
        match decode_frame(src) {
            Err(e) => Err(e),
            Ok(None) => Ok(None),
            Ok(Some(payload)) => match deserialize_words(payload.as_slice()) {
                Ok(v) => Ok(Some(v)),
                Err(_) => Err(CodecError::MalformedPayload),
            },
        }
    }

    /// Appends the frame of `item` to `dst`, leaving the bytes already there untouched.
    pub fn encode(&mut self, item: Vec<u16>, dst: &mut bytes::BytesMut) -> (r: Result<(), CodecError>)
        ensures
            r is Ok,
            buf_bytes(*final(dst)) == buf_bytes(*old(dst)) + framed(words_payload(item@)),
    {
        let payload = match serialize_words(&item) {
            Ok(b) => b,
            Err(_) => unreached(),
        };
        encode_frame(payload.as_slice(), dst);
        Ok(())
    }
}

/// Reading back the payload of a request gives that request.
pub proof fn lemma_request_payload_round_trip(v: Request)
    ensures
        request_parse(request_payload(v)) == Some(v),
        request_payload(v).len() <= 8,
{
    let b = request_payload(v);
    match v {
        Request::Disconnect => {
            lemma_le32_round_trip(TAG_DISCONNECT);
            assert(b.subrange(0, 4) =~= le32(TAG_DISCONNECT));
        },
        Request::ReadHoldingRegisters(a, c) | Request::ReadCoils(a, c)
        | Request::ReadDiscreteInputs(a, c) | Request::ReadInputRegisters(a, c) => {
            let t = if v is ReadHoldingRegisters {
                TAG_READ_HOLDING_REGISTERS
            } else if v is ReadCoils {
                TAG_READ_COILS
            } else if v is ReadDiscreteInputs {
                TAG_READ_DISCRETE_INPUTS
            } else {
                TAG_READ_INPUT_REGISTERS
            };
            assert(b == le32(t) + le16(a) + le16(c));
            lemma_le32_round_trip(t);
            lemma_le16_round_trip(a);
            lemma_le16_round_trip(c);
            assert(b.subrange(0, 4) =~= le32(t));
            assert(b.subrange(4, 6) =~= le16(a));
            assert(b.subrange(6, 8) =~= le16(c));
        },
    }
}

/// Decoding the frame of a request, whatever bytes follow it, gives back that
/// request and leaves exactly the following bytes buffered.
pub proof fn lemma_request_round_trip(v: Request, rest: Seq<u8>)
    ensures
        request_decoded(framed(request_payload(v)) + rest) == Ok::<Option<Request>, CodecError>(Some(v)),
        kept_after_decode(framed(request_payload(v)) + rest) == rest,
{
    lemma_request_payload_round_trip(v);
    lemma_frame_then_rest(request_payload(v), rest);
}

/// Decoding the frame of a data reply, whatever bytes follow it, gives back
/// the same words and leaves exactly the following bytes buffered.
pub proof fn lemma_words_frame_round_trip(w: Seq<u16>, rest: Seq<u8>)
    requires
        16 + 2 * w.len() <= usize::MAX,
    ensures
        words_decoded(framed(words_payload(w)) + rest) == Ok::<Option<Seq<u16>>, CodecError>(Some(w)),
        kept_after_decode(framed(words_payload(w)) + rest) == rest,
{
    lemma_words_round_trip(w);
    lemma_frame_then_rest(words_payload(w), rest);
}

/// Two request frames sent back to back decode, in two attempts, to the two
/// requests in order, with nothing left over.
pub proof fn lemma_two_requests(v1: Request, v2: Request)
    ensures
        ({
            let s = framed(request_payload(v1)) + framed(request_payload(v2));
            &&& request_decoded(s) == Ok::<Option<Request>, CodecError>(Some(v1))
            &&& kept_after_decode(s) == framed(request_payload(v2))
            &&& request_decoded(kept_after_decode(s)) == Ok::<Option<Request>, CodecError>(Some(v2))
            &&& kept_after_decode(kept_after_decode(s)).len() == 0
        }),
{
    lemma_request_round_trip(v1, framed(request_payload(v2)));
    lemma_request_round_trip(v2, Seq::empty());
    assert(framed(request_payload(v2)) + Seq::<u8>::empty() =~= framed(request_payload(v2)));
}

/// Two data-reply frames sent back to back decode, in two attempts, to the
/// two replies in order, with nothing left over.
pub proof fn lemma_two_replies(w1: Seq<u16>, w2: Seq<u16>)
    requires
        16 + 2 * w1.len() <= usize::MAX,
        16 + 2 * w2.len() <= usize::MAX,
    ensures
        ({
            let s = framed(words_payload(w1)) + framed(words_payload(w2));
            &&& words_decoded(s) == Ok::<Option<Seq<u16>>, CodecError>(Some(w1))
            &&& kept_after_decode(s) == framed(words_payload(w2))
            &&& words_decoded(kept_after_decode(s)) == Ok::<Option<Seq<u16>>, CodecError>(Some(w2))
            &&& kept_after_decode(kept_after_decode(s)).len() == 0
        }),
{
    lemma_words_frame_round_trip(w1, framed(words_payload(w2)));
    lemma_words_frame_round_trip(w2, Seq::empty());
    assert(framed(words_payload(w2)) + Seq::<u8>::empty() =~= framed(words_payload(w2)));
}

} // verus!
