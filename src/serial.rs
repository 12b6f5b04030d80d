//! Payload serialisation through bincode's default configuration: fixed-width
//! little-endian integers, a sequence as its `u64` length then its elements.

use vstd::prelude::*;

verus! {

#[verifier::external_type_specification]
#[verifier::external_body]
pub struct ExBincodeErrorKind(bincode::ErrorKind);

pub open spec fn le16(x: u16) -> Seq<u8> {
    seq![x as u8, (x >> 8u16) as u8]
}

pub open spec fn le16_value(s: Seq<u8>) -> u16 {
    (s[0] as u16) | ((s[1] as u16) << 8u16)
}

pub open spec fn le32(x: u32) -> Seq<u8> {
    seq![x as u8, (x >> 8u32) as u8, (x >> 16u32) as u8, (x >> 24u32) as u8]
}

pub open spec fn le32_value(s: Seq<u8>) -> u32 {
    (s[0] as u32) | ((s[1] as u32) << 8u32) | ((s[2] as u32) << 16u32) | ((s[3] as u32) << 24u32)
}

pub open spec fn le64(x: u64) -> Seq<u8> {
    seq![
        x as u8, (x >> 8u64) as u8, (x >> 16u64) as u8, (x >> 24u64) as u8,
        (x >> 32u64) as u8, (x >> 40u64) as u8, (x >> 48u64) as u8, (x >> 56u64) as u8,
    ]
}

pub open spec fn le64_value(s: Seq<u8>) -> u64 {
    (s[0] as u64) | ((s[1] as u64) << 8u64) | ((s[2] as u64) << 16u64) | ((s[3] as u64) << 24u64)
        | ((s[4] as u64) << 32u64) | ((s[5] as u64) << 40u64) | ((s[6] as u64) << 48u64)
        | ((s[7] as u64) << 56u64)
}

/// The words of `w`, each as two little-endian bytes, one after the other.
pub open spec fn words_body(w: Seq<u16>) -> Seq<u8>
    decreases w.len(),
{
    if w.len() == 0 {
        Seq::empty()
    } else {
        words_body(w.drop_last()) + le16(w.last())
    }
}

/// The serialised form of a sequence of words: its length as a `u64`, then the words.
pub open spec fn words_payload(w: Seq<u16>) -> Seq<u8> {
    le64(w.len() as u64) + words_body(w)
}

/// The words that a payload holds, read back; `None` where the bytes run out
/// before the announced count of words. Bytes after the last word are ignored.
pub open spec fn words_parse(b: Seq<u8>) -> Option<Seq<u16>> {
    if b.len() < 8 {
        None
    } else {
        let n = le64_value(b.subrange(0, 8));
        if (b.len() - 8) / 2 < n {
            None
        } else {
            Some(Seq::new(n as nat, |i: int| le16_value(b.subrange(8 + 2 * i, 10 + 2 * i))))
        }
    }
}

/// The `u32` at the head of a payload.
pub open spec fn tag_parse(b: Seq<u8>) -> Option<u32> {
    if b.len() < 4 {
        None
    } else {
        Some(le32_value(b.subrange(0, 4)))
    }
}

/// A `u32` then two `u16`s at the head of a payload.
pub open spec fn fields_parse(b: Seq<u8>) -> Option<(u32, u16, u16)> {
    if b.len() < 8 {
        None
    } else {
        Some((le32_value(b.subrange(0, 4)), le16_value(b.subrange(4, 6)), le16_value(b.subrange(6, 8))))
    }
}

/// Relies on `bincode::serialize` for `Vec<u16>`: the length as a little-endian
/// `u64`, then each word as a little-endian `u16`. With the default unbounded
/// size limit, and a sequence whose length is known, it does not fail.
#[verifier::external_body]
pub(crate) fn serialize_words(w: &Vec<u16>) -> (r: Result<Vec<u8>, Box<bincode::ErrorKind>>)
    ensures
        r is Ok,
        r is Ok ==> r->Ok_0@ == words_payload(w@),
{
    bincode::serialize(w)
}

/// Relies on `bincode::deserialize` for `Vec<u16>`: a little-endian `u64` count,
/// then that many little-endian `u16`s; an error where the bytes run out;
/// trailing bytes allowed.
#[verifier::external_body]
pub(crate) fn deserialize_words(b: &[u8]) -> (r: Result<Vec<u16>, Box<bincode::ErrorKind>>)
    ensures
        r is Ok <==> words_parse(b@) is Some,
        r is Ok ==> r->Ok_0@ == words_parse(b@)->Some_0,
{
    bincode::deserialize(b)
}

/// Relies on `bincode::serialize` for `u32`: four little-endian bytes; with
/// the default unbounded size limit it does not fail.
#[verifier::external_body]
pub(crate) fn serialize_tag(t: u32) -> (r: Result<Vec<u8>, Box<bincode::ErrorKind>>)
    ensures
        r is Ok,
        r is Ok ==> r->Ok_0@ == le32(t),
{
    bincode::serialize(&t)
}

/// Relies on `bincode::serialize` for `(u32, u16, u16)`: the fields in order,
/// each little-endian, with no padding; with the default unbounded size limit
/// it does not fail.
#[verifier::external_body]
pub(crate) fn serialize_fields(t: u32, a: u16, c: u16) -> (r: Result<Vec<u8>, Box<bincode::ErrorKind>>)
    ensures
        r is Ok,
        r is Ok ==> r->Ok_0@ == le32(t) + le16(a) + le16(c),
{
    bincode::serialize(&(t, a, c))
}

/// Relies on `bincode::deserialize` for `u32`: the first four bytes, little-endian;
/// an error where there are fewer; trailing bytes allowed.
#[verifier::external_body]
pub(crate) fn deserialize_tag(b: &[u8]) -> (r: Result<u32, Box<bincode::ErrorKind>>)
    ensures
        r is Ok <==> tag_parse(b@) is Some,
        r is Ok ==> r->Ok_0 == tag_parse(b@)->Some_0,
{
    bincode::deserialize(b)
}

/// Relies on `bincode::deserialize` for `(u32, u16, u16)`: the first eight bytes,
/// little-endian fields in order; an error where there are fewer; trailing bytes allowed.
#[verifier::external_body]
pub(crate) fn deserialize_fields(b: &[u8]) -> (r: Result<(u32, u16, u16), Box<bincode::ErrorKind>>)
    ensures
        r is Ok <==> fields_parse(b@) is Some,
        r is Ok ==> r->Ok_0 == fields_parse(b@)->Some_0,
{
    bincode::deserialize(b)
}

pub proof fn lemma_le16_round_trip(x: u16)
    ensures
        le16(x).len() == 2,
        le16_value(le16(x)) == x,
{
    let (b0, b1) = (x as u8, (x >> 8u16) as u8);
    assert((b0 as u16) | ((b1 as u16) << 8u16) == x) by (bit_vector)
        requires
            b0 == x as u8, b1 == (x >> 8u16) as u8,
    ;
}

pub proof fn lemma_le32_round_trip(x: u32)
    ensures
        le32(x).len() == 4,
        le32_value(le32(x)) == x,
{
    let (b0, b1, b2, b3) = (x as u8, (x >> 8u32) as u8, (x >> 16u32) as u8, (x >> 24u32) as u8);
    assert((b0 as u32) | ((b1 as u32) << 8u32) | ((b2 as u32) << 16u32) | ((b3 as u32) << 24u32)
        == x) by (bit_vector)
        requires
            b0 == x as u8, b1 == (x >> 8u32) as u8, b2 == (x >> 16u32) as u8, b3 == (x >> 24u32) as u8,
    ;
}

pub proof fn lemma_le64_round_trip(x: u64)
    ensures
        le64(x).len() == 8,
        le64_value(le64(x)) == x,
{
    let s = le64(x);
    let (b0, b1, b2, b3) = (x as u8, (x >> 8u64) as u8, (x >> 16u64) as u8, (x >> 24u64) as u8);
    let (b4, b5, b6, b7) = ((x >> 32u64) as u8, (x >> 40u64) as u8, (x >> 48u64) as u8, (x >> 56u64) as u8);
    assert(s[0] == b0 && s[1] == b1 && s[2] == b2 && s[3] == b3);
    assert(s[4] == b4 && s[5] == b5 && s[6] == b6 && s[7] == b7);
    assert((b0 as u64) | ((b1 as u64) << 8u64) | ((b2 as u64) << 16u64) | ((b3 as u64) << 24u64)
        | ((b4 as u64) << 32u64) | ((b5 as u64) << 40u64) | ((b6 as u64) << 48u64)
        | ((b7 as u64) << 56u64) == x) by (bit_vector)
        requires
            b0 == x as u8, b1 == (x >> 8u64) as u8, b2 == (x >> 16u64) as u8, b3 == (x >> 24u64) as u8,
            b4 == (x >> 32u64) as u8, b5 == (x >> 40u64) as u8, b6 == (x >> 48u64) as u8,
            b7 == (x >> 56u64) as u8,
    ;
}

/// Each word of `w` stands as its two little-endian bytes at offset `2 * i` of the body.
pub proof fn lemma_words_body(w: Seq<u16>)
    ensures
        words_body(w).len() == 2 * w.len(),
        forall|i: int| 0 <= i < w.len() ==> #[trigger] words_body(w).subrange(2 * i, 2 * i + 2) == le16(w[i]),
    decreases w.len(),
{
    if w.len() > 0 {
        let p = w.drop_last();
        lemma_words_body(p);
        let b = words_body(w);
        assert forall|i: int| 0 <= i < w.len() implies #[trigger] b.subrange(2 * i, 2 * i + 2) == le16(w[i]) by {
            if i < p.len() {
                assert(b.subrange(2 * i, 2 * i + 2) =~= words_body(p).subrange(2 * i, 2 * i + 2));
            } else {
                assert(b.subrange(2 * i, 2 * i + 2) =~= le16(w.last()));
            }
        }
    }
}

/// Serialising words and reading them back gives the same words.
pub proof fn lemma_words_round_trip(w: Seq<u16>)
    requires
        w.len() <= u64::MAX,
    ensures
        words_payload(w).len() == 8 + 2 * w.len(),
        words_parse(words_payload(w)) == Some(w),
{
    let b = words_payload(w);
    lemma_le64_round_trip(w.len() as u64);
    lemma_words_body(w);
    assert(b.subrange(0, 8) =~= le64(w.len() as u64));
    let r = Seq::new(w.len(), |i: int| le16_value(b.subrange(8 + 2 * i, 10 + 2 * i)));
    assert forall|i: int| 0 <= i < w.len() implies r[i] == w[i] by {
        assert(b.subrange(8 + 2 * i, 10 + 2 * i) =~= words_body(w).subrange(2 * i, 2 * i + 2));
        lemma_le16_round_trip(w[i]);
    }
    assert(r =~= w);
}

} // verus!
