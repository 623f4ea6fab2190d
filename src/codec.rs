//! The request payload: one tagged command whose three string fields are
//! each a little-endian `u32` byte count followed by UTF-8 bytes.
use vstd::prelude::*;
use vstd::slice::slice_subrange;
use vstd::utf8::{encode_utf8, encode_utf8_decode_utf8, encode_utf8_valid_utf8, valid_utf8};

use crate::account::ProgramError;

verus! {

/// Tag byte of the one command the program knows.
pub const ADD_REPOSITORY_TAG: u8 = 0;

/// `n` as four little-endian bytes.
pub closed spec fn le32(n: u32) -> Seq<u8> {
    seq![
        (n & 0xff) as u8,
        ((n >> 8) & 0xff) as u8,
        ((n >> 16) & 0xff) as u8,
        ((n >> 24) & 0xff) as u8,
    ]
}

/// The number that the first four bytes of `b` hold, little-endian.
pub closed spec fn le32_value(b: Seq<u8>) -> u32 {
    (b[0] as u32) | ((b[1] as u32) << 8) | ((b[2] as u32) << 16) | ((b[3] as u32) << 24)
}

/// Reading back four little-endian bytes gives the number written.
pub proof fn lemma_le32_value_of(n: u32)
    ensures
        le32(n).len() == 4,
        le32_value(le32(n)) == n,
{
    assert((n & 0xff) < 256 && ((n >> 8) & 0xff) < 256 && ((n >> 16) & 0xff) < 256 && ((n >> 24)
        & 0xff) < 256) by (bit_vector);
    assert(n == (n & 0xff) | ((n >> 8) & 0xff) << 8 | ((n >> 16) & 0xff) << 16 | ((n >> 24)
        & 0xff) << 24) by (bit_vector);
}

/// Zero is four zero bytes.
pub proof fn lemma_le32_zero()
    ensures
        le32(0) == seq![0u8, 0u8, 0u8, 0u8],
{
    assert((0u32 & 0xff) == 0 && ((0u32 >> 8) & 0xff) == 0 && ((0u32 >> 16) & 0xff) == 0 && ((0u32
        >> 24) & 0xff) == 0) by (bit_vector);
    assert(le32(0) =~= seq![0u8, 0u8, 0u8, 0u8]);
}

/// Four bytes are the little-endian form of the number they hold.
pub proof fn lemma_le32_of_value(b: Seq<u8>)
    requires
        b.len() == 4,
    ensures
        le32(le32_value(b)) == b,
{
    let (s0, s1, s2, s3) = (b[0] as u32, b[1] as u32, b[2] as u32, b[3] as u32);
    let x = le32_value(b);
    assert((x == s0 | s1 << 8 | s2 << 16 | s3 << 24 && s0 < 256 && s1 < 256 && s2 < 256 && s3
        < 256) ==> (s0 == (x & 0xff) && s1 == ((x >> 8) & 0xff) && s2 == ((x >> 16) & 0xff) && s3
        == ((x >> 24) & 0xff))) by (bit_vector);
    assert(le32(x) =~= b);
}

/// Whether a string's UTF-8 form is short enough for a `u32` byte count.
pub open spec fn encodable(s: Seq<char>) -> bool {
    encode_utf8(s).len() <= u32::MAX
}

/// A string as a length-prefixed field: `u32` little-endian byte count, then the UTF-8 bytes.
pub open spec fn string_field(s: Seq<char>) -> Seq<u8> {
    le32(encode_utf8(s).len() as u32) + encode_utf8(s)
}

/// The byte count that a length prefix at the start of `b` announces.
pub open spec fn prefix_len(b: Seq<u8>) -> int {
    le32_value(b.subrange(0, 4)) as int
}

/// Whether `b` starts with a complete length-prefixed UTF-8 string.
pub open spec fn string_readable(b: Seq<u8>) -> bool {
    &&& b.len() >= 4
    &&& 4 + prefix_len(b) <= b.len()
    &&& valid_utf8(b.subrange(4, 4 + prefix_len(b)))
}

/// Relies on borsh's `String` deserialization from a byte slice: it reads a
/// little-endian `u32` byte count and that many bytes, fails unless they are
/// UTF-8, and advances the slice past them. Returns the string and the number
/// of bytes left after it.
#[verifier::external_body]
pub(crate) fn read_string(buf: &[u8]) -> (r: Option<(String, usize)>)
    ensures
        r is Some <==> string_readable(buf@),
        r matches Some((s, rest)) ==> {
            &&& encode_utf8(s@) == buf@.subrange(4, 4 + prefix_len(buf@))
            &&& rest == buf@.len() - 4 - prefix_len(buf@)
        },
{
    let mut rest: &[u8] = buf;
    match <String as borsh::BorshDeserialize>::deserialize(&mut rest) {
        Ok(s) => Some((s, rest.len())),
        Err(_) => None,
    }
}

/// Relies on `borsh::to_vec` of a `String`: a little-endian `u32` byte count,
/// then the UTF-8 bytes; it fails only when the count does not fit in a `u32`.
#[verifier::external_body]
pub(crate) fn string_to_vec(s: &String) -> (r: Option<Vec<u8>>)
    ensures
        r is Some <==> encodable(s@),
        r matches Some(v) ==> v@ == string_field(s@),
{
    borsh::to_vec(s).ok()
}

/// Appends `src` to `dst`.
pub(crate) fn append_bytes(dst: &mut Vec<u8>, src: &Vec<u8>)
    ensures
        final(dst)@ == old(dst)@ + src@,
{
    let mut i: usize = 0;
    while i < src.len()
        invariant
            i <= src@.len(),
            dst@ == old(dst)@ + src@.subrange(0, i as int),
        decreases src@.len() - i,
    {
        dst.push(src[i]);
        i = i + 1;
        proof {
            assert(src@.subrange(0, i as int) =~= src@.subrange(0, i - 1) + seq![src@[i - 1]]);
        }
    }
    proof {
        assert(src@.subrange(0, i as int) =~= src@);
    }
}

/// Two strings with the same UTF-8 bytes are the same string.
pub proof fn lemma_utf8_injective(s: Seq<char>, t: Seq<char>)
    requires
        encode_utf8(s) == encode_utf8(t),
    ensures
        s == t,
{
    encode_utf8_decode_utf8(s);
    encode_utf8_decode_utf8(t);
}

/// A field followed by anything reads back as that field's string.
pub proof fn lemma_field_readable(s: Seq<char>, tail: Seq<u8>)
    requires
        encodable(s),
    ensures
        string_readable(string_field(s) + tail),
        prefix_len(string_field(s) + tail) == encode_utf8(s).len(),
        (string_field(s) + tail).subrange(4, 4 + encode_utf8(s).len() as int) == encode_utf8(s),
        (string_field(s) + tail).subrange(4 + encode_utf8(s).len() as int, (string_field(s).len() + tail.len()) as int) == tail,
        string_field(s).len() == 4 + encode_utf8(s).len(),
{
    encode_utf8_valid_utf8(s);
    let n = encode_utf8(s).len() as int;
    lemma_le32_value_of(n as u32);
    let b = string_field(s) + tail;
    let le = le32(n as u32);
    assert(b.subrange(0, 4) =~= le);
    assert(b.subrange(4, 4 + n) =~= encode_utf8(s));
    assert(b.subrange(4 + n, b.len() as int) =~= tail);
}

/// What a successful read found is exactly one field at the front of the buffer.
pub proof fn lemma_read_is_field(buf: Seq<u8>, s: Seq<char>)
    requires
        string_readable(buf),
        encode_utf8(s) == buf.subrange(4, 4 + prefix_len(buf)),
    ensures
        encodable(s),
        buf.subrange(0, 4 + prefix_len(buf)) == string_field(s),
        string_field(s).len() == 4 + prefix_len(buf),
{
    let n = prefix_len(buf);
    lemma_le32_of_value(buf.subrange(0, 4));
    assert(le32(n as u32) == buf.subrange(0, 4));
    assert(buf.subrange(0, 4 + n) =~= buf.subrange(0, 4) + buf.subrange(4, 4 + n));
}

} // verus!
