//! Properties that relate several functions of the library.
use vstd::bytes::{spec_u64_to_le_bytes_open, spec_u64_to_le_bytes_to_open};
use vstd::prelude::*;
use vstd::utf8::encode_utf8;

use crate::account::Pubkey;
use crate::codec::{
    encodable, lemma_field_readable, lemma_le32_zero, lemma_utf8_injective, string_field,
};
use crate::instruction::{
    fields_encodable, instruction_bytes, is_instruction_encoding, lemma_instruction_layout,
};
use crate::processor::Invocation;
use crate::record::{
    is_slot_encoding, lemma_slot_layout, record_fits, slot_bytes, slot_flag_set, zeros, Repository,
};

verus! {

/// A payload whose first byte is not the registration tag, or an empty one,
/// is no command: decoding it fails.
pub proof fn lemma_unknown_tag_rejected(data: Seq<u8>)
    requires
        data.len() == 0 || data[0] != 0u8,
    ensures
        !is_instruction_encoding(data),
{
    assert forall|p: Seq<char>, c: Seq<char>, d: Seq<char>|
        fields_encodable(p, c, d) implies #[trigger] instruction_bytes(p, c, d) != data by {
        lemma_instruction_layout(p, c, d);
    }
}

/// If one field and what follows it start another, the fields hold the same
/// string and the first tail starts the second.
proof fn lemma_field_prefix(s: Seq<char>, x: Seq<u8>, t: Seq<char>, y: Seq<u8>)
    requires
        encodable(s),
        encodable(t),
        string_field(s).len() + x.len() <= string_field(t).len() + y.len(),
        string_field(s) + x == (string_field(t) + y).subrange(
            0,
            (string_field(s).len() + x.len()) as int,
        ),
    ensures
        s == t,
        x == y.subrange(0, x.len() as int),
{
    let a = string_field(s) + x;
    let b = string_field(t) + y;
    lemma_field_readable(s, x);
    lemma_field_readable(t, y);
    assert(a.subrange(0, 4) =~= b.subrange(0, 4));
    let n = encode_len(s);
    assert(a.subrange(4, 4 + n) =~= b.subrange(4, 4 + n));
    lemma_utf8_injective(s, t);
    assert(x =~= y.subrange(0, x.len() as int));
}

/// Byte count of a string's UTF-8 form.
spec fn encode_len(s: Seq<char>) -> int {
    encode_utf8(s).len() as int
}

/// A payload cut short is no command: decoding a strict prefix of any
/// command's payload fails.
pub proof fn lemma_truncated_rejected(p: Seq<char>, c: Seq<char>, d: Seq<char>, k: int)
    requires
        fields_encodable(p, c, d),
        0 <= k < instruction_bytes(p, c, d).len(),
    ensures
        !is_instruction_encoding(instruction_bytes(p, c, d).subrange(0, k)),
{
    let b = instruction_bytes(p, c, d);
    let cut = b.subrange(0, k);
    assert forall|p2: Seq<char>, c2: Seq<char>, d2: Seq<char>|
        fields_encodable(p2, c2, d2) implies #[trigger] instruction_bytes(p2, c2, d2) != cut by {
        if instruction_bytes(p2, c2, d2) == cut {
            lemma_instruction_layout(p, c, d);
            lemma_instruction_layout(p2, c2, d2);
            let x2 = string_field(c2) + string_field(d2);
            let x = string_field(c) + string_field(d);
            assert(string_field(p2) + x2 =~= (string_field(p) + x).subrange(0, k - 1));
            lemma_field_prefix(p2, x2, p, x);
            assert(string_field(c2) + string_field(d2) =~= (string_field(c) + string_field(
                d,
            )).subrange(0, x2.len() as int));
            lemma_field_prefix(c2, string_field(d2), c, string_field(d));
            assert(string_field(d2) + Seq::<u8>::empty() =~= (string_field(d) + Seq::<
                u8,
            >::empty()).subrange(0, string_field(d2).len() as int));
            lemma_field_prefix(d2, Seq::<u8>::empty(), d, Seq::<u8>::empty());
        }
    }
}

/// Once a registration has written its record, any later registration of the
/// same slot that is handed those bytes by the allocator sees a decodable,
/// initialized record, so its step ends in `AccountAlreadyInitialized` and
/// writes nothing.
pub proof fn lemma_written_slot_refused(first: Invocation, timestamp: i64)
    requires
        first.wf(),
    ensures
        is_slot_encoding(first.record_bytes(timestamp)),
        slot_flag_set(first.record_bytes(timestamp)),
{
    let (o, p, c, d) = (
        first.owner,
        first.project_name@,
        first.content_pointer@,
        first.description@,
    );
    lemma_slot_layout(o, p, c, d, timestamp, true);
    assert(slot_bytes(o.0@, p, c, d, timestamp, true) == first.record_bytes(timestamp));
}

/// A freshly allocated, zero-filled slot holds a record whose flag is clear,
/// so the first registration of a slot passes the initialization guard.
pub proof fn lemma_fresh_slot_accepted()
    ensures
        is_slot_encoding(zeros(Repository::LEN as nat)),
        !slot_flag_set(zeros(Repository::LEN as nat)),
{
    let e = Seq::<char>::empty();
    assert(encode_utf8(e) =~= Seq::<u8>::empty());
    lemma_le32_zero();
    let key = vstd::array::spec_array_fill_for_copy_type::<u8, 32>(0u8);
    vstd::array::axiom_spec_array_fill_for_copy_type::<u8, 32>(0u8);
    vstd::array::array_len_matches_n(&key);
    let o = Pubkey(key);
    assert(o.0@ =~= zeros(32));
    spec_u64_to_le_bytes_to_open(0);
    assert(((0u64 & 0xff) == 0 && ((0u64 >> 8) & 0xff) == 0 && ((0u64 >> 16) & 0xff) == 0 && ((
    0u64 >> 24) & 0xff) == 0) && (((0u64 >> 32) & 0xff) == 0 && ((0u64 >> 40) & 0xff) == 0 && ((
    0u64 >> 48) & 0xff) == 0 && ((0u64 >> 56) & 0xff) == 0)) by (bit_vector);
    assert(spec_u64_to_le_bytes_open(0) =~= zeros(8));
    assert(record_fits(e, e, e));
    assert(slot_bytes(o.0@, e, e, e, 0, false) =~= zeros(Repository::LEN as nat));
}

/// The owner key in a written record is the invocation's owner, which
/// `add_repository` takes from the signing account.
pub proof fn lemma_record_owner_is_signer(inv: Invocation, timestamp: i64)
    requires
        inv.wf(),
    ensures
        inv.record_bytes(timestamp).subrange(0, 32) == inv.owner.0@,
{
    lemma_slot_layout(
        inv.owner,
        inv.project_name@,
        inv.content_pointer@,
        inv.description@,
        timestamp,
        true,
    );
}

} // verus!
