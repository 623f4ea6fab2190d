//! The repository record and its fixed-capacity layout in a storage slot.
//!
//! Layout: 32-byte owner key | project name field (64 bytes of capacity) |
//! content pointer field (64) | description field (256) | 8-byte
//! little-endian timestamp | 1-byte initialization flag. Each string field
//! is a `u32` little-endian byte count, the UTF-8 bytes, then zero padding
//! up to its capacity.
use vstd::bytes::{
    lemma_auto_spec_u64_to_from_le_bytes, spec_u64_from_le_bytes, spec_u64_to_le_bytes,
    u64_from_le_bytes, u64_to_le_bytes,
};
use vstd::prelude::*;
use vstd::slice::slice_subrange;
use vstd::utf8::encode_utf8;

use crate::account::{ProgramError, Pubkey};
use crate::codec::{
    lemma_field_readable, lemma_read_is_field, lemma_utf8_injective, prefix_len, read_string,
    string_field, string_to_vec, append_bytes,
};

verus! {

/// Largest project name, in UTF-8 bytes.
pub const MAX_PROJECT_NAME_LEN: usize = 64;

/// Largest content pointer, in UTF-8 bytes.
pub const MAX_CONTENT_POINTER_LEN: usize = 64;

/// Largest description, in UTF-8 bytes.
pub const MAX_DESCRIPTION_LEN: usize = 256;

/// Offset of the project name field.
pub const PROJECT_NAME_OFFSET: usize = 32;

/// Offset of the content pointer field.
pub const CONTENT_POINTER_OFFSET: usize = 100;

/// Offset of the description field.
pub const DESCRIPTION_OFFSET: usize = 168;

/// Offset of the timestamp.
pub const TIMESTAMP_OFFSET: usize = 428;

/// Offset of the initialization flag.
pub const FLAG_OFFSET: usize = 436;

/// `n` zero bytes.
pub open spec fn zeros(n: nat) -> Seq<u8> {
    Seq::new(n, |i: int| 0u8)
}

/// Whether a string's UTF-8 form fits in `cap` bytes.
pub open spec fn fits(s: Seq<char>, cap: nat) -> bool {
    encode_utf8(s).len() <= cap
}

/// A string in a field of capacity `cap`: length prefix, bytes, zero padding.
pub open spec fn slot_field(s: Seq<char>, cap: nat) -> Seq<u8> {
    string_field(s) + zeros((cap - encode_utf8(s).len()) as nat)
}

/// Whether the three strings fit their fields.
pub open spec fn record_fits(p: Seq<char>, c: Seq<char>, d: Seq<char>) -> bool {
    &&& fits(p, MAX_PROJECT_NAME_LEN as nat)
    &&& fits(c, MAX_CONTENT_POINTER_LEN as nat)
    &&& fits(d, MAX_DESCRIPTION_LEN as nat)
}

/// The flag byte for an initialization state.
pub open spec fn flag_byte(init: bool) -> u8 {
    if init {
        1u8
    } else {
        0u8
    }
}

/// The slot bytes of a record.
pub open spec fn slot_bytes(
    owner: Seq<u8>,
    p: Seq<char>,
    c: Seq<char>,
    d: Seq<char>,
    timestamp: i64,
    init: bool,
) -> Seq<u8> {
    owner + slot_field(p, MAX_PROJECT_NAME_LEN as nat) + slot_field(
        c,
        MAX_CONTENT_POINTER_LEN as nat,
    ) + slot_field(d, MAX_DESCRIPTION_LEN as nat) + spec_u64_to_le_bytes(timestamp as u64) + seq![
        flag_byte(init),
    ]
}

/// Whether `data` holds some record.
pub open spec fn is_slot_encoding(data: Seq<u8>) -> bool {
    exists|o: Pubkey, p: Seq<char>, c: Seq<char>, d: Seq<char>, t: i64, init: bool|
        record_fits(p, c, d) && #[trigger] slot_bytes(o.0@, p, c, d, t, init) == data
}

/// Whether a slot's flag byte says it is initialized.
pub open spec fn slot_flag_set(data: Seq<u8>) -> bool {
    data.len() == Repository::LEN && data[FLAG_OFFSET as int] == 1u8
}

/// Whether the bytes at `off` are a field of capacity `cap` holding some string.
pub open spec fn is_field_at(data: Seq<u8>, off: int, cap: nat) -> bool {
    exists|s: Seq<char>|
        fits(s, cap) && #[trigger] slot_field(s, cap) == data.subrange(off, off + 4 + cap)
}

/// A persisted repository record.
#[derive(Clone, Debug)]
pub struct Repository {
    /// The identity that signed the registration.
    pub owner: Pubkey,
    /// Human-readable label.
    pub project_name: String,
    /// Content-addressed reference.
    pub content_pointer: String,
    /// Free-text annotation.
    pub description: String,
    /// Ledger time of creation, in seconds.
    pub timestamp: i64,
    /// Set once the record is written.
    pub is_initialized: bool,
}

impl Repository {
    /// Size of a record's slot in bytes.
    pub const LEN: usize = 32 + 4 + 64 + 4 + 64 + 4 + 256 + 8 + 1;

    /// Whether the record's strings fit their fields.
    pub open spec fn fits(&self) -> bool {
        record_fits(self.project_name@, self.content_pointer@, self.description@)
    }

    /// The record's slot bytes.
    pub open spec fn spec_slot_bytes(&self) -> Seq<u8> {
        slot_bytes(
            self.owner.0@,
            self.project_name@,
            self.content_pointer@,
            self.description@,
            self.timestamp,
            self.is_initialized,
        )
    }

    /// Reads a record from a slot's bytes.
    pub fn unpack(data: &[u8]) -> (r: Result<Repository, ProgramError>)
        ensures
            match r {
                Ok(rec) => rec.fits() && rec.spec_slot_bytes() == data@,
                Err(e) => e == ProgramError::InvalidAccountData && !is_slot_encoding(data@),
            },
    {
        if data.len() != Repository::LEN {
            proof {
                assert forall|o: Pubkey, p: Seq<char>, c: Seq<char>, d: Seq<char>, t: i64, init: bool|
                    record_fits(p, c, d) implies #[trigger] slot_bytes(o.0@, p, c, d, t, init)
                    != data@ by {
                    lemma_slot_layout(o, p, c, d, t, init);
                }
            }
            return Err(ProgramError::InvalidAccountData);
        }
        let project_name = read_slot_field(data, PROJECT_NAME_OFFSET, MAX_PROJECT_NAME_LEN);
        let content_pointer = read_slot_field(data, CONTENT_POINTER_OFFSET, MAX_CONTENT_POINTER_LEN);
        let description = read_slot_field(data, DESCRIPTION_OFFSET, MAX_DESCRIPTION_LEN);
        let flag = data[FLAG_OFFSET];
        if project_name.is_none() || content_pointer.is_none() || description.is_none() || flag > 1 {
            proof {
                assert forall|o: Pubkey, p: Seq<char>, c: Seq<char>, d: Seq<char>, t: i64, init: bool|
                    record_fits(p, c, d) implies #[trigger] slot_bytes(o.0@, p, c, d, t, init)
                    != data@ by {
                    lemma_slot_layout(o, p, c, d, t, init);
                }
            }
            return Err(ProgramError::InvalidAccountData);
        }
        let project_name = project_name.unwrap();
        let content_pointer = content_pointer.unwrap();
        let description = description.unwrap();
        let mut key = [0u8; 32];
        let mut i: usize = 0;
        while i < 32
            invariant
                data@.len() == Repository::LEN,
                i <= 32,
                key@.len() == 32,
                forall|j: int| 0 <= j < i ==> #[trigger] key@[j] == data@[j],
            decreases 32 - i,
        {
            key[i] = data[i];
            i = i + 1;
        }
        let ts_bytes = slice_subrange(data, TIMESTAMP_OFFSET, FLAG_OFFSET);
        let raw = u64_from_le_bytes(ts_bytes);
        let rec = Repository {
            owner: Pubkey(key),
            project_name,
            content_pointer,
            description,
            timestamp: raw as i64,
            is_initialized: flag == 1,
        };
        proof {
            lemma_auto_spec_u64_to_from_le_bytes();
            assert((raw as i64) as u64 == raw) by (bit_vector);
            assert(key@ =~= data@.subrange(0, 32));
            assert(data@ =~= data@.subrange(0, 32) + data@.subrange(32, 100) + data@.subrange(
                100,
                168,
            ) + data@.subrange(168, 428) + data@.subrange(428, 436) + seq![data@[436]]);
        }
        Ok(rec)
    }

    /// Writes the record as slot bytes; `None` when a string does not fit its field.
    pub fn pack(&self) -> (r: Option<Vec<u8>>)
        ensures
            r is Some <==> self.fits(),
            r matches Some(v) ==> v@ == self.spec_slot_bytes(),
    {
        let mut out: Vec<u8> = Vec::new();
        let mut i: usize = 0;
        while i < 32
            invariant
                i <= 32,
                out@ == self.owner.0@.subrange(0, i as int),
            decreases 32 - i,
        {
            out.push(self.owner.0[i]);
            i = i + 1;
            proof {
                assert(self.owner.0@.subrange(0, i as int) =~= self.owner.0@.subrange(0, i - 1)
                    + seq![self.owner.0@[i - 1]]);
            }
        }
        proof {
            assert(self.owner.0@.subrange(0, 32) =~= self.owner.0@);
        }
        if !push_slot_field(&mut out, &self.project_name, MAX_PROJECT_NAME_LEN) {
            return None;
        }
        if !push_slot_field(&mut out, &self.content_pointer, MAX_CONTENT_POINTER_LEN) {
            return None;
        }
        if !push_slot_field(&mut out, &self.description, MAX_DESCRIPTION_LEN) {
            return None;
        }
        let ts = u64_to_le_bytes(self.timestamp as u64);
        append_bytes(&mut out, &ts);
        out.push(if self.is_initialized {
            1u8
        } else {
            0u8
        });
        proof {
            assert(out@ =~= self.spec_slot_bytes());
        }
        Some(out)
    }
}

/// Byte count of a string's UTF-8 form.
pub(crate) fn utf8_len(s: &String) -> (n: usize)
    ensures
        n == encode_utf8(s@).len(),
{
    s.as_str().as_bytes().len()
}

/// Appends `s` as a field of capacity `cap`; false, appending nothing, when it does not fit.
fn push_slot_field(out: &mut Vec<u8>, s: &String, cap: usize) -> (ok: bool)
    requires
        cap <= 256,
    ensures
        ok == fits(s@, cap as nat),
        ok ==> final(out)@ == old(out)@ + slot_field(s@, cap as nat),
        !ok ==> final(out)@ == old(out)@,
{
    let n = utf8_len(s);
    if n > cap {
        return false;
    }
    let field = match string_to_vec(s) {
        Some(v) => v,
        None => return false,
    };
    append_bytes(out, &field);
    let ghost mid = out@;
    let mut k: usize = n;
    while k < cap
        invariant
            n <= k <= cap,
            out@ == mid + zeros((k - n) as nat),
        decreases cap - k,
    {
        out.push(0u8);
        k = k + 1;
        proof {
            assert(out@ =~= mid + zeros((k - n) as nat));
        }
    }
    true
}

/// Reads the field of capacity `cap` at `off`, if it holds a string with zero padding.
fn read_slot_field(data: &[u8], off: usize, cap: usize) -> (r: Option<String>)
    requires
        cap <= 256,
        off + 4 + cap <= data@.len(),
    ensures
        r is Some <==> is_field_at(data@, off as int, cap as nat),
        r matches Some(s) ==> fits(s@, cap as nat) && slot_field(s@, cap as nat) == data@.subrange(
            off as int,
            off + 4 + cap,
        ),
{
    let len = data.len();
    let end = off + 4 + cap;
    let region = slice_subrange(data, off, end);
    match read_string(region) {
        None => {
            proof {
                assert forall|s: Seq<char>| fits(s, cap as nat) implies #[trigger] slot_field(
                    s,
                    cap as nat,
                ) != data@.subrange(off as int, end as int) by {
                    lemma_field_readable(s, zeros((cap - encode_utf8(s).len()) as nat));
                }
            }
            None
        },
        Some((s, rest)) => {
            proof {
                lemma_read_is_field(region@, s@);
            }
            let n = cap - rest;
            let mut i: usize = off + 4 + n;
            while i < end
                invariant
                    off + 4 + n <= i <= end,
                    cap <= 256,
                    n <= cap,
                    end == off + 4 + cap,
                    end <= data@.len(),
                    region@ == data@.subrange(off as int, end as int),
                    n == prefix_len(region@),
                    encode_utf8(s@) == region@.subrange(4, 4 + n as int),
                    forall|j: int| off + 4 + n <= j < i ==> #[trigger] data@[j] == 0u8,
                decreases end - i,
            {
                if data[i] != 0 {
                    proof {
                        assert forall|t: Seq<char>| fits(t, cap as nat) implies #[trigger] slot_field(
                            t,
                            cap as nat,
                        ) != data@.subrange(off as int, end as int) by {
                            let pad = zeros((cap - encode_utf8(t).len()) as nat);
                            lemma_field_readable(t, pad);
                            if slot_field(t, cap as nat) == data@.subrange(off as int, end as int) {
                                lemma_utf8_injective(t, s@);
                                assert(data@[i as int] == region@[i - off]);
                                assert(region@[i - off] == pad[i - off - 4 - n]);
                            }
                        }
                    }
                    return None;
                }
                i = i + 1;
            }
            proof {
                let pad = zeros((cap - n) as nat);
                assert(region@ =~= region@.subrange(0, 4 + n as int) + pad);
                assert(slot_field(s@, cap as nat) == region@);
            }
            Some(s)
        },
    }
}

/// Where each part of a record lies in its slot bytes.
pub proof fn lemma_slot_layout(o: Pubkey, p: Seq<char>, c: Seq<char>, d: Seq<char>, t: i64, init: bool)
    requires
        record_fits(p, c, d),
    ensures
        ({
            let b = slot_bytes(o.0@, p, c, d, t, init);
            &&& b.len() == Repository::LEN
            &&& b.subrange(0, 32) == o.0@
            &&& b.subrange(32, 100) == slot_field(p, 64)
            &&& b.subrange(100, 168) == slot_field(c, 64)
            &&& b.subrange(168, 428) == slot_field(d, 256)
            &&& b.subrange(428, 436) == spec_u64_to_le_bytes(t as u64)
            &&& b[436] == flag_byte(init)
        }),
        is_field_at(slot_bytes(o.0@, p, c, d, t, init), 32, 64),
        is_field_at(slot_bytes(o.0@, p, c, d, t, init), 100, 64),
        is_field_at(slot_bytes(o.0@, p, c, d, t, init), 168, 256),
{
    lemma_auto_spec_u64_to_from_le_bytes();
    lemma_field_readable(p, zeros((64 - encode_utf8(p).len()) as nat));
    lemma_field_readable(c, zeros((64 - encode_utf8(c).len()) as nat));
    lemma_field_readable(d, zeros((256 - encode_utf8(d).len()) as nat));
    let b = slot_bytes(o.0@, p, c, d, t, init);
    assert(b.subrange(0, 32) =~= o.0@);
    assert(b.subrange(32, 100) =~= slot_field(p, 64));
    assert(b.subrange(100, 168) =~= slot_field(c, 64));
    assert(b.subrange(168, 428) =~= slot_field(d, 256));
    assert(b.subrange(428, 436) =~= spec_u64_to_le_bytes(t as u64));
}

} // verus!
