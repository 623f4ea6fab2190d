//! The registration command and its payload encoding.
use vstd::prelude::*;
use vstd::slice::slice_subrange;
use vstd::utf8::encode_utf8;

use crate::account::ProgramError;
use crate::codec::{
    encodable, lemma_field_readable, lemma_read_is_field, lemma_utf8_injective, prefix_len,
    read_string, string_field, string_to_vec, append_bytes, ADD_REPOSITORY_TAG,
};

verus! {

/// The payload of a three-string command: its tag, then each field length-prefixed.
pub open spec fn instruction_bytes(p: Seq<char>, c: Seq<char>, d: Seq<char>) -> Seq<u8> {
    seq![ADD_REPOSITORY_TAG] + string_field(p) + string_field(c) + string_field(d)
}

/// Whether three strings can stand in a payload.
pub open spec fn fields_encodable(p: Seq<char>, c: Seq<char>, d: Seq<char>) -> bool {
    encodable(p) && encodable(c) && encodable(d)
}

/// Whether `data` is the payload of some command.
pub open spec fn is_instruction_encoding(data: Seq<u8>) -> bool {
    exists|p: Seq<char>, c: Seq<char>, d: Seq<char>|
        fields_encodable(p, c, d) && #[trigger] instruction_bytes(p, c, d) == data
}

/// A request the program understands.
#[derive(Clone, Debug)]
pub enum RepositoryInstruction {
    /// Register a new repository record.
    ///
    /// Accounts expected, in this order: the owner (signer), the slot to
    /// create (writable), the system allocator.
    AddRepository { project_name: String, content_pointer: String, description: String },
}

impl RepositoryInstruction {
    /// The command's payload.
    pub open spec fn spec_bytes(&self) -> Seq<u8> {
        match self {
            RepositoryInstruction::AddRepository { project_name, content_pointer, description } =>
                instruction_bytes(project_name@, content_pointer@, description@),
        }
    }

    /// Whether the command's fields fit in a payload.
    pub open spec fn encodable(&self) -> bool {
        match self {
            RepositoryInstruction::AddRepository { project_name, content_pointer, description } =>
                fields_encodable(project_name@, content_pointer@, description@),
        }
    }

    /// Decodes a payload. The whole of `data` must be one command.
    pub fn try_from_slice(data: &[u8]) -> (r: Result<RepositoryInstruction, ProgramError>)
        ensures
            match r {
                Ok(ins) => ins.encodable() && ins.spec_bytes() == data@,
                Err(e) => e == ProgramError::InvalidInstructionData && !is_instruction_encoding(
                    data@,
                ),
            },
    {
        let len = data.len();
        if len == 0 || data[0] != ADD_REPOSITORY_TAG {
            proof {
                assert forall|p: Seq<char>, c: Seq<char>, d: Seq<char>|
                    fields_encodable(p, c, d) implies #[trigger] instruction_bytes(p, c, d)
                    != data@ by {
                    lemma_instruction_layout(p, c, d);
                }
            }
            return Err(ProgramError::InvalidInstructionData);
        }
        let b1 = slice_subrange(data, 1, len);
        let (project_name, rest1) = match read_string(b1) {
            Some(x) => x,
            None => {
                proof {
                    assert forall|p: Seq<char>, c: Seq<char>, d: Seq<char>|
                        fields_encodable(p, c, d) implies #[trigger] instruction_bytes(p, c, d)
                        != data@ by {
                        lemma_instruction_layout(p, c, d);
                        lemma_field_readable(p, string_field(c) + string_field(d));
                    }
                }
                return Err(ProgramError::InvalidInstructionData);
            },
        };
        proof {
            lemma_read_is_field(b1@, project_name@);
        }
        let pos2 = len - rest1;
        let b2 = slice_subrange(data, pos2, len);
        let (content_pointer, rest2) = match read_string(b2) {
            Some(x) => x,
            None => {
                proof {
                    assert forall|p: Seq<char>, c: Seq<char>, d: Seq<char>|
                        fields_encodable(p, c, d) implies #[trigger] instruction_bytes(p, c, d)
                        != data@ by {
                        lemma_instruction_layout(p, c, d);
                        lemma_field_readable(p, string_field(c) + string_field(d));
                        lemma_field_readable(c, string_field(d));
                        lemma_field_readable(d, Seq::<u8>::empty());
                        if instruction_bytes(p, c, d) == data@ {
                            lemma_utf8_injective(p, project_name@);
                        }
                    }
                }
                return Err(ProgramError::InvalidInstructionData);
            },
        };
        proof {
            lemma_read_is_field(b2@, content_pointer@);
        }
        let pos3 = len - rest2;
        let b3 = slice_subrange(data, pos3, len);
        let (description, rest3) = match read_string(b3) {
            Some(x) => x,
            None => {
                proof {
                    assert forall|p: Seq<char>, c: Seq<char>, d: Seq<char>|
                        fields_encodable(p, c, d) implies #[trigger] instruction_bytes(p, c, d)
                        != data@ by {
                        lemma_instruction_layout(p, c, d);
                        lemma_field_readable(p, string_field(c) + string_field(d));
                        lemma_field_readable(c, string_field(d));
                        lemma_field_readable(d, Seq::<u8>::empty());
                        if instruction_bytes(p, c, d) == data@ {
                            lemma_utf8_injective(p, project_name@);
                            lemma_utf8_injective(c, content_pointer@);
                        }
                    }
                }
                return Err(ProgramError::InvalidInstructionData);
            },
        };
        proof {
            lemma_read_is_field(b3@, description@);
        }
        if rest3 != 0 {
            proof {
                assert forall|p: Seq<char>, c: Seq<char>, d: Seq<char>|
                    fields_encodable(p, c, d) implies #[trigger] instruction_bytes(p, c, d)
                    != data@ by {
                    lemma_instruction_layout(p, c, d);
                    lemma_field_readable(p, string_field(c) + string_field(d));
                    lemma_field_readable(c, string_field(d));
                    lemma_field_readable(d, Seq::<u8>::empty());
                    if instruction_bytes(p, c, d) == data@ {
                        lemma_utf8_injective(p, project_name@);
                        lemma_utf8_injective(c, content_pointer@);
                        lemma_utf8_injective(d, description@);
                    }
                }
            }
            return Err(ProgramError::InvalidInstructionData);
        }
        proof {
            let whole = data@;
            assert(whole =~= seq![whole[0]] + whole.subrange(1, pos2 as int) + whole.subrange(
                pos2 as int,
                pos3 as int,
            ) + whole.subrange(pos3 as int, len as int));
            assert(b1@.subrange(0, 4 + prefix_len(b1@)) =~= whole.subrange(1, pos2 as int));
            assert(b2@.subrange(0, 4 + prefix_len(b2@)) =~= whole.subrange(
                pos2 as int,
                pos3 as int,
            ));
            assert(b3@.subrange(0, 4 + prefix_len(b3@)) =~= whole.subrange(
                pos3 as int,
                len as int,
            ));
        }
        Ok(RepositoryInstruction::AddRepository { project_name, content_pointer, description })
    }

    /// Encodes the command as its payload; `None` when a field's byte count
    /// does not fit in a `u32`.
    pub fn try_to_vec(&self) -> (r: Option<Vec<u8>>)
        ensures
            r is Some <==> self.encodable(),
            r matches Some(v) ==> v@ == self.spec_bytes(),
    {
        match self {
            RepositoryInstruction::AddRepository { project_name, content_pointer, description } =>
            {
                let p = match string_to_vec(project_name) {
                    Some(v) => v,
                    None => return None,
                };
                let c = match string_to_vec(content_pointer) {
                    Some(v) => v,
                    None => return None,
                };
                let d = match string_to_vec(description) {
                    Some(v) => v,
                    None => return None,
                };
                let mut out: Vec<u8> = Vec::new();
                out.push(ADD_REPOSITORY_TAG);
                append_bytes(&mut out, &p);
                append_bytes(&mut out, &c);
                append_bytes(&mut out, &d);
                proof {
                    assert(out@ =~= self.spec_bytes());
                }
                Some(out)
            },
        }
    }
}

/// Where each part of a command's payload lies.
pub proof fn lemma_instruction_layout(p: Seq<char>, c: Seq<char>, d: Seq<char>)
    requires
        fields_encodable(p, c, d),
    ensures
        ({
            let b = instruction_bytes(p, c, d);
            let k2 = 1 + string_field(p).len() as int;
            let k3 = k2 + string_field(c).len() as int;
            &&& b.len() == k3 + string_field(d).len()
            &&& b[0] == ADD_REPOSITORY_TAG
            &&& b.subrange(1, b.len() as int) == string_field(p) + (string_field(c) + string_field(d))
            &&& b.subrange(k2, b.len() as int) == string_field(c) + string_field(d)
            &&& b.subrange(k3, b.len() as int) == string_field(d) + Seq::<u8>::empty()
        }),
{
    let b = instruction_bytes(p, c, d);
    let k2 = 1 + string_field(p).len() as int;
    let k3 = k2 + string_field(c).len() as int;
    assert(b.subrange(1, b.len() as int) =~= string_field(p) + (string_field(c) + string_field(d)));
    assert(b.subrange(k2, b.len() as int) =~= string_field(c) + string_field(d));
    assert(b.subrange(k3, b.len() as int) =~= string_field(d) + Seq::<u8>::empty());
    lemma_field_readable(p, string_field(c) + string_field(d));
    lemma_field_readable(c, string_field(d));
    lemma_field_readable(d, Seq::<u8>::empty());
}

/// A payload determines its command: two commands with the same payload are the same.
pub proof fn lemma_instruction_bytes_injective(
    p: Seq<char>,
    c: Seq<char>,
    d: Seq<char>,
    p2: Seq<char>,
    c2: Seq<char>,
    d2: Seq<char>,
)
    requires
        fields_encodable(p, c, d),
        fields_encodable(p2, c2, d2),
        instruction_bytes(p, c, d) == instruction_bytes(p2, c2, d2),
    ensures
        p == p2,
        c == c2,
        d == d2,
{
    let b = instruction_bytes(p, c, d);
    lemma_instruction_layout(p, c, d);
    lemma_instruction_layout(p2, c2, d2);
    lemma_field_readable(p, string_field(c) + string_field(d));
    lemma_field_readable(p2, string_field(c2) + string_field(d2));
    lemma_utf8_injective(p, p2);
    lemma_field_readable(c, string_field(d));
    lemma_field_readable(c2, string_field(d2));
    lemma_utf8_injective(c, c2);
    lemma_field_readable(d, Seq::<u8>::empty());
    lemma_field_readable(d2, Seq::<u8>::empty());
    lemma_utf8_injective(d, d2);
}

} // verus!
