//! Validation of a registration and the steps that create and initialize its slot.
//!
//! An [`Invocation`] holds one admitted registration. The runtime drives it:
//! it reads the rent oracle and hands the result in, performs each
//! [`Action`] that [`Invocation::step`] returns, and hands back what came of
//! it as an [`Event`], until the action is a [`Action::WriteSlot`] or an
//! [`Action::Finish`].
use vstd::prelude::*;

use crate::account::{AccountInfo, ProgramError, Pubkey};
use crate::instruction::{
    fields_encodable, instruction_bytes, is_instruction_encoding, lemma_instruction_bytes_injective,
    RepositoryInstruction,
};
use crate::record::{
    is_slot_encoding, lemma_slot_layout, record_fits, slot_bytes, slot_flag_set, utf8_len,
    Repository, MAX_CONTENT_POINTER_LEN, MAX_DESCRIPTION_LEN, MAX_PROJECT_NAME_LEN,
};

verus! {

/// Where an invocation stands.
#[derive(Clone, Copy, Debug, PartialEq, Eq, Structural)]
pub enum Phase {
    /// Waiting for the rent-exempt minimum of a record's slot.
    AwaitRent,
    /// Waiting for the allocator to create the slot.
    AwaitCreate,
    /// Waiting for the clock.
    AwaitClock,
    /// Nothing more to do.
    Done,
}

/// What the runtime reports back to an invocation.
#[derive(Debug)]
pub enum Event {
    /// The rent oracle's minimum balance for `Repository::LEN` bytes, or its failure.
    Rent(Result<u64, ProgramError>),
    /// The allocator's outcome: the new slot's bytes, or its failure.
    Created(Result<Vec<u8>, ProgramError>),
    /// The clock's current unix timestamp, or its failure.
    Clock(Result<i64, ProgramError>),
}

/// What an invocation asks the runtime to do next.
#[derive(Debug)]
pub enum Action {
    /// Create a slot through the system allocator: debit `payer` by
    /// `lamports`, allocate `space` bytes at `new_account`, owned by `owner`.
    /// Report the outcome as [`Event::Created`].
    CreateAccount { payer: Pubkey, new_account: Pubkey, lamports: u64, space: u64, owner: Pubkey },
    /// Read the clock and report it as [`Event::Clock`].
    QueryClock,
    /// Write `data` over the whole slot at `account`; the invocation then succeeds.
    WriteSlot { account: Pubkey, data: Vec<u8> },
    /// The invocation ends with this result.
    Finish(Result<(), ProgramError>),
}

/// One admitted registration on its way to a written record.
#[derive(Clone, Debug)]
pub struct Invocation {
    /// This program's identity, which will own the slot.
    pub program_id: Pubkey,
    /// The signer, who pays for the slot and owns the record.
    pub owner: Pubkey,
    /// Address of the slot to create.
    pub target: Pubkey,
    pub project_name: String,
    pub content_pointer: String,
    pub description: String,
    pub phase: Phase,
}

/// What `add_repository` returns for a program, its accounts and the three fields.
pub open spec fn registration_outcome(
    program_id: Pubkey,
    accounts: Seq<AccountInfo>,
    p: Seq<char>,
    c: Seq<char>,
    d: Seq<char>,
    r: Result<Invocation, ProgramError>,
) -> bool {
    if accounts.len() < 3 {
        r == Err::<Invocation, ProgramError>(ProgramError::NotEnoughAccountKeys)
    } else if !accounts[0].is_signer {
        r == Err::<Invocation, ProgramError>(ProgramError::MissingRequiredSignature)
    } else if !accounts[2].key.is_system_program_key() {
        r == Err::<Invocation, ProgramError>(ProgramError::IncorrectProgramId)
    } else if !record_fits(p, c, d) {
        r == Err::<Invocation, ProgramError>(ProgramError::InvalidArgument)
    } else {
        r matches Ok(inv) && {
            &&& inv.phase == Phase::AwaitRent
            &&& inv.program_id == program_id
            &&& inv.owner == accounts[0].key
            &&& inv.target == accounts[1].key
            &&& inv.project_name@ == p
            &&& inv.content_pointer@ == c
            &&& inv.description@ == d
        }
    }
}

impl Invocation {
    /// The fields fit the record's layout.
    pub open spec fn wf(&self) -> bool {
        record_fits(self.project_name@, self.content_pointer@, self.description@)
    }

    /// Whether `e` is what this invocation waits for.
    pub open spec fn awaits(&self, e: &Event) -> bool {
        match e {
            Event::Rent(_) => self.phase == Phase::AwaitRent,
            Event::Created(_) => self.phase == Phase::AwaitCreate,
            Event::Clock(_) => self.phase == Phase::AwaitClock,
        }
    }

    /// Whether two invocations are for the same registration.
    pub open spec fn same_request(&self, other: &Invocation) -> bool {
        &&& self.program_id == other.program_id
        &&& self.owner == other.owner
        &&& self.target == other.target
        &&& self.project_name@ == other.project_name@
        &&& self.content_pointer@ == other.content_pointer@
        &&& self.description@ == other.description@
    }

    /// The slot bytes of this registration's record, written at `timestamp`.
    pub open spec fn record_bytes(&self, timestamp: i64) -> Seq<u8> {
        slot_bytes(
            self.owner.0@,
            self.project_name@,
            self.content_pointer@,
            self.description@,
            timestamp,
            true,
        )
    }

    /// Whether `e` is what this invocation waits for.
    pub fn accepts(&self, e: &Event) -> (r: bool)
        ensures
            r == self.awaits(e),
    {
        match e {
            Event::Rent(_) => self.phase == Phase::AwaitRent,
            Event::Created(_) => self.phase == Phase::AwaitCreate,
            Event::Clock(_) => self.phase == Phase::AwaitClock,
        }
    }

    /// Takes the runtime's report and says what to do next.
    pub fn step(&mut self, event: Event) -> (a: Action)
        requires
            old(self).wf(),
            old(self).awaits(&event),
        ensures
            final(self).wf(),
            final(self).same_request(old(self)),
            match event {
                Event::Rent(Ok(lamports)) => {
                    &&& final(self).phase == Phase::AwaitCreate
                    &&& a == (Action::CreateAccount {
                        payer: old(self).owner,
                        new_account: old(self).target,
                        lamports,
                        space: Repository::LEN as u64,
                        owner: old(self).program_id,
                    })
                },
                Event::Created(Ok(data)) => if !is_slot_encoding(data@) {
                    &&& final(self).phase == Phase::Done
                    &&& a == Action::Finish(Err(ProgramError::InvalidAccountData))
                } else if slot_flag_set(data@) {
                    &&& final(self).phase == Phase::Done
                    &&& a == Action::Finish(Err(ProgramError::AccountAlreadyInitialized))
                } else {
                    &&& final(self).phase == Phase::AwaitClock
                    &&& a == Action::QueryClock
                },
                Event::Clock(Ok(timestamp)) => {
                    &&& final(self).phase == Phase::Done
                    &&& a matches Action::WriteSlot { account, data }
                    &&& account == old(self).target
                    &&& data@ == old(self).record_bytes(timestamp)
                },
                Event::Rent(Err(e)) | Event::Created(Err(e)) | Event::Clock(Err(e)) => {
                    &&& final(self).phase == Phase::Done
                    &&& a == Action::Finish(Err(e))
                },
            },
    {
        match event {
            Event::Rent(Ok(lamports)) => {
                self.phase = Phase::AwaitCreate;
                Action::CreateAccount {
                    payer: self.owner,
                    new_account: self.target,
                    lamports,
                    space: Repository::LEN as u64,
                    owner: self.program_id,
                }
            },
            Event::Created(Ok(data)) => {
                self.phase = Phase::Done;
                match Repository::unpack(data.as_slice()) {
                    Err(e) => Action::Finish(Err(e)),
                    Ok(rec) => {
                        proof {
                            lemma_slot_layout(
                                rec.owner,
                                rec.project_name@,
                                rec.content_pointer@,
                                rec.description@,
                                rec.timestamp,
                                rec.is_initialized,
                            );
                        }
                        if rec.is_initialized {
                            Action::Finish(Err(ProgramError::AccountAlreadyInitialized))
                        } else {
                            self.phase = Phase::AwaitClock;
                            Action::QueryClock
                        }
                    },
                }
            },
            Event::Clock(Ok(timestamp)) => {
                self.phase = Phase::Done;
                let rec = Repository {
                    owner: self.owner,
                    project_name: self.project_name.clone(),
                    content_pointer: self.content_pointer.clone(),
                    description: self.description.clone(),
                    timestamp,
                    is_initialized: true,
                };
                let data = rec.pack().unwrap();
                Action::WriteSlot { account: self.target, data }
            },
            Event::Rent(Err(e)) | Event::Created(Err(e)) | Event::Clock(Err(e)) => {
                self.phase = Phase::Done;
                Action::Finish(Err(e))
            },
        }
    }
}

/// Checks a registration's accounts and fields and, when they pass, starts its invocation.
///
/// Accounts, in this order: the owner (must sign), the slot to create, the
/// system allocator. Fields longer than their capacity are rejected.
pub fn add_repository(
    program_id: &Pubkey,
    accounts: &[AccountInfo],
    project_name: String,
    content_pointer: String,
    description: String,
) -> (r: Result<Invocation, ProgramError>)
    ensures
        registration_outcome(
            *program_id,
            accounts@,
            project_name@,
            content_pointer@,
            description@,
            r,
        ),
{
    if accounts.len() < 3 {
        return Err(ProgramError::NotEnoughAccountKeys);
    }
    let owner_info = accounts[0];
    let repository_info = accounts[1];
    let system_program_info = accounts[2];
    if !owner_info.is_signer {
        return Err(ProgramError::MissingRequiredSignature);
    }
    if !system_program_info.key.is_system_program() {
        return Err(ProgramError::IncorrectProgramId);
    }
    if utf8_len(&project_name) > MAX_PROJECT_NAME_LEN || utf8_len(&content_pointer)
        > MAX_CONTENT_POINTER_LEN || utf8_len(&description) > MAX_DESCRIPTION_LEN {
        return Err(ProgramError::InvalidArgument);
    }
    Ok(
        Invocation {
            program_id: *program_id,
            owner: owner_info.key,
            target: repository_info.key,
            project_name,
            content_pointer,
            description,
            phase: Phase::AwaitRent,
        },
    )
}

/// Decodes a request and, for a registration, checks it and starts its invocation.
pub fn process_instruction(
    program_id: &Pubkey,
    accounts: &[AccountInfo],
    instruction_data: &[u8],
) -> (r: Result<Invocation, ProgramError>)
    ensures
        !is_instruction_encoding(instruction_data@) ==> r == Err::<Invocation, ProgramError>(
            ProgramError::InvalidInstructionData,
        ),
        forall|p: Seq<char>, c: Seq<char>, d: Seq<char>|
            fields_encodable(p, c, d) && #[trigger] instruction_bytes(p, c, d)
                == instruction_data@ ==> registration_outcome(*program_id, accounts@, p, c, d, r),
{
    let instruction = match RepositoryInstruction::try_from_slice(instruction_data) {
        Ok(ins) => ins,
        Err(e) => {
            return Err(e);
        },
    };
    match instruction {
        RepositoryInstruction::AddRepository { project_name, content_pointer, description } => {
            let ghost (pn, cp, de) = (project_name@, content_pointer@, description@);
            let r = add_repository(program_id, accounts, project_name, content_pointer, description);
            proof {
                assert forall|p: Seq<char>, c: Seq<char>, d: Seq<char>|
                    fields_encodable(p, c, d) && #[trigger] instruction_bytes(p, c, d)
                        == instruction_data@ implies registration_outcome(
                    *program_id,
                    accounts@,
                    p,
                    c,
                    d,
                    r,
                ) by {
                    lemma_instruction_bytes_injective(p, c, d, pn, cp, de);
                }
            }
            r
        },
    }
}

} // verus!
