//! Identities, accounts and error kinds shared by the whole program.
use vstd::prelude::*;

verus! {

/// Number of bytes in a public key.
pub const PUBKEY_BYTES: usize = 32;

/// A 32-byte public key naming an identity or a storage slot.
#[derive(Clone, Copy, Debug)]
pub struct Pubkey(pub [u8; 32]);

impl Pubkey {
    /// The key's bytes.
    pub open spec fn bytes(self) -> Seq<u8> {
        self.0@
    }

    /// The identity of the ledger's system allocator (all zero bytes).
    pub open spec fn is_system_program_key(self) -> bool {
        forall|i: int| 0 <= i < 32 ==> #[trigger] self.0@[i] == 0u8
    }

    /// Whether this is the system allocator's identity.
    pub fn is_system_program(&self) -> (r: bool)
        ensures
            r == self.is_system_program_key(),
    {
        let mut i: usize = 0;
        while i < PUBKEY_BYTES
            invariant
                i <= 32,
                forall|j: int| 0 <= j < i ==> #[trigger] self.0@[j] == 0u8,
            decreases 32 - i,
        {
            if self.0[i] != 0 {
                return false;
            }
            i = i + 1;
        }
        true
    }
}

impl PartialEq for Pubkey {
    fn eq(&self, other: &Pubkey) -> (r: bool)
        ensures
            r == (self.0@ == other.0@),
    {
        let mut i: usize = 0;
        while i < PUBKEY_BYTES
            invariant
                i <= 32,
                forall|j: int| 0 <= j < i ==> #[trigger] self.0@[j] == other.0@[j],
            decreases 32 - i,
        {
            if self.0[i] != other.0[i] {
                return false;
            }
            i = i + 1;
        }
        assert(self.0@ =~= other.0@);
        true
    }
}

impl vstd::std_specs::cmp::PartialEqSpecImpl for Pubkey {
    open spec fn obeys_eq_spec() -> bool {
        true
    }

    open spec fn eq_spec(&self, other: &Pubkey) -> bool {
        self.0@ == other.0@
    }
}

impl Eq for Pubkey {}

/// The system allocator's identity.
pub fn system_program_id() -> (r: Pubkey)
    ensures
        r.is_system_program_key(),
{
    let r = Pubkey([0u8; 32]);
    assert forall|i: int| 0 <= i < 32 implies #[trigger] r.0@[i] == 0u8 by {}
    r
}

/// One account handed to an invocation, as the runtime describes it.
#[derive(Clone, Copy, Debug)]
pub struct AccountInfo {
    /// The account's address.
    pub key: Pubkey,
    /// Whether the account signed the transaction.
    pub is_signer: bool,
    /// Whether the invocation may write the account.
    pub is_writable: bool,
}

/// The ways an invocation fails.
#[derive(Clone, Copy, Debug, PartialEq, Eq, Structural)]
pub enum ProgramError {
    /// A failure reported by another program, with its code.
    Custom(u32),
    /// An argument did not meet the program's limits.
    InvalidArgument,
    /// The request payload does not decode into the known command.
    InvalidInstructionData,
    /// A storage slot's bytes do not hold a record.
    InvalidAccountData,
    /// The payer cannot cover the slot's balance.
    InsufficientFunds,
    /// The supplied allocator is not the system allocator.
    IncorrectProgramId,
    /// The owner account did not sign.
    MissingRequiredSignature,
    /// The target slot already holds an initialized record.
    AccountAlreadyInitialized,
    /// Fewer accounts were supplied than the command needs.
    NotEnoughAccountKeys,
    /// A runtime facility (a sysvar) could not be read.
    UnsupportedSysvar,
}

} // verus!
