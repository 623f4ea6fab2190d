//! Registration of immutable repository records on a replicated ledger.
//!
//! The library decodes a registration request, checks who authorized it,
//! and drives the creation and one-time initialization of the storage slot
//! that holds the record. The ledger runtime itself (allocator, rent and
//! clock oracles, slot storage) is reached through the actions and events
//! of [`processor::Invocation`].
pub mod account;
pub mod codec;
pub mod instruction;
pub mod record;
pub mod processor;
pub mod laws;

pub use account::{system_program_id, AccountInfo, ProgramError, Pubkey};
pub use instruction::RepositoryInstruction;
pub use processor::{add_repository, process_instruction, Action, Event, Invocation, Phase};
pub use record::Repository;
