use repo_registry::record::{
    CONTENT_POINTER_OFFSET, DESCRIPTION_OFFSET, FLAG_OFFSET, PROJECT_NAME_OFFSET, TIMESTAMP_OFFSET,
};
use repo_registry::{
    add_repository, process_instruction, system_program_id, AccountInfo, Action, Event, Invocation,
    Phase, ProgramError, Pubkey, Repository, RepositoryInstruction,
};

const PROGRAM: Pubkey = Pubkey([9u8; 32]);
const OWNER: Pubkey = Pubkey([7u8; 32]);
const SLOT: Pubkey = Pubkey([5u8; 32]);

fn field(s: &str) -> Vec<u8> {
    let mut v = (s.len() as u32).to_le_bytes().to_vec();
    v.extend_from_slice(s.as_bytes());
    v
}

fn payload(p: &str, c: &str, d: &str) -> Vec<u8> {
    let mut v = vec![0u8];
    v.extend(field(p));
    v.extend(field(c));
    v.extend(field(d));
    v
}

fn accounts(signed: bool, allocator: Pubkey) -> Vec<AccountInfo> {
    vec![
        AccountInfo { key: OWNER, is_signer: signed, is_writable: true },
        AccountInfo { key: SLOT, is_signer: false, is_writable: true },
        AccountInfo { key: allocator, is_signer: false, is_writable: false },
    ]
}

fn start(p: &str, c: &str, d: &str) -> Invocation {
    add_repository(
        &PROGRAM,
        &accounts(true, system_program_id()),
        p.to_string(),
        c.to_string(),
        d.to_string(),
    )
    .unwrap()
}

/// Runs an invocation to the write, handing it a zero-filled slot.
fn run_to_write(inv: &mut Invocation, lamports: u64, timestamp: i64) -> Vec<u8> {
    match inv.step(Event::Rent(Ok(lamports))) {
        Action::CreateAccount { payer, new_account, lamports: l, space, owner } => {
            assert_eq!(payer, OWNER);
            assert_eq!(new_account, SLOT);
            assert_eq!(l, lamports);
            assert_eq!(space, Repository::LEN as u64);
            assert_eq!(owner, PROGRAM);
        }
        other => panic!("unexpected {:?}", other),
    }
    let created = inv.step(Event::Created(Ok(vec![0u8; Repository::LEN])));
    assert!(matches!(created, Action::QueryClock));
    match inv.step(Event::Clock(Ok(timestamp))) {
        Action::WriteSlot { account, data } => {
            assert_eq!(account, SLOT);
            data
        }
        other => panic!("unexpected {:?}", other),
    }
}

#[test]
fn decode_known_payload() {
    let data = payload("demo", "bafy123", "a test repo");
    let ins = RepositoryInstruction::try_from_slice(&data).unwrap();
    let RepositoryInstruction::AddRepository { project_name, content_pointer, description } = ins;
    assert_eq!(project_name, "demo");
    assert_eq!(content_pointer, "bafy123");
    assert_eq!(description, "a test repo");
}

#[test]
fn decode_then_encode_is_identity() {
    for data in [payload("demo", "bafy123", "a test repo"), payload("", "", ""), payload("é", "x", "日本")] {
        let ins = RepositoryInstruction::try_from_slice(&data).unwrap();
        assert_eq!(ins.try_to_vec().unwrap(), data);
    }
}

#[test]
fn encoding_matches_borsh() {
    let ins = RepositoryInstruction::AddRepository {
        project_name: "demo".to_string(),
        content_pointer: "bafy123".to_string(),
        description: "a test repo".to_string(),
    };
    let expected =
        borsh::to_vec(&(0u8, "demo".to_string(), "bafy123".to_string(), "a test repo".to_string()))
            .unwrap();
    let encoded = ins.try_to_vec().unwrap();
    assert_eq!(encoded, expected);
    assert_eq!(encoded.len(), 1 + 8 + 11 + 15);
}

#[test]
fn decode_rejects_unknown_tag() {
    let mut data = payload("demo", "bafy123", "a test repo");
    data[0] = 1;
    assert_eq!(
        RepositoryInstruction::try_from_slice(&data).unwrap_err(),
        ProgramError::InvalidInstructionData
    );
    assert_eq!(
        RepositoryInstruction::try_from_slice(&[]).unwrap_err(),
        ProgramError::InvalidInstructionData
    );
}

#[test]
fn decode_rejects_every_truncation() {
    let data = payload("demo", "bafy123", "a test repo");
    for k in 0..data.len() {
        assert_eq!(
            RepositoryInstruction::try_from_slice(&data[..k]).unwrap_err(),
            ProgramError::InvalidInstructionData
        );
    }
}

#[test]
fn decode_rejects_trailing_bytes() {
    let mut data = payload("demo", "bafy123", "a test repo");
    data.push(0);
    assert_eq!(
        RepositoryInstruction::try_from_slice(&data).unwrap_err(),
        ProgramError::InvalidInstructionData
    );
}

#[test]
fn decode_rejects_invalid_utf8() {
    let mut data = vec![0u8, 2, 0, 0, 0, 0xff, 0xfe];
    data.extend(field("x"));
    data.extend(field("y"));
    assert_eq!(
        RepositoryInstruction::try_from_slice(&data).unwrap_err(),
        ProgramError::InvalidInstructionData
    );
}

#[test]
fn unsigned_owner_is_refused() {
    let data = payload("demo", "bafy123", "a test repo");
    let r = process_instruction(&PROGRAM, &accounts(false, system_program_id()), &data);
    assert_eq!(r.unwrap_err(), ProgramError::MissingRequiredSignature);
}

#[test]
fn wrong_allocator_is_refused() {
    let data = payload("demo", "bafy123", "a test repo");
    let r = process_instruction(&PROGRAM, &accounts(true, Pubkey([1u8; 32])), &data);
    assert_eq!(r.unwrap_err(), ProgramError::IncorrectProgramId);
    let mut near = [0u8; 32];
    near[31] = 1;
    let r = process_instruction(&PROGRAM, &accounts(true, Pubkey(near)), &data);
    assert_eq!(r.unwrap_err(), ProgramError::IncorrectProgramId);
}

#[test]
fn signature_is_checked_before_allocator() {
    let data = payload("demo", "bafy123", "a test repo");
    let r = process_instruction(&PROGRAM, &accounts(false, Pubkey([1u8; 32])), &data);
    assert_eq!(r.unwrap_err(), ProgramError::MissingRequiredSignature);
}

#[test]
fn too_few_accounts_are_refused() {
    let data = payload("demo", "bafy123", "a test repo");
    let accs = accounts(true, system_program_id());
    let r = process_instruction(&PROGRAM, &accs[..2], &data);
    assert_eq!(r.unwrap_err(), ProgramError::NotEnoughAccountKeys);
}

#[test]
fn malformed_payload_is_refused_first() {
    let r = process_instruction(&PROGRAM, &accounts(false, Pubkey([1u8; 32])), &[3, 0]);
    assert_eq!(r.unwrap_err(), ProgramError::InvalidInstructionData);
}

#[test]
fn oversized_fields_are_rejected() {
    let accs = accounts(true, system_program_id());
    let long64 = "a".repeat(64);
    let long65 = "a".repeat(65);
    let long256 = "d".repeat(256);
    let long257 = "d".repeat(257);
    assert!(add_repository(&PROGRAM, &accs, long64.clone(), long64.clone(), long256.clone()).is_ok());
    let cases = [
        (long65.clone(), String::new(), String::new()),
        (String::new(), long65.clone(), String::new()),
        (String::new(), String::new(), long257.clone()),
    ];
    for (p, c, d) in cases {
        assert_eq!(
            add_repository(&PROGRAM, &accs, p, c, d).unwrap_err(),
            ProgramError::InvalidArgument
        );
    }
    // 32 two-byte characters fill the name exactly; one more does not fit.
    let wide = "é".repeat(32);
    assert!(add_repository(&PROGRAM, &accs, wide.clone(), String::new(), String::new()).is_ok());
    let wider = "é".repeat(33);
    assert_eq!(
        add_repository(&PROGRAM, &accs, wider, String::new(), String::new()).unwrap_err(),
        ProgramError::InvalidArgument
    );
}

#[test]
fn admitted_request_starts_awaiting_rent() {
    let data = payload("demo", "bafy123", "a test repo");
    let inv = process_instruction(&PROGRAM, &accounts(true, system_program_id()), &data).unwrap();
    assert_eq!(inv.phase, Phase::AwaitRent);
    assert_eq!(inv.owner, OWNER);
    assert_eq!(inv.target, SLOT);
    assert_eq!(inv.program_id, PROGRAM);
    assert_eq!(inv.project_name, "demo");
}

#[test]
fn record_holds_the_request_fields() {
    let mut inv = start("demo", "bafy123", "a test repo");
    let written = run_to_write(&mut inv, 3_897_600, 1_700_000_000);
    assert_eq!(inv.phase, Phase::Done);
    assert_eq!(written.len(), Repository::LEN);
    let rec = Repository::unpack(&written).unwrap();
    assert_eq!(rec.owner, OWNER);
    assert_eq!(rec.project_name, "demo");
    assert_eq!(rec.content_pointer, "bafy123");
    assert_eq!(rec.description, "a test repo");
    assert_eq!(rec.timestamp, 1_700_000_000);
    assert!(rec.is_initialized);
}

#[test]
fn record_owner_is_the_signer() {
    let mut inv = start("demo", "bafy123", "a test repo");
    let written = run_to_write(&mut inv, 1, 5);
    assert_eq!(&written[..32], &OWNER.0[..]);
}

#[test]
fn second_initialization_is_refused() {
    let mut first = start("demo", "bafy123", "a test repo");
    let written = run_to_write(&mut first, 10, 100);
    let mut second = start("other", "bafy999", "another");
    assert!(matches!(second.step(Event::Rent(Ok(10))), Action::CreateAccount { .. }));
    let outcome = second.step(Event::Created(Ok(written.clone())));
    assert!(matches!(outcome, Action::Finish(Err(ProgramError::AccountAlreadyInitialized))));
    assert_eq!(second.phase, Phase::Done);
    let rec = Repository::unpack(&written).unwrap();
    assert_eq!(rec.project_name, "demo");
}

#[test]
fn runtime_failures_are_propagated() {
    let mut inv = start("demo", "bafy123", "a test repo");
    let a = inv.step(Event::Rent(Err(ProgramError::UnsupportedSysvar)));
    assert!(matches!(a, Action::Finish(Err(ProgramError::UnsupportedSysvar))));

    let mut inv = start("demo", "bafy123", "a test repo");
    inv.step(Event::Rent(Ok(1)));
    let a = inv.step(Event::Created(Err(ProgramError::Custom(0))));
    assert!(matches!(a, Action::Finish(Err(ProgramError::Custom(0)))));

    let mut inv = start("demo", "bafy123", "a test repo");
    inv.step(Event::Rent(Ok(1)));
    inv.step(Event::Created(Ok(vec![0u8; Repository::LEN])));
    let a = inv.step(Event::Clock(Err(ProgramError::UnsupportedSysvar)));
    assert!(matches!(a, Action::Finish(Err(ProgramError::UnsupportedSysvar))));
}

#[test]
fn malformed_slot_is_refused() {
    let mut inv = start("demo", "bafy123", "a test repo");
    inv.step(Event::Rent(Ok(1)));
    let a = inv.step(Event::Created(Ok(vec![0u8; 10])));
    assert!(matches!(a, Action::Finish(Err(ProgramError::InvalidAccountData))));
}

#[test]
fn accepts_only_the_awaited_event() {
    let inv = start("demo", "bafy123", "a test repo");
    assert!(inv.accepts(&Event::Rent(Ok(1))));
    assert!(!inv.accepts(&Event::Clock(Ok(1))));
    assert!(!inv.accepts(&Event::Created(Ok(vec![]))));
}

#[test]
fn slot_layout_offsets() {
    let rec = Repository {
        owner: OWNER,
        project_name: "demo".to_string(),
        content_pointer: "bafy123".to_string(),
        description: "a test repo".to_string(),
        timestamp: -2,
        is_initialized: true,
    };
    let bytes = rec.pack().unwrap();
    assert_eq!(bytes.len(), 437);
    assert_eq!(&bytes[PROJECT_NAME_OFFSET..PROJECT_NAME_OFFSET + 8], &[4, 0, 0, 0, b'd', b'e', b'm', b'o']);
    assert_eq!(bytes[PROJECT_NAME_OFFSET + 8], 0);
    assert_eq!(&bytes[CONTENT_POINTER_OFFSET..CONTENT_POINTER_OFFSET + 4], &[7, 0, 0, 0]);
    assert_eq!(&bytes[DESCRIPTION_OFFSET..DESCRIPTION_OFFSET + 4], &[11, 0, 0, 0]);
    assert_eq!(&bytes[TIMESTAMP_OFFSET..FLAG_OFFSET], &(-2i64).to_le_bytes());
    assert_eq!(bytes[FLAG_OFFSET], 1);
    let back = Repository::unpack(&bytes).unwrap();
    assert_eq!(back.timestamp, -2);
    assert_eq!(back.description, "a test repo");
}

#[test]
fn zero_slot_unpacks_as_uninitialized() {
    let rec = Repository::unpack(&vec![0u8; Repository::LEN]).unwrap();
    assert!(!rec.is_initialized);
    assert_eq!(rec.project_name, "");
    assert_eq!(rec.timestamp, 0);
}

#[test]
fn slot_with_dirty_padding_or_flag_is_refused() {
    let mut dirty = vec![0u8; Repository::LEN];
    dirty[PROJECT_NAME_OFFSET + 10] = 1;
    assert_eq!(Repository::unpack(&dirty).unwrap_err(), ProgramError::InvalidAccountData);
    let mut flag = vec![0u8; Repository::LEN];
    flag[FLAG_OFFSET] = 2;
    assert_eq!(Repository::unpack(&flag).unwrap_err(), ProgramError::InvalidAccountData);
    let mut long = vec![0u8; Repository::LEN];
    long[PROJECT_NAME_OFFSET] = 65;
    assert_eq!(Repository::unpack(&long).unwrap_err(), ProgramError::InvalidAccountData);
}

#[test]
fn pack_rejects_oversized_record() {
    let rec = Repository {
        owner: OWNER,
        project_name: "n".repeat(65),
        content_pointer: String::new(),
        description: String::new(),
        timestamp: 0,
        is_initialized: false,
    };
    assert!(rec.pack().is_none());
}

#[test]
fn system_program_id_is_all_zero() {
    assert_eq!(system_program_id(), Pubkey([0u8; 32]));
    assert!(system_program_id().is_system_program());
    assert!(!OWNER.is_system_program());
}
