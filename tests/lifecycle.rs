use curve25519_dalek_onchain::instruction::CopyInputData;
use curve25519_dalek_onchain::steps::process_copy_input;
use curve25519_dalek_onchain::client::{initialize_buffer_data, noop_data, write_bytes_data};
use curve25519_dalek_onchain::instruction::{Key, ProgramError, Pubkey, HEADER_SIZE};
use curve25519_dalek_onchain::processor::{
    process_close_buffer, process_initialize_buffer, process_instruction, process_write_bytes, AccountState,
};

const AUTH: Pubkey = [1u8; 32];

fn buffer(len: usize) -> AccountState {
    AccountState { key: [5u8; 32], owner: [7u8; 32], is_signer: false, lamports: 500, data: vec![0u8; len] }
}

fn authority(key: Pubkey, signer: bool) -> AccountState {
    AccountState { key, owner: [0u8; 32], is_signer: signer, lamports: 1000, data: vec![] }
}

fn initialized_input() -> AccountState {
    let mut b = buffer(HEADER_SIZE + 64);
    process_initialize_buffer(&mut b, &authority(AUTH, true), Key::InputBufferV1, &[0u8; 32], &[0u8; 32], true).unwrap();
    b
}

#[test]
fn initialize_writes_header_once() {
    let b = initialized_input();
    assert_eq!(b.data[0], 1);
    assert_eq!(&b.data[1..33], &AUTH);
    assert_eq!(b.data[33], 0);
    let mut again = AccountState { data: b.data.clone(), ..b };
    let before = again.data.clone();
    let r = process_initialize_buffer(&mut again, &authority(AUTH, true), Key::InputBufferV1, &[0u8; 32], &[0u8; 32], true);
    assert_eq!(r, Err(ProgramError::InvalidArgument));
    assert_eq!(again.data, before);
}

#[test]
fn initialize_checks_signer_deposit_and_kind() {
    let mut b = buffer(HEADER_SIZE);
    let a = authority(AUTH, false);
    assert!(process_initialize_buffer(&mut b, &a, Key::InputBufferV1, &[0u8; 32], &[0u8; 32], true).is_err());
    let a = authority(AUTH, true);
    assert!(process_initialize_buffer(&mut b, &a, Key::InputBufferV1, &[0u8; 32], &[0u8; 32], false).is_err());
    assert!(process_initialize_buffer(&mut b, &a, Key::Uninitialized, &[0u8; 32], &[0u8; 32], true).is_err());
    let mut tiny = buffer(100);
    assert!(process_initialize_buffer(&mut tiny, &a, Key::ComputeBufferV1, &[2u8; 32], &[3u8; 32], true).is_err());
    assert_eq!(b.data, vec![0u8; HEADER_SIZE]);
    let mut c = buffer(HEADER_SIZE);
    process_initialize_buffer(&mut c, &a, Key::ComputeBufferV1, &[2u8; 32], &[3u8; 32], true).unwrap();
    assert_eq!(c.data[0], 2);
    assert_eq!(&c.data[1..5], &[0, 0, 0, 0]);
    assert_eq!(&c.data[37..69], &[2u8; 32]);
    assert_eq!(&c.data[69..101], &[3u8; 32]);
}

#[test]
fn writes_respect_finalization_and_header() {
    let mut b = initialized_input();
    let a = authority(AUTH, true);
    process_write_bytes(&mut b, &a, HEADER_SIZE as u32, false, &[9, 9]).unwrap();
    assert_eq!(&b.data[HEADER_SIZE..HEADER_SIZE + 2], &[9, 9]);
    // into the header
    let before = b.data.clone();
    assert_eq!(process_write_bytes(&mut b, &a, 10, false, &[1]), Err(ProgramError::InvalidArgument));
    assert_eq!(b.data, before);
    // past the end
    assert!(process_write_bytes(&mut b, &a, (HEADER_SIZE + 63) as u32, false, &[1, 2]).is_err());
    // wrong authority
    assert!(process_write_bytes(&mut b, &authority([8u8; 32], true), HEADER_SIZE as u32, false, &[1]).is_err());
    // finalize with the last chunk, then nothing more
    process_write_bytes(&mut b, &a, (HEADER_SIZE + 2) as u32, true, &[8]).unwrap();
    assert_eq!(b.data[33], 1);
    let before = b.data.clone();
    assert_eq!(process_write_bytes(&mut b, &a, HEADER_SIZE as u32, false, &[1]), Err(ProgramError::InvalidArgument));
    assert_eq!(b.data, before);
}

#[test]
fn close_needs_the_recorded_authority() {
    let mut b = initialized_input();
    let mut wrong = authority([8u8; 32], true);
    assert_eq!(process_close_buffer(&mut b, &mut wrong), Err(ProgramError::InvalidArgument));
    assert_eq!(b.lamports, 500);
    assert_eq!(wrong.lamports, 1000);
    let mut unsigned = authority(AUTH, false);
    assert!(process_close_buffer(&mut b, &mut unsigned).is_err());
    let mut right = authority(AUTH, true);
    process_close_buffer(&mut b, &mut right).unwrap();
    assert_eq!(b.lamports, 0);
    assert_eq!(right.lamports, 1500);
    assert_eq!(b.data[0], 0);
    // an uninitialized buffer cannot be closed
    let mut again = authority(AUTH, true);
    assert!(process_close_buffer(&mut b, &mut again).is_err());
}

#[test]
fn host_call_errors() {
    let mut accounts = vec![buffer(HEADER_SIZE), authority(AUTH, true)];
    let init = initialize_buffer_data(Key::InputBufferV1, &vec![]).unwrap();
    assert_eq!(process_instruction(&[7u8; 32], &mut accounts, &init, true), Err(ProgramError::NotEnoughAccountKeys));
    assert_eq!(process_instruction(&[7u8; 32], &mut accounts, &[9], true), Err(ProgramError::InvalidInstructionData));
    assert_eq!(process_instruction(&[7u8; 32], &mut accounts, &[3, 0, 0], true), Err(ProgramError::InvalidInstructionData));
    assert_eq!(process_instruction(&[7u8; 32], &mut accounts, &noop_data(42), true), Ok(()));
    accounts.push(authority([0u8; 32], false));
    assert_eq!(process_instruction(&[7u8; 32], &mut accounts, &init, true), Ok(()));
    let w = write_bytes_data(HEADER_SIZE as u32, true, &[]);
    assert_eq!(process_instruction(&[7u8; 32], &mut accounts, &w, true), Ok(()));
    assert_eq!(accounts[0].data[33], 1);
    assert_eq!(process_instruction(&[7u8; 32], &mut accounts, &w, true), Err(ProgramError::InvalidArgument));
}

#[test]
fn client_instruction_data() {
    assert_eq!(write_bytes_data(0x01020304, true, &[5, 6]), vec![3, 4, 3, 2, 1, 0, 5, 6]);
    assert_eq!(write_bytes_data(1, false, &[]), vec![3, 1, 0, 0, 0, 1]);
    assert_eq!(initialize_buffer_data(Key::InstructionBufferV1, &vec![]), Some(vec![0]));
    assert_eq!(initialize_buffer_data(Key::InputBufferV1, &vec![[1u8; 32]]), None);
    let c = initialize_buffer_data(Key::ComputeBufferV1, &vec![[1u8; 32], [2u8; 32]]).unwrap();
    assert_eq!(c.len(), 65);
    assert_eq!(c[0], 2);
    assert_eq!(c[64], 2);
    assert_eq!(initialize_buffer_data(Key::Uninitialized, &vec![]), None);
    assert_eq!(noop_data(0x0102), vec![6, 2, 1, 0, 0, 0, 0, 0, 0]);
}

#[test]
fn copy_input_needs_a_finalized_input_buffer() {
    let mut input = initialized_input();
    input.data[HEADER_SIZE] = 42;
    let mut compute = vec![0u8; HEADER_SIZE + 64];
    let d = CopyInputData { input_offset: HEADER_SIZE as u32, compute_offset: HEADER_SIZE as u32, bytes: 32 };
    assert_eq!(process_copy_input(&input.data, &mut compute, &d), Err(ProgramError::InvalidArgument));
    assert_eq!(compute, vec![0u8; HEADER_SIZE + 64]);
    input.data[33] = 1;
    assert_eq!(process_copy_input(&input.data, &mut compute, &d), Ok(()));
    assert_eq!(compute[HEADER_SIZE], 42);
}
