//! The buffer lifecycle and the crank dispatcher, over a model of the
//! accounts that the host hands to each call: address, owner, signer flag,
//! balance and bytes.
//!
//! A call either succeeds, with the changes its contract states, or fails
//! and leaves every account as it was.

use vstd::prelude::*;
use crate::encoding::{u32_at, u32_le, read_u32};
use crate::instruction::{
    Pubkey, Key, key_tag, ProgramError, Curve25519Instruction, decode_instruction_type,
    ComputeHeader, InputHeader, InstructionHeader, DSLInstruction, dsl_decode, compute_header_bytes,
    data_header_bytes, compute_header_decodes, data_header_decodes,
    encode_data_header, HEADER_SIZE, INSTRUCTION_SIZE, DATA_HEADER_LEN,
};
use crate::steps::{
    splice, fits, write_at, process_copy_input, process_invsqrt_init, process_invsqrt_fini,
    process_pow22501_p1, process_pow22501_p2, process_decompress_init, process_decompress_fini,
    process_elligator_init, process_elligator_fini, process_build_lookup_table, process_multiscalar_mul,
    copy_input_spec, invsqrt_init_spec, invsqrt_fini_spec, pow22501_p1_spec, pow22501_p2_spec,
    decompress_init_spec, decompress_fini_spec, elligator_init_spec, elligator_fini_spec,
    build_lookup_table_spec, multiscalar_mul_spec,
};

verus! {

/// An account as a call sees it.
pub struct AccountState {
    pub key: Pubkey,
    pub owner: Pubkey,
    pub is_signer: bool,
    pub lamports: u64,
    pub data: Vec<u8>,
}

/// Two accounts agree in every field.
pub open spec fn same_account(a: AccountState, b: AccountState) -> bool {
    &&& a.key == b.key
    &&& a.owner == b.owner
    &&& a.is_signer == b.is_signer
    &&& a.lamports == b.lamports
    &&& a.data@ == b.data@
}

/// Two accounts agree in every field but their bytes.
pub open spec fn same_but_data(a: AccountState, b: AccountState) -> bool {
    &&& a.key == b.key
    &&& a.owner == b.owner
    &&& a.is_signer == b.is_signer
    &&& a.lamports == b.lamports
}

/// Equality of addresses.
pub fn keys_equal(a: &Pubkey, b: &Pubkey) -> (r: bool)
    ensures
        r == (a@ == b@),
{
    let mut i: usize = 0;
    while i < 32
        invariant
            i <= 32,
            forall|k: int| 0 <= k < i ==> a[k] == b[k],
        decreases 32 - i,
    {
        if a[i] != b[i] {
            return false;
        }
        i = i + 1;
    }
    assert(a@ =~= b@);
    true
}

/// Copies an account.
pub fn copy_account(a: &AccountState) -> (r: AccountState)
    ensures
        same_account(r, *a),
{
    AccountState { key: a.key, owner: a.owner, is_signer: a.is_signer, lamports: a.lamports, data: a.data.clone() }
}

/// The header that initializing a buffer of kind `kind` writes; none for `Uninitialized`.
pub open spec fn initial_header(kind: Key, authority: Pubkey, instruction_buffer: Seq<u8>, input_buffer: Seq<u8>) -> Option<Seq<u8>> {
    match kind {
        Key::Uninitialized => None,
        Key::ComputeBufferV1 => Some(
            seq![key_tag(Key::ComputeBufferV1)] + u32_le(0) + authority@ + instruction_buffer + input_buffer,
        ),
        _ => Some(data_header_bytes(kind, authority, false)),
    }
}

/// The bytes of a buffer after initialization, or `None` when it is
/// rejected: the authority must have signed, the storage must be
/// deposit-exempt, the kind must be a buffer kind, and the buffer must be
/// uninitialized with room for the header.
pub open spec fn initialize_spec(
    buffer: AccountState,
    authority: AccountState,
    kind: Key,
    instruction_buffer: Seq<u8>,
    input_buffer: Seq<u8>,
    rent_exempt: bool,
) -> Option<Seq<u8>> {
    let h = initial_header(kind, authority.key, instruction_buffer, input_buffer);
    let d = buffer.data@;
    if !authority.is_signer || !rent_exempt || h.is_none() || d.len() < h.unwrap().len() || d[0] != key_tag(Key::Uninitialized) {
        None
    } else {
        Some(splice(d, 0, h.unwrap()))
    }
}

/// Initializes a buffer: writes its header once. `instruction_buffer` and
/// `input_buffer` are recorded by a compute buffer and ignored otherwise.
pub fn process_initialize_buffer(
    buffer: &mut AccountState,
    authority: &AccountState,
    kind: Key,
    instruction_buffer: &Pubkey,
    input_buffer: &Pubkey,
    rent_exempt: bool,
) -> (r: Result<(), ProgramError>)
    ensures
        r.is_ok() == initialize_spec(*old(buffer), *authority, kind, instruction_buffer@, input_buffer@, rent_exempt).is_some(),
        r.is_ok() ==> same_but_data(*final(buffer), *old(buffer))
            && final(buffer).data@ == initialize_spec(*old(buffer), *authority, kind, instruction_buffer@, input_buffer@, rent_exempt).unwrap(),
        r.is_err() ==> same_account(*final(buffer), *old(buffer)) && r == Err::<(), ProgramError>(ProgramError::InvalidArgument),
{
    if !authority.is_signer || !rent_exempt {
        return Err(ProgramError::InvalidArgument);
    }
    let header = match kind {
        Key::Uninitialized => {
            return Err(ProgramError::InvalidArgument);
        },
        Key::ComputeBufferV1 => ComputeHeader {
            key: Key::ComputeBufferV1,
            instruction_num: 0,
            authority: authority.key,
            instruction_buffer: *instruction_buffer,
            input_buffer: *input_buffer,
        }.encode(),
        _ => encode_data_header(kind, &authority.key, false),
    };
    if buffer.data.len() < header.len() || buffer.data[0] != Key::Uninitialized.to_u8() {
        return Err(ProgramError::InvalidArgument);
    }
    write_at(&mut buffer.data, 0, header.as_slice());
    Ok(())
}

/// The bytes of a buffer after `WriteBytes`, or `None` when it is rejected:
/// the authority must have signed and be the one recorded in the header of
/// an input or instruction buffer that is not finalized yet, and the bytes
/// must land past the header and within the buffer. The finalized flag is
/// then set to `finalize`.
pub open spec fn write_bytes_spec(buffer: AccountState, authority: AccountState, offset: u32, finalize: bool, bytes: Seq<u8>) -> Option<Seq<u8>> {
    let d = buffer.data@;
    if !authority.is_signer || !data_header_decodes(d) || !(d[0] == key_tag(Key::InputBufferV1) || d[0] == key_tag(Key::InstructionBufferV1))
        || d.subrange(1, 33) != authority.key@ || d[33] == 1 || offset < HEADER_SIZE || offset + bytes.len() > d.len() {
        None
    } else {
        Some(splice(d, offset as int, bytes).update(33, if finalize { 1u8 } else { 0u8 }))
    }
}

/// Writes bytes into the body of an input or instruction buffer, and marks
/// it finalized when `finalize` is set, in one call.
pub fn process_write_bytes(buffer: &mut AccountState, authority: &AccountState, offset: u32, finalize: bool, bytes: &[u8]) -> (r: Result<(), ProgramError>)
    ensures
        r.is_ok() == write_bytes_spec(*old(buffer), *authority, offset, finalize, bytes@).is_some(),
        r.is_ok() ==> same_but_data(*final(buffer), *old(buffer))
            && final(buffer).data@ == write_bytes_spec(*old(buffer), *authority, offset, finalize, bytes@).unwrap(),
        r.is_err() ==> same_account(*final(buffer), *old(buffer)) && r == Err::<(), ProgramError>(ProgramError::InvalidArgument),
{
    if !authority.is_signer {
        return Err(ProgramError::InvalidArgument);
    }
    let header = match InputHeader::decode(buffer.data.as_slice()) {
        None => {
            return Err(ProgramError::InvalidArgument);
        },
        Some(h) => h,
    };
    match header.key {
        Key::InputBufferV1 => {},
        Key::InstructionBufferV1 => {},
        _ => {
            return Err(ProgramError::InvalidArgument);
        },
    }
    if !keys_equal(&header.authority, &authority.key) || header.finalized {
        return Err(ProgramError::InvalidArgument);
    }
    let o = offset as usize;
    if o < HEADER_SIZE || !fits(buffer.data.len(), o, bytes.len()) {
        return Err(ProgramError::InvalidArgument);
    }
    write_at(&mut buffer.data, o, bytes);
    buffer.data.set(33, if finalize { 1u8 } else { 0u8 });
    Ok(())
}

/// The authority recorded in a header, by the buffer's kind.
pub open spec fn recorded_authority(d: Seq<u8>) -> Seq<u8> {
    if d[0] == key_tag(Key::ComputeBufferV1) {
        d.subrange(5, 37)
    } else {
        d.subrange(1, 33)
    }
}

/// Whether a buffer's header decodes, for the kind its first byte names.
pub open spec fn header_decodes(d: Seq<u8>) -> bool {
    if d.len() == 0 || d[0] == key_tag(Key::Uninitialized) || d[0] > 3 {
        false
    } else if d[0] == key_tag(Key::ComputeBufferV1) {
        compute_header_decodes(d)
    } else {
        data_header_decodes(d)
    }
}

/// Whether `CloseBuffer` succeeds: the authority signed, the buffer is
/// initialized with a decodable header that records this authority, and
/// the two balances can be summed.
pub open spec fn close_accepts(buffer: AccountState, authority: AccountState) -> bool {
    &&& authority.is_signer
    &&& header_decodes(buffer.data@)
    &&& recorded_authority(buffer.data@) == authority.key@
    &&& authority.lamports + buffer.lamports <= u64::MAX
}

/// Closes a buffer: moves its whole balance to the authority and zeroes its tag.
pub fn process_close_buffer(buffer: &mut AccountState, authority: &mut AccountState) -> (r: Result<(), ProgramError>)
    ensures
        r.is_ok() == close_accepts(*old(buffer), *old(authority)),
        r.is_ok() ==> ({
            &&& final(buffer).lamports == 0
            &&& final(authority).lamports == old(authority).lamports + old(buffer).lamports
            &&& final(buffer).data@ == old(buffer).data@.update(0, key_tag(Key::Uninitialized))
            &&& final(buffer).key == old(buffer).key && final(buffer).owner == old(buffer).owner
            &&& final(buffer).is_signer == old(buffer).is_signer
            &&& final(authority).key == old(authority).key && final(authority).owner == old(authority).owner
            &&& final(authority).is_signer == old(authority).is_signer
            &&& final(authority).data@ == old(authority).data@
        }),
        r.is_err() ==> same_account(*final(buffer), *old(buffer)) && same_account(*final(authority), *old(authority))
            && r == Err::<(), ProgramError>(ProgramError::InvalidArgument),
{
    if !authority.is_signer || buffer.data.len() == 0 {
        return Err(ProgramError::InvalidArgument);
    }
    let recorded: Pubkey = match Key::from_u8(buffer.data[0]) {
        None => {
            return Err(ProgramError::InvalidArgument);
        },
        Some(Key::Uninitialized) => {
            return Err(ProgramError::InvalidArgument);
        },
        Some(Key::ComputeBufferV1) => match ComputeHeader::decode(buffer.data.as_slice()) {
            None => {
                return Err(ProgramError::InvalidArgument);
            },
            Some(h) => h.authority,
        },
        Some(_) => match InputHeader::decode(buffer.data.as_slice()) {
            None => {
                return Err(ProgramError::InvalidArgument);
            },
            Some(h) => h.authority,
        },
    };
    if !keys_equal(&recorded, &authority.key) {
        return Err(ProgramError::InvalidArgument);
    }
    let total = match authority.lamports.checked_add(buffer.lamports) {
        None => {
            return Err(ProgramError::InvalidArgument);
        },
        Some(t) => t,
    };
    authority.lamports = total;
    buffer.lamports = 0;
    buffer.data.set(0, Key::Uninitialized.to_u8());
    Ok(())
}

/// The cursor of a compute buffer: the number of instructions it has executed.
pub open spec fn cursor(d: Seq<u8>) -> nat {
    u32_at(d, 1)
}

/// Where instruction `k` of an instruction buffer starts.
pub open spec fn instruction_offset(k: nat) -> nat {
    HEADER_SIZE as nat + INSTRUCTION_SIZE as nat * k
}

/// The compute body after one instruction, or `None` when the instruction rejects.
#[verifier::opaque]
pub open spec fn step_spec(ix: DSLInstruction, input: Seq<u8>, s: Seq<u8>) -> Option<Seq<u8>> {
    match ix {
        DSLInstruction::CopyInput(d) => copy_input_spec(input, s, d),
        DSLInstruction::DecompressInit(d) => decompress_init_spec(s, d.offset as int),
        DSLInstruction::InvSqrtInit(d) => invsqrt_init_spec(s, d.offset as int),
        DSLInstruction::Pow22501P1(d) => pow22501_p1_spec(s, d.offset as int),
        DSLInstruction::Pow22501P2(d) => pow22501_p2_spec(s, d.offset as int),
        DSLInstruction::InvSqrtFini(d) => invsqrt_fini_spec(s, d.offset as int),
        DSLInstruction::DecompressFini(d) => decompress_fini_spec(s, d.offset as int),
        DSLInstruction::BuildLookupTable(d) => build_lookup_table_spec(s, d),
        DSLInstruction::MultiscalarMul(d) => multiscalar_mul_spec(s, d),
        DSLInstruction::ElligatorInit(d) => elligator_init_spec(s, d.offset as int),
        DSLInstruction::ElligatorFini(d) => elligator_fini_spec(s, d.offset as int),
    }
}

/// Whether a crank passes its checks: the three buffers belong to the
/// program, the compute buffer records these instruction and input buffers,
/// the instruction buffer is finalized and holds an instruction at the
/// cursor, and that instruction decodes.
pub open spec fn crank_checks(program_id: Pubkey, ib: AccountState, inb: AccountState, cb: AccountState) -> bool {
    let c = cb.data@;
    let i = ib.data@;
    let k = cursor(c);
    &&& ib.owner@ == program_id@ && inb.owner@ == program_id@ && cb.owner@ == program_id@
    &&& compute_header_decodes(c) && c[0] == key_tag(Key::ComputeBufferV1)
    &&& c.subrange(37, 69) == ib.key@ && c.subrange(69, 101) == inb.key@
    &&& data_header_decodes(i) && i[0] == key_tag(Key::InstructionBufferV1) && i[33] == 1
    &&& k < u32::MAX
    &&& instruction_offset(k) + INSTRUCTION_SIZE <= i.len()
    &&& dsl_decode(i.subrange(instruction_offset(k) as int, instruction_offset(k) + INSTRUCTION_SIZE)).is_some()
}

/// The compute buffer's bytes after a crank, or `None` when it is rejected:
/// the cursor moves on by one and the instruction at the old cursor runs.
pub open spec fn crank_spec(program_id: Pubkey, ib: AccountState, inb: AccountState, cb: AccountState) -> Option<Seq<u8>> {
    if !crank_checks(program_id, ib, inb, cb) {
        None
    } else {
        let c = cb.data@;
        let k = cursor(c);
        let ix = dsl_decode(ib.data@.subrange(instruction_offset(k) as int, instruction_offset(k) + INSTRUCTION_SIZE)).unwrap();
        step_spec(ix, inb.data@, splice(c, 1, u32_le((k + 1) as u32)))
    }
}

/// Instructions leave the header of the compute buffer and its length as they were.
pub proof fn lemma_step_keeps_header(ix: DSLInstruction, input: Seq<u8>, s: Seq<u8>)
    ensures
        step_spec(ix, input, s).is_some() ==> step_spec(ix, input, s).unwrap().len() == s.len()
            && forall|k: int| 0 <= k < HEADER_SIZE && k < s.len() ==> #[trigger] step_spec(ix, input, s).unwrap()[k] == s[k],
{
    reveal(step_spec);
    crate::steps::lemma_steps_keep_header(ix, input, s);
}

/// Runs one instruction on a compute body.
fn execute(ix: &DSLInstruction, input: &[u8], data: &mut Vec<u8>) -> (r: Result<(), ProgramError>)
    ensures
        r.is_ok() == step_spec(*ix, input@, old(data)@).is_some(),
        r.is_ok() ==> final(data)@ == step_spec(*ix, input@, old(data)@).unwrap(),
        r.is_err() ==> final(data)@ == old(data)@,
{
    reveal(step_spec);
    match ix {
        DSLInstruction::CopyInput(d) => process_copy_input(input, data, d),
        DSLInstruction::DecompressInit(d) => process_decompress_init(data, d.offset),
        DSLInstruction::InvSqrtInit(d) => process_invsqrt_init(data, d.offset),
        DSLInstruction::Pow22501P1(d) => process_pow22501_p1(data, d.offset),
        DSLInstruction::Pow22501P2(d) => process_pow22501_p2(data, d.offset),
        DSLInstruction::InvSqrtFini(d) => process_invsqrt_fini(data, d.offset),
        DSLInstruction::DecompressFini(d) => process_decompress_fini(data, d.offset),
        DSLInstruction::BuildLookupTable(d) => process_build_lookup_table(data, d),
        DSLInstruction::MultiscalarMul(d) => process_multiscalar_mul(data, d),
        DSLInstruction::ElligatorInit(d) => process_elligator_init(data, d.offset),
        DSLInstruction::ElligatorFini(d) => process_elligator_fini(data, d.offset),
    }
}

/// The checks of a crank; on success, the instruction at the cursor and the cursor.
fn crank_prepare(
    program_id: &Pubkey,
    instruction_buffer: &AccountState,
    input_buffer: &AccountState,
    compute_buffer: &AccountState,
) -> (r: Result<(DSLInstruction, u32), ProgramError>)
    ensures
        r.is_ok() == crank_checks(*program_id, *instruction_buffer, *input_buffer, *compute_buffer),
        r.is_ok() ==> ({
            let k = cursor(compute_buffer.data@);
            &&& r.unwrap().1 == k
            &&& r.unwrap().0 == dsl_decode(instruction_buffer.data@.subrange(instruction_offset(k) as int, instruction_offset(k) + INSTRUCTION_SIZE)).unwrap()
        }),
{
    if !keys_equal(&instruction_buffer.owner, program_id) || !keys_equal(&input_buffer.owner, program_id)
        || !keys_equal(&compute_buffer.owner, program_id) {
        return Err(ProgramError::InvalidArgument);
    }
    let compute_header = match ComputeHeader::decode(compute_buffer.data.as_slice()) {
        None => {
            return Err(ProgramError::InvalidArgument);
        },
        Some(h) => h,
    };
    match compute_header.key {
        Key::ComputeBufferV1 => {},
        _ => {
            return Err(ProgramError::InvalidArgument);
        },
    }
    if !keys_equal(&compute_header.instruction_buffer, &instruction_buffer.key)
        || !keys_equal(&compute_header.input_buffer, &input_buffer.key) {
        return Err(ProgramError::InvalidArgument);
    }
    let instruction_header = match InstructionHeader::decode(instruction_buffer.data.as_slice()) {
        None => {
            return Err(ProgramError::InvalidArgument);
        },
        Some(h) => h,
    };
    match instruction_header.key {
        Key::InstructionBufferV1 => {},
        _ => {
            return Err(ProgramError::InvalidArgument);
        },
    }
    if !instruction_header.finalized {
        return Err(ProgramError::InvalidArgument);
    }
    let k = compute_header.instruction_num;
    if k == u32::MAX {
        return Err(ProgramError::InvalidArgument);
    }
    let ilen = instruction_buffer.data.len();
    if ilen < HEADER_SIZE || (ilen - HEADER_SIZE) / INSTRUCTION_SIZE <= k as usize {
        proof {
            let l = ilen - HEADER_SIZE;
            if ilen >= HEADER_SIZE {
                assert(l / 16 <= k ==> 16 * k + 16 > l) by (nonlinear_arith);
            }
        }
        return Err(ProgramError::InvalidArgument);
    }
    proof {
        let l = ilen - HEADER_SIZE;
        assert(l / 16 > k ==> 16 * k + 16 <= l) by (nonlinear_arith);
    }
    let offset = HEADER_SIZE + INSTRUCTION_SIZE * (k as usize);
    match DSLInstruction::decode(instruction_buffer.data.as_slice(), offset) {
        None => Err(ProgramError::InvalidArgument),
        Some(ix) => Ok((ix, k)),
    }
}

/// One crank: executes the instruction at the compute buffer's cursor and
/// moves the cursor on by one.
///
/// The cursor only moves forward, by exactly one per successful crank; a
/// crank at a cursor that has reached the end of the instruction buffer is
/// rejected; a rejected crank changes nothing.
pub fn process_dsl_instruction(
    program_id: &Pubkey,
    instruction_buffer: &AccountState,
    input_buffer: &AccountState,
    compute_buffer: &mut AccountState,
) -> (r: Result<(), ProgramError>)
    ensures
        r.is_ok() == crank_spec(*program_id, *instruction_buffer, *input_buffer, *old(compute_buffer)).is_some(),
        r.is_ok() ==> same_but_data(*final(compute_buffer), *old(compute_buffer))
            && final(compute_buffer).data@ == crank_spec(*program_id, *instruction_buffer, *input_buffer, *old(compute_buffer)).unwrap(),
        r.is_ok() ==> cursor(final(compute_buffer).data@) == cursor(old(compute_buffer).data@) + 1,
        r.is_ok() ==> instruction_offset(cursor(old(compute_buffer).data@)) + INSTRUCTION_SIZE <= instruction_buffer.data@.len(),
        instruction_offset(cursor(old(compute_buffer).data@)) + INSTRUCTION_SIZE > instruction_buffer.data@.len() ==> r.is_err(),
        r.is_err() ==> same_account(*final(compute_buffer), *old(compute_buffer)) && r == Err::<(), ProgramError>(ProgramError::InvalidArgument),
{
    let (ix, k) = match crank_prepare(program_id, instruction_buffer, input_buffer, compute_buffer) {
        Err(_) => {
            return Err(ProgramError::InvalidArgument);
        },
        Ok(p) => p,
    };
    let mut next = compute_buffer.data.clone();
    let mut cursor_bytes: Vec<u8> = Vec::new();
    crate::encoding::push_u32(&mut cursor_bytes, k + 1);
    write_at(&mut next, 1, cursor_bytes.as_slice());
    match execute(&ix, input_buffer.data.as_slice(), &mut next) {
        Err(_) => Err(ProgramError::InvalidArgument),
        Ok(()) => {
            proof {
                let c = old(compute_buffer).data@;
                let moved = splice(c, 1, u32_le((k + 1) as u32));
                lemma_step_keeps_header(ix, input_buffer.data@, moved);
                crate::steps::lemma_splice_within(c, 1, u32_le((k + 1) as u32));
                assert(next@[1] == moved[1] && next@[2] == moved[2] && next@[3] == moved[3] && next@[4] == moved[4]);
                assert(moved.subrange(1, 5) == u32_le((k + 1) as u32));
                assert(moved[1] == u32_le((k + 1) as u32)[0]);
                assert(moved[2] == u32_le((k + 1) as u32)[1]);
                assert(moved[3] == u32_le((k + 1) as u32)[2]);
                assert(moved[4] == u32_le((k + 1) as u32)[3]);
                assert(next@.subrange(1, 5) =~= u32_le((k + 1) as u32));
                crate::encoding::lemma_u32_at_of(next@, 1, (k + 1) as u32);
            }
            compute_buffer.data = next;
            Ok(())
        },
    }
}

/// The accounts that a call left as they were, all but those at the listed positions.
pub open spec fn others_unchanged(before: Seq<AccountState>, after: Seq<AccountState>, changed: Set<int>) -> bool {
    &&& after.len() == before.len()
    &&& forall|i: int| 0 <= i < before.len() && !changed.contains(i) ==> same_account(#[trigger] after[i], before[i])
}

/// The kind that an initialization instruction names.
pub open spec fn initialized_kind(tag: u8) -> Key {
    if tag == 0 {
        Key::InstructionBufferV1
    } else if tag == 1 {
        Key::InputBufferV1
    } else {
        Key::ComputeBufferV1
    }
}

/// The address at `input[at..at + 32]`, when the input reaches that far.
pub open spec fn ref_at(input: Seq<u8>, at: int) -> Seq<u8> {
    if at + 32 <= input.len() {
        input.subrange(at, at + 32)
    } else {
        Seq::empty()
    }
}

/// The outcome of an initialization call: a compute buffer records the two
/// addresses in the instruction data.
pub open spec fn initialize_outcome(before: Seq<AccountState>, input: Seq<u8>, rent_exempt: bool) -> Option<Seq<u8>> {
    initialize_spec(before[0], before[1], initialized_kind(input[0]), ref_at(input, 1), ref_at(input, 33), rent_exempt)
}

/// What a successful initialization did.
pub open spec fn initialize_effect(before: Seq<AccountState>, after: Seq<AccountState>, input: Seq<u8>, rent_exempt: bool) -> bool {
    &&& initialize_outcome(before, input, rent_exempt).is_some()
    &&& after[0].data@ == initialize_outcome(before, input, rent_exempt).unwrap()
    &&& same_but_data(after[0], before[0])
    &&& others_unchanged(before, after, set![0])
}

/// The outcome of a `WriteBytes` call: offset in bytes 1..5, finalize when
/// byte 5 is zero, bytes from 6 on.
pub open spec fn write_outcome(before: Seq<AccountState>, input: Seq<u8>) -> Option<Seq<u8>> {
    write_bytes_spec(before[0], before[1], u32_at(input, 1) as u32, input[5] == 0, input.subrange(6, input.len() as int))
}

/// Whether a call whose instruction data and accounts are long enough succeeds.
pub open spec fn call_accepts(program_id: Pubkey, before: Seq<AccountState>, input: Seq<u8>, rent_exempt: bool) -> bool {
    let tag = input[0];
    if tag <= 2 {
        initialize_outcome(before, input, rent_exempt).is_some()
    } else if tag == 3 {
        write_outcome(before, input).is_some()
    } else if tag == 4 {
        crank_spec(program_id, before[0], before[1], before[2]).is_some()
    } else if tag == 5 {
        close_accepts(before[0], before[1])
    } else {
        true
    }
}

/// What a successful `WriteBytes` did.
pub open spec fn write_effect(before: Seq<AccountState>, after: Seq<AccountState>, input: Seq<u8>) -> bool {
    &&& write_outcome(before, input).is_some()
    &&& after[0].data@ == write_outcome(before, input).unwrap()
    &&& same_but_data(after[0], before[0])
    &&& others_unchanged(before, after, set![0])
}

/// What a successful crank did.
pub open spec fn crank_effect(program_id: Pubkey, before: Seq<AccountState>, after: Seq<AccountState>) -> bool {
    &&& crank_spec(program_id, before[0], before[1], before[2]).is_some()
    &&& after[2].data@ == crank_spec(program_id, before[0], before[1], before[2]).unwrap()
    &&& same_but_data(after[2], before[2])
    &&& others_unchanged(before, after, set![2])
}

/// What a successful close did.
pub open spec fn close_effect(before: Seq<AccountState>, after: Seq<AccountState>) -> bool {
    &&& close_accepts(before[0], before[1])
    &&& after[0].lamports == 0
    &&& after[1].lamports == before[1].lamports + before[0].lamports
    &&& after[0].data@ == before[0].data@.update(0, key_tag(Key::Uninitialized))
    &&& after[0].key == before[0].key && after[0].owner == before[0].owner && after[0].is_signer == before[0].is_signer
    &&& after[1].key == before[1].key && after[1].owner == before[1].owner && after[1].is_signer == before[1].is_signer
    &&& after[1].data@ == before[1].data@
    &&& others_unchanged(before, after, set![0, 1])
}

/// What a successful call did to the accounts, by the instruction's first byte.
pub open spec fn call_effect(program_id: Pubkey, before: Seq<AccountState>, after: Seq<AccountState>, input: Seq<u8>, rent_exempt: bool) -> bool {
    let tag = input[0];
    if tag <= 2 {
        initialize_effect(before, after, input, rent_exempt)
    } else if tag == 3 {
        write_effect(before, after, input)
    } else if tag == 4 {
        crank_effect(program_id, before, after)
    } else if tag == 5 {
        close_effect(before, after)
    } else {
        others_unchanged(before, after, Set::empty())
    }
}

/// Accounts a call with this first byte reads: buffer, authority and system
/// program for the lifecycle calls; instruction, input and compute buffer for a crank.
pub open spec fn accounts_needed(tag: u8) -> nat {
    if tag <= 5 { 3 } else { 0 }
}

/// Least length of the instruction data, by its first byte.
pub open spec fn data_needed(tag: u8) -> nat {
    if tag == 2 { 65 } else if tag == 3 { 6 } else { 1 }
}

/// Runs one host call: decodes the control instruction and applies it to the
/// accounts. `rent_exempt` is whether the first account's balance covers the
/// storage deposit for its size, as the host's rent rules say.
pub fn process_instruction(program_id: &Pubkey, accounts: &mut Vec<AccountState>, input: &[u8], rent_exempt: bool) -> (r: Result<(), ProgramError>)
    ensures
        input@.len() == 0 || input@[0] > 6 ==> r == Err::<(), ProgramError>(ProgramError::InvalidInstructionData),
        input@.len() > 0 && input@[0] <= 6 && input@.len() < data_needed(input@[0]) ==> r == Err::<(), ProgramError>(ProgramError::InvalidInstructionData),
        input@.len() > 0 && input@[0] <= 6 && input@.len() >= data_needed(input@[0]) && old(accounts)@.len() < accounts_needed(input@[0])
            ==> r == Err::<(), ProgramError>(ProgramError::NotEnoughAccountKeys),
        input@.len() > 0 && input@[0] <= 6 && input@.len() >= data_needed(input@[0]) && old(accounts)@.len() >= accounts_needed(input@[0])
            ==> (r.is_ok() <==> call_accepts(*program_id, old(accounts)@, input@, rent_exempt))
            && (r.is_err() ==> r == Err::<(), ProgramError>(ProgramError::InvalidArgument)),
        r.is_ok() ==> call_effect(*program_id, old(accounts)@, final(accounts)@, input@, rent_exempt),
        r.is_err() ==> others_unchanged(old(accounts)@, final(accounts)@, Set::empty()),
{
    let ix = decode_instruction_type(input)?;
    match ix {
        Curve25519Instruction::Noop => {
            return Ok(());
        },
        _ => {},
    }
    let tag = ix.to_u8();
    let need: usize = if tag == 2 { 65 } else if tag == 3 { 6 } else { 1 };
    if input.len() < need {
        return Err(ProgramError::InvalidInstructionData);
    }
    if accounts.len() < 3 {
        return Err(ProgramError::NotEnoughAccountKeys);
    }
    match ix {
        Curve25519Instruction::WriteBytes => call_write_bytes(accounts, input),
        Curve25519Instruction::CrankCompute => call_crank(program_id, accounts),
        Curve25519Instruction::CloseBuffer => call_close(accounts),
        Curve25519Instruction::Noop => Ok(()),
        _ => call_initialize(accounts, input, tag, rent_exempt),
    }
}

fn call_initialize(accounts: &mut Vec<AccountState>, input: &[u8], tag: u8, rent_exempt: bool) -> (r: Result<(), ProgramError>)
    requires
        old(accounts)@.len() >= 3,
        tag <= 2,
        input@.len() >= 65 || tag != 2,
        input@.len() >= 1,
        input@[0] == tag,
    ensures
        r.is_ok() == initialize_outcome(old(accounts)@, input@, rent_exempt).is_some(),
        r.is_err() ==> r == Err::<(), ProgramError>(ProgramError::InvalidArgument),
        r.is_ok() ==> initialize_effect(old(accounts)@, final(accounts)@, input@, rent_exempt),
        r.is_err() ==> others_unchanged(old(accounts)@, final(accounts)@, Set::empty()),
{
    let kind = if tag == 0 {
        Key::InstructionBufferV1
    } else if tag == 1 {
        Key::InputBufferV1
    } else {
        Key::ComputeBufferV1
    };
    let (ib, inb) = if tag == 2 {
        (crate::instruction::read_pubkey(input, 1), crate::instruction::read_pubkey(input, 33))
    } else {
        ([0u8; 32], [0u8; 32])
    };
    let mut buffer = copy_account(&accounts[0]);
    proof {
        assert(initialize_spec(buffer, accounts@[1], kind, ib@, inb@, rent_exempt) == initialize_outcome(accounts@, input@, rent_exempt));
    }
    let res = process_initialize_buffer(&mut buffer, &accounts[1], kind, &ib, &inb, rent_exempt);
    if res.is_err() {
        return res;
    }
    let ghost before = accounts@;
    accounts.set(0, buffer);
    proof {
        assert(others_unchanged(before, accounts@, set![0]));
        assert(initialized_kind(tag) == kind);
    }
    Ok(())
}

fn call_write_bytes(accounts: &mut Vec<AccountState>, input: &[u8]) -> (r: Result<(), ProgramError>)
    requires
        old(accounts)@.len() >= 3,
        input@.len() >= 6,
    ensures
        r.is_ok() == write_outcome(old(accounts)@, input@).is_some(),
        r.is_err() ==> r == Err::<(), ProgramError>(ProgramError::InvalidArgument),
        r.is_ok() ==> write_effect(old(accounts)@, final(accounts)@, input@),
        r.is_err() ==> others_unchanged(old(accounts)@, final(accounts)@, Set::empty()),
{
    let offset = read_u32(input, 1);
    let finalize = input[5] == 0x00;
    let mut buffer = copy_account(&accounts[0]);
    let bytes = &input[6..input.len()];
    assert(bytes@ == input@.subrange(6, input@.len() as int));
    let res = process_write_bytes(&mut buffer, &accounts[1], offset, finalize, bytes);
    if res.is_err() {
        return res;
    }
    let ghost before = accounts@;
    accounts.set(0, buffer);
    proof {
        assert(others_unchanged(before, accounts@, set![0]));
    }
    Ok(())
}

fn call_crank(program_id: &Pubkey, accounts: &mut Vec<AccountState>) -> (r: Result<(), ProgramError>)
    requires
        old(accounts)@.len() >= 3,
    ensures
        r.is_ok() == crank_spec(*program_id, old(accounts)@[0], old(accounts)@[1], old(accounts)@[2]).is_some(),
        r.is_err() ==> r == Err::<(), ProgramError>(ProgramError::InvalidArgument),
        r.is_ok() ==> crank_effect(*program_id, old(accounts)@, final(accounts)@),
        r.is_err() ==> others_unchanged(old(accounts)@, final(accounts)@, Set::empty()),
{
    let mut compute = copy_account(&accounts[2]);
    let res = process_dsl_instruction(program_id, &accounts[0], &accounts[1], &mut compute);
    if res.is_err() {
        return res;
    }
    let ghost before = accounts@;
    accounts.set(2, compute);
    proof {
        assert(others_unchanged(before, accounts@, set![2]));
    }
    Ok(())
}

fn call_close(accounts: &mut Vec<AccountState>) -> (r: Result<(), ProgramError>)
    requires
        old(accounts)@.len() >= 3,
    ensures
        r.is_ok() == close_accepts(old(accounts)@[0], old(accounts)@[1]),
        r.is_err() ==> r == Err::<(), ProgramError>(ProgramError::InvalidArgument),
        r.is_ok() ==> close_effect(old(accounts)@, final(accounts)@),
        r.is_err() ==> others_unchanged(old(accounts)@, final(accounts)@, Set::empty()),
{
    let mut buffer = copy_account(&accounts[0]);
    let mut authority = copy_account(&accounts[1]);
    let res = process_close_buffer(&mut buffer, &mut authority);
    if res.is_err() {
        return res;
    }
    let ghost before = accounts@;
    accounts.set(0, buffer);
    accounts.set(1, authority);
    proof {
        assert(others_unchanged(before, accounts@, set![0, 1]));
    }
    Ok(())
}

/// A crank that succeeds moves the cursor on by exactly one, from a cursor
/// that was inside the instruction buffer; a crank whose cursor has reached
/// the end of the instruction buffer is rejected.
pub proof fn lemma_crank_cursor(program_id: Pubkey, ib: AccountState, inb: AccountState, cb: AccountState)
    ensures
        crank_spec(program_id, ib, inb, cb).is_some() ==> cursor(crank_spec(program_id, ib, inb, cb).unwrap()) == cursor(cb.data@) + 1,
        crank_spec(program_id, ib, inb, cb).is_some() ==> instruction_offset(cursor(cb.data@)) + INSTRUCTION_SIZE <= ib.data@.len(),
        instruction_offset(cursor(cb.data@)) + INSTRUCTION_SIZE > ib.data@.len() ==> crank_spec(program_id, ib, inb, cb).is_none(),
{
    if crank_spec(program_id, ib, inb, cb).is_some() {
        let c = cb.data@;
        let k = cursor(c);
        let moved = splice(c, 1, u32_le((k + 1) as u32));
        let ix = dsl_decode(ib.data@.subrange(instruction_offset(k) as int, instruction_offset(k) + INSTRUCTION_SIZE)).unwrap();
        let next = step_spec(ix, inb.data@, moved).unwrap();
        crate::encoding::lemma_u32_le_value((k + 1) as u32);
        crate::steps::lemma_splice_within(c, 1, u32_le((k + 1) as u32));
        lemma_step_keeps_header(ix, inb.data@, moved);
        assert(next[1] == moved[1] && next[2] == moved[2] && next[3] == moved[3] && next[4] == moved[4]);
        assert(moved[1] == u32_le((k + 1) as u32)[0]);
        assert(moved[2] == u32_le((k + 1) as u32)[1]);
        assert(moved[3] == u32_le((k + 1) as u32)[2]);
        assert(moved[4] == u32_le((k + 1) as u32)[3]);
        assert(next.subrange(1, 5) =~= u32_le((k + 1) as u32));
        crate::encoding::lemma_u32_at_of(next, 1, (k + 1) as u32);
    }
}

/// Writing into a finalized buffer, or into the header region, is rejected
/// (and a rejected call leaves the buffer as it was).
pub proof fn lemma_write_rejections(buffer: AccountState, authority: AccountState, offset: u32, finalize: bool, bytes: Seq<u8>)
    ensures
        buffer.data@.len() >= DATA_HEADER_LEN && buffer.data@[33] == 1 ==> write_bytes_spec(buffer, authority, offset, finalize, bytes).is_none(),
        offset < HEADER_SIZE ==> write_bytes_spec(buffer, authority, offset, finalize, bytes).is_none(),
{
}

/// A buffer is initialized at most once: initializing one whose tag is set is
/// rejected, and a successful initialization sets the tag.
pub proof fn lemma_initialize_once(
    buffer: AccountState,
    authority: AccountState,
    kind: Key,
    instruction_buffer: Seq<u8>,
    input_buffer: Seq<u8>,
    rent_exempt: bool,
)
    ensures
        buffer.data@.len() > 0 && buffer.data@[0] != key_tag(Key::Uninitialized)
            ==> initialize_spec(buffer, authority, kind, instruction_buffer, input_buffer, rent_exempt).is_none(),
        initialize_spec(buffer, authority, kind, instruction_buffer, input_buffer, rent_exempt).is_some()
            ==> initialize_spec(buffer, authority, kind, instruction_buffer, input_buffer, rent_exempt).unwrap()[0] == key_tag(kind)
            && key_tag(kind) != key_tag(Key::Uninitialized),
{
    if initialize_spec(buffer, authority, kind, instruction_buffer, input_buffer, rent_exempt).is_some() {
        let h = initial_header(kind, authority.key, instruction_buffer, input_buffer).unwrap();
        crate::steps::lemma_splice_within(buffer.data@, 0, h);
        assert(splice(buffer.data@, 0, h)[0] == h[0]);
    }
}

/// Closing needs the recorded authority: with any other the close is
/// rejected; with it, the whole balance moves and the tag is zeroed (see
/// `process_close_buffer`).
pub proof fn lemma_close_needs_authority(buffer: AccountState, authority: AccountState)
    ensures
        recorded_authority(buffer.data@) != authority.key@ ==> !close_accepts(buffer, authority),
        !authority.is_signer ==> !close_accepts(buffer, authority),
{
}

} // verus!
