//! The wire formats: the control instructions that a host call carries, the
//! buffer headers, the fixed-width bytecode of the cranked interpreter, and
//! the compiler that lays out a job and emits its bytecode.

use vstd::prelude::*;
use crate::encoding::{u32_at, u32_le, push_u32, read_u32, lemma_u32_at_of};
pub use crate::compiler::{transer_proof_instructions, elligator_to_curve_instructions};

verus! {

/// An account address.
pub type Pubkey = [u8; 32];

/// Bytes at the start of every buffer reserved for its header.
pub const HEADER_SIZE: usize = 128;

/// Bytes of one bytecode instruction.
pub const INSTRUCTION_SIZE: usize = 16;

/// Most points that one multiscalar step may combine.
pub const MAX_MULTISCALAR_POINTS: usize = 6;

/// Bytes of an encoded compute-buffer header.
pub const COMPUTE_HEADER_LEN: usize = 101;

/// Bytes of an encoded input- or instruction-buffer header.
pub const DATA_HEADER_LEN: usize = 34;

/// The errors a host call can end with.
#[derive(Clone, Copy, Debug, PartialEq, Eq, Structural)]
pub enum ProgramError {
    InvalidArgument,
    InvalidInstructionData,
    NotEnoughAccountKeys,
}

/// The control instructions, by their first byte.
#[derive(Clone, Copy, Debug, PartialEq, Eq, Structural)]
pub enum Curve25519Instruction {
    InitializeInstructionBuffer,
    InitializeInputBuffer,
    InitializeComputeBuffer,
    WriteBytes,
    CrankCompute,
    CloseBuffer,
    Noop,
}

pub open spec fn control_tag(ix: Curve25519Instruction) -> u8 {
    match ix {
        Curve25519Instruction::InitializeInstructionBuffer => 0,
        Curve25519Instruction::InitializeInputBuffer => 1,
        Curve25519Instruction::InitializeComputeBuffer => 2,
        Curve25519Instruction::WriteBytes => 3,
        Curve25519Instruction::CrankCompute => 4,
        Curve25519Instruction::CloseBuffer => 5,
        Curve25519Instruction::Noop => 6,
    }
}

impl Curve25519Instruction {
    pub fn to_u8(&self) -> (r: u8)
        ensures
            r == control_tag(*self),
    {
        match self {
            Curve25519Instruction::InitializeInstructionBuffer => 0,
            Curve25519Instruction::InitializeInputBuffer => 1,
            Curve25519Instruction::InitializeComputeBuffer => 2,
            Curve25519Instruction::WriteBytes => 3,
            Curve25519Instruction::CrankCompute => 4,
            Curve25519Instruction::CloseBuffer => 5,
            Curve25519Instruction::Noop => 6,
        }
    }

    pub fn from_u8(b: u8) -> (r: Option<Curve25519Instruction>)
        ensures
            r.is_some() == (b <= 6),
            r.is_some() ==> control_tag(r.unwrap()) == b,
    {
        match b {
            0 => Some(Curve25519Instruction::InitializeInstructionBuffer),
            1 => Some(Curve25519Instruction::InitializeInputBuffer),
            2 => Some(Curve25519Instruction::InitializeComputeBuffer),
            3 => Some(Curve25519Instruction::WriteBytes),
            4 => Some(Curve25519Instruction::CrankCompute),
            5 => Some(Curve25519Instruction::CloseBuffer),
            6 => Some(Curve25519Instruction::Noop),
            _ => None,
        }
    }
}

/// The control instruction that the first byte of `input` names.
pub fn decode_instruction_type(input: &[u8]) -> (r: Result<Curve25519Instruction, ProgramError>)
    ensures
        r.is_ok() == (input@.len() > 0 && input@[0] <= 6),
        r.is_ok() ==> control_tag(r.unwrap()) == input@[0],
        r.is_err() ==> r == Err::<Curve25519Instruction, ProgramError>(ProgramError::InvalidInstructionData),
{
    if input.len() == 0 {
        Err(ProgramError::InvalidInstructionData)
    } else {
        match Curve25519Instruction::from_u8(input[0]) {
            Some(ix) => Ok(ix),
            None => Err(ProgramError::InvalidInstructionData),
        }
    }
}

/// The kind of a buffer, stored in its first byte.
#[derive(Clone, Copy, Debug, PartialEq, Eq, Structural)]
pub enum Key {
    Uninitialized,
    InputBufferV1,
    ComputeBufferV1,
    InstructionBufferV1,
}

pub open spec fn key_tag(k: Key) -> u8 {
    match k {
        Key::Uninitialized => 0,
        Key::InputBufferV1 => 1,
        Key::ComputeBufferV1 => 2,
        Key::InstructionBufferV1 => 3,
    }
}

impl Key {
    pub fn to_u8(&self) -> (r: u8)
        ensures
            r == key_tag(*self),
    {
        match self {
            Key::Uninitialized => 0,
            Key::InputBufferV1 => 1,
            Key::ComputeBufferV1 => 2,
            Key::InstructionBufferV1 => 3,
        }
    }

    pub fn from_u8(b: u8) -> (r: Option<Key>)
        ensures
            r.is_some() == (b <= 3),
            r.is_some() ==> key_tag(r.unwrap()) == b,
    {
        match b {
            0 => Some(Key::Uninitialized),
            1 => Some(Key::InputBufferV1),
            2 => Some(Key::ComputeBufferV1),
            3 => Some(Key::InstructionBufferV1),
            _ => None,
        }
    }
}

/// Header of a compute buffer: kind, cursor, authority and the two buffers it reads.
#[derive(Clone, Copy)]
pub struct ComputeHeader {
    pub key: Key,
    pub instruction_num: u32,
    pub authority: Pubkey,
    pub instruction_buffer: Pubkey,
    pub input_buffer: Pubkey,
}

/// Header of an input buffer.
#[derive(Clone, Copy)]
pub struct InputHeader {
    pub key: Key,
    pub authority: Pubkey,
    pub finalized: bool,
}

/// Header of an instruction buffer.
#[derive(Clone, Copy)]
pub struct InstructionHeader {
    pub key: Key,
    pub authority: Pubkey,
    pub finalized: bool,
}

/// The encoded compute header: key byte, cursor (little-endian), then the
/// authority, instruction-buffer and input-buffer addresses.
pub open spec fn compute_header_bytes(h: ComputeHeader) -> Seq<u8> {
    seq![key_tag(h.key)] + u32_le(h.instruction_num) + h.authority@ + h.instruction_buffer@ + h.input_buffer@
}

/// The encoded input or instruction header: key byte, authority, finalized byte.
pub open spec fn data_header_bytes(key: Key, authority: Pubkey, finalized: bool) -> Seq<u8> {
    seq![key_tag(key)] + authority@ + seq![if finalized { 1u8 } else { 0u8 }]
}

/// Whether `s` begins with a decodable compute header.
pub open spec fn compute_header_decodes(s: Seq<u8>) -> bool {
    s.len() >= COMPUTE_HEADER_LEN && s[0] <= 3
}

/// Whether `s` begins with a decodable input or instruction header.
pub open spec fn data_header_decodes(s: Seq<u8>) -> bool {
    s.len() >= DATA_HEADER_LEN && s[0] <= 3 && s[33] <= 1
}

/// Whether a decoded compute header is the one at the start of `s`.
pub open spec fn compute_header_of(s: Seq<u8>, h: ComputeHeader) -> bool {
    &&& key_tag(h.key) == s[0]
    &&& h.instruction_num == u32_at(s, 1)
    &&& h.authority@ == s.subrange(5, 37)
    &&& h.instruction_buffer@ == s.subrange(37, 69)
    &&& h.input_buffer@ == s.subrange(69, 101)
}

/// Whether a decoded input or instruction header is the one at the start of `s`.
pub open spec fn data_header_of(s: Seq<u8>, key: Key, authority: Pubkey, finalized: bool) -> bool {
    &&& key_tag(key) == s[0]
    &&& authority@ == s.subrange(1, 33)
    &&& finalized == (s[33] == 1)
}

/// Copies `s[at..at + 32]` into an address.
pub fn read_pubkey(s: &[u8], at: usize) -> (r: Pubkey)
    requires
        at + 32 <= s@.len(),
    ensures
        r@ == s@.subrange(at as int, at + 32),
{
    crate::edwards::copy32(s, at)
}

fn push_pubkey(out: &mut Vec<u8>, k: &Pubkey)
    ensures
        final(out)@ == old(out)@ + k@,
{
    let mut i: usize = 0;
    while i < 32
        invariant
            i <= 32,
            out@ == old(out)@ + k@.subrange(0, i as int),
        decreases 32 - i,
    {
        out.push(k[i]);
        i = i + 1;
        assert(out@ =~= old(out)@ + k@.subrange(0, i as int));
    }
    assert(k@.subrange(0, 32) =~= k@);
}

impl ComputeHeader {
    pub fn decode(s: &[u8]) -> (r: Option<ComputeHeader>)
        ensures
            r.is_some() == compute_header_decodes(s@),
            r.is_some() ==> compute_header_of(s@, r.unwrap()),
    {
        if s.len() < COMPUTE_HEADER_LEN {
            return None;
        }
        match Key::from_u8(s[0]) {
            None => None,
            Some(key) => Some(ComputeHeader {
                key,
                instruction_num: read_u32(s, 1),
                authority: read_pubkey(s, 5),
                instruction_buffer: read_pubkey(s, 37),
                input_buffer: read_pubkey(s, 69),
            }),
        }
    }

    pub fn encode(&self) -> (r: Vec<u8>)
        ensures
            r@ == compute_header_bytes(*self),
            r@.len() == COMPUTE_HEADER_LEN,
    {
        let mut out: Vec<u8> = Vec::new();
        out.push(self.key.to_u8());
        push_u32(&mut out, self.instruction_num);
        push_pubkey(&mut out, &self.authority);
        push_pubkey(&mut out, &self.instruction_buffer);
        push_pubkey(&mut out, &self.input_buffer);
        assert(out@ =~= compute_header_bytes(*self));
        out
    }
}

/// Encodes an input or instruction header.
pub fn encode_data_header(key: Key, authority: &Pubkey, finalized: bool) -> (r: Vec<u8>)
    ensures
        r@ == data_header_bytes(key, *authority, finalized),
        r@.len() == DATA_HEADER_LEN,
{
    let mut out: Vec<u8> = Vec::new();
    out.push(key.to_u8());
    push_pubkey(&mut out, authority);
    out.push(if finalized { 1u8 } else { 0u8 });
    assert(out@ =~= data_header_bytes(key, *authority, finalized));
    out
}

impl InputHeader {
    pub fn decode(s: &[u8]) -> (r: Option<InputHeader>)
        ensures
            r.is_some() == data_header_decodes(s@),
            r.is_some() ==> data_header_of(s@, r.unwrap().key, r.unwrap().authority, r.unwrap().finalized),
    {
        if s.len() < DATA_HEADER_LEN || s[33] > 1 {
            return None;
        }
        match Key::from_u8(s[0]) {
            None => None,
            Some(key) => Some(InputHeader { key, authority: read_pubkey(s, 1), finalized: s[33] == 1 }),
        }
    }

    pub fn encode(&self) -> (r: Vec<u8>)
        ensures
            r@ == data_header_bytes(self.key, self.authority, self.finalized),
            r@.len() == DATA_HEADER_LEN,
    {
        encode_data_header(self.key, &self.authority, self.finalized)
    }
}

impl InstructionHeader {
    pub fn decode(s: &[u8]) -> (r: Option<InstructionHeader>)
        ensures
            r.is_some() == data_header_decodes(s@),
            r.is_some() ==> data_header_of(s@, r.unwrap().key, r.unwrap().authority, r.unwrap().finalized),
    {
        if s.len() < DATA_HEADER_LEN || s[33] > 1 {
            return None;
        }
        match Key::from_u8(s[0]) {
            None => None,
            Some(key) => Some(InstructionHeader { key, authority: read_pubkey(s, 1), finalized: s[33] == 1 }),
        }
    }

    pub fn encode(&self) -> (r: Vec<u8>)
        ensures
            r@ == data_header_bytes(self.key, self.authority, self.finalized),
            r@.len() == DATA_HEADER_LEN,
    {
        encode_data_header(self.key, &self.authority, self.finalized)
    }
}

/// Copy `bytes` bytes from the input buffer to the compute buffer.
#[derive(Clone, Copy, Debug, PartialEq, Eq, Structural)]
pub struct CopyInputData {
    pub input_offset: u32,
    pub compute_offset: u32,
    pub bytes: u32,
}

/// A step that works on the scratch slots starting at `offset`.
#[derive(Clone, Copy, Debug, PartialEq, Eq, Structural)]
pub struct RunDecompressData {
    pub offset: u32,
}

/// Build the table of the point at `point_offset` into `table_offset`.
#[derive(Clone, Copy, Debug, PartialEq, Eq, Structural)]
pub struct BuildLookupTableData {
    pub point_offset: u32,
    pub table_offset: u32,
}

/// Digit positions `[start, end)` (processed from the top) of a multiscalar
/// product of `num_inputs` scalars and tables, accumulated at `result_offset`.
#[derive(Clone, Copy, Debug, PartialEq, Eq, Structural)]
pub struct MultiscalarMulData {
    pub start: u8,
    pub end: u8,
    pub num_inputs: u8,
    pub scalars_offset: u32,
    pub tables_offset: u32,
    pub result_offset: u32,
}

/// One bytecode instruction.
#[derive(Clone, Copy, Debug, PartialEq, Eq, Structural)]
pub enum DSLInstruction {
    CopyInput(CopyInputData),
    DecompressInit(RunDecompressData),
    InvSqrtInit(RunDecompressData),
    Pow22501P1(RunDecompressData),
    Pow22501P2(RunDecompressData),
    InvSqrtFini(RunDecompressData),
    DecompressFini(RunDecompressData),
    BuildLookupTable(BuildLookupTableData),
    MultiscalarMul(MultiscalarMulData),
    ElligatorInit(RunDecompressData),
    ElligatorFini(RunDecompressData),
}

/// `s` followed by zeros up to `INSTRUCTION_SIZE` bytes.
pub open spec fn pad16(s: Seq<u8>) -> Seq<u8> {
    s + Seq::new((INSTRUCTION_SIZE - s.len()) as nat, |i: int| 0u8)
}

/// The 16-byte slot of an instruction: its tag, its fields in order
/// (single bytes, or four little-endian bytes), then zeros.
pub open spec fn dsl_bytes(ix: DSLInstruction) -> Seq<u8> {
    match ix {
        DSLInstruction::CopyInput(d) => pad16(seq![0u8] + u32_le(d.input_offset) + u32_le(d.compute_offset) + u32_le(d.bytes)),
        DSLInstruction::DecompressInit(d) => pad16(seq![1u8] + u32_le(d.offset)),
        DSLInstruction::InvSqrtInit(d) => pad16(seq![2u8] + u32_le(d.offset)),
        DSLInstruction::Pow22501P1(d) => pad16(seq![3u8] + u32_le(d.offset)),
        DSLInstruction::Pow22501P2(d) => pad16(seq![4u8] + u32_le(d.offset)),
        DSLInstruction::InvSqrtFini(d) => pad16(seq![5u8] + u32_le(d.offset)),
        DSLInstruction::DecompressFini(d) => pad16(seq![6u8] + u32_le(d.offset)),
        DSLInstruction::BuildLookupTable(d) => pad16(seq![7u8] + u32_le(d.point_offset) + u32_le(d.table_offset)),
        DSLInstruction::MultiscalarMul(d) => pad16(
            seq![8u8, d.start, d.end, d.num_inputs] + u32_le(d.scalars_offset) + u32_le(d.tables_offset) + u32_le(d.result_offset),
        ),
        DSLInstruction::ElligatorInit(d) => pad16(seq![9u8] + u32_le(d.offset)),
        DSLInstruction::ElligatorFini(d) => pad16(seq![10u8] + u32_le(d.offset)),
    }
}

/// The instruction that a 16-byte slot decodes to, if its tag is known.
#[verifier::opaque]
pub open spec fn dsl_decode(s: Seq<u8>) -> Option<DSLInstruction> {
    let off = RunDecompressData { offset: u32_at(s, 1) as u32 };
    if s[0] == 0 {
        Some(DSLInstruction::CopyInput(CopyInputData {
            input_offset: u32_at(s, 1) as u32,
            compute_offset: u32_at(s, 5) as u32,
            bytes: u32_at(s, 9) as u32,
        }))
    } else if s[0] == 1 {
        Some(DSLInstruction::DecompressInit(off))
    } else if s[0] == 2 {
        Some(DSLInstruction::InvSqrtInit(off))
    } else if s[0] == 3 {
        Some(DSLInstruction::Pow22501P1(off))
    } else if s[0] == 4 {
        Some(DSLInstruction::Pow22501P2(off))
    } else if s[0] == 5 {
        Some(DSLInstruction::InvSqrtFini(off))
    } else if s[0] == 6 {
        Some(DSLInstruction::DecompressFini(off))
    } else if s[0] == 7 {
        Some(DSLInstruction::BuildLookupTable(BuildLookupTableData {
            point_offset: u32_at(s, 1) as u32,
            table_offset: u32_at(s, 5) as u32,
        }))
    } else if s[0] == 8 {
        Some(DSLInstruction::MultiscalarMul(MultiscalarMulData {
            start: s[1],
            end: s[2],
            num_inputs: s[3],
            scalars_offset: u32_at(s, 4) as u32,
            tables_offset: u32_at(s, 8) as u32,
            result_offset: u32_at(s, 12) as u32,
        }))
    } else if s[0] == 9 {
        Some(DSLInstruction::ElligatorInit(off))
    } else if s[0] == 10 {
        Some(DSLInstruction::ElligatorFini(off))
    } else {
        None
    }
}

fn pad_to_slot(out: &mut Vec<u8>, start: usize)
    requires
        start <= old(out)@.len() <= start + INSTRUCTION_SIZE,
    ensures
        final(out)@ == old(out)@.subrange(0, start as int) + pad16(old(out)@.subrange(start as int, old(out)@.len() as int)),
{
    let ghost body = old(out)@.subrange(start as int, old(out)@.len() as int);
    while out.len() - start < INSTRUCTION_SIZE
        invariant
            start <= old(out)@.len() <= out@.len() <= start + INSTRUCTION_SIZE,
            out@.subrange(0, old(out)@.len() as int) == old(out)@,
            forall|i: int| old(out)@.len() <= i < out@.len() ==> out@[i] == 0u8,
        decreases start + INSTRUCTION_SIZE - out@.len(),
    {
        let ghost prev = out@;
        out.push(0u8);
        assert(out@.subrange(0, old(out)@.len() as int) =~= prev.subrange(0, old(out)@.len() as int));
    }
    assert(out@ =~= old(out)@.subrange(0, start as int) + pad16(body));
}

impl DSLInstruction {
    /// Appends the 16-byte slot of this instruction.
    pub fn encode_into(&self, out: &mut Vec<u8>)
        ensures
            final(out)@ == old(out)@ + dsl_bytes(*self),
    {
        let start = out.len();
        match *self {
            DSLInstruction::CopyInput(d) => {
                out.push(0u8);
                push_u32(out, d.input_offset);
                push_u32(out, d.compute_offset);
                push_u32(out, d.bytes);
            },
            DSLInstruction::DecompressInit(d) => {
                out.push(1u8);
                push_u32(out, d.offset);
            },
            DSLInstruction::InvSqrtInit(d) => {
                out.push(2u8);
                push_u32(out, d.offset);
            },
            DSLInstruction::Pow22501P1(d) => {
                out.push(3u8);
                push_u32(out, d.offset);
            },
            DSLInstruction::Pow22501P2(d) => {
                out.push(4u8);
                push_u32(out, d.offset);
            },
            DSLInstruction::InvSqrtFini(d) => {
                out.push(5u8);
                push_u32(out, d.offset);
            },
            DSLInstruction::DecompressFini(d) => {
                out.push(6u8);
                push_u32(out, d.offset);
            },
            DSLInstruction::BuildLookupTable(d) => {
                out.push(7u8);
                push_u32(out, d.point_offset);
                push_u32(out, d.table_offset);
            },
            DSLInstruction::MultiscalarMul(d) => {
                out.push(8u8);
                out.push(d.start);
                out.push(d.end);
                out.push(d.num_inputs);
                push_u32(out, d.scalars_offset);
                push_u32(out, d.tables_offset);
                push_u32(out, d.result_offset);
            },
            DSLInstruction::ElligatorInit(d) => {
                out.push(9u8);
                push_u32(out, d.offset);
            },
            DSLInstruction::ElligatorFini(d) => {
                out.push(10u8);
                push_u32(out, d.offset);
            },
        }
        let ghost body = out@.subrange(start as int, out@.len() as int);
        proof {
            assert(out@.subrange(0, start as int) == old(out)@);
            assert(body =~= dsl_bytes(*self).subrange(0, body.len() as int));
        }
        pad_to_slot(out, start);
        proof {
            assert(pad16(body) =~= dsl_bytes(*self));
        }
    }

    /// Decodes the 16-byte slot at `at`.
    pub fn decode(s: &[u8], at: usize) -> (r: Option<DSLInstruction>)
        requires
            at + INSTRUCTION_SIZE <= s@.len(),
        ensures
            r == dsl_decode(s@.subrange(at as int, at + INSTRUCTION_SIZE)),
    {
        reveal(dsl_decode);
        let ghost w = s@.subrange(at as int, at + INSTRUCTION_SIZE);
        assert(forall|i: int| 0 <= i < 16 ==> w[i] == s@[at + i]);
        let tag = s[at];
        let off = RunDecompressData { offset: read_u32(s, at + 1) };
        if tag == 0 {
            Some(DSLInstruction::CopyInput(CopyInputData {
                input_offset: read_u32(s, at + 1),
                compute_offset: read_u32(s, at + 5),
                bytes: read_u32(s, at + 9),
            }))
        } else if tag == 1 {
            Some(DSLInstruction::DecompressInit(off))
        } else if tag == 2 {
            Some(DSLInstruction::InvSqrtInit(off))
        } else if tag == 3 {
            Some(DSLInstruction::Pow22501P1(off))
        } else if tag == 4 {
            Some(DSLInstruction::Pow22501P2(off))
        } else if tag == 5 {
            Some(DSLInstruction::InvSqrtFini(off))
        } else if tag == 6 {
            Some(DSLInstruction::DecompressFini(off))
        } else if tag == 7 {
            Some(DSLInstruction::BuildLookupTable(BuildLookupTableData {
                point_offset: read_u32(s, at + 1),
                table_offset: read_u32(s, at + 5),
            }))
        } else if tag == 8 {
            Some(DSLInstruction::MultiscalarMul(MultiscalarMulData {
                start: s[at + 1],
                end: s[at + 2],
                num_inputs: s[at + 3],
                scalars_offset: read_u32(s, at + 4),
                tables_offset: read_u32(s, at + 8),
                result_offset: read_u32(s, at + 12),
            }))
        } else if tag == 9 {
            Some(DSLInstruction::ElligatorInit(off))
        } else if tag == 10 {
            Some(DSLInstruction::ElligatorFini(off))
        } else {
            None
        }
    }
}

/// The slot of a one-offset instruction: its tag, the offset, zeros.
proof fn lemma_offset_slot(tag: u8, offset: u32)
    ensures
        pad16(seq![tag] + u32_le(offset)).len() == INSTRUCTION_SIZE,
        pad16(seq![tag] + u32_le(offset))[0] == tag,
        u32_at(pad16(seq![tag] + u32_le(offset)), 1) == offset,
{
    let b = pad16(seq![tag] + u32_le(offset));
    assert(b.subrange(1, 5) =~= u32_le(offset));
    lemma_u32_at_of(b, 1, offset);
}

/// Decoding a slot gives back the instruction it encodes.
pub proof fn lemma_dsl_round_trip(ix: DSLInstruction)
    ensures
        dsl_bytes(ix).len() == INSTRUCTION_SIZE,
        dsl_decode(dsl_bytes(ix)) == Some(ix),
{
    reveal(dsl_decode);
    let b = dsl_bytes(ix);
    match ix {
        DSLInstruction::CopyInput(d) => {
            assert(b.subrange(1, 5) =~= u32_le(d.input_offset));
            lemma_u32_at_of(b, 1, d.input_offset);
            assert(b.subrange(5, 9) =~= u32_le(d.compute_offset));
            lemma_u32_at_of(b, 5, d.compute_offset);
            assert(b.subrange(9, 13) =~= u32_le(d.bytes));
            lemma_u32_at_of(b, 9, d.bytes);
        },
        DSLInstruction::BuildLookupTable(d) => {
            assert(b.subrange(1, 5) =~= u32_le(d.point_offset));
            lemma_u32_at_of(b, 1, d.point_offset);
            assert(b.subrange(5, 9) =~= u32_le(d.table_offset));
            lemma_u32_at_of(b, 5, d.table_offset);
        },
        DSLInstruction::MultiscalarMul(d) => {
            assert(b.subrange(4, 8) =~= u32_le(d.scalars_offset));
            lemma_u32_at_of(b, 4, d.scalars_offset);
            assert(b.subrange(8, 12) =~= u32_le(d.tables_offset));
            lemma_u32_at_of(b, 8, d.tables_offset);
            assert(b.subrange(12, 16) =~= u32_le(d.result_offset));
            lemma_u32_at_of(b, 12, d.result_offset);
        },
        DSLInstruction::DecompressInit(d) => lemma_offset_slot(1, d.offset),
        DSLInstruction::InvSqrtInit(d) => lemma_offset_slot(2, d.offset),
        DSLInstruction::Pow22501P1(d) => lemma_offset_slot(3, d.offset),
        DSLInstruction::Pow22501P2(d) => lemma_offset_slot(4, d.offset),
        DSLInstruction::InvSqrtFini(d) => lemma_offset_slot(5, d.offset),
        DSLInstruction::DecompressFini(d) => lemma_offset_slot(6, d.offset),
        DSLInstruction::ElligatorInit(d) => lemma_offset_slot(9, d.offset),
        DSLInstruction::ElligatorFini(d) => lemma_offset_slot(10, d.offset),
    }
}

/// The bytecode of a list of instructions: their slots, one after another.
pub open spec fn program_bytes(ixs: Seq<DSLInstruction>) -> Seq<u8>
    decreases ixs.len(),
{
    if ixs.len() == 0 {
        Seq::empty()
    } else {
        program_bytes(ixs.drop_last()) + dsl_bytes(ixs.last())
    }
}

/// Slot `j` of a program's bytecode decodes to instruction `j`: the crank at
/// cursor `j` runs the `j`-th instruction the compiler emitted.
pub proof fn lemma_program_slots(ixs: Seq<DSLInstruction>, j: int)
    requires
        0 <= j < ixs.len(),
    ensures
        program_bytes(ixs).len() == INSTRUCTION_SIZE * ixs.len(),
        program_bytes(ixs).subrange(INSTRUCTION_SIZE * j, INSTRUCTION_SIZE * j + INSTRUCTION_SIZE) == dsl_bytes(ixs[j]),
        dsl_decode(program_bytes(ixs).subrange(INSTRUCTION_SIZE * j, INSTRUCTION_SIZE * j + INSTRUCTION_SIZE)) == Some(ixs[j]),
    decreases ixs.len(),
{
    lemma_program_len(ixs);
    let init = ixs.drop_last();
    lemma_program_len(init);
    lemma_dsl_round_trip(ixs.last());
    lemma_dsl_round_trip(ixs[j]);
    if j < ixs.len() - 1 {
        lemma_program_slots(init, j);
        assert(program_bytes(ixs).subrange(INSTRUCTION_SIZE * j, INSTRUCTION_SIZE * j + INSTRUCTION_SIZE)
            =~= program_bytes(init).subrange(INSTRUCTION_SIZE * j, INSTRUCTION_SIZE * j + INSTRUCTION_SIZE));
    } else {
        assert(program_bytes(ixs).subrange(INSTRUCTION_SIZE * j, INSTRUCTION_SIZE * j + INSTRUCTION_SIZE) =~= dsl_bytes(ixs.last()));
    }
}

/// Sixteen bytes per instruction.
pub proof fn lemma_program_len(ixs: Seq<DSLInstruction>)
    ensures
        program_bytes(ixs).len() == INSTRUCTION_SIZE * ixs.len(),
    decreases ixs.len(),
{
    if ixs.len() > 0 {
        lemma_program_len(ixs.drop_last());
        lemma_dsl_round_trip(ixs.last());
    }
}

/// Encodes a list of instructions as bytecode.
pub fn dsl_instructions_to_bytes(instructions: &[DSLInstruction]) -> (r: Vec<u8>)
    ensures
        r@ == program_bytes(instructions@),
{
    let mut bytes: Vec<u8> = Vec::new();
    let mut i: usize = 0;
    while i < instructions.len()
        invariant
            i <= instructions@.len(),
            bytes@ == program_bytes(instructions@.subrange(0, i as int)),
        decreases instructions@.len() - i,
    {
        instructions[i].encode_into(&mut bytes);
        proof {
            let next = instructions@.subrange(0, i + 1);
            assert(next.drop_last() =~= instructions@.subrange(0, i as int));
        }
        i = i + 1;
    }
    assert(instructions@.subrange(0, i as int) =~= instructions@);
    bytes
}

} // verus!
