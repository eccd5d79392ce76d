//! The instruction data that a client sends for each control instruction,
//! and the writes that fill an input buffer for a grouped multiscalar job.

use vstd::prelude::*;
use crate::encoding::{u32_le, push_u32};
use crate::instruction::{Pubkey, Key, Curve25519Instruction, control_tag, HEADER_SIZE};
use crate::edwards::{EdwardsPoint, point_bytes, identity_value};
use crate::scalar::Scalar;
use crate::steps::append;

verus! {

/// Data of `WriteBytes`: tag, offset, a byte that is 0 to finalize and 1 not to, then the bytes.
pub open spec fn write_bytes_data_spec(offset: u32, finalized: bool, bytes: Seq<u8>) -> Seq<u8> {
    seq![control_tag(Curve25519Instruction::WriteBytes)] + u32_le(offset) + seq![if finalized { 0u8 } else { 1u8 }] + bytes
}

pub fn write_bytes_data(offset: u32, finalized: bool, bytes: &[u8]) -> (r: Vec<u8>)
    ensures
        r@ == write_bytes_data_spec(offset, finalized, bytes@),
{
    let mut data: Vec<u8> = Vec::new();
    data.push(Curve25519Instruction::WriteBytes.to_u8());
    push_u32(&mut data, offset);
    data.push(if finalized { 0x00u8 } else { 0x01u8 });
    append(&mut data, bytes);
    data
}

/// Data of an initialization: the tag for the kind, then the addresses a
/// compute buffer records (instruction buffer, then input buffer). `None`
/// for `Uninitialized`, or when the number of addresses does not fit the
/// kind (two for a compute buffer, none otherwise).
pub open spec fn initialize_data_spec(kind: Key, keys: Seq<Pubkey>) -> Option<Seq<u8>> {
    match kind {
        Key::InstructionBufferV1 => if keys.len() == 0 { Some(seq![0u8]) } else { None },
        Key::InputBufferV1 => if keys.len() == 0 { Some(seq![1u8]) } else { None },
        Key::ComputeBufferV1 => if keys.len() == 2 { Some(seq![2u8] + keys[0]@ + keys[1]@) } else { None },
        Key::Uninitialized => None,
    }
}

pub fn initialize_buffer_data(buffer_type: Key, inputkeys: &Vec<Pubkey>) -> (r: Option<Vec<u8>>)
    ensures
        r.is_some() == initialize_data_spec(buffer_type, inputkeys@).is_some(),
        r.is_some() ==> r.unwrap()@ == initialize_data_spec(buffer_type, inputkeys@).unwrap(),
{
    let expected: usize = match buffer_type {
        Key::ComputeBufferV1 => 2,
        Key::Uninitialized => {
            return None;
        },
        _ => 0,
    };
    if inputkeys.len() != expected {
        return None;
    }
    let mut data: Vec<u8> = Vec::new();
    data.push(match buffer_type {
        Key::InstructionBufferV1 => Curve25519Instruction::InitializeInstructionBuffer.to_u8(),
        Key::InputBufferV1 => Curve25519Instruction::InitializeInputBuffer.to_u8(),
        _ => Curve25519Instruction::InitializeComputeBuffer.to_u8(),
    });
    if expected == 2 {
        let k0 = inputkeys[0];
        let k1 = inputkeys[1];
        append(&mut data, &k0);
        append(&mut data, &k1);
    }
    proof {
        if expected == 0 {
            assert(data@ =~= initialize_data_spec(buffer_type, inputkeys@).unwrap());
        }
    }
    Some(data)
}

pub fn close_buffer_data() -> (r: Vec<u8>)
    ensures
        r@ == seq![control_tag(Curve25519Instruction::CloseBuffer)],
{
    let mut data: Vec<u8> = Vec::new();
    data.push(Curve25519Instruction::CloseBuffer.to_u8());
    assert(data@ =~= seq![control_tag(Curve25519Instruction::CloseBuffer)]);
    data
}

pub fn crank_compute_data() -> (r: Vec<u8>)
    ensures
        r@ == seq![control_tag(Curve25519Instruction::CrankCompute)],
{
    let mut data: Vec<u8> = Vec::new();
    data.push(Curve25519Instruction::CrankCompute.to_u8());
    assert(data@ =~= seq![control_tag(Curve25519Instruction::CrankCompute)]);
    data
}

/// Data of `Noop`: the tag, then the eight little-endian bytes of `discriminant`.
pub fn noop_data(discriminant: u64) -> (r: Vec<u8>)
    ensures
        r@ == seq![control_tag(Curve25519Instruction::Noop)] + vstd::bytes::spec_u64_to_le_bytes(discriminant),
{
    let mut data: Vec<u8> = Vec::new();
    data.push(Curve25519Instruction::Noop.to_u8());
    let le = vstd::bytes::u64_to_le_bytes(discriminant);
    append(&mut data, le.as_slice());
    data
}

/// One write into a buffer: where, whether it finalizes, and the bytes.
pub struct BufferWrite {
    pub offset: u32,
    pub finalize: bool,
    pub bytes: Vec<u8>,
}

/// The concatenation of 32-byte items.
pub open spec fn flatten32(items: Seq<[u8; 32]>) -> Seq<u8>
    decreases items.len(),
{
    if items.len() == 0 {
        Seq::empty()
    } else {
        flatten32(items.drop_last()) + items.last()@
    }
}

/// The three writes that fill an input buffer for a grouped multiscalar job:
/// the compressed points after the header, the scalars after them, then
/// the encoded identity point, which finalizes the buffer.
pub fn write_input_buffer_data(points: &Vec<[u8; 32]>, scalars: &Vec<Scalar>) -> (r: Vec<BufferWrite>)
    requires
        points@.len() == scalars@.len(),
        points@.len() <= 1000000,
    ensures
        r@.len() == 3,
        r@[0].offset == HEADER_SIZE && !r@[0].finalize && r@[0].bytes@ == flatten32(points@),
        r@[1].offset == HEADER_SIZE + 32 * scalars@.len() && !r@[1].finalize
            && r@[1].bytes@ == flatten32(scalars@.map_values(|s: Scalar| s.bytes)),
        r@[2].offset == HEADER_SIZE + 64 * scalars@.len() && r@[2].finalize && r@[2].bytes@ == point_bytes(identity_value()),
{
    let n = scalars.len();
    let mut point_bytes_out: Vec<u8> = Vec::new();
    let mut scalar_bytes_out: Vec<u8> = Vec::new();
    let mut i: usize = 0;
    while i < n
        invariant
            n == points@.len(),
            n == scalars@.len(),
            i <= n,
            point_bytes_out@ == flatten32(points@.subrange(0, i as int)),
            scalar_bytes_out@ == flatten32(scalars@.map_values(|s: Scalar| s.bytes).subrange(0, i as int)),
        decreases n - i,
    {
        append(&mut point_bytes_out, &points[i]);
        let b = scalars[i].bytes;
        append(&mut scalar_bytes_out, &b);
        proof {
            assert(points@.subrange(0, i + 1).drop_last() =~= points@.subrange(0, i as int));
            let sb = scalars@.map_values(|s: Scalar| s.bytes);
            assert(sb.subrange(0, i + 1).drop_last() =~= sb.subrange(0, i as int));
        }
        i = i + 1;
    }
    proof {
        assert(points@.subrange(0, n as int) =~= points@);
        let sb = scalars@.map_values(|s: Scalar| s.bytes);
        assert(sb.subrange(0, n as int) =~= sb);
    }
    let identity = EdwardsPoint::identity().to_bytes();
    let mut identity_bytes: Vec<u8> = Vec::new();
    append(&mut identity_bytes, &identity);
    let mut writes: Vec<BufferWrite> = Vec::new();
    writes.push(BufferWrite { offset: HEADER_SIZE as u32, finalize: false, bytes: point_bytes_out });
    writes.push(BufferWrite { offset: (HEADER_SIZE + n * 32) as u32, finalize: false, bytes: scalar_bytes_out });
    writes.push(BufferWrite { offset: (HEADER_SIZE + n * 64) as u32, finalize: true, bytes: identity_bytes });
    writes
}

} // verus!
