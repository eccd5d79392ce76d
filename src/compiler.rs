//! The job compiler: lays out the compute buffer for a job and emits the
//! bytecode whose offsets agree with that layout.
//!
//! Layout of a grouped multiscalar job with n points in g groups:
//! the compute buffer holds, after its header, g result slots of 128 bytes,
//! a 384-byte scratch region, n scalars of 32 bytes and n tables of
//! `TABLE_SIZE` bytes; the input buffer holds, after its header, n compressed
//! points, n scalars and one encoded identity point.

use vstd::prelude::*;
use crate::instruction::{
    DSLInstruction, CopyInputData, RunDecompressData, BuildLookupTableData, MultiscalarMulData,
    HEADER_SIZE, program_bytes, dsl_instructions_to_bytes,
};
use crate::window::TABLE_SIZE;

verus! {

/// Bytes of the shared scratch region.
pub const SCRATCH_SIZE: usize = 384;

/// Where, within the scratch region, decompression leaves its point.
pub const DECOMPRESS_RESULT_OFFSET: usize = 256;

/// Bytes of one result slot: an extended point.
pub const RESULT_SIZE: usize = 128;

/// Digit positions of a scalar in base 16.
pub const DIGITS: usize = 64;

/// Most points a job may hold, so that every offset fits in 32 bits.
pub const MAX_JOB_POINTS: usize = 2000000;

/// Most groups a job may hold.
pub const MAX_JOB_GROUPS: usize = 65536;

/// The number of points in the first `k` groups.
pub open spec fn prefix_sum(groups: Seq<usize>, k: int) -> int
    decreases k,
{
    if k <= 0 {
        0
    } else {
        prefix_sum(groups, k - 1) + groups[k - 1]
    }
}

pub proof fn lemma_prefix_sum_monotone(groups: Seq<usize>, a: int, b: int)
    requires
        0 <= a <= b <= groups.len(),
    ensures
        0 <= prefix_sum(groups, a) <= prefix_sum(groups, b),
    decreases b,
{
    if a < b {
        lemma_prefix_sum_monotone(groups, a, b - 1);
    } else {
        lemma_prefix_sum_nonnegative(groups, a);
    }
}

proof fn lemma_prefix_sum_nonnegative(groups: Seq<usize>, k: int)
    requires
        0 <= k <= groups.len(),
    ensures
        0 <= prefix_sum(groups, k),
    decreases k,
{
    if k > 0 {
        lemma_prefix_sum_nonnegative(groups, k - 1);
    }
}

/// Job shapes the compiler accepts: group sizes that fit a byte, and totals
/// that keep every offset within 32 bits.
pub open spec fn job_fits(groups: Seq<usize>) -> bool {
    &&& groups.len() <= MAX_JOB_GROUPS
    &&& prefix_sum(groups, groups.len() as int) <= MAX_JOB_POINTS
    &&& forall|k: int| 0 <= k < groups.len() ==> #[trigger] groups[k] <= 255
}

/// Instruction `s` (of eight) of the sub-program that decompresses point `i`
/// through the scratch region and builds its table.
pub open spec fn decompress_step(i: int, s: int, scratch: int, tables: int) -> DSLInstruction {
    if s == 0 {
        DSLInstruction::CopyInput(CopyInputData {
            input_offset: (HEADER_SIZE + 32 * i) as u32,
            compute_offset: scratch as u32,
            bytes: 32,
        })
    } else if s == 1 {
        DSLInstruction::DecompressInit(RunDecompressData { offset: scratch as u32 })
    } else if s == 2 {
        DSLInstruction::InvSqrtInit(RunDecompressData { offset: (scratch + 32) as u32 })
    } else if s == 3 {
        DSLInstruction::Pow22501P1(RunDecompressData { offset: (scratch + 64) as u32 })
    } else if s == 4 {
        DSLInstruction::Pow22501P2(RunDecompressData { offset: (scratch + 96) as u32 })
    } else if s == 5 {
        DSLInstruction::InvSqrtFini(RunDecompressData { offset: (scratch + 32) as u32 })
    } else if s == 6 {
        DSLInstruction::DecompressFini(RunDecompressData { offset: scratch as u32 })
    } else {
        DSLInstruction::BuildLookupTable(BuildLookupTableData {
            point_offset: (scratch + DECOMPRESS_RESULT_OFFSET) as u32,
            table_offset: (tables + TABLE_SIZE * i) as u32,
        })
    }
}

/// Instruction `j` of the grouped multiscalar job: eight per point to
/// decompress it and build its table, one per scalar to copy it, one per
/// group to seed its result with the identity, then 64 multiscalar steps per
/// group, from the most significant digit down.
pub open spec fn transfer_instruction(groups: Seq<usize>, j: int) -> DSLInstruction {
    let g = groups.len() as int;
    let n = prefix_sum(groups, g);
    let scratch = HEADER_SIZE + RESULT_SIZE * g;
    let scalars = scratch + SCRATCH_SIZE;
    let tables = scalars + 32 * n;
    if j < 8 * n {
        decompress_step(j / 8, j % 8, scratch, tables)
    } else if j < 9 * n {
        DSLInstruction::CopyInput(CopyInputData {
            input_offset: (HEADER_SIZE + 32 * n + 32 * (j - 8 * n)) as u32,
            compute_offset: (scalars + 32 * (j - 8 * n)) as u32,
            bytes: 32,
        })
    } else if j < 9 * n + g {
        DSLInstruction::CopyInput(CopyInputData {
            input_offset: (HEADER_SIZE + 64 * n) as u32,
            compute_offset: (HEADER_SIZE + RESULT_SIZE * (j - 9 * n)) as u32,
            bytes: RESULT_SIZE as u32,
        })
    } else {
        let q = j - 9 * n - g;
        let k = q / 64;
        let iter = 63 - q % 64;
        DSLInstruction::MultiscalarMul(MultiscalarMulData {
            start: iter as u8,
            end: (iter + 1) as u8,
            num_inputs: groups[k] as u8,
            scalars_offset: (scalars + 32 * prefix_sum(groups, k)) as u32,
            tables_offset: (tables + TABLE_SIZE * prefix_sum(groups, k)) as u32,
            result_offset: (HEADER_SIZE + RESULT_SIZE * k) as u32,
        })
    }
}

/// Number of instructions of the grouped multiscalar job.
pub open spec fn transfer_len(groups: Seq<usize>) -> int {
    9 * prefix_sum(groups, groups.len() as int) + 65 * groups.len()
}

/// The whole instruction list of the grouped multiscalar job.
pub open spec fn transfer_program(groups: Seq<usize>) -> Seq<DSLInstruction> {
    Seq::new(transfer_len(groups) as nat, |j: int| transfer_instruction(groups, j))
}

/// The Elligator job: copy the 32-byte seed into scratch, then the map in
/// four steps split around the exponentiation; the point lands 192 bytes
/// into the scratch region, which starts after one result slot.
pub open spec fn elligator_program() -> Seq<DSLInstruction> {
    let scratch = (HEADER_SIZE + RESULT_SIZE) as u32;
    seq![
        DSLInstruction::CopyInput(CopyInputData { input_offset: HEADER_SIZE as u32, compute_offset: scratch, bytes: 32 }),
        DSLInstruction::ElligatorInit(RunDecompressData { offset: scratch }),
        DSLInstruction::Pow22501P1(RunDecompressData { offset: (scratch + 32) as u32 }),
        DSLInstruction::Pow22501P2(RunDecompressData { offset: (scratch + 64) as u32 }),
        DSLInstruction::ElligatorFini(RunDecompressData { offset: scratch }),
    ]
}

/// Compiles the grouped multiscalar job: one result per group, each the sum
/// over the group's points of scalar times point.
pub fn transer_proof_instructions(proof_groups: Vec<usize>) -> (r: Vec<u8>)
    requires
        job_fits(proof_groups@),
    ensures
        r@ == program_bytes(transfer_program(proof_groups@)),
{
    let ghost groups = proof_groups@;
    let g = proof_groups.len();
    let mut n: usize = 0;
    let mut k: usize = 0;
    while k < g
        invariant
            g == groups.len(),
            groups == proof_groups@,
            job_fits(groups),
            k <= g,
            n == prefix_sum(groups, k as int),
        decreases g - k,
    {
        proof {
            lemma_prefix_sum_monotone(groups, k + 1, g as int);
        }
        n = n + proof_groups[k];
        k = k + 1;
    }
    let scratch = HEADER_SIZE + RESULT_SIZE * g;
    let scalars_offset = scratch + SCRATCH_SIZE;
    let tables_offset = scalars_offset + 32 * n;
    let mut instructions: Vec<DSLInstruction> = Vec::new();

    // decompress every point and build its table
    let mut i: usize = 0;
    while i < n
        invariant
            groups == proof_groups@,
            g == groups.len(),
            job_fits(groups),
            n == prefix_sum(groups, g as int),
            scratch == HEADER_SIZE + RESULT_SIZE * g,
            scalars_offset == scratch + SCRATCH_SIZE,
            tables_offset == scalars_offset + 32 * n,
            i <= n,
            instructions@.len() == 8 * i,
            forall|j: int| 0 <= j < 8 * i ==> #[trigger] instructions@[j] == transfer_instruction(groups, j),
        decreases n - i,
    {
        let mut s: usize = 0;
        while s < 8
            invariant
                groups == proof_groups@,
                g == groups.len(),
                job_fits(groups),
                n == prefix_sum(groups, g as int),
                scratch == HEADER_SIZE + RESULT_SIZE * g,
                scalars_offset == scratch + SCRATCH_SIZE,
                tables_offset == scalars_offset + 32 * n,
                i < n,
                s <= 8,
                instructions@.len() == 8 * i + s,
                forall|j: int| 0 <= j < 8 * i + s ==> #[trigger] instructions@[j] == transfer_instruction(groups, j),
            decreases 8 - s,
        {
            let ix = if s == 0 {
                DSLInstruction::CopyInput(CopyInputData {
                    input_offset: (HEADER_SIZE + 32 * i) as u32,
                    compute_offset: scratch as u32,
                    bytes: 32,
                })
            } else if s == 1 {
                DSLInstruction::DecompressInit(RunDecompressData { offset: scratch as u32 })
            } else if s == 2 {
                DSLInstruction::InvSqrtInit(RunDecompressData { offset: (scratch + 32) as u32 })
            } else if s == 3 {
                DSLInstruction::Pow22501P1(RunDecompressData { offset: (scratch + 64) as u32 })
            } else if s == 4 {
                DSLInstruction::Pow22501P2(RunDecompressData { offset: (scratch + 96) as u32 })
            } else if s == 5 {
                DSLInstruction::InvSqrtFini(RunDecompressData { offset: (scratch + 32) as u32 })
            } else if s == 6 {
                DSLInstruction::DecompressFini(RunDecompressData { offset: scratch as u32 })
            } else {
                DSLInstruction::BuildLookupTable(BuildLookupTableData {
                    point_offset: (scratch + DECOMPRESS_RESULT_OFFSET) as u32,
                    table_offset: (tables_offset + TABLE_SIZE * i) as u32,
                })
            };
            proof {
                let j = 8 * i + s;
                assert(j / 8 == i && j % 8 == s) by (nonlinear_arith)
                    requires
                        j == 8 * i + s,
                        s < 8,
                ;
            }
            instructions.push(ix);
            s = s + 1;
        }
        i = i + 1;
    }

    // copy the scalars
    let input_scalars_offset = HEADER_SIZE + n * 32;
    let mut i: usize = 0;
    while i < n
        invariant
            groups == proof_groups@,
            g == groups.len(),
            job_fits(groups),
            n == prefix_sum(groups, g as int),
            scratch == HEADER_SIZE + RESULT_SIZE * g,
            scalars_offset == scratch + SCRATCH_SIZE,
            tables_offset == scalars_offset + 32 * n,
            input_scalars_offset == HEADER_SIZE + n * 32,
            i <= n,
            instructions@.len() == 8 * n + i,
            forall|j: int| 0 <= j < 8 * n + i ==> #[trigger] instructions@[j] == transfer_instruction(groups, j),
        decreases n - i,
    {
        instructions.push(DSLInstruction::CopyInput(CopyInputData {
            input_offset: (input_scalars_offset + i * 32) as u32,
            compute_offset: (scalars_offset + i * 32) as u32,
            bytes: 32,
        }));
        i = i + 1;
    }

    // seed each result slot with the identity
    let input_identity_offset = input_scalars_offset + n * 32;
    let mut k: usize = 0;
    while k < g
        invariant
            groups == proof_groups@,
            g == groups.len(),
            job_fits(groups),
            n == prefix_sum(groups, g as int),
            scratch == HEADER_SIZE + RESULT_SIZE * g,
            scalars_offset == scratch + SCRATCH_SIZE,
            tables_offset == scalars_offset + 32 * n,
            input_identity_offset == HEADER_SIZE + 64 * n,
            k <= g,
            instructions@.len() == 9 * n + k,
            forall|j: int| 0 <= j < 9 * n + k ==> #[trigger] instructions@[j] == transfer_instruction(groups, j),
        decreases g - k,
    {
        instructions.push(DSLInstruction::CopyInput(CopyInputData {
            input_offset: input_identity_offset as u32,
            compute_offset: (HEADER_SIZE + RESULT_SIZE * k) as u32,
            bytes: RESULT_SIZE as u32,
        }));
        k = k + 1;
    }

    // the multiscalar steps of each group, most significant digit first
    let mut group_scalars = scalars_offset;
    let mut group_tables = tables_offset;
    let mut before: usize = 0;
    let mut k: usize = 0;
    while k < g
        invariant
            groups == proof_groups@,
            g == groups.len(),
            job_fits(groups),
            n == prefix_sum(groups, g as int),
            scratch == HEADER_SIZE + RESULT_SIZE * g,
            scalars_offset == scratch + SCRATCH_SIZE,
            tables_offset == scalars_offset + 32 * n,
            k <= g,
            before == prefix_sum(groups, k as int),
            before <= n,
            group_scalars == scalars_offset + 32 * before,
            group_tables == tables_offset + TABLE_SIZE * before,
            instructions@.len() == 9 * n + g + 64 * k,
            forall|j: int| 0 <= j < 9 * n + g + 64 * k ==> #[trigger] instructions@[j] == transfer_instruction(groups, j),
        decreases g - k,
    {
        let size = proof_groups[k];
        let mut t: usize = 0;
        while t < DIGITS
            invariant
                groups == proof_groups@,
                g == groups.len(),
                job_fits(groups),
                n == prefix_sum(groups, g as int),
                scratch == HEADER_SIZE + RESULT_SIZE * g,
                scalars_offset == scratch + SCRATCH_SIZE,
                tables_offset == scalars_offset + 32 * n,
                k < g,
                size == groups[k as int],
                before == prefix_sum(groups, k as int),
                before <= n,
                group_scalars == scalars_offset + 32 * before,
                group_tables == tables_offset + TABLE_SIZE * before,
                t <= DIGITS,
                instructions@.len() == 9 * n + g + 64 * k + t,
                forall|j: int| 0 <= j < 9 * n + g + 64 * k + t ==> #[trigger] instructions@[j] == transfer_instruction(groups, j),
            decreases DIGITS - t,
        {
            let iter: u8 = (63 - t) as u8;
            instructions.push(DSLInstruction::MultiscalarMul(MultiscalarMulData {
                start: iter,
                end: iter + 1,
                num_inputs: size as u8,
                scalars_offset: group_scalars as u32,
                tables_offset: group_tables as u32,
                result_offset: (HEADER_SIZE + RESULT_SIZE * k) as u32,
            }));
            proof {
                let q = 64 * k + t;
                assert(q / 64 == k && q % 64 == t) by (nonlinear_arith)
                    requires
                        q == 64 * k + t,
                        t < 64,
                ;
            }
            t = t + 1;
        }
        proof {
            lemma_prefix_sum_monotone(groups, k + 1, g as int);
        }
        before = before + size;
        group_scalars = group_scalars + size * 32;
        group_tables = group_tables + size * TABLE_SIZE;
        k = k + 1;
    }
    assert(instructions@ =~= transfer_program(groups));
    dsl_instructions_to_bytes(instructions.as_slice())
}

/// Compiles the Elligator job for one 32-byte seed.
pub fn elligator_to_curve_instructions() -> (r: Vec<u8>)
    ensures
        r@ == program_bytes(elligator_program()),
{
    let scratch: u32 = (HEADER_SIZE + RESULT_SIZE) as u32;
    let mut instructions: Vec<DSLInstruction> = Vec::new();
    instructions.push(DSLInstruction::CopyInput(CopyInputData {
        input_offset: HEADER_SIZE as u32,
        compute_offset: scratch,
        bytes: 32,
    }));
    instructions.push(DSLInstruction::ElligatorInit(RunDecompressData { offset: scratch }));
    instructions.push(DSLInstruction::Pow22501P1(RunDecompressData { offset: scratch + 32 }));
    instructions.push(DSLInstruction::Pow22501P2(RunDecompressData { offset: scratch + 64 }));
    instructions.push(DSLInstruction::ElligatorFini(RunDecompressData { offset: scratch }));
    assert(instructions@ =~= elligator_program());
    dsl_instructions_to_bytes(instructions.as_slice())
}

} // verus!
