use curve25519_dalek_onchain::client::{
    close_buffer_data, crank_compute_data, initialize_buffer_data, write_bytes_data, write_input_buffer_data,
};
use curve25519_dalek_onchain::compiler::{elligator_to_curve_instructions, transer_proof_instructions};
use curve25519_dalek_onchain::edwards::EdwardsPoint;
use curve25519_dalek_onchain::field::FieldElement;
use curve25519_dalek_onchain::instruction::{Key, Pubkey, HEADER_SIZE, INSTRUCTION_SIZE};
use curve25519_dalek_onchain::processor::{process_instruction, AccountState};
use curve25519_dalek_onchain::scalar::Scalar;

const PROGRAM: Pubkey = [7u8; 32];
const PAYER: Pubkey = [1u8; 32];
const INSTRUCTIONS: Pubkey = [2u8; 32];
const INPUTS: Pubkey = [3u8; 32];
const COMPUTE: Pubkey = [4u8; 32];

const ELEMENT_BYTES: [u8; 32] = [
    202, 148, 27, 77, 122, 101, 116, 31, 215, 41, 243, 54, 4, 27, 77, 165, 16, 215, 42, 27, 197, 222, 243, 67, 76,
    183, 142, 167, 62, 36, 241, 1,
];

const NEG_ELEMENT_BYTES: [u8; 32] = [
    56, 121, 86, 54, 1, 207, 49, 169, 17, 26, 157, 55, 224, 194, 217, 15, 52, 240, 214, 108, 251, 96, 252, 129, 242,
    190, 61, 18, 88, 179, 89, 40,
];

fn account(key: Pubkey, len: usize, signer: bool) -> AccountState {
    AccountState { key, owner: PROGRAM, is_signer: signer, lamports: 1_000_000, data: vec![0u8; len] }
}

struct Job {
    accounts: Vec<AccountState>,
}

impl Job {
    fn call(&mut self, order: &[usize], data: &[u8]) -> Result<(), curve25519_dalek_onchain::instruction::ProgramError> {
        let mut list: Vec<AccountState> = order.iter().map(|&i| clone(&self.accounts[i])).collect();
        let r = process_instruction(&PROGRAM, &mut list, data, true);
        for (k, &i) in order.iter().enumerate() {
            self.accounts[i] = clone(&list[k]);
        }
        r
    }

    /// Creates and initializes the three buffers, writes the bytecode in
    /// chunks and the input bytes, finalizing both.
    fn new(dsl: &[u8], input_len: usize, compute_len: usize) -> Job {
        let mut job = Job {
            accounts: vec![
                account(INSTRUCTIONS, HEADER_SIZE + dsl.len(), false),
                account(INPUTS, input_len, false),
                account(COMPUTE, compute_len, false),
                account(PAYER, 0, true),
                account([0u8; 32], 0, false),
            ],
        };
        let init = initialize_buffer_data(Key::InstructionBufferV1, &vec![]).unwrap();
        job.call(&[0, 3, 4], &init).unwrap();
        let init = initialize_buffer_data(Key::InputBufferV1, &vec![]).unwrap();
        job.call(&[1, 3, 4], &init).unwrap();
        let init = initialize_buffer_data(Key::ComputeBufferV1, &vec![INSTRUCTIONS, INPUTS]).unwrap();
        job.call(&[2, 3, 4], &init).unwrap();
        let mut at = 0;
        loop {
            let end = (at + 800).min(dsl.len());
            let done = end == dsl.len();
            let data = write_bytes_data((HEADER_SIZE + at) as u32, done, &dsl[at..end]);
            job.call(&[0, 3, 4], &data).unwrap();
            if done {
                break;
            }
            at = end;
        }
        job
    }

    fn write_input(&mut self, offset: usize, finalize: bool, bytes: &[u8]) {
        let data = write_bytes_data(offset as u32, finalize, bytes);
        self.call(&[1, 3, 4], &data).unwrap();
    }

    fn crank(&mut self, n: usize) {
        for _ in 0..n {
            self.call(&[0, 1, 2], &crank_compute_data()).unwrap();
        }
    }

    fn compute(&self) -> &[u8] {
        &self.accounts[2].data
    }
}

fn clone(a: &AccountState) -> AccountState {
    AccountState { key: a.key, owner: a.owner, is_signer: a.is_signer, lamports: a.lamports, data: a.data.clone() }
}

fn fe(bytes: &[u8]) -> FieldElement {
    let mut b = [0u8; 32];
    b.copy_from_slice(bytes);
    FieldElement::from_bytes(&b)
}

/// Equality in the Ristretto group of two points in extended coordinates.
fn ristretto_eq(a: &[u8], b: &[u8]) -> bool {
    let (x1, y1) = (fe(&a[0..32]), fe(&a[32..64]));
    let (x2, y2) = (fe(&b[0..32]), fe(&b[32..64]));
    x1.mul(&y2).ct_eq(&y1.mul(&x2)) || x1.mul(&x2).ct_eq(&y1.mul(&y2))
}

/// The Ristretto identity: X = 0 or Y = 0.
fn is_ristretto_identity(p: &[u8]) -> bool {
    fe(&p[0..32]).is_zero() || fe(&p[32..64]).is_zero()
}

fn run_multiscalar(points: &[[u8; 32]], scalars: &[Scalar], groups: Vec<usize>) -> Job {
    let dsl = transer_proof_instructions(groups);
    let input_len = HEADER_SIZE + scalars.len() * 32 * 2 + 128;
    let mut job = Job::new(&dsl, input_len, HEADER_SIZE + 10000);
    let writes = write_input_buffer_data(&points.to_vec(), &scalars.to_vec());
    for w in writes.iter() {
        job.write_input(w.offset as usize, w.finalize, &w.bytes);
    }
    job.crank(dsl.len() / INSTRUCTION_SIZE);
    job
}

fn minus_one() -> Scalar {
    Scalar { bytes: (-curve25519_dalek::scalar::Scalar::one()).to_bytes() }
}

#[test]
fn test_multiscalar_mul() {
    let scalars = vec![minus_one(), Scalar::one(), Scalar::one(), minus_one()];
    let points = vec![ELEMENT_BYTES, ELEMENT_BYTES, NEG_ELEMENT_BYTES, NEG_ELEMENT_BYTES];
    assert_eq!(scalars.len(), points.len());
    let proof_groups = vec![2, 2];
    let job = run_multiscalar(&points, &scalars, proof_groups.clone());
    let mut at = HEADER_SIZE;
    for _ in 0..proof_groups.len() {
        assert!(is_ristretto_identity(&job.compute()[at..at + 128]));
        at += 128;
    }
}

#[test]
fn multiscalar_of_point_and_its_negation_is_identity() {
    let job = run_multiscalar(&[ELEMENT_BYTES, NEG_ELEMENT_BYTES], &[Scalar::one(), Scalar::one()], vec![2]);
    assert!(is_ristretto_identity(&job.compute()[HEADER_SIZE..HEADER_SIZE + 128]));
}

#[test]
fn multiscalar_of_one_point_is_that_point() {
    let job = run_multiscalar(&[ELEMENT_BYTES], &[Scalar::one()], vec![1]);
    let result = job.compute()[HEADER_SIZE..HEADER_SIZE + 128].to_vec();
    assert!(!is_ristretto_identity(&result));
    let expected = curve25519_dalek::ristretto::CompressedRistretto(ELEMENT_BYTES).decompress().unwrap();
    // the decompressed point sits in the scratch region after the job
    let scratch = HEADER_SIZE + 128;
    let decompressed = job.compute()[scratch + 256..scratch + 384].to_vec();
    assert!(ristretto_eq(&result, &decompressed));
    assert_eq!(expected.compress().to_bytes(), ELEMENT_BYTES);
}

#[test]
fn multiscalar_matches_reference_for_small_scalars() {
    // 3P + 5(-P) is -2P, the same class as 2(-P) = (-P) + (-P)
    let three = Scalar::from_bytes_mod_order({
        let mut b = [0u8; 32];
        b[0] = 3;
        b
    });
    let five = Scalar::from_bytes_mod_order({
        let mut b = [0u8; 32];
        b[0] = 5;
        b
    });
    let two = Scalar::from_bytes_mod_order({
        let mut b = [0u8; 32];
        b[0] = 2;
        b
    });
    let a = run_multiscalar(&[ELEMENT_BYTES, NEG_ELEMENT_BYTES], &[three, five], vec![2]);
    let b = run_multiscalar(&[NEG_ELEMENT_BYTES], &[two], vec![1]);
    assert!(ristretto_eq(&a.compute()[HEADER_SIZE..HEADER_SIZE + 128], &b.compute()[HEADER_SIZE..HEADER_SIZE + 128]));
    assert!(!is_ristretto_identity(&a.compute()[HEADER_SIZE..HEADER_SIZE + 128]));
}

fn elligator_of(seed: [u8; 32]) -> Vec<u8> {
    let dsl = elligator_to_curve_instructions();
    let mut job = Job::new(&dsl, HEADER_SIZE + 32, HEADER_SIZE + 1000);
    job.write_input(HEADER_SIZE, true, &seed);
    job.crank(dsl.len() / INSTRUCTION_SIZE);
    let at = HEADER_SIZE + 32 * 4 + 32 * 6;
    job.compute()[at..at + 128].to_vec()
}

/// Decompresses an encoding with the engine's first eight instructions.
fn engine_decompress(bytes: [u8; 32]) -> Vec<u8> {
    let dsl = transer_proof_instructions(vec![1]);
    let mut job = Job::new(&dsl, HEADER_SIZE + 32 * 2 + 128, HEADER_SIZE + 10000);
    job.write_input(HEADER_SIZE, true, &bytes);
    job.crank(7);
    let at = HEADER_SIZE + 128 + 256;
    job.compute()[at..at + 128].to_vec()
}

#[test]
fn test_elligator() {
    let hash_bytes = [0, 1, 2, 3, 4, 5, 6, 7, 0, 1, 2, 3, 4, 5, 6, 7, 0, 1, 2, 3, 4, 5, 6, 7, 0, 1, 2, 3, 4, 5, 6, 7];
    let ours = elligator_of(hash_bytes);
    // the map of zero is the identity, so the reference's two-half map of
    // (seed, 0) is the map of the seed alone
    assert!(is_ristretto_identity(&elligator_of([0u8; 32])));
    let mut wide = [0u8; 64];
    wide[..32].copy_from_slice(&hash_bytes);
    let reference = curve25519_dalek::ristretto::RistrettoPoint::from_uniform_bytes(&wide).compress().to_bytes();
    let decompressed = engine_decompress(reference);
    assert!(ristretto_eq(&ours, &decompressed));
    assert!(!is_ristretto_identity(&ours));
}

#[test]
fn crank_past_the_end_is_rejected_and_cursor_counts() {
    let dsl = elligator_to_curve_instructions();
    let mut job = Job::new(&dsl, HEADER_SIZE + 32, HEADER_SIZE + 1000);
    job.write_input(HEADER_SIZE, true, &[9u8; 32]);
    for k in 0..dsl.len() / INSTRUCTION_SIZE {
        let cursor = u32::from_le_bytes(job.compute()[1..5].try_into().unwrap());
        assert_eq!(cursor as usize, k);
        job.crank(1);
    }
    let before = job.compute().to_vec();
    let r = job.call(&[0, 1, 2], &crank_compute_data());
    assert_eq!(r, Err(curve25519_dalek_onchain::instruction::ProgramError::InvalidArgument));
    assert_eq!(job.compute(), &before[..]);
    assert_eq!(u32::from_le_bytes(before[1..5].try_into().unwrap()), 5);
}

#[test]
fn close_returns_balance_and_zeroes_tag() {
    let dsl = elligator_to_curve_instructions();
    let mut job = Job::new(&dsl, HEADER_SIZE + 32, HEADER_SIZE + 1000);
    let payer_before = job.accounts[3].lamports;
    let r = job.call(&[2, 3, 4], &close_buffer_data());
    assert_eq!(r, Ok(()));
    assert_eq!(job.accounts[2].lamports, 0);
    assert_eq!(job.accounts[3].lamports, payer_before + 1_000_000);
    assert_eq!(job.accounts[2].data[0], 0);
}

#[test]
fn decompressed_point_matches_identity_relation() {
    // P + (-P): the engine decompresses both and their sum is the identity
    let p = engine_decompress(ELEMENT_BYTES);
    let q = engine_decompress(NEG_ELEMENT_BYTES);
    let pp = EdwardsPoint::from_bytes(&p);
    let qq = EdwardsPoint::from_bytes(&q);
    let sum = pp.add_projective_niels(&qq.to_projective_niels()).to_extended().to_bytes();
    assert!(is_ristretto_identity(&sum));
    let neg = pp.neg().to_bytes();
    assert!(ristretto_eq(&neg, &q));
}
