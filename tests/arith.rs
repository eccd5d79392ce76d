use curve25519_dalek_onchain::edwards::{EdwardsPoint, ProjectiveNielsPoint};
use curve25519_dalek_onchain::field::FieldElement;
use curve25519_dalek_onchain::instruction::{
    decode_instruction_type, BuildLookupTableData, ComputeHeader, CopyInputData, Curve25519Instruction, DSLInstruction,
    InputHeader, Key, MultiscalarMulData, ProgramError, RunDecompressData,
};
use curve25519_dalek_onchain::compiler::{elligator_to_curve_instructions, transer_proof_instructions};
use curve25519_dalek_onchain::instruction::dsl_instructions_to_bytes;
use curve25519_dalek_onchain::ristretto::CompressedRistretto;
use curve25519_dalek_onchain::scalar::Scalar;
use curve25519_dalek_onchain::window::LookupTable;

fn small(v: u8) -> FieldElement {
    let mut b = [0u8; 32];
    b[0] = v;
    FieldElement::from_bytes(&b)
}

fn bytes_of(v: u64) -> [u8; 32] {
    let mut b = [0u8; 32];
    b[..8].copy_from_slice(&v.to_le_bytes());
    b
}

#[test]
fn field_products_and_sums() {
    assert_eq!(small(6).mul(&small(7)).to_bytes(), bytes_of(42));
    assert_eq!(small(6).add(&small(7)).to_bytes(), bytes_of(13));
    assert_eq!(small(7).sub(&small(6)).to_bytes(), bytes_of(1));
    assert_eq!(small(9).square().to_bytes(), bytes_of(81));
    assert_eq!(small(3).square2().to_bytes(), bytes_of(18));
    let minus_one = small(0).sub(&small(1));
    assert_eq!(minus_one.to_bytes(), FieldElement::minus_one().to_bytes());
    assert_eq!(small(1).neg().to_bytes(), FieldElement::minus_one().to_bytes());
    // p - 1 = 2^255 - 20
    let mut p_minus_one = [0xffu8; 32];
    p_minus_one[0] = 0xec;
    p_minus_one[31] = 0x7f;
    assert_eq!(minus_one.to_bytes(), p_minus_one);
}

#[test]
fn field_decoding_reduces_and_ignores_top_bit() {
    // p + 1 decodes to 1
    let mut p_plus_one = [0xffu8; 32];
    p_plus_one[0] = 0xee;
    p_plus_one[31] = 0x7f;
    assert_eq!(FieldElement::from_bytes(&p_plus_one).to_bytes(), bytes_of(1));
    let mut top = bytes_of(5);
    top[31] = 0x80;
    assert_eq!(FieldElement::from_bytes(&top).to_bytes(), bytes_of(5));
}

#[test]
fn field_sign_and_zero() {
    assert!(small(3).is_negative());
    assert!(!small(4).is_negative());
    assert!(small(0).is_zero());
    assert!(!small(2).is_zero());
    assert!(small(2).ct_eq(&small(2)));
    assert!(!small(2).ct_eq(&small(3)));
    let i = FieldElement::sqrt_m1();
    assert_eq!(i.square().to_bytes(), FieldElement::minus_one().to_bytes());
}

#[test]
fn field_power_chains() {
    let x = small(2);
    let (t5, t3) = FieldElement::pow251(&x);
    assert_eq!(t5.to_bytes(), bytes_of(1 << 31));
    assert_eq!(t3.to_bytes(), bytes_of(1 << 11));
    assert_eq!(x.pow2k(5).to_bytes(), bytes_of(1 << 32));
    // 3^(2^250 - 1) * 3 = 3^(2^250); check x^(2^250 - 1) * x == x.pow2k(250)
    let y = small(3);
    let (t17, t13, _t3) = FieldElement::pow22001(&y);
    let t19 = FieldElement::pow22501(&t17, &t13);
    assert_eq!(t19.mul(&y).to_bytes(), y.pow2k(250).to_bytes());
    // (p-5)/8 = 2^252 - 3: t19^4 * y * y^3 = y^(2^252)
    let p58 = FieldElement::pow_p58(&y, &t19);
    assert_eq!(p58.mul(&y.square().mul(&y)).to_bytes(), y.pow2k(252).to_bytes());
}

#[test]
fn sqrt_ratio_of_a_square() {
    // u/v = 4/1: the root is 2 (even), found from the candidate r = u v^3 (u v^7)^((p-5)/8)
    let u = small(4);
    let v = small(1);
    let (t17, t13, _) = FieldElement::pow22001(&u.mul(&v));
    let t19 = FieldElement::pow22501(&t17, &t13);
    let r = u.mul(&FieldElement::pow_p58(&u, &t19));
    let (ok, root) = FieldElement::sqrt_ratio_i(&u, &v, &r);
    assert!(ok);
    assert_eq!(root.to_bytes(), bytes_of(2));
    assert!(!root.is_negative());
}

#[test]
fn sqrt_ratio_of_a_nonsquare() {
    // 2 is not a square modulo p
    let u = small(2);
    let v = small(1);
    let (t17, t13, _) = FieldElement::pow22001(&u);
    let t19 = FieldElement::pow22501(&t17, &t13);
    let r = u.mul(&FieldElement::pow_p58(&u, &t19));
    let (ok, root) = FieldElement::sqrt_ratio_i(&u, &v, &r);
    assert!(!ok);
    assert!(!root.is_negative());
    // then i u / v is a square with that root
    assert_eq!(root.square().to_bytes(), FieldElement::sqrt_m1().mul(&u).to_bytes());
}

const L_PLUS_TWO: [u8; 32] = [
    0xef, 0xd3, 0xf5, 0x5c, 0x1a, 0x63, 0x12, 0x58, 0xd6, 0x9c, 0xf7, 0xa2, 0xde, 0xf9, 0xde, 0x14, 0x00, 0x00, 0x00,
    0x00, 0x00, 0x00, 0x00, 0x00, 0x00, 0x00, 0x00, 0x00, 0x00, 0x00, 0x00, 0x10,
];

#[test]
fn scalar_reduction() {
    assert!(Scalar::from_canonical_bytes(L_PLUS_TWO).is_none());
    assert_eq!(Scalar::from_bytes_mod_order(L_PLUS_TWO).to_bytes(), bytes_of(2));
    let s = Scalar::from_bits(L_PLUS_TWO);
    assert!(!s.is_canonical());
    assert_eq!(s.reduce().to_bytes(), bytes_of(2));
    assert!(Scalar::from_canonical_bytes(bytes_of(2)).is_some());
    assert!(Scalar::from_canonical_bytes([0xffu8; 32]).is_none());
    let mut wide = [0u8; 64];
    wide[..32].copy_from_slice(&L_PLUS_TWO);
    assert_eq!(Scalar::from_bytes_mod_order_wide(&wide).to_bytes(), bytes_of(2));
    assert_eq!(Scalar::from_bits([0xffu8; 32]).to_bytes()[31], 0x7f);
    assert_eq!(Scalar::zero().to_bytes(), [0u8; 32]);
    assert_eq!(Scalar::one().to_bytes(), bytes_of(1));
    assert_eq!(*Scalar::one().as_bytes(), bytes_of(1));
}

#[test]
fn scalar_inversion() {
    let x = Scalar::from_bytes_mod_order([
        0x4e, 0x5a, 0xb4, 0x34, 0x5d, 0x47, 0x08, 0x84, 0x59, 0x13, 0xb4, 0x64, 0x1b, 0xc2, 0x7d, 0x52, 0x52, 0xa5, 0x85,
        0x10, 0x1b, 0xcc, 0x42, 0x44, 0xd4, 0x49, 0xf4, 0xa8, 0x79, 0xd9, 0xf2, 0x04,
    ]);
    let xinv = Scalar::from_bytes_mod_order([
        0x1c, 0xdc, 0x17, 0xfc, 0xe0, 0xe9, 0xa5, 0xbb, 0xd9, 0x24, 0x7e, 0x56, 0xbb, 0x01, 0x63, 0x47, 0xbb, 0xba, 0x31,
        0xed, 0xd5, 0xa9, 0xbb, 0x96, 0xd5, 0x0b, 0xcd, 0x7a, 0x3f, 0x96, 0x2a, 0x0f,
    ]);
    assert_eq!(x.invert().to_bytes(), xinv.to_bytes());
}

fn radix_value(d: &[i8; 64]) -> i128 {
    // the low 16 digits, enough for small scalars
    let mut v: i128 = 0;
    for i in (0..16).rev() {
        v = v * 16 + d[i] as i128;
    }
    v
}

#[test]
fn radix16_digits() {
    let d = Scalar::one().to_radix_16();
    assert_eq!(d[0], 1);
    assert!(d[1..].iter().all(|&x| x == 0));
    let fifteen = Scalar { bytes: bytes_of(15) }.to_radix_16();
    assert_eq!(fifteen[0], -1);
    assert_eq!(fifteen[1], 1);
    let big = Scalar { bytes: bytes_of(0x8888) }.to_radix_16();
    assert_eq!(&big[..5], &[-8, -7, -7, -7, 1]);
    assert_eq!(radix_value(&big), 0x8888);
    let top = Scalar { bytes: [0x7fu8; 32] }.to_radix_16();
    assert!(top[..63].iter().all(|&x| (-8..8).contains(&x)));
    assert!((-8..=8).contains(&top[63]));
}

fn point_from_engine_bytes(b: [u8; 32]) -> EdwardsPoint {
    // decompress with the two halves and a witness computed by the power chain
    let c = CompressedRistretto(b);
    let v = c.decompress_init().unwrap();
    let u = FieldElement::one();
    let v3 = v.square().mul(&v);
    let v7 = v3.square().mul(&v);
    let (t17, t13, _) = FieldElement::pow22001(&v7);
    let t19 = FieldElement::pow22501(&t17, &t13);
    let r = u.mul(&v3).mul(&FieldElement::pow_p58(&v7, &t19));
    let (ok, inv) = FieldElement::sqrt_ratio_i(&u, &v, &r);
    assert!(ok);
    c.decompress_fini(&inv).unwrap().0
}

const ELEMENT_BYTES: [u8; 32] = [
    202, 148, 27, 77, 122, 101, 116, 31, 215, 41, 243, 54, 4, 27, 77, 165, 16, 215, 42, 27, 197, 222, 243, 67, 76,
    183, 142, 167, 62, 36, 241, 1,
];

#[test]
fn decompression_rejects_bad_encodings() {
    let mut negative = ELEMENT_BYTES;
    negative[0] ^= 1;
    assert!(CompressedRistretto(negative).decompress_init().is_none());
    let mut too_big = [0xffu8; 32];
    too_big[31] = 0x7f;
    too_big[0] = 0xee;
    assert!(CompressedRistretto(too_big).decompress_init().is_none());
    assert!(CompressedRistretto(ELEMENT_BYTES).decompress_init().is_some());
    assert_eq!(CompressedRistretto::from_slice(&ELEMENT_BYTES).to_bytes(), ELEMENT_BYTES);
    assert_eq!(*CompressedRistretto(ELEMENT_BYTES).as_bytes(), ELEMENT_BYTES);
}

#[test]
fn lookup_table_selection() {
    let p = point_from_engine_bytes(ELEMENT_BYTES);
    let table = LookupTable::from_point(&p);
    assert_eq!(table.select(0).to_bytes(), ProjectiveNielsPoint::identity().to_bytes());
    assert_eq!(table.select(1).to_bytes(), p.to_projective_niels().to_bytes());
    for x in 1..=8i8 {
        assert_eq!(table.select(-x).to_bytes(), table.select(x).neg().to_bytes());
    }
    // entry 2 is P + P in precomputed form
    let two_p = p.add_projective_niels(&p.to_projective_niels()).to_extended().to_projective_niels();
    assert_eq!(table.select(2).to_bytes(), two_p.to_bytes());
    let bytes = table.to_bytes();
    assert_eq!(bytes.len(), 1024);
    let back = LookupTable::from_bytes(&bytes);
    for x in -8..=8i8 {
        assert_eq!(back.select(x).to_bytes(), table.select(x).to_bytes());
    }
}

#[test]
fn point_encoding_round_trip() {
    let p = point_from_engine_bytes(ELEMENT_BYTES);
    let b = p.to_bytes();
    assert_eq!(EdwardsPoint::from_bytes(&b).to_bytes(), b);
    assert_eq!(EdwardsPoint::identity().to_bytes()[32], 1);
    let q = p.mul_by_cofactor();
    let r = p.mul_by_pow_2(3);
    assert_eq!(q.to_bytes(), r.to_bytes());
    let proj = p.to_projective();
    let c = proj.double();
    assert_eq!(c.to_extended().to_bytes(), p.mul_by_pow_2(1).to_bytes());
    assert_eq!(c.to_projective().to_extended().to_bytes(), c.to_projective().to_extended().to_bytes());
}

#[test]
fn instruction_encoding_round_trip() {
    let ixs = vec![
        DSLInstruction::CopyInput(CopyInputData { input_offset: 128, compute_offset: 256, bytes: 32 }),
        DSLInstruction::DecompressInit(RunDecompressData { offset: 0x01020304 }),
        DSLInstruction::BuildLookupTable(BuildLookupTableData { point_offset: 5, table_offset: 6 }),
        DSLInstruction::MultiscalarMul(MultiscalarMulData {
            start: 63,
            end: 64,
            num_inputs: 2,
            scalars_offset: 7,
            tables_offset: 8,
            result_offset: 9,
        }),
        DSLInstruction::ElligatorFini(RunDecompressData { offset: 10 }),
    ];
    let bytes = dsl_instructions_to_bytes(&ixs);
    assert_eq!(bytes.len(), 16 * ixs.len());
    assert_eq!(&bytes[..16], &[0, 128, 0, 0, 0, 0, 1, 0, 0, 32, 0, 0, 0, 0, 0, 0]);
    assert_eq!(&bytes[16..21], &[1, 4, 3, 2, 1]);
    assert_eq!(&bytes[48..64], &[8, 63, 64, 2, 7, 0, 0, 0, 8, 0, 0, 0, 9, 0, 0, 0]);
    for (k, ix) in ixs.iter().enumerate() {
        assert_eq!(DSLInstruction::decode(&bytes, 16 * k), Some(*ix));
    }
    let mut unknown = [0u8; 16];
    unknown[0] = 11;
    assert_eq!(DSLInstruction::decode(&unknown, 0), None);
}

#[test]
fn compiled_programs() {
    let dsl = transer_proof_instructions(vec![2, 2]);
    assert_eq!(dsl.len(), 16 * (9 * 4 + 65 * 2));
    // first: copy the first point into scratch (header + 2 result slots)
    assert_eq!(DSLInstruction::decode(&dsl, 0), Some(DSLInstruction::CopyInput(CopyInputData {
        input_offset: 128,
        compute_offset: 384,
        bytes: 32,
    })));
    // eighth: the table of the first point, after scratch and four scalars
    assert_eq!(DSLInstruction::decode(&dsl, 16 * 7), Some(DSLInstruction::BuildLookupTable(BuildLookupTableData {
        point_offset: 384 + 256,
        table_offset: 384 + 384 + 128,
    })));
    // the first multiscalar step of the second group starts at the top digit
    let at = 16 * (9 * 4 + 2 + 64);
    assert_eq!(DSLInstruction::decode(&dsl, at), Some(DSLInstruction::MultiscalarMul(MultiscalarMulData {
        start: 63,
        end: 64,
        num_inputs: 2,
        scalars_offset: 384 + 384 + 64,
        tables_offset: 384 + 384 + 128 + 2048,
        result_offset: 256,
    })));
    let e = elligator_to_curve_instructions();
    assert_eq!(e.len(), 80);
    assert_eq!(DSLInstruction::decode(&e, 64), Some(DSLInstruction::ElligatorFini(RunDecompressData { offset: 256 })));
}

#[test]
fn headers_round_trip() {
    let h = ComputeHeader {
        key: Key::ComputeBufferV1,
        instruction_num: 0x0a0b0c0d,
        authority: [1u8; 32],
        instruction_buffer: [2u8; 32],
        input_buffer: [3u8; 32],
    };
    let b = h.encode();
    assert_eq!(b.len(), 101);
    assert_eq!(&b[..5], &[2, 0x0d, 0x0c, 0x0b, 0x0a]);
    let back = ComputeHeader::decode(&b).unwrap();
    assert_eq!(back.instruction_num, 0x0a0b0c0d);
    assert_eq!(back.input_buffer, [3u8; 32]);
    let i = InputHeader { key: Key::InputBufferV1, authority: [4u8; 32], finalized: true };
    let ib = i.encode();
    assert_eq!(ib.len(), 34);
    assert_eq!(ib[33], 1);
    let mut bad = ib.clone();
    bad[33] = 2;
    assert!(InputHeader::decode(&bad).is_none());
    assert!(ComputeHeader::decode(&b[..100]).is_none());
}

#[test]
fn control_instruction_decoding() {
    assert_eq!(decode_instruction_type(&[4]), Ok(Curve25519Instruction::CrankCompute));
    assert_eq!(decode_instruction_type(&[]), Err(ProgramError::InvalidInstructionData));
    assert_eq!(decode_instruction_type(&[7]), Err(ProgramError::InvalidInstructionData));
    assert_eq!(Key::from_u8(3), Some(Key::InstructionBufferV1));
    assert_eq!(Key::from_u8(4), None);
    assert_eq!(Key::ComputeBufferV1.to_u8(), 2);
}

#[test]
fn defaults_and_equalities() {
    assert_eq!(Scalar::default().to_bytes(), [0u8; 32]);
    assert!(Scalar::one().ct_eq(&Scalar::one()));
    assert!(!Scalar::one().ct_eq(&Scalar::zero()));
    assert_eq!(CompressedRistretto::default().to_bytes(), [0u8; 32]);
    assert!(CompressedRistretto::identity().ct_eq(&CompressedRistretto([0u8; 32])));
    assert!(!CompressedRistretto(ELEMENT_BYTES).ct_eq(&CompressedRistretto::identity()));
    assert_eq!(ProjectiveNielsPoint::default().to_bytes(), ProjectiveNielsPoint::identity().to_bytes());
}

#[test]
fn decompression_rejects_a_wrong_witness() {
    // the identity encoding with the witness 1: 1 * 1 * (v u2^2) = -d - 1, not 1
    let zero = CompressedRistretto([0u8; 32]);
    assert!(zero.decompress_init().is_some());
    assert!(zero.decompress_fini(&FieldElement::one()).is_none());
    // with the true inverse square root it decompresses to the identity
    let p = point_from_engine_bytes([0u8; 32]);
    assert!(p.X.is_zero());
}
