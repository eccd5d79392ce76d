//! The step executors: each bytecode instruction's work on the compute
//! buffer's body, reading and writing 32-byte field elements and 128-byte
//! points at the offsets the instruction carries.
//!
//! Every step checks its offsets first: reads must lie in the buffer and
//! writes must lie in the body, past the header. A step that fails leaves the
//! buffer as it was.

#![allow(non_snake_case)]

use vstd::prelude::*;
use crate::field::{
    FieldElement, fadd, fsub, fmul, fneg, fpow, fe_bytes, decode_value, mask, is_negative_value,
    sqrt_m1_value, edwards_d_value, one_minus_d_sq_value, d_minus_one_sq_value, sqrt_ad_minus_one_value,
    sqrt_ratio_root, p,
};
use vstd::arithmetic::power2::pow2;
use crate::edwards::{
    EdwardsPoint, CompletedPoint, ExtendedValue, completed_to_extended, coords_decoded, point_bytes,
};
use crate::ristretto::{
    CompressedRistretto, decompress_accepts, decompress_init_value, decompress_x, decompress_y,
    decompress_fini_accepts,
};
use crate::window::{LookupTable, TABLE_SIZE, entries_bytes, table_of, table_decoded, select_value};
use crate::scalar::{Scalar, scalar_digits};
use crate::encoding::le_nat;
use crate::edwards::{NielsValue, add_niels, mul_by_pow_2_value};
use crate::instruction::{MultiscalarMulData, MAX_MULTISCALAR_POINTS};
use crate::instruction::{
    HEADER_SIZE, ProgramError, CopyInputData, BuildLookupTableData, InputHeader, Key, key_tag, data_header_decodes,
};

verus! {

/// `s` with the bytes from `at` on replaced by `b`.
pub open spec fn splice(s: Seq<u8>, at: int, b: Seq<u8>) -> Seq<u8> {
    s.subrange(0, at) + b + s.subrange(at + b.len(), s.len() as int)
}

/// The field value that the 32 bytes at `at` decode to.
pub open spec fn fe_at(s: Seq<u8>, at: int) -> nat {
    decode_value(s.subrange(at, at + 32))
}

/// `[at, at + len)` lies in the buffer.
pub open spec fn readable(s: Seq<u8>, at: int, len: int) -> bool {
    0 <= at && at + len <= s.len()
}

/// `[at, at + len)` lies in the body of the buffer, past its header.
pub open spec fn writable(s: Seq<u8>, at: int, len: int) -> bool {
    HEADER_SIZE <= at && at + len <= s.len()
}

/// Splicing within the buffer keeps its length and the bytes before `at`.
pub proof fn lemma_splice_within(s: Seq<u8>, at: int, b: Seq<u8>)
    requires
        0 <= at,
        at + b.len() <= s.len(),
    ensures
        splice(s, at, b).len() == s.len(),
        splice(s, at, b).subrange(0, at) == s.subrange(0, at),
        splice(s, at, b).subrange(at, at + b.len()) == b,
        forall|k: int| 0 <= k < at ==> #[trigger] splice(s, at, b)[k] == s[k],
{
    assert(splice(s, at, b).subrange(0, at) =~= s.subrange(0, at));
    assert(splice(s, at, b).subrange(at, at + b.len()) =~= b);
}

/// The canonical bytes of a field value decode to that value.
pub proof fn lemma_decode_fe_bytes(v: nat)
    requires
        v < p(),
    ensures
        decode_value(fe_bytes(v)) == v,
        fe_bytes(v).len() == 32,
{
    let b = fe_bytes(v);
    crate::encoding::lemma_nat_to_le_len(v, 32);
    reveal_with_fuel(vstd::arithmetic::power::pow, 33);
    assert(vstd::arithmetic::power::pow(256, 32) > p());
    crate::encoding::lemma_le_nat_of_nat_to_le(v, 32);
    crate::encoding::lemma_le_nat_top(b);
    assert(128 * vstd::arithmetic::power::pow(256, 31) > p());
    let b31 = b[31];
    assert(b31 < 128);
    assert(b31 & 0x7f == b31) by (bit_vector)
        requires
            b31 < 128,
    ;
    assert(crate::field::clear_top_bit(b) =~= b);
    vstd::arithmetic::div_mod::lemma_small_mod(v, p());
}

/// Reading 32 bytes after a splice: inside the new bytes, or away from them.
pub proof fn lemma_fe_at_splice(s: Seq<u8>, at: int, b: Seq<u8>, o: int)
    requires
        0 <= at,
        at + b.len() <= s.len(),
        0 <= o,
        o + 32 <= s.len(),
    ensures
        o + 32 <= at || at + b.len() <= o ==> fe_at(splice(s, at, b), o) == fe_at(s, o),
        at <= o && o + 32 <= at + b.len() ==> fe_at(splice(s, at, b), o) == decode_value(b.subrange(o - at, o - at + 32)),
{
    let t = splice(s, at, b);
    if o + 32 <= at || at + b.len() <= o {
        assert(t.subrange(o, o + 32) =~= s.subrange(o, o + 32));
    }
    if at <= o && o + 32 <= at + b.len() {
        assert(t.subrange(o, o + 32) =~= b.subrange(o - at, o - at + 32));
    }
}

/// Whether `[at, at + n)` fits in `len` bytes, without overflow.
pub fn fits(len: usize, at: usize, n: usize) -> (r: bool)
    ensures
        r == (at + n <= len),
{
    at <= len && len - at >= n
}

/// Overwrites `data[at..at + src.len()]` with `src`.
pub fn write_at(data: &mut Vec<u8>, at: usize, src: &[u8])
    requires
        at + src@.len() <= old(data)@.len(),
    ensures
        final(data)@ == splice(old(data)@, at as int, src@),
{
    let dl = data.len();
    let mut i: usize = 0;
    while i < src.len()
        invariant
            at + src@.len() <= old(data)@.len(),
            dl == old(data)@.len(),
            data@.len() == old(data)@.len(),
            i <= src@.len(),
            forall|k: int| 0 <= k < data@.len() ==> #[trigger] data@[k] == (if at <= k < at + i { src@[k - at] } else { old(data)@[k] }),
        decreases src@.len() - i,
    {
        data[at + i] = src[i];
        i = i + 1;
    }
    assert(data@ =~= splice(old(data)@, at as int, src@));
}

/// Reads the field element at `at`.
pub fn read_fe(data: &[u8], at: usize) -> (r: FieldElement)
    requires
        at + 32 <= data@.len(),
    ensures
        r.wf(),
        r.value() == fe_at(data@, at as int),
{
    FieldElement::from_bytes(&crate::edwards::copy32(data, at))
}

/// v^3 and the input u v^7 of the exponentiation for sqrt(u / v).
pub open spec fn v3_of(v: nat) -> nat {
    fmul(fmul(v, v), v)
}

pub open spec fn pow_input_of(u: nat, v: nat) -> nat {
    fmul(u, fmul(fmul(v3_of(v), v3_of(v)), v))
}

/// The candidate root (u v^3)(u v^7)^((p-5)/8), given `t19` = (u v^7)^(2^250 - 1).
pub open spec fn candidate_root(u: nat, v: nat, t19: nat) -> nat {
    fmul(fmul(u, v3_of(v)), fmul(pow_input_of(u, v), fpow(t19, 4)))
}

/// Computes v^3 and u v^7.
fn pow_input(u: &FieldElement, v: &FieldElement) -> (r: (FieldElement, FieldElement))
    requires
        u.wf(),
        v.wf(),
    ensures
        r.0.wf(),
        r.1.wf(),
        r.0.value() == v3_of(v.value()),
        r.1.value() == pow_input_of(u.value(), v.value()),
{
    let v3 = v.square().mul(v);
    let v7 = v3.square().mul(v);
    (v3, u.mul(&v7))
}

/// The result of `InvSqrtInit` at `o`: u v^7 with u = 1 and v read at `o`, written at `o + 32`.
pub open spec fn invsqrt_init_spec(s: Seq<u8>, o: int) -> Option<Seq<u8>> {
    if !(readable(s, o, 32) && writable(s, o + 32, 32)) {
        None
    } else {
        Some(splice(s, o + 32, fe_bytes(pow_input_of(1, fe_at(s, o)))))
    }
}

pub fn process_invsqrt_init(data: &mut Vec<u8>, offset: u32) -> (r: Result<(), ProgramError>)
    ensures
        r.is_ok() == invsqrt_init_spec(old(data)@, offset as int).is_some(),
        r.is_ok() ==> final(data)@ == invsqrt_init_spec(old(data)@, offset as int).unwrap(),
        r.is_err() ==> final(data)@ == old(data)@ && r == Err::<(), ProgramError>(ProgramError::InvalidArgument),
{
    let o = offset as usize;
    if !fits(data.len(), o, 64) || o + 32 < HEADER_SIZE {
        return Err(ProgramError::InvalidArgument);
    }
    let v = read_fe(data.as_slice(), o);
    let (_v3, input) = pow_input(&FieldElement::one(), &v);
    write_at(data, o + 32, &input.to_bytes());
    Ok(())
}

/// The result of `Pow22501P1` at `o`: for x at `o`, x^(2^200 - 1), x^(2^50 - 1)
/// and x^11, written one after another from `o + 32`.
pub open spec fn pow22501_p1_spec(s: Seq<u8>, o: int) -> Option<Seq<u8>> {
    if !(readable(s, o, 32) && writable(s, o + 32, 96)) {
        None
    } else {
        let x = fe_at(s, o);
        Some(splice(s, o + 32, fe_bytes(fpow(x, mask(200))) + fe_bytes(fpow(x, mask(50))) + fe_bytes(fpow(x, 11))))
    }
}

pub fn process_pow22501_p1(data: &mut Vec<u8>, offset: u32) -> (r: Result<(), ProgramError>)
    ensures
        r.is_ok() == pow22501_p1_spec(old(data)@, offset as int).is_some(),
        r.is_ok() ==> final(data)@ == pow22501_p1_spec(old(data)@, offset as int).unwrap(),
        r.is_err() ==> final(data)@ == old(data)@ && r == Err::<(), ProgramError>(ProgramError::InvalidArgument),
{
    let o = offset as usize;
    if !fits(data.len(), o, 128) || o + 32 < HEADER_SIZE {
        return Err(ProgramError::InvalidArgument);
    }
    let x = read_fe(data.as_slice(), o);
    let (t17, t13, t3) = FieldElement::pow22001(&x);
    let mut out: Vec<u8> = Vec::new();
    let b17 = t17.to_bytes();
    let b13 = t13.to_bytes();
    let b3 = t3.to_bytes();
    append(&mut out, &b17);
    append(&mut out, &b13);
    append(&mut out, &b3);
    write_at(data, o + 32, out.as_slice());
    Ok(())
}

/// Appends `src`.
pub fn append(out: &mut Vec<u8>, src: &[u8])
    ensures
        final(out)@ == old(out)@ + src@,
{
    let mut i: usize = 0;
    while i < src.len()
        invariant
            i <= src@.len(),
            out@ == old(out)@ + src@.subrange(0, i as int),
        decreases src@.len() - i,
    {
        out.push(src[i]);
        i = i + 1;
        assert(out@ =~= old(out)@ + src@.subrange(0, i as int));
    }
    assert(src@.subrange(0, src@.len() as int) =~= src@);
}

/// The result of `Pow22501P2` at `o`: t17^(2^50) t13 for t17 at `o` and t13 at
/// `o + 32`, written at `o + 96` (past the x^11 slot).
pub open spec fn pow22501_p2_spec(s: Seq<u8>, o: int) -> Option<Seq<u8>> {
    if !(readable(s, o, 64) && writable(s, o + 96, 32)) {
        None
    } else {
        Some(splice(s, o + 96, fe_bytes(fmul(fpow(fe_at(s, o), pow2(50)), fe_at(s, o + 32)))))
    }
}

pub fn process_pow22501_p2(data: &mut Vec<u8>, offset: u32) -> (r: Result<(), ProgramError>)
    ensures
        r.is_ok() == pow22501_p2_spec(old(data)@, offset as int).is_some(),
        r.is_ok() ==> final(data)@ == pow22501_p2_spec(old(data)@, offset as int).unwrap(),
        r.is_err() ==> final(data)@ == old(data)@ && r == Err::<(), ProgramError>(ProgramError::InvalidArgument),
{
    let o = offset as usize;
    if !fits(data.len(), o, 128) || o + 96 < HEADER_SIZE {
        return Err(ProgramError::InvalidArgument);
    }
    let t17 = read_fe(data.as_slice(), o);
    let t13 = read_fe(data.as_slice(), o + 32);
    let t19 = FieldElement::pow22501(&t17, &t13);
    write_at(data, o + 96, &t19.to_bytes());
    Ok(())
}

/// The result of `InvSqrtFini` at `o`: with u = 1, v at `o` and the
/// exponentiation output at `o + 160`, the nonnegative root chosen by
/// `sqrt_ratio_i`, written at `o + 192`; rejected when v r^2 is neither u nor -u.
pub open spec fn invsqrt_fini_spec(s: Seq<u8>, o: int) -> Option<Seq<u8>> {
    if !(readable(s, o, 192) && writable(s, o + 192, 32)) {
        None
    } else {
        let v = fe_at(s, o);
        let r = candidate_root(1, v, fe_at(s, o + 160));
        let check = fmul(v, fmul(r, r));
        if !(check == 1 || check == fneg(1)) {
            None
        } else {
            Some(splice(s, o + 192, fe_bytes(sqrt_ratio_root(1, v, r))))
        }
    }
}

pub fn process_invsqrt_fini(data: &mut Vec<u8>, offset: u32) -> (r: Result<(), ProgramError>)
    ensures
        r.is_ok() == invsqrt_fini_spec(old(data)@, offset as int).is_some(),
        r.is_ok() ==> final(data)@ == invsqrt_fini_spec(old(data)@, offset as int).unwrap(),
        r.is_err() ==> final(data)@ == old(data)@ && r == Err::<(), ProgramError>(ProgramError::InvalidArgument),
{
    let o = offset as usize;
    if !fits(data.len(), o, 224) || o + 192 < HEADER_SIZE {
        return Err(ProgramError::InvalidArgument);
    }
    let u = FieldElement::one();
    let v = read_fe(data.as_slice(), o);
    let (v3, input) = pow_input(&u, &v);
    let t19 = read_fe(data.as_slice(), o + 160);
    let p58 = FieldElement::pow_p58(&input, &t19);
    let r = u.mul(&v3).mul(&p58);
    let (ok, root) = FieldElement::sqrt_ratio_i(&u, &v, &r);
    if !ok {
        return Err(ProgramError::InvalidArgument);
    }
    write_at(data, o + 192, &root.to_bytes());
    Ok(())
}

/// The result of `DecompressInit` at `o`: for the encoding at `o`, v u2^2,
/// written at `o + 32`; rejected when the encoding is not accepted.
pub open spec fn decompress_init_spec(s: Seq<u8>, o: int) -> Option<Seq<u8>> {
    if !(readable(s, o, 32) && writable(s, o + 32, 32)) {
        None
    } else if !decompress_accepts(s.subrange(o, o + 32)) {
        None
    } else {
        Some(splice(s, o + 32, fe_bytes(decompress_init_value(decode_value(s.subrange(o, o + 32))))))
    }
}

pub fn process_decompress_init(data: &mut Vec<u8>, offset: u32) -> (r: Result<(), ProgramError>)
    ensures
        r.is_ok() == decompress_init_spec(old(data)@, offset as int).is_some(),
        r.is_ok() ==> final(data)@ == decompress_init_spec(old(data)@, offset as int).unwrap(),
        r.is_err() ==> final(data)@ == old(data)@ && r == Err::<(), ProgramError>(ProgramError::InvalidArgument),
{
    let o = offset as usize;
    if !fits(data.len(), o, 64) || o + 32 < HEADER_SIZE {
        return Err(ProgramError::InvalidArgument);
    }
    let point = CompressedRistretto::from_slice(&data.as_slice()[o..o + 32]);
    match point.decompress_init() {
        None => Err(ProgramError::InvalidArgument),
        Some(value) => {
            write_at(data, o + 32, &value.to_bytes());
            Ok(())
        },
    }
}

/// The result of `DecompressFini` at `o`: for the encoding at `o` and the
/// witness at `o + 224`, the point (x : y : 1 : xy), written at `o + 256`;
/// rejected when either half of decompression rejects.
pub open spec fn decompress_fini_spec(s: Seq<u8>, o: int) -> Option<Seq<u8>> {
    if !(readable(s, o, 256) && writable(s, o + 256, 128)) {
        None
    } else {
        let b = s.subrange(o, o + 32);
        let sv = decode_value(b);
        let inv = fe_at(s, o + 224);
        if !(decompress_accepts(b) && decompress_fini_accepts(sv, inv)) {
            None
        } else {
            let x = decompress_x(sv, inv);
            let y = decompress_y(sv, inv);
            Some(splice(s, o + 256, point_bytes((x, y, 1, fmul(x, y)))))
        }
    }
}

pub fn process_decompress_fini(data: &mut Vec<u8>, offset: u32) -> (r: Result<(), ProgramError>)
    ensures
        r.is_ok() == decompress_fini_spec(old(data)@, offset as int).is_some(),
        r.is_ok() ==> final(data)@ == decompress_fini_spec(old(data)@, offset as int).unwrap(),
        r.is_err() ==> final(data)@ == old(data)@ && r == Err::<(), ProgramError>(ProgramError::InvalidArgument),
{
    let o = offset as usize;
    if !fits(data.len(), o, 384) || o + 256 < HEADER_SIZE {
        return Err(ProgramError::InvalidArgument);
    }
    let point = CompressedRistretto::from_slice(&data.as_slice()[o..o + 32]);
    let element = read_fe(data.as_slice(), o + 224);
    match point.decompress_fini(&element) {
        None => Err(ProgramError::InvalidArgument),
        Some(res) => {
            write_at(data, o + 256, &res.0.to_bytes());
            Ok(())
        },
    }
}

/// The inverse square root of v that the exponentiation steps produce.
pub open spec fn inv_sqrt_of(v: nat) -> nat {
    sqrt_ratio_root(1, v, candidate_root(1, v, fpow(pow_input_of(1, v), mask(250))))
}

/// Whether that root checks: v r^2 is 1 or -1 for the candidate r.
pub open spec fn inv_sqrt_checks(v: nat) -> bool {
    let r = candidate_root(1, v, fpow(pow_input_of(1, v), mask(250)));
    fmul(v, fmul(r, r)) == 1 || fmul(v, fmul(r, r)) == fneg(1)
}

/// The decompression program, run from a compute body holding an encoding
/// at `o`: `DecompressInit(o)`, `InvSqrtInit(o + 32)`, `Pow22501P1(o + 64)`,
/// `Pow22501P2(o + 96)`, `InvSqrtFini(o + 32)` and `DecompressFini(o)`. The
/// first rejects an encoding that is not canonical and nonnegative; the
/// witness that the middle steps leave passes the final check whenever the
/// inverse square root exists; when every check passes, the point (x : y : 1 : x y) that one-shot
/// decompression computes with the inverse square root of v u2^2 is left
/// at `o + 256`.
pub proof fn lemma_decompress_program(s0: Seq<u8>, o: int)
    requires
        HEADER_SIZE <= o,
        o + 384 <= s0.len(),
    ensures
        !decompress_accepts(s0.subrange(o, o + 32)) ==> decompress_init_spec(s0, o).is_none(),
        ({
            let b = s0.subrange(o, o + 32);
            let sv = decode_value(b);
            let v = decompress_init_value(sv);
            let inv = inv_sqrt_of(v);
            let s1 = decompress_init_spec(s0, o);
            let s2 = invsqrt_init_spec(s1.unwrap(), o + 32);
            let s3 = pow22501_p1_spec(s2.unwrap(), o + 64);
            let s4 = pow22501_p2_spec(s3.unwrap(), o + 96);
            let s5 = invsqrt_fini_spec(s4.unwrap(), o + 32);
            let s6 = decompress_fini_spec(s5.unwrap(), o);
            decompress_accepts(b) && inv_sqrt_checks(v) && !is_negative_value(fmul(decompress_x(sv, inv), decompress_y(sv, inv)))
                && decompress_y(sv, inv) != 0 ==> {
                &&& s1.is_some() && s2.is_some() && s3.is_some() && s4.is_some() && s5.is_some() && s6.is_some()
                &&& s6.unwrap().subrange(o + 256, o + 384) == point_bytes(
                    (decompress_x(sv, inv), decompress_y(sv, inv), 1, fmul(decompress_x(sv, inv), decompress_y(sv, inv))),
                )
            }
        }),
{
    let b = s0.subrange(o, o + 32);
    let sv = decode_value(b);
    let v = decompress_init_value(sv);
    let inv = inv_sqrt_of(v);
    if decompress_accepts(b) && inv_sqrt_checks(v) && !is_negative_value(fmul(decompress_x(sv, inv), decompress_y(sv, inv)))
        && decompress_y(sv, inv) != 0 {
        lemma_decode_fe_bytes(v);
        let s1 = splice(s0, o + 32, fe_bytes(v));
        assert(decompress_init_spec(s0, o) == Some(s1));
        lemma_splice_within(s0, o + 32, fe_bytes(v));
        lemma_fe_at_splice(s0, o + 32, fe_bytes(v), o + 32);
        assert(fe_bytes(v).subrange(0, 32) =~= fe_bytes(v));
        assert(s1.subrange(o, o + 32) =~= b);
        assert(fe_at(s1, o + 32) == v);

        let x = pow_input_of(1, v);
        lemma_decode_fe_bytes(x);
        let s2 = splice(s1, o + 64, fe_bytes(x));
        assert(invsqrt_init_spec(s1, o + 32) == Some(s2));
        lemma_splice_within(s1, o + 64, fe_bytes(x));
        lemma_fe_at_splice(s1, o + 64, fe_bytes(x), o + 64);
        lemma_fe_at_splice(s1, o + 64, fe_bytes(x), o + 32);
        assert(fe_at(s2, o + 64) == x);
        assert(fe_at(s2, o + 32) == v);
        assert(s2.subrange(o, o + 32) =~= b);

        let a17 = fpow(x, mask(200));
        let a13 = fpow(x, mask(50));
        let a3 = fpow(x, 11);
        lemma_decode_fe_bytes(a17);
        lemma_decode_fe_bytes(a13);
        lemma_decode_fe_bytes(a3);
        let w3 = fe_bytes(a17) + fe_bytes(a13) + fe_bytes(a3);
        let s3 = splice(s2, o + 96, w3);
        assert(pow22501_p1_spec(s2, o + 64) == Some(s3));
        lemma_splice_within(s2, o + 96, w3);
        lemma_fe_at_splice(s2, o + 96, w3, o + 96);
        lemma_fe_at_splice(s2, o + 96, w3, o + 128);
        lemma_fe_at_splice(s2, o + 96, w3, o + 32);
        assert(w3.subrange(0, 32) =~= fe_bytes(a17));
        assert(w3.subrange(32, 64) =~= fe_bytes(a13));
        assert(fe_at(s3, o + 96) == a17);
        assert(fe_at(s3, o + 128) == a13);
        assert(fe_at(s3, o + 32) == v);
        assert(s3.subrange(o, o + 32) =~= b);

        let t19 = fmul(fpow(a17, pow2(50)), a13);
        crate::field::lemma_fpow_mask_step(x, 200, 50);
        lemma_decode_fe_bytes(t19);
        let s4 = splice(s3, o + 192, fe_bytes(t19));
        assert(pow22501_p2_spec(s3, o + 96) == Some(s4));
        lemma_splice_within(s3, o + 192, fe_bytes(t19));
        lemma_fe_at_splice(s3, o + 192, fe_bytes(t19), o + 192);
        lemma_fe_at_splice(s3, o + 192, fe_bytes(t19), o + 32);
        assert(fe_at(s4, o + 192) == fpow(x, mask(250)));
        assert(fe_at(s4, o + 32) == v);
        assert(s4.subrange(o, o + 32) =~= b);

        let rr = candidate_root(1, v, fpow(x, mask(250)));
        let root = sqrt_ratio_root(1, v, rr);
        crate::field::lemma_fabs_nonnegative(if fmul(v, fmul(rr, rr)) == fneg(1) || fmul(v, fmul(rr, rr)) == fmul(fneg(1), sqrt_m1_value()) { fmul(sqrt_m1_value(), rr) } else { rr });
        lemma_decode_fe_bytes(root);
        crate::field::lemma_sqrt_ratio_flag(1, v, rr);
        assert(fmul(fmul(inv, inv), v) == fmul(v, fmul(inv, inv))) by (nonlinear_arith);
        assert(crate::ristretto::witness_valid(sv, inv));
        let s5 = splice(s4, o + 224, fe_bytes(root));
        assert(invsqrt_fini_spec(s4, o + 32) == Some(s5));
        lemma_splice_within(s4, o + 224, fe_bytes(root));
        lemma_fe_at_splice(s4, o + 224, fe_bytes(root), o + 224);
        assert(fe_at(s5, o + 224) == inv);
        assert(s5.subrange(o, o + 32) =~= b);

        let xv = decompress_x(sv, inv);
        let yv = decompress_y(sv, inv);
        let pt = point_bytes((xv, yv, 1, fmul(xv, yv)));
        lemma_point_bytes_len((xv, yv, 1, fmul(xv, yv)));
        let s6 = splice(s5, o + 256, pt);
        assert(decompress_fini_spec(s5, o) == Some(s6));
        lemma_splice_within(s5, o + 256, pt);
    }
}

/// The Elligator terms for r0: r = i r0^2, the numerator N_s = (r + 1)(1 - d^2)
/// and the denominator D = (c - d r)(r + d) with c = -1.
pub open spec fn elligator_r(r0: nat) -> nat {
    fmul(sqrt_m1_value(), fmul(r0, r0))
}

pub open spec fn elligator_ns(r0: nat) -> nat {
    fmul(fadd(elligator_r(r0), 1), one_minus_d_sq_value())
}

pub open spec fn elligator_d(r0: nat) -> nat {
    fmul(fsub((p() - 1) as nat, fmul(edwards_d_value(), elligator_r(r0))), fadd(elligator_r(r0), edwards_d_value()))
}

/// The point that the Elligator map gives for r0, with `t19` the
/// exponentiation output for N_s D^7.
pub open spec fn elligator_point(r0: nat, t19: nat) -> ExtendedValue {
    let r = elligator_r(r0);
    let ns = elligator_ns(r0);
    let den = elligator_d(r0);
    let cand = candidate_root(ns, den, t19);
    let check = fmul(den, fmul(cand, cand));
    let is_sq = check == ns || check == fneg(ns);
    let s0 = sqrt_ratio_root(ns, den, cand);
    let sp = fmul(s0, r0);
    let s_prime = if !is_negative_value(sp) { fneg(sp) } else { sp };
    let s = if is_sq { s0 } else { s_prime };
    let c = if is_sq { (p() - 1) as nat } else { r };
    let nt = fsub(fmul(fmul(c, fsub(r, 1)), d_minus_one_sq_value()), den);
    let ss = fmul(s, s);
    completed_to_extended((fmul(fadd(s, s), den), fsub(1, ss), fmul(nt, sqrt_ad_minus_one_value()), fadd(1, ss)))
}

/// The Elligator program, run from a compute body holding the seed r0 at
/// `o`: the four steps `ElligatorInit(o)`, `Pow22501P1(o + 32)`,
/// `Pow22501P2(o + 64)` and `ElligatorFini(o)` all succeed, and leave at
/// `o + 192` the Elligator point of r0 computed with the exponentiation
/// (N_s D^7)^(2^250 - 1): the split steps compose to the whole map.
pub proof fn lemma_elligator_program(s0: Seq<u8>, o: int)
    requires
        HEADER_SIZE <= o,
        o + 320 <= s0.len(),
    ensures
        ({
            let r0 = fe_at(s0, o);
            let x = pow_input_of(elligator_ns(r0), elligator_d(r0));
            let s1 = elligator_init_spec(s0, o);
            let s2 = pow22501_p1_spec(s1.unwrap(), o + 32);
            let s3 = pow22501_p2_spec(s2.unwrap(), o + 64);
            let s4 = elligator_fini_spec(s3.unwrap(), o);
            &&& s1.is_some() && s2.is_some() && s3.is_some() && s4.is_some()
            &&& s4.unwrap().subrange(o + 192, o + 320) == point_bytes(elligator_point(r0, fpow(x, mask(250))))
        }),
{
    let r0 = fe_at(s0, o);
    let x = pow_input_of(elligator_ns(r0), elligator_d(r0));
    lemma_decode_fe_bytes(x);
    let s1 = splice(s0, o + 32, fe_bytes(x));
    lemma_splice_within(s0, o + 32, fe_bytes(x));
    lemma_fe_at_splice(s0, o + 32, fe_bytes(x), o);
    lemma_fe_at_splice(s0, o + 32, fe_bytes(x), o + 32);
    assert(fe_bytes(x).subrange(0, 32) =~= fe_bytes(x));
    assert(fe_at(s1, o + 32) == x);
    assert(elligator_init_spec(s0, o) == Some(s1));

    let a17 = fpow(x, mask(200));
    let a13 = fpow(x, mask(50));
    let a3 = fpow(x, 11);
    lemma_decode_fe_bytes(a17);
    lemma_decode_fe_bytes(a13);
    lemma_decode_fe_bytes(a3);
    let w2 = fe_bytes(a17) + fe_bytes(a13) + fe_bytes(a3);
    let s2 = splice(s1, o + 64, w2);
    assert(pow22501_p1_spec(s1, o + 32) == Some(s2));
    lemma_splice_within(s1, o + 64, w2);
    lemma_fe_at_splice(s1, o + 64, w2, o);
    lemma_fe_at_splice(s1, o + 64, w2, o + 64);
    lemma_fe_at_splice(s1, o + 64, w2, o + 96);
    assert(w2.subrange(0, 32) =~= fe_bytes(a17));
    assert(w2.subrange(32, 64) =~= fe_bytes(a13));
    assert(fe_at(s2, o + 64) == a17);
    assert(fe_at(s2, o + 96) == a13);
    assert(fe_at(s2, o) == r0);

    let t19 = fmul(fpow(a17, pow2(50)), a13);
    crate::field::lemma_fpow_mask_step(x, 200, 50);
    assert(t19 == fpow(x, mask(250)));
    lemma_decode_fe_bytes(t19);
    let s3 = splice(s2, o + 160, fe_bytes(t19));
    assert(pow22501_p2_spec(s2, o + 64) == Some(s3));
    lemma_splice_within(s2, o + 160, fe_bytes(t19));
    lemma_fe_at_splice(s2, o + 160, fe_bytes(t19), o);
    lemma_fe_at_splice(s2, o + 160, fe_bytes(t19), o + 160);
    assert(fe_at(s3, o) == r0);
    assert(fe_at(s3, o + 160) == t19);

    let pt = point_bytes(elligator_point(r0, t19));
    lemma_point_bytes_len(elligator_point(r0, t19));
    let s4 = splice(s3, o + 192, pt);
    assert(elligator_fini_spec(s3, o) == Some(s4));
    lemma_splice_within(s3, o + 192, pt);
}

/// The result of `ElligatorInit` at `o`: N_s D^7 for r0 at `o`, written at `o + 32`.
pub open spec fn elligator_init_spec(s: Seq<u8>, o: int) -> Option<Seq<u8>> {
    if !(readable(s, o, 32) && writable(s, o + 32, 32)) {
        None
    } else {
        let r0 = fe_at(s, o);
        Some(splice(s, o + 32, fe_bytes(pow_input_of(elligator_ns(r0), elligator_d(r0)))))
    }
}

/// Computes r, N_s and D for r0.
fn elligator_terms(r_0: &FieldElement) -> (res: (FieldElement, FieldElement, FieldElement))
    requires
        r_0.wf(),
    ensures
        res.0.wf(),
        res.1.wf(),
        res.2.wf(),
        res.0.value() == elligator_r(r_0.value()),
        res.1.value() == elligator_ns(r_0.value()),
        res.2.value() == elligator_d(r_0.value()),
{
    let i = FieldElement::sqrt_m1();
    let d = FieldElement::edwards_d();
    let one_minus_d_sq = FieldElement::one_minus_edwards_d_squared();
    let c = FieldElement::minus_one();
    let one = FieldElement::one();
    let r = i.mul(&r_0.square());
    let N_s = r.add(&one).mul(&one_minus_d_sq);
    let D = c.sub(&d.mul(&r)).mul(&r.add(&d));
    (r, N_s, D)
}

pub fn process_elligator_init(data: &mut Vec<u8>, offset: u32) -> (r: Result<(), ProgramError>)
    ensures
        r.is_ok() == elligator_init_spec(old(data)@, offset as int).is_some(),
        r.is_ok() ==> final(data)@ == elligator_init_spec(old(data)@, offset as int).unwrap(),
        r.is_err() ==> final(data)@ == old(data)@ && r == Err::<(), ProgramError>(ProgramError::InvalidArgument),
{
    let o = offset as usize;
    if !fits(data.len(), o, 64) || o + 32 < HEADER_SIZE {
        return Err(ProgramError::InvalidArgument);
    }
    let r_0 = read_fe(data.as_slice(), o);
    let (_r, N_s, D) = elligator_terms(&r_0);
    let (_v3, input) = pow_input(&N_s, &D);
    write_at(data, o + 32, &input.to_bytes());
    Ok(())
}

/// The result of `ElligatorFini` at `o`: the Elligator point for r0 at `o`
/// and the exponentiation output at `o + 160`, written at `o + 192`.
pub open spec fn elligator_fini_spec(s: Seq<u8>, o: int) -> Option<Seq<u8>> {
    if !(readable(s, o, 192) && writable(s, o + 192, 128)) {
        None
    } else {
        Some(splice(s, o + 192, point_bytes(elligator_point(fe_at(s, o), fe_at(s, o + 160)))))
    }
}

pub fn process_elligator_fini(data: &mut Vec<u8>, offset: u32) -> (r: Result<(), ProgramError>)
    ensures
        r.is_ok() == elligator_fini_spec(old(data)@, offset as int).is_some(),
        r.is_ok() ==> final(data)@ == elligator_fini_spec(old(data)@, offset as int).unwrap(),
        r.is_err() ==> final(data)@ == old(data)@ && r == Err::<(), ProgramError>(ProgramError::InvalidArgument),
{
    let o = offset as usize;
    if !fits(data.len(), o, 320) || o + 192 < HEADER_SIZE {
        return Err(ProgramError::InvalidArgument);
    }
    let d_minus_one_sq = FieldElement::edwards_d_minus_one_squared();
    let mut c = FieldElement::minus_one();
    let one = FieldElement::one();
    let r_0 = read_fe(data.as_slice(), o);
    let (r, N_s, D) = elligator_terms(&r_0);
    let t19 = read_fe(data.as_slice(), o + 160);
    let (v3, input) = pow_input(&N_s, &D);
    let p58 = FieldElement::pow_p58(&input, &t19);
    let cand = N_s.mul(&v3).mul(&p58);
    let (Ns_D_is_sq, mut s) = FieldElement::sqrt_ratio_i(&N_s, &D, &cand);
    let mut s_prime = s.mul(&r_0);
    let s_prime_is_pos = !s_prime.is_negative();
    s_prime.conditional_negate(s_prime_is_pos);
    s.conditional_assign(&s_prime, !Ns_D_is_sq);
    c.conditional_assign(&r, !Ns_D_is_sq);
    let N_t = c.mul(&r.sub(&one)).mul(&d_minus_one_sq).sub(&D);
    let s_sq = s.square();
    let res = CompletedPoint {
        X: s.add(&s).mul(&D),
        Y: one.sub(&s_sq),
        Z: N_t.mul(&FieldElement::sqrt_ad_minus_one()),
        T: one.add(&s_sq),
    }.to_extended();
    write_at(data, o + 192, &res.to_bytes());
    Ok(())
}

/// The result of `BuildLookupTable`: the table of the point at
/// `point_offset`, written at `table_offset`.
pub open spec fn build_lookup_table_spec(s: Seq<u8>, d: BuildLookupTableData) -> Option<Seq<u8>> {
    let po = d.point_offset as int;
    let to = d.table_offset as int;
    if !(readable(s, po, 128) && writable(s, to, TABLE_SIZE as int)) {
        None
    } else {
        Some(splice(s, to, entries_bytes(table_of(coords_decoded(s.subrange(po, po + 128))))))
    }
}

pub fn process_build_lookup_table(data: &mut Vec<u8>, d: &BuildLookupTableData) -> (r: Result<(), ProgramError>)
    ensures
        r.is_ok() == build_lookup_table_spec(old(data)@, *d).is_some(),
        r.is_ok() ==> final(data)@ == build_lookup_table_spec(old(data)@, *d).unwrap(),
        r.is_err() ==> final(data)@ == old(data)@ && r == Err::<(), ProgramError>(ProgramError::InvalidArgument),
{
    let po = d.point_offset as usize;
    let to = d.table_offset as usize;
    if !fits(data.len(), po, 128) || !fits(data.len(), to, TABLE_SIZE) || to < HEADER_SIZE {
        return Err(ProgramError::InvalidArgument);
    }
    let point = EdwardsPoint::from_bytes(&data.as_slice()[po..po + 128]);
    let table = LookupTable::from_point(&point);
    let bytes = table.to_bytes();
    write_at(data, to, bytes.as_slice());
    Ok(())
}

/// Largest number of bytes one `CopyInput` moves.
pub const MAX_COPY_BYTES: usize = 128;

/// Whether an input buffer may be read: its header decodes, names an input
/// buffer, and is finalized.
pub open spec fn input_ready(input: Seq<u8>) -> bool {
    data_header_decodes(input) && input[0] == key_tag(Key::InputBufferV1) && input[33] == 1
}

/// The result of `CopyInput` on the compute body `s`, reading the input
/// buffer `input`: the bytes moved from past the input header to past the
/// compute header; rejected unless the input buffer is a finalized input
/// buffer.
pub open spec fn copy_input_spec(input: Seq<u8>, s: Seq<u8>, d: CopyInputData) -> Option<Seq<u8>> {
    let io = d.input_offset as int;
    let co = d.compute_offset as int;
    let n = d.bytes as int;
    if !(input_ready(input) && n <= MAX_COPY_BYTES && writable(input, io, n) && writable(s, co, n)) {
        None
    } else {
        Some(splice(s, co, input.subrange(io, io + n)))
    }
}

pub fn process_copy_input(input: &[u8], data: &mut Vec<u8>, d: &CopyInputData) -> (r: Result<(), ProgramError>)
    ensures
        r.is_ok() == copy_input_spec(input@, old(data)@, *d).is_some(),
        r.is_ok() ==> final(data)@ == copy_input_spec(input@, old(data)@, *d).unwrap(),
        r.is_err() ==> final(data)@ == old(data)@ && r == Err::<(), ProgramError>(ProgramError::InvalidArgument),
{
    match InputHeader::decode(input) {
        None => {
            return Err(ProgramError::InvalidArgument);
        },
        Some(h) => {
            match h.key {
                Key::InputBufferV1 => {},
                _ => {
                    return Err(ProgramError::InvalidArgument);
                },
            }
            if !h.finalized {
                return Err(ProgramError::InvalidArgument);
            }
        },
    }
    let n = d.bytes as usize;
    let io = d.input_offset as usize;
    let co = d.compute_offset as usize;
    if n > MAX_COPY_BYTES || io < HEADER_SIZE || co < HEADER_SIZE || !fits(input.len(), io, n) || !fits(data.len(), co, n) {
        return Err(ProgramError::InvalidArgument);
    }
    write_at(data, co, &input[io..io + n]);
    Ok(())
}

/// Adds, to `q`, the first `i` points xP selected by digit `j` of each scalar
/// from its table.
pub open spec fn msm_add_row(q: ExtendedValue, tables: Seq<Seq<NielsValue>>, digits: Seq<Seq<i8>>, j: int, i: nat) -> ExtendedValue
    decreases i,
{
    if i == 0 {
        q
    } else {
        completed_to_extended(add_niels(msm_add_row(q, tables, digits, j, (i - 1) as nat), select_value(tables[i - 1], digits[i - 1][j] as int)))
    }
}

/// Double-and-add over the digit positions `[start, end)`, highest first:
/// at each position the accumulator is multiplied by 16, then every
/// point's digit multiple is added.
pub open spec fn msm_range(q: ExtendedValue, tables: Seq<Seq<NielsValue>>, digits: Seq<Seq<i8>>, start: int, end: int) -> ExtendedValue
    decreases end - start,
{
    if end <= start {
        q
    } else {
        msm_add_row(mul_by_pow_2_value(msm_range(q, tables, digits, start + 1, end), 4), tables, digits, start, tables.len())
    }
}

/// The tables of `n` points stored one after another from `at`.
pub open spec fn tables_at(s: Seq<u8>, at: int, n: int) -> Seq<Seq<NielsValue>> {
    Seq::new(n as nat, |i: int| table_decoded(s.subrange(at + TABLE_SIZE * i, at + TABLE_SIZE * i + TABLE_SIZE)))
}

/// The digits of `n` scalars stored one after another from `at`.
pub open spec fn digits_at(s: Seq<u8>, at: int, n: int) -> Seq<Seq<i8>> {
    Seq::new(n as nat, |i: int| scalar_digits(le_nat(s.subrange(at + 32 * i, at + 32 * i + 32))))
}

/// The scalars stored from `at` are below 2^255.
pub open spec fn scalars_bounded(s: Seq<u8>, at: int, n: int) -> bool {
    forall|i: int| 0 <= i < n ==> #[trigger] scalar_top_byte(s, at, i) <= 127
}

/// The last byte of scalar `i` of those stored from `at`.
pub open spec fn scalar_top_byte(s: Seq<u8>, at: int, i: int) -> u8 {
    s[at + 32 * i + 31]
}

/// The result of `MultiscalarMul`: the accumulator at `result_offset` after
/// the digit positions `[start, end)` of `num_inputs` scalars and tables,
/// written back in place; rejected for more than `MAX_MULTISCALAR_POINTS`
/// inputs, a position past the last digit, or a scalar of 2^255 or more.
pub open spec fn multiscalar_mul_spec(s: Seq<u8>, d: MultiscalarMulData) -> Option<Seq<u8>> {
    let n = d.num_inputs as int;
    let so = d.scalars_offset as int;
    let to = d.tables_offset as int;
    let ro = d.result_offset as int;
    if !(n <= MAX_MULTISCALAR_POINTS && d.end <= 64 && readable(s, to, TABLE_SIZE * n) && readable(s, so, 32 * n)
        && writable(s, ro, 128) && scalars_bounded(s, so, n)) {
        None
    } else {
        let q = msm_range(coords_decoded(s.subrange(ro, ro + 128)), tables_at(s, to, n), digits_at(s, so, n), d.start as int, d.end as int);
        Some(splice(s, ro, point_bytes(q)))
    }
}

pub fn process_multiscalar_mul(data: &mut Vec<u8>, d: &MultiscalarMulData) -> (r: Result<(), ProgramError>)
    ensures
        r.is_ok() == multiscalar_mul_spec(old(data)@, *d).is_some(),
        r.is_ok() ==> final(data)@ == multiscalar_mul_spec(old(data)@, *d).unwrap(),
        r.is_err() ==> final(data)@ == old(data)@ && r == Err::<(), ProgramError>(ProgramError::InvalidArgument),
{
    let ghost s = data@;
    let n = d.num_inputs as usize;
    let so = d.scalars_offset as usize;
    let to = d.tables_offset as usize;
    let ro = d.result_offset as usize;
    if n > MAX_MULTISCALAR_POINTS || d.end > 64 {
        return Err(ProgramError::InvalidArgument);
    }
    if !fits(data.len(), to, TABLE_SIZE * n) || !fits(data.len(), so, 32 * n) {
        assert(!(readable(s, to as int, TABLE_SIZE * n) && readable(s, so as int, 32 * n)));
        return Err(ProgramError::InvalidArgument);
    }
    if ro < HEADER_SIZE || !fits(data.len(), ro, 128) {
        return Err(ProgramError::InvalidArgument);
    }
    let dl = data.len();
    let mut i: usize = 0;
    while i < n
        invariant
            s == data@,
            s == old(data)@,
            n == d.num_inputs,
            so == d.scalars_offset,
            dl == s.len(),
            n <= MAX_MULTISCALAR_POINTS,
            so + 32 * n <= s.len(),
            i <= n,
            scalars_bounded(s, so as int, i as int),
        decreases n - i,
    {
        if data[so + 32 * i + 31] > 127 {
            proof {
                assert(scalar_top_byte(s, so as int, i as int) > 127);
                assert(!scalars_bounded(s, so as int, n as int));
            }
            return Err(ProgramError::InvalidArgument);
        }
        i = i + 1;
    }
    let ghost tspec = tables_at(s, to as int, n as int);
    let ghost dspec = digits_at(s, so as int, n as int);
    let mut tables: Vec<LookupTable> = Vec::new();
    let mut digits: Vec<[i8; 64]> = Vec::new();
    let mut i: usize = 0;
    while i < n
        invariant
            s == data@,
            dl == s.len(),
            tspec == tables_at(s, to as int, n as int),
            dspec == digits_at(s, so as int, n as int),
            tspec.len() == n,
            dspec.len() == n,
            n <= MAX_MULTISCALAR_POINTS,
            so + 32 * n <= s.len(),
            to + TABLE_SIZE * n <= s.len(),
            scalars_bounded(s, so as int, n as int),
            i <= n,
            tables@.len() == i,
            digits@.len() == i,
            forall|k: int| 0 <= k < i ==> (#[trigger] tables@[k]).wf() && tables@[k]@ == tspec[k],
            forall|k: int| 0 <= k < i ==> (#[trigger] digits@[k])@ == dspec[k],
            forall|k: int, m: int| 0 <= k < i && 0 <= m < 64 ==> -8 <= #[trigger] digits@[k][m] <= 8,
        decreases n - i,
    {
        let lo = to + TABLE_SIZE * i;
        let sl = &data.as_slice()[lo..lo + TABLE_SIZE];
        assert(sl@ =~= s.subrange(lo as int, lo + TABLE_SIZE));
        let table = LookupTable::from_bytes(sl);
        assert(table@ == table_decoded(s.subrange(lo as int, lo + TABLE_SIZE)));
        assert(tspec[i as int] == table_decoded(s.subrange(to + TABLE_SIZE * i, to + TABLE_SIZE * i + TABLE_SIZE)));
        tables.push(table);
        let bytes = crate::edwards::copy32(data.as_slice(), so + 32 * i);
        let scalar = Scalar { bytes };
        assert(bytes[31] == scalar_top_byte(s, so as int, i as int));
        assert(bytes@ == s.subrange(so + 32 * i, so + 32 * i + 32));
        let ds = scalar.to_radix_16();
        digits.push(ds);
        assert(tables@[i as int]@ == tspec[i as int]);
        assert(digits@[i as int]@ == dspec[i as int]);
        i = i + 1;
    }
    let mut q = EdwardsPoint::from_bytes(&data.as_slice()[ro..ro + 128]);
    let ghost q0 = q@;
    assert(tables@.map_values(|t: LookupTable| t@) =~= tspec);
    assert(multiscalar_mul_spec(s, *d).is_some());
    let mut j: u8 = d.end;
    while j > d.start
        invariant
            multiscalar_mul_spec(s, *d).is_some(),
            s == data@,
            n == tables@.len(),
            n == digits@.len(),
            d.end <= 64,
            j <= d.end,
            tspec.len() == n,
            dspec.len() == n,
            q.wf(),
            forall|k: int| 0 <= k < n ==> (#[trigger] tables@[k]).wf() && tables@[k]@ == tspec[k],
            forall|k: int| 0 <= k < n ==> (#[trigger] digits@[k])@ == dspec[k],
            forall|k: int, m: int| 0 <= k < n && 0 <= m < 64 ==> -8 <= #[trigger] digits@[k][m] <= 8,
            q@ == msm_range(q0, tspec, dspec, j as int, d.end as int),
            d.start <= j || j == d.end,
        decreases j,
    {
        j = j - 1;
        q = q.mul_by_pow_2(4);
        let ghost doubled = q@;
        let mut i: usize = 0;
        while i < n
            invariant
                n == tables@.len(),
                n == digits@.len(),
                j < 64,
                tspec.len() == n,
                dspec.len() == n,
                q.wf(),
                i <= n,
                forall|k: int| 0 <= k < n ==> (#[trigger] tables@[k]).wf() && tables@[k]@ == tspec[k],
                forall|k: int| 0 <= k < n ==> (#[trigger] digits@[k])@ == dspec[k],
                forall|k: int, m: int| 0 <= k < n && 0 <= m < 64 ==> -8 <= #[trigger] digits@[k][m] <= 8,
                q@ == msm_add_row(doubled, tspec, dspec, j as int, i as nat),
            decreases n - i,
        {
            let x = digits[i][j as usize];
            assert(-8 <= digits@[i as int][j as int] <= 8);
            let r_i = tables[i].select(x);
            q = q.add_projective_niels(&r_i).to_extended();
            i = i + 1;
        }
    }
    assert(q@ == msm_range(q0, tspec, dspec, d.start as int, d.end as int));
    write_at(data, ro, &q.to_bytes());
    Ok(())
}

/// The length of the bytes of a list of table entries.
pub proof fn lemma_entries_bytes_len(t: Seq<NielsValue>)
    ensures
        entries_bytes(t).len() == 128 * t.len(),
    decreases t.len(),
{
    if t.len() > 0 {
        lemma_entries_bytes_len(t.drop_last());
        lemma_point_bytes_len(t.last());
    }
}

pub proof fn lemma_point_bytes_len(v: (nat, nat, nat, nat))
    ensures
        point_bytes(v).len() == 128,
{
    crate::encoding::lemma_nat_to_le_len(v.0, 32);
    crate::encoding::lemma_nat_to_le_len(v.1, 32);
    crate::encoding::lemma_nat_to_le_len(v.2, 32);
    crate::encoding::lemma_nat_to_le_len(v.3, 32);
}

/// No step writes into the header, nor changes the buffer's length.
pub proof fn lemma_steps_keep_header(ix: crate::instruction::DSLInstruction, input: Seq<u8>, s: Seq<u8>)
    ensures
        ({
            let r = match ix {
                crate::instruction::DSLInstruction::CopyInput(d) => copy_input_spec(input, s, d),
                crate::instruction::DSLInstruction::DecompressInit(d) => decompress_init_spec(s, d.offset as int),
                crate::instruction::DSLInstruction::InvSqrtInit(d) => invsqrt_init_spec(s, d.offset as int),
                crate::instruction::DSLInstruction::Pow22501P1(d) => pow22501_p1_spec(s, d.offset as int),
                crate::instruction::DSLInstruction::Pow22501P2(d) => pow22501_p2_spec(s, d.offset as int),
                crate::instruction::DSLInstruction::InvSqrtFini(d) => invsqrt_fini_spec(s, d.offset as int),
                crate::instruction::DSLInstruction::DecompressFini(d) => decompress_fini_spec(s, d.offset as int),
                crate::instruction::DSLInstruction::BuildLookupTable(d) => build_lookup_table_spec(s, d),
                crate::instruction::DSLInstruction::MultiscalarMul(d) => multiscalar_mul_spec(s, d),
                crate::instruction::DSLInstruction::ElligatorInit(d) => elligator_init_spec(s, d.offset as int),
                crate::instruction::DSLInstruction::ElligatorFini(d) => elligator_fini_spec(s, d.offset as int),
            };
            r.is_some() ==> r.unwrap().len() == s.len() && forall|k: int| 0 <= k < HEADER_SIZE && k < s.len() ==> #[trigger] r.unwrap()[k] == s[k]
        }),
{
    crate::encoding::lemma_nat_to_le_len(0, 32);
    assert forall|v: nat| #[trigger] fe_bytes(v).len() == 32 by {
        crate::encoding::lemma_nat_to_le_len(v, 32);
    }
    assert forall|v: (nat, nat, nat, nat)| #[trigger] point_bytes(v).len() == 128 by {
        lemma_point_bytes_len(v);
    }
    assert forall|t: Seq<NielsValue>| #[trigger] entries_bytes(t).len() == 128 * t.len() by {
        lemma_entries_bytes_len(t);
    }
    assert forall|at: int, b: Seq<u8>| HEADER_SIZE <= at && at + b.len() <= s.len() implies #[trigger] splice(s, at, b).len() == s.len()
        && forall|k: int| 0 <= k < HEADER_SIZE && k < s.len() ==> #[trigger] splice(s, at, b)[k] == s[k] by {
        lemma_splice_within(s, at, b);
    }
}

} // verus!
