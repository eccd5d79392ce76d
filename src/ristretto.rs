//! Ristretto point decompression, split in two so that the inverse square
//! root between the halves can be computed by separate steps.

#![allow(non_snake_case)]

use vstd::prelude::*;
use crate::encoding::{le_nat, lemma_le_nat_injective};
use crate::field::{FieldElement, decode_value, fadd, fsub, fmul, fneg, is_negative_value, fabs, edwards_d_value};
use crate::edwards::EdwardsPoint;

verus! {

/// The bytes are the canonical encoding of the field value they decode to.
pub open spec fn is_canonical_encoding(b: Seq<u8>) -> bool {
    le_nat(b) == decode_value(b)
}

/// The encoding is accepted by decompression: canonical and nonnegative.
pub open spec fn decompress_accepts(b: Seq<u8>) -> bool {
    is_canonical_encoding(b) && !is_negative_value(decode_value(b))
}

/// 1 - s^2 (that is 1 + a s^2 with a = -1).
pub open spec fn ristretto_u1(s: nat) -> nat {
    fsub(1, fmul(s, s))
}

/// 1 + s^2 (that is 1 - a s^2 with a = -1).
pub open spec fn ristretto_u2(s: nat) -> nat {
    fadd(1, fmul(s, s))
}

/// v = a d u1^2 - u2^2 with a = -1.
pub open spec fn ristretto_v(s: nat) -> nat {
    fsub(fmul(fneg(edwards_d_value()), fmul(ristretto_u1(s), ristretto_u1(s))), fmul(ristretto_u2(s), ristretto_u2(s)))
}

/// The value whose inverse square root the second half of decompression needs: v u2^2.
pub open spec fn decompress_init_value(s: nat) -> nat {
    fmul(ristretto_v(s), fmul(ristretto_u2(s), ristretto_u2(s)))
}

/// The affine coordinates that the second half computes from s and the
/// inverse square root `inv` of v u2^2: x = |2 s inv u2|, y = u1 inv^2 u2 v.
pub open spec fn decompress_x(s: nat, inv: nat) -> nat {
    fabs(fmul(fadd(s, s), fmul(inv, ristretto_u2(s))))
}

pub open spec fn decompress_y(s: nat, inv: nat) -> nat {
    fmul(ristretto_u1(s), fmul(inv, fmul(fmul(inv, ristretto_u2(s)), ristretto_v(s))))
}

/// The witness is an inverse square root of v u2^2: inv^2 v u2^2 = 1.
pub open spec fn witness_valid(s: nat, inv: nat) -> bool {
    fmul(fmul(inv, inv), decompress_init_value(s)) == 1
}

/// The second half succeeds: the witness is valid, t = x y is nonnegative
/// and y is not zero.
pub open spec fn decompress_fini_accepts(s: nat, inv: nat) -> bool {
    &&& witness_valid(s, inv)
    &&& !is_negative_value(fmul(decompress_x(s, inv), decompress_y(s, inv)))
    &&& decompress_y(s, inv) != 0
}

/// A Ristretto point in compressed form: 32 bytes.
#[derive(Clone, Copy)]
pub struct CompressedRistretto(pub [u8; 32]);

/// A Ristretto point, held as one representative Edwards point of its class.
#[derive(Clone, Copy)]
pub struct RistrettoPoint(pub EdwardsPoint);

/// The field element s of an encoding, and whether it is canonical and nonnegative.
fn decode_s(bytes: &[u8; 32]) -> (r: (bool, FieldElement))
    ensures
        r.1.wf(),
        r.1.value() == decode_value(bytes@),
        r.0 == decompress_accepts(bytes@),
{
    let s = FieldElement::from_bytes(bytes);
    let s_bytes_check = s.to_bytes();
    let canonical = crate::field::bytes_ct_eq(&s_bytes_check, bytes);
    proof {
        if is_canonical_encoding(bytes@) {
            lemma_le_nat_injective(s_bytes_check@, bytes@);
        }
    }
    let negative = s.is_negative();
    proof {
        s.lemma_value_bound();
        vstd::arithmetic::div_mod::lemma_small_mod(s.value(), crate::field::p());
    }
    (canonical && !negative, s)
}

/// The values u1, u2 and v of the decompression formulas.
fn decompress_terms(s: &FieldElement) -> (r: (FieldElement, FieldElement, FieldElement))
    requires
        s.wf(),
    ensures
        r.0.wf(),
        r.1.wf(),
        r.2.wf(),
        r.0.value() == ristretto_u1(s.value()),
        r.1.value() == ristretto_u2(s.value()),
        r.2.value() == ristretto_v(s.value()),
{
    let one = FieldElement::one();
    let ss = s.square();
    let u1 = one.sub(&ss);
    let u2 = one.add(&ss);
    let u2_sqr = u2.square();
    let v = FieldElement::edwards_d().neg().mul(&u1.square()).sub(&u2_sqr);
    (u1, u2, v)
}

impl Default for CompressedRistretto {
    /// The encoding of the identity: 32 zero bytes.
    fn default() -> (r: CompressedRistretto)
        ensures
            r.0@ == Seq::new(32, |i: int| 0u8),
    {
        CompressedRistretto::identity()
    }
}

impl CompressedRistretto {
    /// The encoding of the identity: 32 zero bytes.
    pub fn identity() -> (r: CompressedRistretto)
        ensures
            r.0@ == Seq::new(32, |i: int| 0u8),
    {
        let r = CompressedRistretto([0u8; 32]);
        assert(r.0@ =~= Seq::new(32, |i: int| 0u8));
        r
    }

    /// Equality of encodings, in constant time.
    pub fn ct_eq(&self, other: &CompressedRistretto) -> (r: bool)
        ensures
            r == (self.0@ == other.0@),
    {
        crate::field::bytes_ct_eq(&self.0, &other.0)
    }

    pub fn to_bytes(&self) -> (r: [u8; 32])
        ensures
            r == self.0,
    {
        self.0
    }

    pub fn as_bytes(&self) -> (r: &[u8; 32])
        ensures
            *r == self.0,
    {
        &self.0
    }

    /// Copies a 32-byte slice.
    pub fn from_slice(bytes: &[u8]) -> (r: CompressedRistretto)
        requires
            bytes@.len() == 32,
        ensures
            r.0@ == bytes@,
    {
        let a = crate::edwards::copy32(bytes, 0);
        assert(a@ =~= bytes@);
        CompressedRistretto(a)
    }

    /// First half of decompression: rejects a non-canonical or negative s,
    /// and otherwise returns v u2^2, whose inverse square root the second
    /// half takes as its witness.
    pub fn decompress_init(&self) -> (r: Option<FieldElement>)
        ensures
            r.is_some() == decompress_accepts(self.0@),
            r.is_some() ==> r.unwrap().wf() && r.unwrap().value() == decompress_init_value(decode_value(self.0@)),
    {
        let (ok, s) = decode_s(&self.0);
        if !ok {
            return None;
        }
        let (_u1, u2, v) = decompress_terms(&s);
        Some(v.mul(&u2.square()))
    }

    /// Second half of decompression: from s and the witness `I` (the inverse
    /// square root of v u2^2), computes (x : y : 1 : x y), rejecting when
    /// the encoding is not accepted, when `I^2 v u2^2` is not 1, when x y is
    /// negative or when y is zero.
    pub fn decompress_fini(&self, I: &FieldElement) -> (r: Option<RistrettoPoint>)
        requires
            I.wf(),
        ensures
            r.is_some() == (decompress_accepts(self.0@) && decompress_fini_accepts(decode_value(self.0@), I.value())),
            r.is_some() ==> ({
                let s = decode_value(self.0@);
                let x = decompress_x(s, I.value());
                let y = decompress_y(s, I.value());
                &&& r.unwrap().0.wf()
                &&& r.unwrap().0@ == (x, y, 1nat, fmul(x, y))
            }),
    {
        let (ok, s) = decode_s(&self.0);
        if !ok {
            return None;
        }
        let (u1, u2, v) = decompress_terms(&s);
        let one = FieldElement::one();
        let witness_check = I.square().mul(&v.mul(&u2.square()));
        if !witness_check.ct_eq(&one) {
            return None;
        }
        let Dx = I.mul(&u2);
        let Dy = I.mul(&Dx.mul(&v));
        let mut x = s.add(&s).mul(&Dx);
        let x_neg = x.is_negative();
        x.conditional_negate(x_neg);
        proof {
            let xv = fmul(fadd(s.value(), s.value()), fmul(I.value(), ristretto_u2(s.value())));
            crate::field::lemma_fabs_nonnegative(xv);
        }
        let y = u1.mul(&Dy);
        let t = x.mul(&y);
        if t.is_negative() || y.is_zero() {
            None
        } else {
            Some(RistrettoPoint(EdwardsPoint { X: x, Y: y, Z: one, T: t }))
        }
    }
}

} // verus!
