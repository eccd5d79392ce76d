//! Points of the twisted Edwards form of Curve25519 in the coordinate systems
//! that the scalar-multiplication steps move between, with the conversion,
//! doubling, addition and negation formulas stated over coordinate values.

#![allow(non_snake_case)]

use vstd::prelude::*;
use crate::field::{FieldElement, fadd, fsub, fmul, fneg, edwards_d2_value};
use crate::encoding::le_nat;

verus! {

/// Coordinate values of an extended point (X:Y:Z:T) with x = X/Z, y = Y/Z, xy = T/Z.
pub type ExtendedValue = (nat, nat, nat, nat);

/// Coordinate values of a projective point (X:Y:Z).
pub type ProjectiveValue = (nat, nat, nat);

/// Coordinate values of a completed point ((X:Z), (Y:T)).
pub type CompletedValue = (nat, nat, nat, nat);

/// Coordinate values of a precomputed point (Y+X, Y-X, Z, 2dXY).
pub type NielsValue = (nat, nat, nat, nat);

pub open spec fn identity_value() -> ExtendedValue {
    (0, 1, 1, 0)
}

pub open spec fn niels_identity_value() -> NielsValue {
    (1, 1, 1, 0)
}

pub open spec fn extended_to_niels(e: ExtendedValue) -> NielsValue {
    (fadd(e.1, e.0), fsub(e.1, e.0), e.2, fmul(e.3, edwards_d2_value()))
}

pub open spec fn extended_to_projective(e: ExtendedValue) -> ProjectiveValue {
    (e.0, e.1, e.2)
}

pub open spec fn completed_to_projective(c: CompletedValue) -> ProjectiveValue {
    (fmul(c.0, c.3), fmul(c.1, c.2), fmul(c.2, c.3))
}

pub open spec fn completed_to_extended(c: CompletedValue) -> ExtendedValue {
    (fmul(c.0, c.3), fmul(c.1, c.2), fmul(c.2, c.3), fmul(c.0, c.1))
}

pub open spec fn projective_to_extended(q: ProjectiveValue) -> ExtendedValue {
    (fmul(q.0, q.2), fmul(q.1, q.2), fmul(q.2, q.2), fmul(q.0, q.1))
}

/// The doubling formula, from projective to completed coordinates.
pub open spec fn projective_double(q: ProjectiveValue) -> CompletedValue {
    let xx = fmul(q.0, q.0);
    let yy = fmul(q.1, q.1);
    let zz2 = fadd(fmul(q.2, q.2), fmul(q.2, q.2));
    let x_plus_y = fadd(q.0, q.1);
    let x_plus_y_sq = fmul(x_plus_y, x_plus_y);
    let yy_plus_xx = fadd(yy, xx);
    let yy_minus_xx = fsub(yy, xx);
    (fsub(x_plus_y_sq, yy_plus_xx), yy_plus_xx, yy_minus_xx, fsub(zz2, yy_minus_xx))
}

/// The mixed addition formula: an extended point plus a precomputed point.
pub open spec fn add_niels(e: ExtendedValue, n: NielsValue) -> CompletedValue {
    let pp = fmul(fadd(e.1, e.0), n.0);
    let mm = fmul(fsub(e.1, e.0), n.1);
    let tt2d = fmul(e.3, n.3);
    let zz = fmul(e.2, n.2);
    let zz2 = fadd(zz, zz);
    (fsub(pp, mm), fadd(pp, mm), fadd(zz2, tt2d), fsub(zz2, tt2d))
}

pub open spec fn neg_niels(n: NielsValue) -> NielsValue {
    (n.1, n.0, n.2, fneg(n.3))
}

pub open spec fn neg_extended(e: ExtendedValue) -> ExtendedValue {
    (fneg(e.0), e.1, e.2, fneg(e.3))
}

/// `n` doublings in projective coordinates.
pub open spec fn repeated_double(q: ProjectiveValue, n: nat) -> ProjectiveValue
    decreases n,
{
    if n == 0 {
        q
    } else {
        completed_to_projective(projective_double(repeated_double(q, (n - 1) as nat)))
    }
}

/// 2^k times a point by successive doublings (k > 0).
pub open spec fn mul_by_pow_2_value(e: ExtendedValue, k: nat) -> ExtendedValue {
    completed_to_extended(projective_double(repeated_double(extended_to_projective(e), (k - 1) as nat)))
}

/// The 128-byte encoding of four coordinate values: each one's canonical 32 bytes.
pub open spec fn coords_encoded(b: Seq<u8>, v: (nat, nat, nat, nat)) -> bool {
    &&& b.len() == 128
    &&& le_nat(b.subrange(0, 32)) == v.0
    &&& le_nat(b.subrange(32, 64)) == v.1
    &&& le_nat(b.subrange(64, 96)) == v.2
    &&& le_nat(b.subrange(96, 128)) == v.3
}

/// The canonical 128-byte encoding of four coordinate values.
pub open spec fn point_bytes(v: (nat, nat, nat, nat)) -> Seq<u8> {
    crate::field::fe_bytes(v.0) + crate::field::fe_bytes(v.1) + crate::field::fe_bytes(v.2) + crate::field::fe_bytes(v.3)
}

/// The coordinate values that 128 bytes decode to.
pub open spec fn coords_decoded(b: Seq<u8>) -> (nat, nat, nat, nat) {
    (
        crate::field::decode_value(b.subrange(0, 32)),
        crate::field::decode_value(b.subrange(32, 64)),
        crate::field::decode_value(b.subrange(64, 96)),
        crate::field::decode_value(b.subrange(96, 128)),
    )
}

/// A point on the Edwards form of Curve25519 in extended coordinates.
#[derive(Clone, Copy)]
pub struct EdwardsPoint {
    pub X: FieldElement,
    pub Y: FieldElement,
    pub Z: FieldElement,
    pub T: FieldElement,
}

/// A precomputed point (Y+X, Y-X, Z, 2dXY), ready for mixed addition.
#[derive(Clone, Copy)]
pub struct ProjectiveNielsPoint {
    pub Y_plus_X: FieldElement,
    pub Y_minus_X: FieldElement,
    pub Z: FieldElement,
    pub T2d: FieldElement,
}

/// A point (X:Y:Z) of the projective model.
#[derive(Clone, Copy)]
pub struct ProjectivePoint {
    pub X: FieldElement,
    pub Y: FieldElement,
    pub Z: FieldElement,
}

/// A point ((X:Z), (Y:T)) of the P^1 x P^1 model, as addition and doubling produce it.
#[derive(Clone, Copy)]
pub struct CompletedPoint {
    pub X: FieldElement,
    pub Y: FieldElement,
    pub Z: FieldElement,
    pub T: FieldElement,
}

impl View for EdwardsPoint {
    type V = ExtendedValue;

    open spec fn view(&self) -> ExtendedValue {
        (self.X.value(), self.Y.value(), self.Z.value(), self.T.value())
    }
}

impl View for ProjectiveNielsPoint {
    type V = NielsValue;

    open spec fn view(&self) -> NielsValue {
        (self.Y_plus_X.value(), self.Y_minus_X.value(), self.Z.value(), self.T2d.value())
    }
}

impl View for ProjectivePoint {
    type V = ProjectiveValue;

    open spec fn view(&self) -> ProjectiveValue {
        (self.X.value(), self.Y.value(), self.Z.value())
    }
}

impl View for CompletedPoint {
    type V = CompletedValue;

    open spec fn view(&self) -> CompletedValue {
        (self.X.value(), self.Y.value(), self.Z.value(), self.T.value())
    }
}

impl EdwardsPoint {
    pub open spec fn wf(&self) -> bool {
        self.X.wf() && self.Y.wf() && self.Z.wf() && self.T.wf()
    }

    /// The neutral element (0:1:1:0).
    pub fn identity() -> (r: EdwardsPoint)
        ensures
            r.wf(),
            r@ == identity_value(),
    {
        EdwardsPoint {
            X: FieldElement::zero(),
            Y: FieldElement::one(),
            Z: FieldElement::one(),
            T: FieldElement::zero(),
        }
    }

    pub fn to_projective_niels(&self) -> (r: ProjectiveNielsPoint)
        requires
            self.wf(),
        ensures
            r.wf(),
            r@ == extended_to_niels(self@),
    {
        ProjectiveNielsPoint {
            Y_plus_X: self.Y.add(&self.X),
            Y_minus_X: self.Y.sub(&self.X),
            Z: self.Z,
            T2d: self.T.mul(&FieldElement::edwards_d2()),
        }
    }

    pub fn to_projective(&self) -> (r: ProjectivePoint)
        requires
            self.wf(),
        ensures
            r.wf(),
            r@ == extended_to_projective(self@),
    {
        ProjectivePoint { X: self.X, Y: self.Y, Z: self.Z }
    }

    /// Multiplies by the cofactor 8: three doublings.
    pub fn mul_by_cofactor(&self) -> (r: EdwardsPoint)
        requires
            self.wf(),
        ensures
            r.wf(),
            r@ == mul_by_pow_2_value(self@, 3),
    {
        self.mul_by_pow_2(3)
    }

    /// 2^k times the point, by successive doublings.
    pub fn mul_by_pow_2(&self, k: u32) -> (r: EdwardsPoint)
        requires
            self.wf(),
            k > 0,
        ensures
            r.wf(),
            r@ == mul_by_pow_2_value(self@, k as nat),
    {
        let mut s = self.to_projective();
        let mut i: u32 = 0;
        while i < k - 1
            invariant
                0 < k,
                i <= k - 1,
                s.wf(),
                s@ == repeated_double(extended_to_projective(self@), i as nat),
            decreases k - 1 - i,
        {
            let r = s.double();
            s = r.to_projective();
            i = i + 1;
        }
        s.double().to_extended()
    }

    pub fn neg(&self) -> (r: EdwardsPoint)
        requires
            self.wf(),
        ensures
            r.wf(),
            r@ == neg_extended(self@),
    {
        EdwardsPoint { X: self.X.neg(), Y: self.Y, Z: self.Z, T: self.T.neg() }
    }

    /// The sum with a precomputed point, in completed coordinates.
    pub fn add_projective_niels(&self, other: &ProjectiveNielsPoint) -> (r: CompletedPoint)
        requires
            self.wf(),
            other.wf(),
        ensures
            r.wf(),
            r@ == add_niels(self@, other@),
    {
        let Y_plus_X = self.Y.add(&self.X);
        let Y_minus_X = self.Y.sub(&self.X);
        let PP = Y_plus_X.mul(&other.Y_plus_X);
        let MM = Y_minus_X.mul(&other.Y_minus_X);
        let TT2d = self.T.mul(&other.T2d);
        let ZZ = self.Z.mul(&other.Z);
        let ZZ2 = ZZ.add(&ZZ);
        CompletedPoint {
            X: PP.sub(&MM),
            Y: PP.add(&MM),
            Z: ZZ2.add(&TT2d),
            T: ZZ2.sub(&TT2d),
        }
    }

    /// Reads four 32-byte coordinates, each decoded as a field element.
    pub fn from_bytes(bytes: &[u8]) -> (r: EdwardsPoint)
        requires
            bytes@.len() == 128,
        ensures
            r.wf(),
            r@ == coords_decoded(bytes@),
    {
        let X = FieldElement::from_bytes(&copy32(bytes, 0));
        let Y = FieldElement::from_bytes(&copy32(bytes, 32));
        let Z = FieldElement::from_bytes(&copy32(bytes, 64));
        let T = FieldElement::from_bytes(&copy32(bytes, 96));
        EdwardsPoint { X, Y, Z, T }
    }

    /// The four canonical 32-byte coordinates.
    pub fn to_bytes(&self) -> (r: [u8; 128])
        requires
            self.wf(),
        ensures
            coords_encoded(r@, self@),
            r@ == point_bytes(self@),
    {
        join128(&self.X.to_bytes(), &self.Y.to_bytes(), &self.Z.to_bytes(), &self.T.to_bytes())
    }
}

/// Copies `bytes[at..at + 32]`.
pub fn copy32(bytes: &[u8], at: usize) -> (r: [u8; 32])
    requires
        at + 32 <= bytes@.len(),
    ensures
        r@ == bytes@.subrange(at as int, at + 32),
{
    let mut r = [0u8; 32];
    let n = bytes.len();
    let mut i: usize = 0;
    while i < 32
        invariant
            n == bytes@.len(),
            at + 32 <= bytes@.len(),
            i <= 32,
            forall|j: int| 0 <= j < i ==> r[j] == bytes@[at + j],
        decreases 32 - i,
    {
        r[i] = bytes[at + i];
        i = i + 1;
    }
    assert(r@ =~= bytes@.subrange(at as int, at + 32));
    r
}

/// Concatenates four 32-byte strings.
pub fn join128(a: &[u8; 32], b: &[u8; 32], c: &[u8; 32], d: &[u8; 32]) -> (r: [u8; 128])
    ensures
        r@.subrange(0, 32) == a@,
        r@.subrange(32, 64) == b@,
        r@.subrange(64, 96) == c@,
        r@.subrange(96, 128) == d@,
        r@ == a@ + b@ + c@ + d@,
{
    let mut r = [0u8; 128];
    let mut i: usize = 0;
    while i < 32
        invariant
            i <= 32,
            forall|j: int| 0 <= j < i ==> r[j] == a[j] && r[32 + j] == b[j] && r[64 + j] == c[j] && r[96 + j] == d[j],
        decreases 32 - i,
    {
        r[i] = a[i];
        r[32 + i] = b[i];
        r[64 + i] = c[i];
        r[96 + i] = d[i];
        i = i + 1;
    }
    assert(r@.subrange(0, 32) =~= a@);
    assert(r@.subrange(32, 64) =~= b@);
    assert(r@.subrange(64, 96) =~= c@);
    assert(r@.subrange(96, 128) =~= d@);
    assert(r@ =~= a@ + b@ + c@ + d@);
    r
}

impl ProjectiveNielsPoint {
    pub open spec fn wf(&self) -> bool {
        self.Y_plus_X.wf() && self.Y_minus_X.wf() && self.Z.wf() && self.T2d.wf()
    }

    /// The neutral element (1, 1, 1, 0).
    pub fn identity() -> (r: ProjectiveNielsPoint)
        ensures
            r.wf(),
            r@ == niels_identity_value(),
    {
        ProjectiveNielsPoint {
            Y_plus_X: FieldElement::one(),
            Y_minus_X: FieldElement::one(),
            Z: FieldElement::one(),
            T2d: FieldElement::zero(),
        }
    }

    pub fn neg(&self) -> (r: ProjectiveNielsPoint)
        requires
            self.wf(),
        ensures
            r.wf(),
            r@ == neg_niels(self@),
    {
        ProjectiveNielsPoint { Y_plus_X: self.Y_minus_X, Y_minus_X: self.Y_plus_X, Z: self.Z, T2d: self.T2d.neg() }
    }

    /// Replaces `self` by `other` when `choice` holds, in constant time.
    pub fn conditional_assign(&mut self, other: &ProjectiveNielsPoint, choice: bool)
        requires
            old(self).wf(),
            other.wf(),
        ensures
            *final(self) == (if choice { *other } else { *old(self) }),
    {
        self.Y_plus_X.conditional_assign(&other.Y_plus_X, choice);
        self.Y_minus_X.conditional_assign(&other.Y_minus_X, choice);
        self.Z.conditional_assign(&other.Z, choice);
        self.T2d.conditional_assign(&other.T2d, choice);
    }

    /// Negates `self` when `choice` holds, in constant time.
    pub fn conditional_negate(&mut self, choice: bool)
        requires
            old(self).wf(),
        ensures
            final(self).wf(),
            final(self)@ == (if choice { neg_niels(old(self)@) } else { old(self)@ }),
    {
        let n = self.neg();
        self.conditional_assign(&n, choice);
    }

    /// Reads four 32-byte coordinates, each decoded as a field element.
    pub fn from_bytes(bytes: &[u8]) -> (r: ProjectiveNielsPoint)
        requires
            bytes@.len() == 128,
        ensures
            r.wf(),
            r@ == coords_decoded(bytes@),
    {
        let Y_plus_X = FieldElement::from_bytes(&copy32(bytes, 0));
        let Y_minus_X = FieldElement::from_bytes(&copy32(bytes, 32));
        let Z = FieldElement::from_bytes(&copy32(bytes, 64));
        let T2d = FieldElement::from_bytes(&copy32(bytes, 96));
        ProjectiveNielsPoint { Y_plus_X, Y_minus_X, Z, T2d }
    }

    /// The four canonical 32-byte coordinates.
    pub fn to_bytes(&self) -> (r: [u8; 128])
        requires
            self.wf(),
        ensures
            coords_encoded(r@, self@),
            r@ == point_bytes(self@),
    {
        join128(&self.Y_plus_X.to_bytes(), &self.Y_minus_X.to_bytes(), &self.Z.to_bytes(), &self.T2d.to_bytes())
    }
}

impl Default for ProjectiveNielsPoint {
    /// The identity.
    fn default() -> (r: ProjectiveNielsPoint)
        ensures
            r.wf(),
            r@ == niels_identity_value(),
    {
        ProjectiveNielsPoint::identity()
    }
}

impl CompletedPoint {
    pub open spec fn wf(&self) -> bool {
        self.X.wf() && self.Y.wf() && self.Z.wf() && self.T.wf()
    }

    pub fn to_projective(&self) -> (r: ProjectivePoint)
        requires
            self.wf(),
        ensures
            r.wf(),
            r@ == completed_to_projective(self@),
    {
        ProjectivePoint { X: self.X.mul(&self.T), Y: self.Y.mul(&self.Z), Z: self.Z.mul(&self.T) }
    }

    pub fn to_extended(&self) -> (r: EdwardsPoint)
        requires
            self.wf(),
        ensures
            r.wf(),
            r@ == completed_to_extended(self@),
    {
        EdwardsPoint {
            X: self.X.mul(&self.T),
            Y: self.Y.mul(&self.Z),
            Z: self.Z.mul(&self.T),
            T: self.X.mul(&self.Y),
        }
    }
}

impl ProjectivePoint {
    pub open spec fn wf(&self) -> bool {
        self.X.wf() && self.Y.wf() && self.Z.wf()
    }

    pub fn to_extended(&self) -> (r: EdwardsPoint)
        requires
            self.wf(),
        ensures
            r.wf(),
            r@ == projective_to_extended(self@),
    {
        EdwardsPoint { X: self.X.mul(&self.Z), Y: self.Y.mul(&self.Z), Z: self.Z.square(), T: self.X.mul(&self.Y) }
    }

    /// Doubles the point, giving completed coordinates.
    pub fn double(&self) -> (r: CompletedPoint)
        requires
            self.wf(),
        ensures
            r.wf(),
            r@ == projective_double(self@),
    {
        let XX = self.X.square();
        let YY = self.Y.square();
        let ZZ2 = self.Z.square2();
        let X_plus_Y = self.X.add(&self.Y);
        let X_plus_Y_sq = X_plus_Y.square();
        let YY_plus_XX = YY.add(&XX);
        let YY_minus_XX = YY.sub(&XX);
        CompletedPoint {
            X: X_plus_Y_sq.sub(&YY_plus_XX),
            Y: YY_plus_XX,
            Z: YY_minus_XX,
            T: ZZ2.sub(&YY_minus_XX),
        }
    }
}

} // verus!
