//! Tables of the multiples P, 2P, ..., 8P of a point, from which a signed
//! multiple xP with -8 <= x <= 8 is selected in constant time.

use vstd::prelude::*;
use subtle::ConstantTimeEq;
use crate::edwards::{
    EdwardsPoint, ProjectiveNielsPoint, NielsValue, ExtendedValue, extended_to_niels,
    completed_to_extended, add_niels, neg_niels, niels_identity_value, coords_encoded, coords_decoded,
    point_bytes,
};
use crate::field::{fneg, lemma_fneg_value};

verus! {

/// Number of entries in a table.
pub const TABLE_LEN: usize = 8;

/// Bytes that a table takes in a buffer: eight points of four 32-byte coordinates.
pub const TABLE_SIZE: usize = 1024;

/// Entry `j` of the table of `p`: the precomputed form of (j + 1) P, each
/// entry obtained from the previous one by one mixed addition of P.
pub open spec fn table_entry(p: ExtendedValue, j: nat) -> NielsValue
    decreases j,
{
    if j == 0 {
        extended_to_niels(p)
    } else {
        extended_to_niels(completed_to_extended(add_niels(p, table_entry(p, (j - 1) as nat))))
    }
}

/// What `select(x)` returns of a table: the identity for 0, entry x - 1 for
/// positive x, and the negation of entry -x - 1 for negative x.
pub open spec fn select_value(t: Seq<NielsValue>, x: int) -> NielsValue {
    if x == 0 {
        niels_identity_value()
    } else if x > 0 {
        t[x - 1]
    } else {
        neg_niels(t[-x - 1])
    }
}

/// The bytes of a list of entries: each entry's canonical 128 bytes, in order.
pub open spec fn entries_bytes(t: Seq<NielsValue>) -> Seq<u8>
    decreases t.len(),
{
    if t.len() == 0 {
        Seq::empty()
    } else {
        entries_bytes(t.drop_last()) + point_bytes(t.last())
    }
}

/// The entries that 1024 bytes decode to.
pub open spec fn table_decoded(b: Seq<u8>) -> Seq<NielsValue> {
    Seq::new(TABLE_LEN as nat, |i: int| coords_decoded(b.subrange(128 * i, 128 * i + 128)))
}

/// The table of `p` as a list of entries.
pub open spec fn table_of(p: ExtendedValue) -> Seq<NielsValue> {
    Seq::new(TABLE_LEN as nat, |j: int| table_entry(p, j as nat))
}

/// Relies on subtle's constant-time equality of `u16`.
#[verifier::external_body]
fn u16_ct_eq(a: u16, b: u16) -> (r: bool)
    ensures
        r == (a == b),
{
    a.ct_eq(&b).unwrap_u8() == 1u8
}

/// The multiples P, 2P, ..., 8P of a point, in precomputed form.
pub struct LookupTable {
    pub(crate) points: Vec<ProjectiveNielsPoint>,
}

impl View for LookupTable {
    type V = Seq<NielsValue>;

    closed spec fn view(&self) -> Seq<NielsValue> {
        self.points@.map_values(|q: ProjectiveNielsPoint| q@)
    }
}

impl LookupTable {
    /// Eight well-formed entries.
    pub closed spec fn wf(&self) -> bool {
        &&& self.points@.len() == TABLE_LEN
        &&& forall|i: int| 0 <= i < TABLE_LEN ==> (#[trigger] self.points@[i]).wf()
    }

    pub proof fn lemma_len(&self)
        requires
            self.wf(),
        ensures
            self@.len() == TABLE_LEN,
            forall|i: int| 0 <= i < TABLE_LEN ==> (#[trigger] self@[i]).3 < crate::field::p(),
    {
        assert forall|i: int| 0 <= i < TABLE_LEN implies (#[trigger] self@[i]).3 < crate::field::p() by {
            self.points@[i].T2d.lemma_value_bound();
        }
    }

    /// Builds the table of P: entry j holds (j + 1) P.
    pub fn from_point(p: &EdwardsPoint) -> (r: LookupTable)
        requires
            p.wf(),
        ensures
            r.wf(),
            r@.len() == TABLE_LEN,
            forall|j: int| 0 <= j < TABLE_LEN ==> #[trigger] r@[j] == table_entry(p@, j as nat),
            r@ == table_of(p@),
    {
        let mut points: Vec<ProjectiveNielsPoint> = Vec::new();
        points.push(p.to_projective_niels());
        let mut j: usize = 0;
        while j < TABLE_LEN - 1
            invariant
                j < TABLE_LEN,
                p.wf(),
                points@.len() == j + 1,
                forall|i: int| 0 <= i <= j ==> (#[trigger] points@[i]).wf() && points@[i]@ == table_entry(p@, i as nat),
            decreases TABLE_LEN - 1 - j,
        {
            let next = p.add_projective_niels(&points[j]).to_extended().to_projective_niels();
            points.push(next);
            j = j + 1;
        }
        let r = LookupTable { points };
        assert forall|i: int| 0 <= i < TABLE_LEN implies #[trigger] r@[i] == table_entry(p@, i as nat) by {
            assert(r.points@[i]@ == table_entry(p@, i as nat));
        }
        assert(r@ =~= table_of(p@));
        r
    }

    /// Given -8 <= x <= 8, returns xP in constant time: every entry is
    /// visited, and the match and the sign are applied by masked selection.
    pub fn select(&self, x: i8) -> (r: ProjectiveNielsPoint)
        requires
            self.wf(),
            -8 <= x <= 8,
        ensures
            r.wf(),
            r@ == select_value(self@, x as int),
    {
        let xw: i16 = x as i16;
        let xmask: i16 = xw >> 7u32;
        assert(xmask == (if xw < 0 { -1i16 } else { 0i16 })) by (bit_vector)
            requires
                xmask == xw >> 7u32,
                -8 <= xw <= 8,
        ;
        let sum: i16 = xw + xmask;
        let xabs: i16 = sum ^ xmask;
        assert(xw < 0 ==> sum ^ -1i16 == -sum - 1) by (bit_vector);
        assert(sum ^ 0i16 == sum) by (bit_vector);
        assert(xabs == (if xw < 0 { -xw } else { xw as int }));
        let mut t = ProjectiveNielsPoint::identity();
        let mut j: usize = 1;
        while j <= TABLE_LEN
            invariant
                self.wf(),
                1 <= j <= TABLE_LEN + 1,
                0 <= xabs <= 8,
                t.wf(),
                t@ == (if 1 <= xabs < j { self@[xabs - 1] } else { niels_identity_value() }),
            decreases TABLE_LEN + 1 - j,
        {
            let c = u16_ct_eq(xabs as u16, j as u16);
            t.conditional_assign(&self.points[j - 1], c);
            j = j + 1;
        }
        let neg_mask: bool = (xmask & 1) == 1;
        assert(neg_mask == (xw < 0)) by (bit_vector)
            requires
                xmask == (if xw < 0 { -1i16 } else { 0i16 }),
                neg_mask == ((xmask & 1) == 1),
        ;
        t.conditional_negate(neg_mask);
        t
    }

    /// The 1024-byte form kept in a buffer: each entry's four canonical coordinates.
    pub fn to_bytes(&self) -> (r: Vec<u8>)
        requires
            self.wf(),
        ensures
            r@.len() == TABLE_SIZE,
            forall|i: int| 0 <= i < TABLE_LEN ==> coords_encoded(#[trigger] r@.subrange(128 * i, 128 * i + 128), self@[i]),
            r@ == entries_bytes(self@),
    {
        let mut out: Vec<u8> = Vec::new();
        let mut i: usize = 0;
        while i < TABLE_LEN
            invariant
                self.wf(),
                i <= TABLE_LEN,
                out@.len() == 128 * i,
                out@ == entries_bytes(self@.subrange(0, i as int)),
                forall|k: int| 0 <= k < i ==> coords_encoded(#[trigger] out@.subrange(128 * k, 128 * k + 128), self@[k]),
            decreases TABLE_LEN - i,
        {
            let b = self.points[i].to_bytes();
            let ghost before = out@;
            let mut k: usize = 0;
            while k < 128
                invariant
                    k <= 128,
                    out@.len() == before.len() + k,
                    out@.subrange(0, before.len() as int) == before,
                    forall|m: int| 0 <= m < k ==> out@[before.len() + m] == b@[m],
                decreases 128 - k,
            {
                out.push(b[k]);
                k = k + 1;
            }
            assert(out@.subrange(128 * i, 128 * i + 128) =~= b@);
            assert(out@ =~= before + b@);
            assert(self@.subrange(0, i + 1).drop_last() =~= self@.subrange(0, i as int));
            assert forall|m: int| 0 <= m < i + 1 implies coords_encoded(#[trigger] out@.subrange(128 * m, 128 * m + 128), self@[m]) by {
                if m < i {
                    assert(out@.subrange(128 * m, 128 * m + 128) =~= before.subrange(128 * m, 128 * m + 128));
                }
            }
            i = i + 1;
        }
        assert(self@.subrange(0, TABLE_LEN as int) =~= self@);
        out
    }

    /// Reads a table from its 1024-byte form, decoding each coordinate.
    pub fn from_bytes(bytes: &[u8]) -> (r: LookupTable)
        requires
            bytes@.len() == TABLE_SIZE,
        ensures
            r.wf(),
            forall|i: int| 0 <= i < TABLE_LEN ==> #[trigger] r@[i] == coords_decoded(bytes@.subrange(128 * i, 128 * i + 128)),
            r@ == table_decoded(bytes@),
    {
        let mut points: Vec<ProjectiveNielsPoint> = Vec::new();
        let mut i: usize = 0;
        while i < TABLE_LEN
            invariant
                bytes@.len() == TABLE_SIZE,
                i <= TABLE_LEN,
                points@.len() == i,
                forall|k: int| 0 <= k < i ==> (#[trigger] points@[k]).wf() && points@[k]@ == coords_decoded(bytes@.subrange(128 * k, 128 * k + 128)),
            decreases TABLE_LEN - i,
        {
            let q = ProjectiveNielsPoint::from_bytes(&bytes[128 * i..128 * i + 128]);
            points.push(q);
            i = i + 1;
        }
        let r = LookupTable { points };
        assert forall|k: int| 0 <= k < TABLE_LEN implies #[trigger] r@[k] == coords_decoded(bytes@.subrange(128 * k, 128 * k + 128)) by {
            assert(r.points@[k]@ == coords_decoded(bytes@.subrange(128 * k, 128 * k + 128)));
        }
        assert(r@ =~= table_decoded(bytes@));
        r
    }
}

/// Selecting from a table: zero gives the identity, a negative index gives
/// the negation of the entry at the opposite index, and a positive index k
/// gives entry k - 1, which for a table built from P is the precomputed form
/// of kP.
pub proof fn lemma_select_laws(table: &LookupTable, p: ExtendedValue, x: int)
    requires
        table.wf(),
        -8 <= x <= 8,
        forall|j: int| 0 <= j < TABLE_LEN ==> #[trigger] table@[j] == table_entry(p, j as nat),
    ensures
        select_value(table@, 0) == niels_identity_value(),
        select_value(table@, x) == neg_niels(select_value(table@, -x)),
        1 <= x ==> select_value(table@, x) == table_entry(p, (x - 1) as nat),
{
    table.lemma_len();
    if x > 0 {
        let e = table@[x - 1];
        lemma_fneg_value(e.3);
        lemma_fneg_value(fneg(e.3));
        crate::field::lemma_fneg_bound(e.3);
    } else if x < 0 {
    } else {
        lemma_fneg_value(0);
    }
}

} // verus!
