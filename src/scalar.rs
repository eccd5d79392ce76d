//! Scalars: integers modulo the group order l, held as 32 little-endian bytes.
//!
//! Reduction and inversion modulo l come from curve25519-dalek; the radix-16
//! recoding that the windowed multiplication consumes is proved here.

use vstd::prelude::*;
use crate::encoding::{le_nat, lemma_le_nat_injective};

verus! {

/// The group order l = 2^252 + 27742317777372353535851937790883648493.
pub open spec fn group_order() -> nat {
    (85070591730234615865843651857942052864 * 85070591730234615865843651857942052864
        + 27742317777372353535851937790883648493) as nat
}

/// The integer that signed base-16 digits denote, least significant first.
pub open spec fn radix16_value(d: Seq<i8>) -> int
    decreases d.len(),
{
    if d.len() == 0 {
        0
    } else {
        d[0] as int + 16 * radix16_value(d.drop_first())
    }
}

/// Balanced base-16 digits of `v`: 64 of them, the first 63 in [-8, 8), the
/// last in [-8, 8], denoting `v`.
pub open spec fn radix16_ok(d: Seq<i8>, v: nat) -> bool {
    &&& d.len() == 64
    &&& forall|i: int| 0 <= i < 63 ==> -8 <= #[trigger] d[i] < 8
    &&& -8 <= d[63] <= 8
    &&& radix16_value(d) == v
}

/// The balanced base-16 digits of `v` (unique, see `lemma_radix16_unique`).
pub open spec fn scalar_digits(v: nat) -> Seq<i8> {
    choose|d: Seq<i8>| radix16_ok(d, v)
}

/// Balanced digits are unique: two digit strings of one length, all digits
/// but the last in [-8, 8), with the same value, are equal.
pub proof fn lemma_radix16_unique(d: Seq<i8>, e: Seq<i8>)
    requires
        d.len() == e.len(),
        d.len() >= 1,
        forall|i: int| 0 <= i < d.len() - 1 ==> -8 <= #[trigger] d[i] < 8,
        forall|i: int| 0 <= i < e.len() - 1 ==> -8 <= #[trigger] e[i] < 8,
        radix16_value(d) == radix16_value(e),
    ensures
        d == e,
    decreases d.len(),
{
    let rd = radix16_value(d.drop_first());
    let re = radix16_value(e.drop_first());
    if d.len() == 1 {
        assert(d.drop_first().len() == 0);
        assert(e.drop_first().len() == 0);
        assert(d =~= e);
    } else {
        assert(d[0] == e[0] && rd == re) by (nonlinear_arith)
            requires
                d[0] + 16 * rd == e[0] + 16 * re,
                -8 <= d[0] < 8,
                -8 <= e[0] < 8,
        ;
        assert forall|i: int| 0 <= i < d.drop_first().len() - 1 implies -8 <= #[trigger] d.drop_first()[i] < 8 by {
            assert(d.drop_first()[i] == d[i + 1]);
        }
        assert forall|i: int| 0 <= i < e.drop_first().len() - 1 implies -8 <= #[trigger] e.drop_first()[i] < 8 by {
            assert(e.drop_first()[i] == e[i + 1]);
        }
        lemma_radix16_unique(d.drop_first(), e.drop_first());
        assert forall|i: int| 0 <= i < d.len() implies d[i] == e[i] by {
            if i > 0 {
                assert(d[i] == d.drop_first()[i - 1]);
                assert(e[i] == e.drop_first()[i - 1]);
            }
        }
        assert(d =~= e);
    }
}

/// Relies on Scalar::from_bytes_mod_order of curve25519-dalek: a 256-bit
/// little-endian integer reduced modulo l, as its canonical bytes.
#[verifier::external_body]
fn bytes_mod_order(bytes: [u8; 32]) -> (r: [u8; 32])
    ensures
        le_nat(r@) == le_nat(bytes@) % group_order(),
{
    curve25519_dalek::scalar::Scalar::from_bytes_mod_order(bytes).to_bytes()
}

/// Relies on Scalar::from_bytes_mod_order_wide of curve25519-dalek: a 512-bit
/// little-endian integer reduced modulo l, as its canonical bytes.
#[verifier::external_body]
fn wide_bytes_mod_order(input: &[u8; 64]) -> (r: [u8; 32])
    ensures
        le_nat(r@) == le_nat(input@) % group_order(),
{
    curve25519_dalek::scalar::Scalar::from_bytes_mod_order_wide(input).to_bytes()
}

/// Relies on Scalar::invert of curve25519-dalek: the multiplicative inverse
/// modulo l of a scalar that is nonzero modulo l, packed from a reduced
/// (Montgomery-reduced) value, so below l.
#[verifier::external_body]
fn bytes_invert(bytes: [u8; 32]) -> (r: [u8; 32])
    requires
        bytes[31] <= 127,
    ensures
        le_nat(r@) < group_order(),
        le_nat(bytes@) % group_order() != 0 ==> (le_nat(r@) * le_nat(bytes@)) % group_order() == 1,
{
    curve25519_dalek::scalar::Scalar::from_bits(bytes).invert().to_bytes()
}

/// An integer below 2^255 standing for its class modulo l.
#[derive(Clone, Copy)]
pub struct Scalar {
    pub bytes: [u8; 32],
}

impl Scalar {
    /// The integer the bytes denote.
    pub open spec fn value(&self) -> nat {
        le_nat(self.bytes@)
    }

    /// Reduces a 256-bit little-endian integer modulo l.
    pub fn from_bytes_mod_order(bytes: [u8; 32]) -> (r: Scalar)
        ensures
            r.value() == le_nat(bytes@) % group_order(),
    {
        Scalar { bytes: bytes_mod_order(bytes) }
    }

    /// Reduces a 512-bit little-endian integer modulo l.
    pub fn from_bytes_mod_order_wide(input: &[u8; 64]) -> (r: Scalar)
        ensures
            r.value() == le_nat(input@) % group_order(),
    {
        Scalar { bytes: wide_bytes_mod_order(input) }
    }

    /// The scalar whose bytes are `bytes`, when they are the canonical
    /// (fully reduced) encoding of an integer modulo l.
    pub fn from_canonical_bytes(bytes: [u8; 32]) -> (r: Option<Scalar>)
        ensures
            r.is_some() == (le_nat(bytes@) < group_order()),
            r.is_some() ==> r.unwrap().bytes == bytes,
    {
        let b31: u8 = bytes[31];
        let top: u8 = b31 >> 7u32;
        proof {
            crate::encoding::lemma_le_nat_top(bytes@);
        }
        if top != 0u8 {
            assert(b31 >= 128) by (bit_vector)
                requires
                    top == b31 >> 7u32,
                    top != 0,
            ;
            proof {
                reveal_with_fuel(vstd::arithmetic::power::pow, 32);
                assert(128 * vstd::arithmetic::power::pow(256, 31) > group_order());
            }
            return None;
        }
        assert(b31 & 0x7f == b31) by (bit_vector)
            requires
                top == b31 >> 7u32,
                top == 0,
        ;
        let candidate = Scalar::from_bits(bytes);
        assert(candidate.bytes@ =~= bytes@);
        if candidate.is_canonical() {
            Some(candidate)
        } else {
            None
        }
    }

    /// The scalar with the low 255 bits of `bytes`: the top bit is cleared.
    pub fn from_bits(bytes: [u8; 32]) -> (r: Scalar)
        ensures
            r.bytes@ == bytes@.update(31, bytes[31] & 0x7f),
            r.bytes[31] <= 127,
    {
        let mut s = Scalar { bytes };
        let b31: u8 = bytes[31];
        let top: u8 = b31 & 0x7f;
        assert(top <= 127) by (bit_vector)
            requires
                top == b31 & 0x7f,
        ;
        s.bytes[31] = top;
        assert(s.bytes@ =~= bytes@.update(31, bytes[31] & 0x7f));
        s
    }

    pub fn to_bytes(&self) -> (r: [u8; 32])
        ensures
            r == self.bytes,
    {
        self.bytes
    }

    pub fn as_bytes(&self) -> (r: &[u8; 32])
        ensures
            *r == self.bytes,
    {
        &self.bytes
    }

    pub fn zero() -> (r: Scalar)
        ensures
            r.value() == 0,
            forall|i: int| 0 <= i < 32 ==> r.bytes[i] == 0,
    {
        let r = Scalar { bytes: [0u8; 32] };
        proof {
            crate::encoding::lemma_le_nat_zero(r.bytes@);
        }
        r
    }

    pub fn one() -> (r: Scalar)
        ensures
            r.value() == 1,
            r.bytes[0] == 1,
            forall|i: int| 1 <= i < 32 ==> r.bytes[i] == 0,
    {
        let mut bytes = [0u8; 32];
        bytes[0] = 1;
        proof {
            let s = bytes@;
            crate::encoding::lemma_le_nat_zero(s.drop_first());
            assert forall|i: int| 0 <= i < s.drop_first().len() implies s.drop_first()[i] == 0 by {
                assert(s.drop_first()[i] == s[i + 1]);
            }
        }
        Scalar { bytes }
    }

    /// Equality of the bytes, in constant time.
    pub fn ct_eq(&self, other: &Scalar) -> (r: bool)
        ensures
            r == (self.bytes@ == other.bytes@),
    {
        crate::field::bytes_ct_eq(&self.bytes, &other.bytes)
    }

    /// The inverse modulo l; of a scalar that is zero modulo l nothing is promised.
    pub fn invert(&self) -> (r: Scalar)
        requires
            self.bytes[31] <= 127,
        ensures
            r.value() < group_order(),
            self.value() % group_order() != 0 ==> (r.value() * self.value()) % group_order() == 1,
    {
        Scalar { bytes: bytes_invert(self.bytes) }
    }

    /// The canonical representative modulo l.
    pub fn reduce(&self) -> (r: Scalar)
        ensures
            r.value() == self.value() % group_order(),
    {
        Scalar { bytes: bytes_mod_order(self.bytes) }
    }

    /// Whether the bytes are already the canonical representative modulo l.
    pub fn is_canonical(&self) -> (r: bool)
        ensures
            r == (self.value() < group_order()),
    {
        let reduced = self.reduce();
        let r = crate::field::bytes_ct_eq(&self.bytes, &reduced.bytes);
        proof {
            if self.value() < group_order() {
                vstd::arithmetic::div_mod::lemma_small_mod(self.value(), group_order());
                lemma_le_nat_injective(self.bytes@, reduced.bytes@);
            }
            if r {
                vstd::arithmetic::div_mod::lemma_mod_bound(self.value() as int, group_order() as int);
            }
        }
        r
    }

    /// The 64 signed base-16 digits of the scalar: each of the first 63 in
    /// [-8, 8), the last in [-8, 8], with the same value as the scalar.
    /// Digits are recentred by carrying, so that each selects from a table
    /// of eight multiples.
    pub fn to_radix_16(&self) -> (r: [i8; 64])
        requires
            self.bytes[31] <= 127,
        ensures
            forall|i: int| 0 <= i < 63 ==> -8 <= #[trigger] r[i] < 8,
            -8 <= r[63] <= 8,
            radix16_value(r@) == self.value(),
            r@ == scalar_digits(self.value()),
    {
        let mut output = [0i8; 64];
        let mut i: usize = 0;
        while i < 32
            invariant
                i <= 32,
                forall|k: int| 0 <= k < 2 * i ==> 0 <= #[trigger] output[k] < 16,
                forall|k: int| 0 <= k < i ==> output[2 * k] + 16 * output[2 * k + 1] == #[trigger] self.bytes[k],
            decreases 32 - i,
        {
            let b: u8 = self.bytes[i];
            let lo: u8 = b & 15;
            let hi: u8 = (b >> 4u32) & 15;
            assert(lo + 16 * hi == b && lo < 16 && hi < 16) by (bit_vector)
                requires
                    lo == b & 15,
                    hi == (b >> 4u32) & 15,
            ;
            output[2 * i] = lo as i8;
            output[2 * i + 1] = hi as i8;
            i = i + 1;
        }
        proof {
            let b31 = self.bytes[31];
            assert(output[63] <= 7) by {
                assert(output[62] + 16 * output[63] == b31);
            }
            lemma_nibbles_value(self.bytes@, output@);
        }
        let ghost start = output@;
        let mut i: usize = 0;
        while i < 63
            invariant
                i <= 63,
                radix16_value(output@) == radix16_value(start),
                output@.len() == 64,
                forall|k: int| 0 <= k < i ==> -8 <= #[trigger] output[k] < 8,
                0 <= output[i as int] <= 16,
                i < 63 ==> output[i as int] <= 15 || i > 0,
                forall|k: int| i < k < 63 ==> 0 <= #[trigger] output[k] < 16,
                0 <= output[63] <= (if i == 63 { 8i8 } else { 7i8 }),
            decreases 63 - i,
        {
            let v: i8 = output[i] + 8;
            let carry: i8 = v >> 4u32;
            assert(carry == (if v >= 16 { 1i8 } else { 0i8 })) by (bit_vector)
                requires
                    8 <= v <= 24,
                    carry == v >> 4u32,
            ;
            let ghost before = output@;
            output[i] = output[i] - carry * 16;
            output[i + 1] = output[i + 1] + carry;
            proof {
                lemma_carry_preserves(before, i as int, carry as int);
                assert(output@ == before.update(i as int, (before[i as int] - 16 * carry) as i8).update(i + 1, (before[i + 1] + carry) as i8));
            }
            i = i + 1;
        }
        proof {
            assert(radix16_ok(output@, self.value()));
            let d = scalar_digits(self.value());
            assert(radix16_ok(d, self.value()));
            lemma_radix16_unique(d, output@);
        }
        output
    }
}

impl Default for Scalar {
    /// The scalar zero.
    fn default() -> (r: Scalar)
        ensures
            r.value() == 0,
    {
        Scalar::zero()
    }
}

/// Nibbles of bytes: the digit pairs (lo, hi) of each byte give the same value.
proof fn lemma_nibbles_value(bytes: Seq<u8>, d: Seq<i8>)
    requires
        d.len() == 2 * bytes.len(),
        forall|k: int| 0 <= k < bytes.len() ==> d[2 * k] + 16 * d[2 * k + 1] == #[trigger] bytes[k],
    ensures
        radix16_value(d) == le_nat(bytes),
    decreases bytes.len(),
{
    if bytes.len() > 0 {
        let rest = bytes.drop_first();
        let drest = d.drop_first().drop_first();
        assert forall|k: int| 0 <= k < rest.len() implies drest[2 * k] + 16 * drest[2 * k + 1] == #[trigger] rest[k] by {
            assert(rest[k] == bytes[k + 1]);
            assert(drest[2 * k] == d[2 * (k + 1)]);
            assert(drest[2 * k + 1] == d[2 * (k + 1) + 1]);
        }
        lemma_nibbles_value(rest, drest);
        assert(d[0] + 16 * d[1] == bytes[0]);
        assert(radix16_value(d.drop_first()) == d[1] + 16 * radix16_value(drest));
    }
}

/// Moving a carry of `c` sixteens from digit `i` to digit `i + 1` keeps the value.
proof fn lemma_carry_preserves(d: Seq<i8>, i: int, c: int)
    requires
        0 <= i,
        i + 1 < d.len(),
        -128 <= d[i] - 16 * c <= 127,
        -128 <= d[i + 1] + c <= 127,
    ensures
        radix16_value(d.update(i, (d[i] - 16 * c) as i8).update(i + 1, (d[i + 1] + c) as i8)) == radix16_value(d),
    decreases i,
{
    let e = d.update(i, (d[i] - 16 * c) as i8).update(i + 1, (d[i + 1] + c) as i8);
    if i == 0 {
        assert(e.drop_first().drop_first() =~= d.drop_first().drop_first());
        assert(radix16_value(e.drop_first()) == e[1] + 16 * radix16_value(e.drop_first().drop_first()));
        assert(radix16_value(d.drop_first()) == d[1] + 16 * radix16_value(d.drop_first().drop_first()));
    } else {
        let dt = d.drop_first();
        lemma_carry_preserves(dt, i - 1, c);
        assert(e.drop_first() =~= dt.update(i - 1, (dt[i - 1] - 16 * c) as i8).update(i, (dt[i] + c) as i8));
    }
}

} // verus!
