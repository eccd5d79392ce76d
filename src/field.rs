//! Elements of the field of integers modulo p = 2^255 - 19.
//!
//! An element is held as five 51-bit limbs; the limb arithmetic itself comes
//! from fiat-crypto, whose functions are proved correct by their authors. This
//! module states each of those functions over the value of the limbs, and
//! proves the exponentiation chains, the square-root ratio and the encodings
//! that the curve code builds on top of them.

use vstd::prelude::*;
use vstd::arithmetic::div_mod::*;
use vstd::arithmetic::power::*;
use vstd::arithmetic::power2::*;
use crate::encoding::{le_nat, nat_to_le, lemma_nat_to_le_of, lemma_le_nat_injective, lemma_le_nat_zero};
use subtle::ConstantTimeEq;
use fiat_crypto::curve25519_64::{
    fiat_25519_add, fiat_25519_carry, fiat_25519_carry_mul, fiat_25519_carry_square,
    fiat_25519_from_bytes, fiat_25519_loose_field_element, fiat_25519_opp, fiat_25519_selectznz,
    fiat_25519_sub, fiat_25519_tight_field_element, fiat_25519_to_bytes,
};

verus! {

/// The field modulus 2^255 - 19.
pub open spec fn p() -> nat {
    (0x8000000000000 * 0x8000000000000 * 0x8000000000000 * 0x8000000000000 * 0x8000000000000 - 19) as nat
}

/// The integer that five radix-2^51 limbs denote.
pub open spec fn limbs_value(l: [u64; 5]) -> nat {
    l[0] as nat + 0x8000000000000 * (l[1] as nat + 0x8000000000000 * (l[2] as nat + 0x8000000000000 * (
    l[3] as nat + 0x8000000000000 * (l[4] as nat))))
}

/// Limb bounds of a reduced ("tight") element: each limb at most 2^51.
pub open spec fn tight(l: [u64; 5]) -> bool {
    &&& l[0] <= 0x8000000000000
    &&& l[1] <= 0x8000000000000
    &&& l[2] <= 0x8000000000000
    &&& l[3] <= 0x8000000000000
    &&& l[4] <= 0x8000000000000
}

/// Limb bounds of a sum or difference before carrying ("loose"): each limb at most 3 * 2^51.
pub open spec fn loose(l: [u64; 5]) -> bool {
    &&& l[0] <= 0x18000000000000
    &&& l[1] <= 0x18000000000000
    &&& l[2] <= 0x18000000000000
    &&& l[3] <= 0x18000000000000
    &&& l[4] <= 0x18000000000000
}

pub open spec fn fadd(a: nat, b: nat) -> nat {
    (a + b) % p()
}

pub open spec fn fsub(a: nat, b: nat) -> nat {
    ((a - b) % (p() as int)) as nat
}

pub open spec fn fmul(a: nat, b: nat) -> nat {
    (a * b) % p()
}

pub open spec fn fneg(a: nat) -> nat {
    ((0 - a) % (p() as int)) as nat
}

/// `a` raised to the power `e`, modulo p.
pub open spec fn fpow(a: nat, e: nat) -> nat {
    (pow(a as int, e) % (p() as int)) as nat
}

/// The sign of a field value: its canonical representative is odd.
pub open spec fn is_negative_value(a: nat) -> bool {
    a % p() % 2 == 1
}

/// The canonical 32-byte encoding of a field value.
pub open spec fn fe_bytes(v: nat) -> Seq<u8> {
    nat_to_le(v, 32)
}

/// The value with the top bit of the last byte cleared, as decoding reads it.
pub open spec fn clear_top_bit(s: Seq<u8>) -> Seq<u8> {
    s.update(31, s[31] & 0x7f)
}

/// The field value that 32 bytes decode to: the low 255 bits, reduced modulo p.
pub open spec fn decode_value(s: Seq<u8>) -> nat {
    le_nat(clear_top_bit(s)) % p()
}

pub open spec fn sqrt_m1_value() -> nat {
    limbs_value([1718705420411056, 234908883556509, 2233514472574048, 2117202627021982, 765476049583133]) % p()
}

pub open spec fn edwards_d_value() -> nat {
    limbs_value([929955233495203, 466365720129213, 1662059464998953, 2033849074728123, 1442794654840575]) % p()
}

pub open spec fn edwards_d2_value() -> nat {
    limbs_value([1859910466990425, 932731440258426, 1072319116312658, 1815898335770999, 633789495995903]) % p()
}

pub open spec fn one_minus_d_sq_value() -> nat {
    limbs_value([1136626929484150, 1998550399581263, 496427632559748, 118527312129759, 45110755273534]) % p()
}

pub open spec fn d_minus_one_sq_value() -> nat {
    limbs_value([1507062230895904, 1572317787530805, 683053064812840, 317374165784489, 1572899562415810]) % p()
}

pub open spec fn sqrt_ad_minus_one_value() -> nat {
    limbs_value([2241493124984347, 425987919032274, 2207028919301688, 1220490630685848, 974799131293748]) % p()
}

/// Relies on fiat_25519_carry_mul: the product modulo p, with tight limbs.
#[verifier::external_body]
fn limbs_carry_mul(a: &[u64; 5], b: &[u64; 5]) -> (r: [u64; 5])
    requires
        loose(*a),
        loose(*b),
    ensures
        tight(r),
        limbs_value(r) % p() == (limbs_value(*a) * limbs_value(*b)) % p(),
{
    let mut out = fiat_25519_tight_field_element([0u64; 5]);
    fiat_25519_carry_mul(&mut out, &fiat_25519_loose_field_element(*a), &fiat_25519_loose_field_element(*b));
    out.0
}

/// Relies on fiat_25519_carry_square: the square modulo p, with tight limbs.
#[verifier::external_body]
fn limbs_carry_square(a: &[u64; 5]) -> (r: [u64; 5])
    requires
        loose(*a),
    ensures
        tight(r),
        limbs_value(r) % p() == (limbs_value(*a) * limbs_value(*a)) % p(),
{
    let mut out = fiat_25519_tight_field_element([0u64; 5]);
    fiat_25519_carry_square(&mut out, &fiat_25519_loose_field_element(*a));
    out.0
}

/// Relies on fiat_25519_carry: the same value modulo p, with tight limbs.
#[verifier::external_body]
fn limbs_carry(a: &[u64; 5]) -> (r: [u64; 5])
    requires
        loose(*a),
    ensures
        tight(r),
        limbs_value(r) % p() == limbs_value(*a) % p(),
{
    let mut out = fiat_25519_tight_field_element([0u64; 5]);
    fiat_25519_carry(&mut out, &fiat_25519_loose_field_element(*a));
    out.0
}

/// Relies on fiat_25519_add: the sum modulo p, with loose limbs.
#[verifier::external_body]
fn limbs_add(a: &[u64; 5], b: &[u64; 5]) -> (r: [u64; 5])
    requires
        tight(*a),
        tight(*b),
    ensures
        loose(r),
        limbs_value(r) % p() == (limbs_value(*a) + limbs_value(*b)) % p(),
{
    let mut out = fiat_25519_loose_field_element([0u64; 5]);
    fiat_25519_add(&mut out, &fiat_25519_tight_field_element(*a), &fiat_25519_tight_field_element(*b));
    out.0
}

/// Relies on fiat_25519_sub: the difference modulo p, with loose limbs.
#[verifier::external_body]
fn limbs_sub(a: &[u64; 5], b: &[u64; 5]) -> (r: [u64; 5])
    requires
        tight(*a),
        tight(*b),
    ensures
        loose(r),
        (limbs_value(r) as int) % (p() as int) == (limbs_value(*a) - limbs_value(*b)) % (p() as int),
{
    let mut out = fiat_25519_loose_field_element([0u64; 5]);
    fiat_25519_sub(&mut out, &fiat_25519_tight_field_element(*a), &fiat_25519_tight_field_element(*b));
    out.0
}

/// Relies on fiat_25519_opp: the negation modulo p, with loose limbs.
#[verifier::external_body]
fn limbs_opp(a: &[u64; 5]) -> (r: [u64; 5])
    requires
        tight(*a),
    ensures
        loose(r),
        (limbs_value(r) as int) % (p() as int) == (0 - limbs_value(*a)) % (p() as int),
{
    let mut out = fiat_25519_loose_field_element([0u64; 5]);
    fiat_25519_opp(&mut out, &fiat_25519_tight_field_element(*a));
    out.0
}

/// Relies on fiat_25519_selectznz: a constant-time choice between two limb arrays.
#[verifier::external_body]
fn limbs_select(choice: u8, a: &[u64; 5], b: &[u64; 5]) -> (r: [u64; 5])
    requires
        choice <= 1,
    ensures
        r == (if choice == 0 { *a } else { *b }),
{
    let mut out = [0u64; 5];
    fiat_25519_selectznz(&mut out, choice, a, b);
    out
}

/// Relies on fiat_25519_to_bytes: the canonical little-endian encoding of the value modulo p.
#[verifier::external_body]
fn limbs_to_bytes(a: &[u64; 5]) -> (r: [u8; 32])
    requires
        tight(*a),
    ensures
        le_nat(r@) == limbs_value(*a) % p(),
{
    let mut out = [0u8; 32];
    fiat_25519_to_bytes(&mut out, &fiat_25519_tight_field_element(*a));
    out
}

/// Relies on fiat_25519_from_bytes: limbs congruent to a 255-bit little-endian integer.
#[verifier::external_body]
fn limbs_from_bytes(b: &[u8; 32]) -> (r: [u64; 5])
    requires
        b[31] <= 0x7f,
    ensures
        tight(r),
        limbs_value(r) % p() == le_nat(b@) % p(),
{
    let mut out = fiat_25519_tight_field_element([0u64; 5]);
    fiat_25519_from_bytes(&mut out, b);
    out.0
}

/// Relies on subtle's constant-time equality of byte slices.
#[verifier::external_body]
pub(crate) fn bytes_ct_eq(a: &[u8; 32], b: &[u8; 32]) -> (r: bool)
    ensures
        r == (a@ == b@),
{
    a[..].ct_eq(&b[..]).unwrap_u8() == 1u8
}


/// 2^n - 1: the exponent whose binary digits are n ones.
pub open spec fn mask(n: nat) -> nat {
    (pow2(n) - 1) as nat
}

/// Multiplying two powers of one base adds the exponents.
pub proof fn lemma_fpow_mul(x: nat, a: nat, b: nat)
    ensures
        fmul(fpow(x, a), fpow(x, b)) == fpow(x, a + b),
{
    let m = p() as int;
    lemma_pow_adds(x as int, a, b);
    lemma_pow_positive_or_zero(x, a);
    lemma_pow_positive_or_zero(x, b);
    lemma_mul_mod_noop(pow(x as int, a), pow(x as int, b), m);
}

proof fn lemma_pow_positive_or_zero(x: nat, a: nat)
    ensures
        pow(x as int, a) >= 0,
    decreases a,
{
    reveal(pow);
    if a > 0 {
        lemma_pow_positive_or_zero(x, (a - 1) as nat);
        assert(x * pow(x as int, (a - 1) as nat) >= 0) by (nonlinear_arith)
            requires
                pow(x as int, (a - 1) as nat) >= 0,
        ;
    }
}

/// Raising a power to a power multiplies the exponents.
pub proof fn lemma_fpow_fpow(x: nat, a: nat, b: nat)
    ensures
        fpow(fpow(x, a), b) == fpow(x, a * b),
{
    let m = p() as int;
    lemma_pow_positive_or_zero(x, a);
    lemma_pow_mod_noop(pow(x as int, a), b, m);
    lemma_pow_multiplies(x as int, a, b);
}

/// A value below p is its own first power.
pub proof fn lemma_fpow_one(x: nat)
    requires
        x < p(),
    ensures
        fpow(x, 1) == x,
{
    reveal(pow);
    assert(pow(x as int, 1) == x * pow(x as int, 0));
    lemma_small_mod(x, p());
}

/// Squaring a power doubles the exponent.
pub proof fn lemma_fpow_square(x: nat, a: nat)
    ensures
        fmul(fpow(x, a), fpow(x, a)) == fpow(x, 2 * a),
{
    lemma_fpow_mul(x, a, a);
}

/// Shifting the ones of one mask past the ones of another.
pub proof fn lemma_fpow_mask_step(x: nat, a: nat, b: nat)
    ensures
        fmul(fpow(fpow(x, mask(a)), pow2(b)), fpow(x, mask(b))) == fpow(x, mask(a + b)),
{
    lemma_fpow_fpow(x, mask(a), pow2(b));
    lemma_fpow_mul(x, mask(a) * pow2(b), mask(b));
    lemma_pow_adds(2, a, b);
    lemma_pow_positive(2, a);
    lemma_pow_positive(2, b);
    lemma_pow_positive(2, a + b);
    assert(pow2(a + b) == pow2(a) * pow2(b));
    assert(mask(a) * pow2(b) + mask(b) == mask(a + b)) by (nonlinear_arith)
        requires
            pow2(a + b) == pow2(a) * pow2(b),
            pow2(a) >= 1,
            pow2(b) >= 1,
            mask(a) == pow2(a) - 1,
            mask(b) == pow2(b) - 1,
            mask(a + b) == pow2(a + b) - 1,
    ;
}


/// The nonnegative (even) one of a value and its negation.
pub open spec fn fabs(a: nat) -> nat {
    if is_negative_value(a) { fneg(a) } else { a % p() }
}

/// What `sqrt_ratio_i` makes of its candidate root `r`: `r`, or `sqrt(-1) * r`
/// when `v * r^2` is `-u` or `-u * sqrt(-1)`, then made nonnegative.
pub open spec fn sqrt_ratio_root(u: nat, v: nat, r: nat) -> nat {
    let check = fmul(v, fmul(r, r));
    let flip = check == fneg(u) || check == fmul(fneg(u), sqrt_m1_value());
    fabs(if flip { fmul(sqrt_m1_value(), r) } else { r })
}

/// The negation of a value below p.
pub proof fn lemma_fneg_value(x: nat)
    requires
        x < p(),
    ensures
        x == 0 ==> fneg(x) == 0,
        x > 0 ==> fneg(x) == p() - x,
{
    let m = p() as int;
    if x > 0 {
        lemma_fundamental_div_mod_converse_mod(0 - x, m, -1, m - x);
    } else {
        lemma_small_mod(0, p());
    }
}

/// A negation is a canonical value.
pub proof fn lemma_fneg_bound(x: nat)
    ensures
        fneg(x) < p(),
{
}

/// The even one of a value and its negation is even.
pub proof fn lemma_fabs_nonnegative(a: nat)
    requires
        a < p(),
    ensures
        !is_negative_value(fabs(a)),
        fabs(a) < p(),
        !is_negative_value(a) ==> fabs(a) == a,
{
    lemma_small_mod(a, p());
    lemma_fneg_value(a);
    if is_negative_value(a) {
        assert(a > 0);
        assert((p() - a) % 2 == 0);
        lemma_small_mod((p() - a) as nat, p());
    }
}


/// Products modulo p associate.
pub proof fn lemma_fmul_assoc(a: nat, b: nat, c: nat)
    ensures
        fmul(fmul(a, b), c) == fmul(a, fmul(b, c)),
{
    let m = p() as int;
    lemma_mul_mod_noop_left((a * b) as int, c as int, m);
    lemma_mul_mod_noop_right(a as int, (b * c) as int, m);
    vstd::arithmetic::mul::lemma_mul_is_associative(a as int, b as int, c as int);
}

/// Negation moves out of a product.
pub proof fn lemma_fneg_mul(a: nat, b: nat)
    ensures
        fmul(fneg(a), b) == fneg(fmul(a, b)),
{
    let m = p() as int;
    lemma_mul_mod_noop_left(0 - a, b as int, m);
    assert((0 - a) * (b as int) == 0 - a * b) by (nonlinear_arith);
    lemma_sub_mod_noop(0, (a * b) as int, m);
    lemma_small_mod(0, p());
}

/// Negating twice gives back a value below p.
pub proof fn lemma_fneg_fneg(a: nat)
    requires
        a < p(),
    ensures
        fneg(fneg(a)) == a,
{
    lemma_fneg_value(a);
    lemma_fneg_bound(a);
    lemma_fneg_value(fneg(a));
}

/// A value and its negation have the same square.
pub proof fn lemma_fneg_square(a: nat)
    ensures
        fmul(fneg(a), fneg(a)) == fmul(a, a),
{
    let m = p() as int;
    lemma_mul_mod_noop(0 - a, 0 - a, m);
    assert((0 - a) * (0 - a) == (a * a) as int) by (nonlinear_arith);
}

/// The chosen square root of -1 squares to -1.
pub proof fn lemma_sqrt_m1_squared()
    ensures
        fmul(sqrt_m1_value(), sqrt_m1_value()) == fneg(1),
{
    lemma_fneg_value(1);
    let l = [1718705420411056u64, 234908883556509, 2233514472574048, 2117202627021982, 765476049583133];
    let x = 1718705420411056nat + 0x8000000000000 * (234908883556509nat + 0x8000000000000 * (2233514472574048nat + 0x8000000000000 * (
        2117202627021982nat + 0x8000000000000 * 765476049583133nat)));
    assert(limbs_value(l) == x);
    assert(x < p());
    lemma_small_mod(x, p());
    let q = 614143314457316nat + 0x8000000000000 * (1142523533842750nat + 0x8000000000000 * (1627389424448436nat + 0x8000000000000 * (
        24633476175362nat + 0x8000000000000 * 260215663454755nat)));
    assert(x * x == q * p() + (p() - 1)) by (nonlinear_arith)
        requires
            x == 1718705420411056nat + 0x8000000000000 * (234908883556509nat + 0x8000000000000 * (2233514472574048nat + 0x8000000000000 * (
                2117202627021982nat + 0x8000000000000 * 765476049583133nat))),
            q == 614143314457316nat + 0x8000000000000 * (1142523533842750nat + 0x8000000000000 * (1627389424448436nat + 0x8000000000000 * (
                24633476175362nat + 0x8000000000000 * 260215663454755nat))),
            p() == 0x8000000000000 * 0x8000000000000 * 0x8000000000000 * 0x8000000000000 * 0x8000000000000 - 19,
    ;
    lemma_fundamental_div_mod_converse_mod((x * x) as int, p() as int, q as int, (p() - 1) as int);
    assert((x * x) % p() == p() - 1);
    assert(fmul(sqrt_m1_value(), sqrt_m1_value()) == p() - 1);
}

/// `a i i = -a`.
pub proof fn lemma_times_i_twice(a: nat)
    ensures
        fmul(fmul(a, sqrt_m1_value()), sqrt_m1_value()) == fneg(a % p()),
{
    let i = sqrt_m1_value();
    lemma_fmul_assoc(a, i, i);
    lemma_sqrt_m1_squared();
    lemma_fneg_mul(1, a);
    lemma_mul_mod_noop_right(a as int, (i * i) as int, p() as int);
    assert(fmul(a, fneg(1)) == fmul(fneg(1), a));
    lemma_small_mod(1, p());
    assert(fmul(1, a) == a % p());
}

/// When `sqrt_ratio_i` reports a square, its root r satisfies v r^2 = u.
pub proof fn lemma_sqrt_ratio_flag(u: nat, v: nat, r: nat)
    requires
        u < p(),
        v < p(),
        r < p(),
        fmul(v, fmul(r, r)) == u || fmul(v, fmul(r, r)) == fneg(u),
    ensures
        fmul(v, fmul(sqrt_ratio_root(u, v, r), sqrt_ratio_root(u, v, r))) == u,
{
    let i = sqrt_m1_value();
    let check = fmul(v, fmul(r, r));
    let flip = check == fneg(u) || check == fmul(fneg(u), i);
    let r1 = if flip { fmul(i, r) } else { r };
    assert(r1 < p());
    lemma_small_mod(r1, p());
    lemma_fneg_square(r1);
    assert(fmul(fabs(r1), fabs(r1)) == fmul(r1, r1)) by {
        if is_negative_value(r1) {
        } else {
        }
    }
    if flip {
        // v (i r)^2 = -(v r^2)
        lemma_fmul_assoc(i, r, fmul(i, r));
        lemma_fmul_assoc(r, i, r);
        assert(fmul(r, i) == fmul(i, r));
        lemma_fmul_assoc(i, i, r);
        assert(fmul(r, fmul(i, r)) == fmul(fmul(i, r), r));
        assert(fmul(fmul(i, r), r) == fmul(i, fmul(r, r))) by {
            lemma_fmul_assoc(i, r, r);
        }
        assert(fmul(fmul(i, r), fmul(i, r)) == fmul(fmul(i, i), fmul(r, r))) by {
            lemma_fmul_assoc(i, r, fmul(i, r));
            lemma_fmul_assoc(i, i, fmul(r, r));
            assert(fmul(r, fmul(i, r)) == fmul(i, fmul(r, r)));
        }
        lemma_sqrt_m1_squared();
        lemma_fneg_mul(1, fmul(r, r));
        assert(fmul(fneg(1), fmul(r, r)) == fmul(fmul(r, r), fneg(1)));
        lemma_small_mod(fmul(r, r), p());
        assert(fmul(1, fmul(r, r)) == fmul(r, r));
        assert(fmul(fmul(i, r), fmul(i, r)) == fneg(fmul(r, r)));
        lemma_fneg_mul(fmul(r, r), v);
        assert(fmul(v, fneg(fmul(r, r))) == fmul(fneg(fmul(r, r)), v));
        assert(fmul(fmul(r, r), v) == check);
        assert(fmul(v, fmul(r1, r1)) == fneg(check));
        if check == fneg(u) {
            lemma_fneg_fneg(u);
        } else {
            // check == u and check == -u i: then u = 0
            assert(check == u);
            assert(u == fmul(fneg(u), i));
            lemma_fneg_mul(u, i);
            assert(u == fneg(fmul(u, i)));
            lemma_times_i_twice(fneg(u));
            lemma_fneg_bound(u);
            lemma_small_mod(fneg(u), p());
            lemma_fneg_fneg(u);
            // u i = (-u i) i = -(-u) = u
            assert(fmul(u, i) == u);
            assert(u == fneg(u));
            lemma_fneg_value(u);
            assert(u == 0);
        }
    } else {
        assert(check == u);
    }
}

/// An element of the field of integers modulo p.
#[derive(Clone, Copy)]
pub struct FieldElement {
    pub(crate) limbs: [u64; 5],
}

impl FieldElement {
    /// Limbs within the bounds that every operation here expects and keeps.
    pub closed spec fn wf(&self) -> bool {
        tight(self.limbs)
    }

    /// The canonical value, in `[0, p)`.
    pub closed spec fn value(&self) -> nat {
        limbs_value(self.limbs) % p()
    }

    pub proof fn lemma_value_bound(&self)
        ensures
            self.value() < p(),
    {
    }

    fn from_limbs(limbs: [u64; 5]) -> (r: FieldElement)
        requires
            tight(limbs),
        ensures
            r.wf(),
            r.limbs == limbs,
    {
        FieldElement { limbs }
    }

    pub fn zero() -> (r: FieldElement)
        ensures
            r.wf(),
            r.value() == 0,
    {
        let l = [0u64; 5];
        proof {
            assert(limbs_value(l) == 0);
            lemma_small_mod(0, p());
        }
        FieldElement { limbs: l }
    }

    pub fn one() -> (r: FieldElement)
        ensures
            r.wf(),
            r.value() == 1,
    {
        let mut l = [0u64; 5];
        l[0] = 1;
        proof {
            assert(limbs_value(l) == 1);
            lemma_small_mod(1, p());
        }
        FieldElement { limbs: l }
    }

    /// The value p - 1.
    pub fn minus_one() -> (r: FieldElement)
        ensures
            r.wf(),
            r.value() == p() - 1,
    {
        let r = FieldElement::from_limbs([2251799813685228, 2251799813685247, 2251799813685247, 2251799813685247, 2251799813685247]);
        proof {
            assert(limbs_value(r.limbs) == p() - 1);
            lemma_small_mod((p() - 1) as nat, p());
        }
        r
    }

    /// The curve constant d = -121665/121666.
    pub fn edwards_d() -> (r: FieldElement)
        ensures
            r.wf(),
            r.value() == edwards_d_value(),
    {
        FieldElement::from_limbs([929955233495203, 466365720129213, 1662059464998953, 2033849074728123, 1442794654840575])
    }

    /// The value 2d.
    pub fn edwards_d2() -> (r: FieldElement)
        ensures
            r.wf(),
            r.value() == edwards_d2_value(),
    {
        FieldElement::from_limbs([1859910466990425, 932731440258426, 1072319116312658, 1815898335770999, 633789495995903])
    }

    /// A square root of -1.
    pub fn sqrt_m1() -> (r: FieldElement)
        ensures
            r.wf(),
            r.value() == sqrt_m1_value(),
    {
        FieldElement::from_limbs([1718705420411056, 234908883556509, 2233514472574048, 2117202627021982, 765476049583133])
    }

    /// The value 1 - d^2.
    pub fn one_minus_edwards_d_squared() -> (r: FieldElement)
        ensures
            r.wf(),
            r.value() == one_minus_d_sq_value(),
    {
        FieldElement::from_limbs([1136626929484150, 1998550399581263, 496427632559748, 118527312129759, 45110755273534])
    }

    /// The value (d - 1)^2.
    pub fn edwards_d_minus_one_squared() -> (r: FieldElement)
        ensures
            r.wf(),
            r.value() == d_minus_one_sq_value(),
    {
        FieldElement::from_limbs([1507062230895904, 1572317787530805, 683053064812840, 317374165784489, 1572899562415810])
    }

    /// The value sqrt(a*d - 1) with a = -1.
    pub fn sqrt_ad_minus_one() -> (r: FieldElement)
        ensures
            r.wf(),
            r.value() == sqrt_ad_minus_one_value(),
    {
        FieldElement::from_limbs([2241493124984347, 425987919032274, 2207028919301688, 1220490630685848, 974799131293748])
    }

    pub fn add(&self, other: &FieldElement) -> (r: FieldElement)
        requires
            self.wf(),
            other.wf(),
        ensures
            r.wf(),
            r.value() == fadd(self.value(), other.value()),
    {
        let s = limbs_add(&self.limbs, &other.limbs);
        let r = limbs_carry(&s);
        proof {
            let m = p() as int;
            lemma_add_mod_noop(limbs_value(self.limbs) as int, limbs_value(other.limbs) as int, m);
        }
        FieldElement { limbs: r }
    }

    pub fn sub(&self, other: &FieldElement) -> (r: FieldElement)
        requires
            self.wf(),
            other.wf(),
        ensures
            r.wf(),
            r.value() == fsub(self.value(), other.value()),
    {
        let s = limbs_sub(&self.limbs, &other.limbs);
        let r = limbs_carry(&s);
        proof {
            let m = p() as int;
            lemma_sub_mod_noop(limbs_value(self.limbs) as int, limbs_value(other.limbs) as int, m);
        }
        FieldElement { limbs: r }
    }

    pub fn neg(&self) -> (r: FieldElement)
        requires
            self.wf(),
        ensures
            r.wf(),
            r.value() == fneg(self.value()),
    {
        let s = limbs_opp(&self.limbs);
        let r = limbs_carry(&s);
        proof {
            let m = p() as int;
            lemma_sub_mod_noop(0, limbs_value(self.limbs) as int, m);
        }
        FieldElement { limbs: r }
    }

    pub fn mul(&self, other: &FieldElement) -> (r: FieldElement)
        requires
            self.wf(),
            other.wf(),
        ensures
            r.wf(),
            r.value() == fmul(self.value(), other.value()),
    {
        let r = limbs_carry_mul(&self.limbs, &other.limbs);
        proof {
            lemma_mul_mod_noop(limbs_value(self.limbs) as int, limbs_value(other.limbs) as int, p() as int);
        }
        FieldElement { limbs: r }
    }

    pub fn square(&self) -> (r: FieldElement)
        requires
            self.wf(),
        ensures
            r.wf(),
            r.value() == fmul(self.value(), self.value()),
    {
        let r = limbs_carry_square(&self.limbs);
        proof {
            lemma_mul_mod_noop(limbs_value(self.limbs) as int, limbs_value(self.limbs) as int, p() as int);
        }
        FieldElement { limbs: r }
    }

    /// Twice the square.
    pub fn square2(&self) -> (r: FieldElement)
        requires
            self.wf(),
        ensures
            r.wf(),
            r.value() == fadd(fmul(self.value(), self.value()), fmul(self.value(), self.value())),
    {
        let s = self.square();
        s.add(&s)
    }

    /// The canonical 32-byte little-endian encoding.
    pub fn to_bytes(&self) -> (r: [u8; 32])
        requires
            self.wf(),
        ensures
            le_nat(r@) == self.value(),
            r@ == fe_bytes(self.value()),
    {
        let r = limbs_to_bytes(&self.limbs);
        proof {
            lemma_nat_to_le_of(r@);
        }
        r
    }

    /// Decodes 32 bytes, ignoring the top bit and reducing modulo p.
    pub fn from_bytes(bytes: &[u8; 32]) -> (r: FieldElement)
        ensures
            r.wf(),
            r.value() == decode_value(bytes@),
    {
        let mut b = *bytes;
        let b31: u8 = bytes[31];
        let top: u8 = b31 & 0x7f;
        assert(top <= 0x7f) by (bit_vector)
            requires
                top == b31 & 0x7f,
        ;
        b[31] = top;
        assert(b@ =~= clear_top_bit(bytes@));
        let l = limbs_from_bytes(&b);
        FieldElement { limbs: l }
    }

    /// Whether the canonical value is odd.
    pub fn is_negative(&self) -> (r: bool)
        requires
            self.wf(),
        ensures
            r == is_negative_value(self.value()),
    {
        let bytes = self.to_bytes();
        let b0: u8 = bytes[0];
        let bit: u8 = b0 & 1;
        assert(bit == b0 % 2) by (bit_vector)
            requires
                bit == b0 & 1,
        ;
        proof {
            let s = bytes@;
            assert(le_nat(s) == s[0] as nat + 256 * le_nat(s.drop_first()));
            assert(le_nat(s) % 2 == s[0] as nat % 2) by (nonlinear_arith)
                requires
                    le_nat(s) == s[0] as nat + 256 * le_nat(s.drop_first()),
            ;
            self.lemma_value_bound();
            lemma_small_mod(self.value(), p());
        }
        bit == 1
    }

    /// Whether the value is zero.
    pub fn is_zero(&self) -> (r: bool)
        requires
            self.wf(),
        ensures
            r == (self.value() == 0),
    {
        let zero = [0u8; 32];
        let bytes = self.to_bytes();
        let r = bytes_ct_eq(&bytes, &zero);
        proof {
            lemma_le_nat_zero(bytes@);
            if le_nat(bytes@) == 0 {
                assert(bytes@ =~= zero@);
            }
        }
        r
    }

    /// Equality of values, in constant time.
    pub fn ct_eq(&self, other: &FieldElement) -> (r: bool)
        requires
            self.wf(),
            other.wf(),
        ensures
            r == (self.value() == other.value()),
    {
        let a = self.to_bytes();
        let b = other.to_bytes();
        proof {
            if self.value() == other.value() {
                lemma_le_nat_injective(a@, b@);
            }
        }
        bytes_ct_eq(&a, &b)
    }

    /// Replaces `self` by `other` when `choice` holds, in constant time.
    pub fn conditional_assign(&mut self, other: &FieldElement, choice: bool)
        requires
            old(self).wf(),
            other.wf(),
        ensures
            *final(self) == (if choice { *other } else { *old(self) }),
    {
        let c: u8 = if choice { 1 } else { 0 };
        self.limbs = limbs_select(c, &self.limbs, &other.limbs);
    }

    /// Negates `self` when `choice` holds.
    pub fn conditional_negate(&mut self, choice: bool)
        requires
            old(self).wf(),
        ensures
            final(self).wf(),
            final(self).value() == (if choice { fneg(old(self).value()) } else { old(self).value() }),
    {
        let n = self.neg();
        self.conditional_assign(&n, choice);
    }

    /// Squares `k` times: the value raised to 2^k.
    pub fn pow2k(&self, k: u32) -> (r: FieldElement)
        requires
            self.wf(),
        ensures
            r.wf(),
            r.value() == fpow(self.value(), pow2(k as nat)),
    {
        let mut r = *self;
        let mut i: u32 = 0;
        proof {
            lemma2_to64();
            self.lemma_value_bound();
            lemma_fpow_one(self.value());
        }
        while i < k
            invariant
                i <= k,
                r.wf(),
                r.value() == fpow(self.value(), pow2(i as nat)),
            decreases k - i,
        {
            proof {
                lemma_fpow_square(self.value(), pow2(i as nat));
                reveal(pow);
                lemma_pow_positive(2, i as nat);
                assert(pow(2, (i + 1) as nat) == 2 * pow(2, i as nat));
                assert(pow2((i + 1) as nat) == 2 * pow2(i as nat));
            }
            r = r.square();
            i = i + 1;
        }
        r
    }

    /// (x^(2^5 - 1), x^11).
    pub fn pow251(x: &FieldElement) -> (r: (FieldElement, FieldElement))
        requires
            x.wf(),
        ensures
            r.0.wf(),
            r.1.wf(),
            r.0.value() == fpow(x.value(), 31),
            r.1.value() == fpow(x.value(), 11),
    {
        let ghost v = x.value();
        proof {
            x.lemma_value_bound();
            lemma_fpow_one(v);
            lemma_fpow_square(v, 1);
            lemma_fpow_square(v, 2);
            lemma_fpow_square(v, 4);
            lemma_fpow_mul(v, 1, 8);
            lemma_fpow_mul(v, 2, 9);
            lemma_fpow_square(v, 11);
            lemma_fpow_mul(v, 9, 22);
        }
        let t0 = x.square();
        let t1 = t0.square().square();
        let t2 = x.mul(&t1);
        let t3 = t0.mul(&t2);
        let t4 = t3.square();
        let t5 = t2.mul(&t4);
        (t5, t3)
    }

    /// (x^(2^200 - 1), x^(2^50 - 1), x^11).
    pub fn pow22001(x: &FieldElement) -> (r: (FieldElement, FieldElement, FieldElement))
        requires
            x.wf(),
        ensures
            r.0.wf(),
            r.1.wf(),
            r.2.wf(),
            r.0.value() == fpow(x.value(), mask(200)),
            r.1.value() == fpow(x.value(), mask(50)),
            r.2.value() == fpow(x.value(), 11),
    {
        let ghost v = x.value();
        let (t5, t3) = FieldElement::pow251(x);
        proof {
            lemma2_to64();
            assert(mask(5) == 31);
        }
        let t6 = t5.pow2k(5);
        let t7 = t6.mul(&t5);
        proof { lemma_fpow_mask_step(v, 5, 5); }
        let t8 = t7.pow2k(10);
        let t9 = t8.mul(&t7);
        proof { lemma_fpow_mask_step(v, 10, 10); }
        let t10 = t9.pow2k(20);
        let t11 = t10.mul(&t9);
        proof { lemma_fpow_mask_step(v, 20, 20); }
        let t12 = t11.pow2k(10);
        let t13 = t12.mul(&t7);
        proof { lemma_fpow_mask_step(v, 40, 10); }
        let t14 = t13.pow2k(50);
        let t15 = t14.mul(&t13);
        proof { lemma_fpow_mask_step(v, 50, 50); }
        let t16 = t15.pow2k(100);
        let t17 = t16.mul(&t15);
        proof { lemma_fpow_mask_step(v, 100, 100); }
        (t17, t13, t3)
    }

    /// t17^(2^50) * t13: x^(2^250 - 1) from x^(2^200 - 1) and x^(2^50 - 1).
    pub fn pow22501(t17: &FieldElement, t13: &FieldElement) -> (r: FieldElement)
        requires
            t17.wf(),
            t13.wf(),
        ensures
            r.wf(),
            r.value() == fmul(fpow(t17.value(), pow2(50)), t13.value()),
    {
        let t18 = t17.pow2k(50);
        t18.mul(t13)
    }

    /// t19^4 * x: x^((p - 5) / 8) = x^(2^252 - 3) when t19 = x^(2^250 - 1).
    pub fn pow_p58(x: &FieldElement, t19: &FieldElement) -> (r: FieldElement)
        requires
            x.wf(),
            t19.wf(),
        ensures
            r.wf(),
            r.value() == fmul(x.value(), fpow(t19.value(), 4)),
    {
        let t20 = t19.pow2k(2);
        proof { lemma2_to64(); }
        x.mul(&t20)
    }

    /// Given `u`, `v` and the candidate `r = (u v^3)(u v^7)^((p-5)/8)`, picks
    /// the nonnegative square root of `u/v` (or of `i u/v`), in constant time.
    /// The flag is whether `v r^2` was `u` or `-u`.
    pub fn sqrt_ratio_i(u: &FieldElement, v: &FieldElement, r: &FieldElement) -> (res: (bool, FieldElement))
        requires
            u.wf(),
            v.wf(),
            r.wf(),
        ensures
            res.1.wf(),
            res.1.value() == sqrt_ratio_root(u.value(), v.value(), r.value()),
            res.0 == (fmul(v.value(), fmul(r.value(), r.value())) == u.value()
                || fmul(v.value(), fmul(r.value(), r.value())) == fneg(u.value())),
            !is_negative_value(res.1.value()),
            res.0 ==> fmul(v.value(), fmul(res.1.value(), res.1.value())) == u.value(),
    {
        let ghost r0 = r.value();
        let mut r = *r;
        let check = v.mul(&r.square());
        let i = FieldElement::sqrt_m1();
        let neg_u = u.neg();
        let correct_sign_sqrt = check.ct_eq(u);
        let flipped_sign_sqrt = check.ct_eq(&neg_u);
        let flipped_sign_sqrt_i = check.ct_eq(&neg_u.mul(&i));
        let r_prime = i.mul(&r);
        r.conditional_assign(&r_prime, flipped_sign_sqrt || flipped_sign_sqrt_i);
        let r_is_negative = r.is_negative();
        r.conditional_negate(r_is_negative);
        proof {
            let r1 = if flipped_sign_sqrt || flipped_sign_sqrt_i { r_prime.value() } else { r0 };
            lemma_fabs_nonnegative(r1);
        }
        let was_nonzero_square = correct_sign_sqrt || flipped_sign_sqrt;
        proof {
            if was_nonzero_square {
                u.lemma_value_bound();
                v.lemma_value_bound();
                lemma_sqrt_ratio_flag(u.value(), v.value(), r0);
            }
        }
        (was_nonzero_square, r)
    }
}

} // verus!
