//! Little-endian byte encodings shared by the field, the bytecode and the
//! buffer headers.

use vstd::prelude::*;

verus! {

/// The unsigned integer that a byte string denotes, least significant byte first.
pub open spec fn le_nat(s: Seq<u8>) -> nat
    decreases s.len(),
{
    if s.len() == 0 {
        0
    } else {
        s[0] as nat + 256 * le_nat(s.drop_first())
    }
}

/// The `u32` stored little-endian in `s[at..at + 4]`.
pub open spec fn u32_at(s: Seq<u8>, at: int) -> nat {
    s[at] as nat + 256 * s[at + 1] as nat + 65536 * s[at + 2] as nat + 16777216 * s[at + 3] as nat
}

/// The four little-endian bytes of `v`.
pub open spec fn u32_le(v: u32) -> Seq<u8> {
    seq![
        (v % 256) as u8,
        ((v / 256) % 256) as u8,
        ((v / 65536) % 256) as u8,
        (v / 16777216) as u8,
    ]
}

/// The `n` little-endian bytes of `v` (of `v` modulo 256^n).
pub open spec fn nat_to_le(v: nat, n: nat) -> Seq<u8>
    decreases n,
{
    if n == 0 {
        Seq::empty()
    } else {
        seq![(v % 256) as u8] + nat_to_le(v / 256, (n - 1) as nat)
    }
}

/// The encoding of a value that fits reads back as that value.
pub proof fn lemma_le_nat_of_nat_to_le(v: nat, n: nat)
    requires
        v < vstd::arithmetic::power::pow(256, n),
    ensures
        le_nat(nat_to_le(v, n)) == v,
    decreases n,
{
    reveal(vstd::arithmetic::power::pow);
    if n == 0 {
        assert(v == 0);
    } else {
        let q = vstd::arithmetic::power::pow(256, (n - 1) as nat);
        vstd::arithmetic::div_mod::lemma_fundamental_div_mod(v as int, 256);
        assert(v / 256 < q) by (nonlinear_arith)
            requires
                v < 256 * q,
                v == 256 * (v / 256) + v % 256,
                v % 256 >= 0,
        ;
        lemma_le_nat_of_nat_to_le(v / 256, (n - 1) as nat);
        let e = nat_to_le(v, n);
        assert(e.drop_first() =~= nat_to_le(v / 256, (n - 1) as nat));
    }
}

/// A byte string is the little-endian encoding of its own value.
pub proof fn lemma_nat_to_le_of(s: Seq<u8>)
    ensures
        s == nat_to_le(le_nat(s), s.len()),
    decreases s.len(),
{
    if s.len() > 0 {
        let rest = s.drop_first();
        lemma_nat_to_le_of(rest);
        let v = le_nat(s);
        assert(v == s[0] as nat + 256 * le_nat(rest));
        vstd::arithmetic::div_mod::lemma_fundamental_div_mod_converse(v as int, 256, le_nat(rest) as int, s[0] as int);
        assert(s =~= seq![(v % 256) as u8] + nat_to_le(v / 256, (s.len() - 1) as nat));
    } else {
        assert(s =~= Seq::<u8>::empty());
    }
}

/// Two byte strings of one length with the same value are equal.
pub proof fn lemma_le_nat_injective(a: Seq<u8>, b: Seq<u8>)
    requires
        a.len() == b.len(),
        le_nat(a) == le_nat(b),
    ensures
        a == b,
    decreases a.len(),
{
    if a.len() > 0 {
        let ra = le_nat(a.drop_first());
        let rb = le_nat(b.drop_first());
        assert(a[0] as nat + 256 * ra == b[0] as nat + 256 * rb);
        assert(a[0] == b[0] && ra == rb) by (nonlinear_arith)
            requires
                a[0] as nat + 256 * ra == b[0] as nat + 256 * rb,
                a[0] < 256,
                b[0] < 256,
        ;
        lemma_le_nat_injective(a.drop_first(), b.drop_first());
        assert(a =~= b) by {
            assert forall|i: int| 0 <= i < a.len() implies a[i] == b[i] by {
                if i > 0 {
                    assert(a[i] == a.drop_first()[i - 1]);
                    assert(b[i] == b.drop_first()[i - 1]);
                }
            }
        }
    } else {
        assert(a =~= b);
    }
}

/// A byte string is all zeros exactly when its value is zero.
pub proof fn lemma_le_nat_zero(s: Seq<u8>)
    ensures
        (le_nat(s) == 0) <==> (forall|i: int| 0 <= i < s.len() ==> s[i] == 0),
    decreases s.len(),
{
    if s.len() > 0 {
        lemma_le_nat_zero(s.drop_first());
        if le_nat(s) == 0 {
            assert forall|i: int| 0 <= i < s.len() implies s[i] == 0 by {
                if i > 0 {
                    assert(s[i] == s.drop_first()[i - 1]);
                }
            }
        }
        if forall|i: int| 0 <= i < s.len() ==> s[i] == 0 {
            assert(s[0] == 0);
            assert forall|i: int| 0 <= i < s.drop_first().len() implies s.drop_first()[i] == 0 by {
                assert(s.drop_first()[i] == s[i + 1]);
            }
        }
    }
}

/// A 32-byte string whose top byte has its high bit set is at least 2^255;
/// with that bit clear it is below 2^255.
pub proof fn lemma_le_nat_top(s: Seq<u8>)
    requires
        s.len() == 32,
    ensures
        s[31] >= 128 ==> le_nat(s) >= 128 * vstd::arithmetic::power::pow(256, 31),
{
    lemma_le_nat_split(s, 31);
    if s[31] >= 128 {
        assert(le_nat(s.subrange(31, 32)) == s[31] as nat) by {
            let t = s.subrange(31, 32);
            assert(t.drop_first().len() == 0);
            assert(le_nat(t.drop_first()) == 0);
            assert(t[0] == s[31]);
        }
        assert(le_nat(s) >= 128 * vstd::arithmetic::power::pow(256, 31)) by (nonlinear_arith)
            requires
                le_nat(s) == le_nat(s.subrange(0, 31)) + vstd::arithmetic::power::pow(256, 31) * le_nat(s.subrange(31, 32)),
                le_nat(s.subrange(31, 32)) >= 128,
                vstd::arithmetic::power::pow(256, 31) >= 0,
        ;
    }
}

/// The value of a byte string is that of its first `k` bytes plus 256^k times that of the rest.
pub proof fn lemma_le_nat_split(s: Seq<u8>, k: int)
    requires
        0 <= k <= s.len(),
    ensures
        le_nat(s) == le_nat(s.subrange(0, k)) + vstd::arithmetic::power::pow(256, k as nat) * le_nat(s.subrange(k, s.len() as int)),
        vstd::arithmetic::power::pow(256, k as nat) >= 1,
    decreases k,
{
    reveal(vstd::arithmetic::power::pow);
    if k == 0 {
        assert(s.subrange(0, 0).len() == 0);
        assert(s.subrange(0, s.len() as int) =~= s);
    } else {
        let t = s.drop_first();
        lemma_le_nat_split(t, k - 1);
        assert(t.subrange(0, k - 1) =~= s.subrange(0, k).drop_first());
        assert(t.subrange(k - 1, t.len() as int) =~= s.subrange(k, s.len() as int));
        let a = le_nat(t.subrange(0, k - 1));
        let b = le_nat(s.subrange(k, s.len() as int));
        let q = vstd::arithmetic::power::pow(256, (k - 1) as nat);
        assert(vstd::arithmetic::power::pow(256, k as nat) == 256 * q);
        assert(s[0] as nat + 256 * (a + q * b) == (s[0] as nat + 256 * a) + (256 * q) * b) by (nonlinear_arith);
    }
}

/// The four bytes of `v` read back give `v`.
pub proof fn lemma_u32_le_value(v: u32)
    ensures
        u32_le(v).len() == 4,
        u32_at(u32_le(v), 0) == v,
{
    let b = u32_le(v);
    assert(u32_at(b, 0) == v) by (nonlinear_arith)
        requires
            b[0] == (v % 256) as u8,
            b[1] == ((v / 256) % 256) as u8,
            b[2] == ((v / 65536) % 256) as u8,
            b[3] == (v / 16777216) as u8,
            u32_at(b, 0) == b[0] as nat + 256 * b[1] as nat + 65536 * b[2] as nat + 16777216 * b[3] as nat,
    ;
}

/// Four bytes of `v` found at `at` read back as `v`.
pub proof fn lemma_u32_at_of(s: Seq<u8>, at: int, v: u32)
    requires
        0 <= at,
        at + 4 <= s.len(),
        s.subrange(at, at + 4) == u32_le(v),
    ensures
        u32_at(s, at) == v,
{
    lemma_u32_le_value(v);
    let b = u32_le(v);
    assert(s[at] == b[0] && s[at + 1] == b[1] && s[at + 2] == b[2] && s[at + 3] == b[3]);
}

/// The length of a little-endian encoding.
pub proof fn lemma_nat_to_le_len(v: nat, n: nat)
    ensures
        nat_to_le(v, n).len() == n,
    decreases n,
{
    if n > 0 {
        lemma_nat_to_le_len(v / 256, (n - 1) as nat);
    }
}

/// Reads the little-endian `u32` at `at`.
pub fn read_u32(s: &[u8], at: usize) -> (r: u32)
    requires
        at + 4 <= s@.len(),
    ensures
        r as nat == u32_at(s@, at as int),
{
    let b0 = s[at] as u32;
    let b1 = s[at + 1] as u32;
    let b2 = s[at + 2] as u32;
    let b3 = s[at + 3] as u32;
    b0 + 256 * b1 + 65536 * b2 + 16777216 * b3
}

/// Appends the four little-endian bytes of `v`.
pub fn push_u32(out: &mut Vec<u8>, v: u32)
    ensures
        final(out)@ == old(out)@ + u32_le(v),
        u32_at(final(out)@, old(out)@.len() as int) == v,
{
    out.push((v % 256) as u8);
    out.push(((v / 256) % 256) as u8);
    out.push(((v / 65536) % 256) as u8);
    out.push((v / 16777216) as u8);
    assert(final(out)@ =~= old(out)@ + u32_le(v));
    let ghost s = final(out)@;
    let ghost n = old(out)@.len() as int;
    assert(u32_at(s, n) == v) by (nonlinear_arith)
        requires
            s[n] == (v % 256) as u8,
            s[n + 1] == ((v / 256) % 256) as u8,
            s[n + 2] == ((v / 65536) % 256) as u8,
            s[n + 3] == (v / 16777216) as u8,
            u32_at(s, n) == s[n] as nat + 256 * s[n + 1] as nat + 65536 * s[n + 2] as nat
                + 16777216 * s[n + 3] as nat,
    ;
}

} // verus!
