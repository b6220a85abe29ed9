//! Little- and big-endian byte encodings, as used throughout the BIN1 format.
use vstd::prelude::*;
use vstd::arithmetic::div_mod::{
    lemma_div_denominator, lemma_fundamental_div_mod, lemma_mod_breakdown, lemma_small_mod,
};
use byteorder::{BigEndian, ByteOrder, LittleEndian};

verus! {

/// 256 to the power `n`.
pub open spec fn pow256(n: nat) -> nat
    decreases n,
{
    if n == 0 {
        1
    } else {
        256 * pow256((n - 1) as nat)
    }
}

/// The `n` least significant bytes of `v`, least significant first.
pub open spec fn le_bytes(v: nat, n: nat) -> Seq<u8> {
    Seq::new(n, |i: int| ((v / pow256(i as nat)) % 256) as u8)
}

/// The number that the bytes `s` encode, least significant byte first.
pub open spec fn le_value(s: Seq<u8>) -> nat
    decreases s.len(),
{
    if s.len() == 0 {
        0
    } else {
        s[0] as nat + 256 * le_value(s.drop_first())
    }
}

/// The `n` least significant bytes of `v`, most significant first.
pub open spec fn be_bytes(v: nat, n: nat) -> Seq<u8> {
    le_bytes(v, n).reverse()
}

/// The number that the bytes `s` encode, most significant byte first.
pub open spec fn be_value(s: Seq<u8>) -> nat {
    le_value(s.reverse())
}

pub proof fn lemma_pow256_positive(n: nat)
    ensures
        pow256(n) > 0,
    decreases n,
{
    if n > 0 {
        lemma_pow256_positive((n - 1) as nat);
    }
}

pub proof fn lemma_pow256_monotone(a: nat, b: nat)
    requires
        a <= b,
    ensures
        pow256(a) <= pow256(b),
    decreases b,
{
    if a < b {
        lemma_pow256_monotone(a, (b - 1) as nat);
        lemma_pow256_positive((b - 1) as nat);
    }
}

pub proof fn lemma_pow256_values()
    ensures
        pow256(0) == 1,
        pow256(1) == 0x100,
        pow256(2) == 0x1_0000,
        pow256(4) == 0x1_0000_0000,
        pow256(8) == 0x1_0000_0000_0000_0000,
{
    reveal_with_fuel(pow256, 9);
}

/// Encoding `v` in `n` bytes and decoding gives back `v` modulo `256^n`.
pub proof fn lemma_le_value_of_bytes(v: nat, n: nat)
    ensures
        le_value(le_bytes(v, n)) == v % pow256(n),
    decreases n,
{
    lemma_pow256_positive(n);
    if n == 0 {
        assert(le_bytes(v, n) =~= Seq::<u8>::empty());
    } else {
        let m = (n - 1) as nat;
        lemma_pow256_positive(m);
        assert forall|i: int| 0 <= i < m implies #[trigger] le_bytes(v, n).drop_first()[i]
            == le_bytes(v / 256, m)[i] by {
            lemma_pow256_positive(i as nat);
            lemma_div_denominator(v as int, 256, pow256(i as nat) as int);
        }
        assert(le_bytes(v, n).drop_first() =~= le_bytes(v / 256, m));
        lemma_le_value_of_bytes(v / 256, m);
        assert(pow256(0) == 1);
        assert(v / 1 == v);
        lemma_mod_breakdown(v as int, 256, pow256(m) as int);
    }
}

/// Encoding a value that fits in `n` bytes and decoding it gives it back.
pub proof fn lemma_le_roundtrip(v: nat, n: nat)
    requires
        v < pow256(n),
    ensures
        le_value(le_bytes(v, n)) == v,
        le_bytes(v, n).len() == n,
{
    lemma_le_value_of_bytes(v, n);
    lemma_small_mod(v, pow256(n));
}

/// Decoding bytes and encoding the value in as many bytes gives the bytes back.
pub proof fn lemma_le_bytes_of_value(s: Seq<u8>)
    ensures
        le_bytes(le_value(s), s.len()) == s,
    decreases s.len(),
{
    if s.len() > 0 {
        let t = s.drop_first();
        lemma_le_bytes_of_value(t);
        let v = le_value(s);
        assert(v == s[0] as nat + 256 * le_value(t));
        lemma_fundamental_div_mod(v as int, 256);
        assert((s[0] as nat + 256 * le_value(t)) / 256 == le_value(t)) by (nonlinear_arith)
            requires
                s[0] < 256,
        ;
        assert((s[0] as nat + 256 * le_value(t)) % 256 == s[0]) by (nonlinear_arith)
            requires
                s[0] < 256,
        ;
        assert forall|i: int| 0 <= i < s.len() implies le_bytes(v, s.len())[i] == s[i] by {
            if i == 0 {
                assert(pow256(0) == 1);
                assert(v / 1 == v);
            } else {
                lemma_pow256_positive((i - 1) as nat);
                lemma_div_denominator(v as int, 256, pow256((i - 1) as nat) as int);
                assert(le_bytes(le_value(t), t.len())[i - 1] == t[i - 1]);
            }
        }
        assert(le_bytes(v, s.len()) =~= s);
    }
}

/// The little-endian bytes of `v` that fit in `n` bytes, computed with arithmetic.
pub fn push_le_bytes(buf: &mut Vec<u8>, v: u64, n: usize)
    requires
        n <= 8,
    ensures
        final(buf)@ == old(buf)@ + le_bytes(v as nat, n as nat),
{
    let mut x: u64 = v;
    let mut i: usize = 0;
    let ghost start = buf@;
    proof {
        lemma_pow256_values();
    }
    while i < n
        invariant
            i <= n,
            n <= 8,
            x as nat == v as nat / pow256(i as nat),
            buf@ == start + le_bytes(v as nat, i as nat),
        decreases n - i,
    {
        let ghost old_buf = buf@;
        buf.push((x % 256) as u8);
        proof {
            lemma_pow256_positive(i as nat);
            lemma_div_denominator(v as int, pow256(i as nat) as int, 256);
            assert(pow256(i as nat) * 256 == pow256((i + 1) as nat));
            assert(le_bytes(v as nat, (i + 1) as nat) =~= le_bytes(v as nat, i as nat).push(
                ((v as nat / pow256(i as nat)) % 256) as u8,
            ));
            assert(buf@ =~= start + le_bytes(v as nat, (i + 1) as nat));
        }
        x = x / 256;
        i = i + 1;
    }
}

/// Reads a `u16` from the first two bytes of `buf`, least significant byte first
/// (`byteorder::LittleEndian::read_u16`, which panics on a shorter slice).
#[verifier::external_body]
pub(crate) fn read_u16_le(buf: &[u8]) -> (r: u16)
    requires
        buf@.len() >= 2,
    ensures
        r as nat == le_value(buf@.subrange(0, 2)),
{
    LittleEndian::read_u16(buf)
}

/// Reads a `u32` from the first four bytes of `buf`, least significant byte first
/// (`byteorder::LittleEndian::read_u32`, which panics on a shorter slice).
#[verifier::external_body]
pub(crate) fn read_u32_le(buf: &[u8]) -> (r: u32)
    requires
        buf@.len() >= 4,
    ensures
        r as nat == le_value(buf@.subrange(0, 4)),
{
    LittleEndian::read_u32(buf)
}

/// Reads a `u64` from the first eight bytes of `buf`, least significant byte first
/// (`byteorder::LittleEndian::read_u64`, which panics on a shorter slice).
#[verifier::external_body]
pub(crate) fn read_u64_le(buf: &[u8]) -> (r: u64)
    requires
        buf@.len() >= 8,
    ensures
        r as nat == le_value(buf@.subrange(0, 8)),
{
    LittleEndian::read_u64(buf)
}

/// Reads a `u32` from the first four bytes of `buf`, most significant byte first
/// (`byteorder::BigEndian::read_u32`, which panics on a shorter slice).
#[verifier::external_body]
pub(crate) fn read_u32_be(buf: &[u8]) -> (r: u32)
    requires
        buf@.len() >= 4,
    ensures
        r as nat == be_value(buf@.subrange(0, 4)),
{
    BigEndian::read_u32(buf)
}

} // verus!
