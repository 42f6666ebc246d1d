//! Big-endian integer encodings and byte-sequence helpers used by the wire
//! codec and the message codec.
use vstd::prelude::*;

verus! {

// ---------------------------------------------------------------------------
// Big-endian encodings of fixed-width integers
// ---------------------------------------------------------------------------

/// The two big-endian bytes of a 16-bit value.
pub open spec fn be16(v: u16) -> Seq<u8> {
    seq![(v >> 8) as u8, v as u8]
}

/// The four big-endian bytes of a 32-bit value.
pub open spec fn be32(v: u32) -> Seq<u8> {
    seq![(v >> 24) as u8, (v >> 16) as u8, (v >> 8) as u8, v as u8]
}

/// The eight big-endian bytes of a 64-bit value.
pub open spec fn be64(v: u64) -> Seq<u8> {
    seq![
        (v >> 56) as u8,
        (v >> 48) as u8,
        (v >> 40) as u8,
        (v >> 32) as u8,
        (v >> 24) as u8,
        (v >> 16) as u8,
        (v >> 8) as u8,
        v as u8,
    ]
}

/// The 16-bit value read back from two big-endian bytes.
pub open spec fn be16_val(s: Seq<u8>) -> int {
    s[0] * 0x100 + s[1]
}

pub proof fn lemma_be16_val(v: u16)
    ensures
        be16_val(be16(v)) == v,
{
    assert(((v >> 8) as u8) as u16 * 0x100 + (v as u8) as u16 == v) by (bit_vector);
}

/// Distinct 32-bit values never share a big-endian encoding; this is what
/// makes counter-derived nonce prefixes unrepeatable.
pub proof fn lemma_be32_injective(a: u32, b: u32)
    requires
        a != b,
    ensures
        be32(a) != be32(b),
{
    if be32(a) == be32(b) {
        assert((a >> 24) as u8 == (b >> 24) as u8 && (a >> 16) as u8 == (b >> 16) as u8 && (a >> 8)
            as u8 == (b >> 8) as u8 && a as u8 == b as u8);
        assert(false) by (bit_vector)
            requires
                (a >> 24) as u8 == (b >> 24) as u8 && (a >> 16) as u8 == (b >> 16) as u8 && (a >> 8)
                    as u8 == (b >> 8) as u8 && a as u8 == b as u8 && a != b,
        ;
    }
}

/// Distinct 64-bit values never share a big-endian encoding.
pub proof fn lemma_be64_injective(a: u64, b: u64)
    requires
        a != b,
    ensures
        be64(a) != be64(b),
{
    if be64(a) == be64(b) {
        assert((a >> 56) as u8 == (b >> 56) as u8 && (a >> 48) as u8 == (b >> 48) as u8 && (a
            >> 40) as u8 == (b >> 40) as u8 && (a >> 32) as u8 == (b >> 32) as u8 && (a >> 24)
            as u8 == (b >> 24) as u8 && (a >> 16) as u8 == (b >> 16) as u8 && (a >> 8) as u8 == (b
            >> 8) as u8 && a as u8 == b as u8);
        assert(false) by (bit_vector)
            requires
                (a >> 56) as u8 == (b >> 56) as u8 && (a >> 48) as u8 == (b >> 48) as u8 && (a
                    >> 40) as u8 == (b >> 40) as u8 && (a >> 32) as u8 == (b >> 32) as u8 && (a
                    >> 24) as u8 == (b >> 24) as u8 && (a >> 16) as u8 == (b >> 16) as u8 && (a
                    >> 8) as u8 == (b >> 8) as u8 && a as u8 == b as u8 && a != b,
        ;
    }
}

pub fn be16_encode(v: u16, out: &mut Vec<u8>)
    ensures
        final(out)@ == old(out)@ + be16(v),
{
    out.push((v >> 8) as u8);
    out.push(v as u8);
    assert(final(out)@ =~= old(out)@ + be16(v));
}

pub fn be32_encode(v: u32, out: &mut Vec<u8>)
    ensures
        final(out)@ == old(out)@ + be32(v),
{
    out.push((v >> 24) as u8);
    out.push((v >> 16) as u8);
    out.push((v >> 8) as u8);
    out.push(v as u8);
    assert(final(out)@ =~= old(out)@ + be32(v));
}

pub fn be64_encode(v: u64, out: &mut Vec<u8>)
    ensures
        final(out)@ == old(out)@ + be64(v),
{
    out.push((v >> 56) as u8);
    out.push((v >> 48) as u8);
    out.push((v >> 40) as u8);
    out.push((v >> 32) as u8);
    out.push((v >> 24) as u8);
    out.push((v >> 16) as u8);
    out.push((v >> 8) as u8);
    out.push(v as u8);
    assert(final(out)@ =~= old(out)@ + be64(v));
}

/// Reads a big-endian 16-bit value from `v[at]` and `v[at + 1]`.
pub fn be16_decode(v: &Vec<u8>, at: usize) -> (r: u16)
    requires
        at + 2 <= v.len(),
    ensures
        be16(r) == v@.subrange(at as int, at + 2),
{
    let b0 = v[at];
    let b1 = v[at + 1];
    let r = ((b0 as u16) << 8) | (b1 as u16);
    proof {
        assert((r >> 8) as u8 == b0 && r as u8 == b1) by (bit_vector)
            requires
                r == ((b0 as u16) << 8) | (b1 as u16),
        ;
        assert(be16(r) =~= v@.subrange(at as int, at + 2));
    }
    r
}

/// Reads a big-endian 64-bit value from the eight bytes at `v[at]`.
pub fn be64_decode(v: &Vec<u8>, at: usize) -> (r: u64)
    requires
        at + 8 <= v.len(),
    ensures
        be64(r) == v@.subrange(at as int, at + 8),
{
    let b0 = v[at];
    let b1 = v[at + 1];
    let b2 = v[at + 2];
    let b3 = v[at + 3];
    let b4 = v[at + 4];
    let b5 = v[at + 5];
    let b6 = v[at + 6];
    let b7 = v[at + 7];
    let hi = ((b0 as u64) << 56) | ((b1 as u64) << 48) | ((b2 as u64) << 40) | ((b3 as u64) << 32);
    let lo = ((b4 as u64) << 24) | ((b5 as u64) << 16) | ((b6 as u64) << 8) | (b7 as u64);
    let r = hi | lo;
    proof {
        assert((r >> 56) as u8 == b0 && (r >> 48) as u8 == b1 && (r >> 40) as u8 == b2 && (r >> 32)
            as u8 == b3 && (r >> 24) as u8 == b4 && (r >> 16) as u8 == b5 && (r >> 8) as u8 == b6
            && r as u8 == b7) by (bit_vector)
            requires
                r == (((b0 as u64) << 56) | ((b1 as u64) << 48) | ((b2 as u64) << 40) | ((b3
                    as u64) << 32)) | (((b4 as u64) << 24) | ((b5 as u64) << 16) | ((b6 as u64)
                    << 8) | (b7 as u64)),
        ;
        assert(be64(r) =~= v@.subrange(at as int, at + 8));
    }
    r
}

// ---------------------------------------------------------------------------
// Variable-length big-endian values
// ---------------------------------------------------------------------------

/// 256 to the power `n`.
pub open spec fn pow256(n: nat) -> int
    decreases n,
{
    if n == 0 {
        1
    } else {
        0x100 * pow256((n - 1) as nat)
    }
}

/// The value of bytes read as a big-endian integer.
pub open spec fn seq_be_val(s: Seq<u8>) -> int
    decreases s.len(),
{
    if s.len() == 0 {
        0
    } else {
        seq_be_val(s.drop_last()) * 0x100 + s.last()
    }
}

pub proof fn lemma_seq_be_val_bound(s: Seq<u8>)
    ensures
        0 <= seq_be_val(s) < pow256(s.len()),
    decreases s.len(),
{
    if s.len() > 0 {
        lemma_seq_be_val_bound(s.drop_last());
        assert(seq_be_val(s.drop_last()) * 0x100 + s.last() < 0x100 * pow256((s.len() - 1) as nat))
            by (nonlinear_arith)
            requires
                0 <= seq_be_val(s.drop_last()) < pow256((s.len() - 1) as nat),
                0 <= s.last() < 0x100,
        ;
        assert(seq_be_val(s.drop_last()) * 0x100 >= 0) by (nonlinear_arith)
            requires
                seq_be_val(s.drop_last()) >= 0,
        ;
    }
}

/// The minimal big-endian encoding of a nonnegative value: no leading zero,
/// and zero encodes to no bytes at all.
pub open spec fn min_be(n: int) -> Seq<u8>
    decreases n,
{
    if n <= 0 {
        Seq::empty()
    } else {
        min_be(n / 0x100).push((n % 0x100) as u8)
    }
}

/// Reads the big-endian value of `v[at..at + l]`, which fits in 64 bits.
pub fn read_be_val(v: &Vec<u8>, at: usize, l: usize) -> (r: u64)
    requires
        l <= 8,
        at + l <= v.len(),
    ensures
        r == seq_be_val(v@.subrange(at as int, at + l)),
{
    proof {
        lemma_pow256_le(l as nat, 8);
        lemma_pow256_8();
    }
    let mut r: u64 = 0;
    let mut i: usize = 0;
    while i < l
        invariant
            i <= l <= 8,
            at + l <= v.len(),
            r == seq_be_val(v@.subrange(at as int, at + i)),
            r < pow256(i as nat),
            pow256(l as nat) <= pow256(8),
            pow256(8) == 0x1_0000_0000_0000_0000,
        decreases l - i,
    {
        proof {
            lemma_pow256_le(i as nat, 7);
            lemma_pow256_7();
            assert(r * 0x100 + v@[at + i] < 0x100 * pow256(i as nat)) by (nonlinear_arith)
                requires
                    0 <= r < pow256(i as nat),
                    0 <= v@[at + i] < 0x100,
            ;
            lemma_pow256_le((i + 1) as nat, 8);
        }
        let b = v[at + i];
        r = r * 0x100 + (b as u64);
        proof {
            let s1 = v@.subrange(at as int, at + i + 1);
            assert(s1.drop_last() =~= v@.subrange(at as int, at + i));
            assert(s1.last() == b);
        }
        i = i + 1;
    }
    proof {
        assert(v@.subrange(at as int, at + i) =~= v@.subrange(at as int, at + l));
    }
    r
}

proof fn lemma_pow256_7()
    ensures
        pow256(7) == 0x100_0000_0000_0000,
{
    assert(pow256(0) == 1);
    assert(pow256(1) == 0x100);
    assert(pow256(2) == 0x1_0000);
    assert(pow256(3) == 0x100_0000);
    assert(pow256(4) == 0x1_0000_0000);
    assert(pow256(5) == 0x100_0000_0000);
    assert(pow256(6) == 0x1_0000_0000_0000);
}

proof fn lemma_pow256_8()
    ensures
        pow256(8) == 0x1_0000_0000_0000_0000,
{
    lemma_pow256_7();
}

proof fn lemma_pow256_le(a: nat, b: nat)
    requires
        a <= b,
    ensures
        pow256(a) <= pow256(b),
    decreases b,
{
    if a < b {
        lemma_pow256_le(a, (b - 1) as nat);
        lemma_pow256_pos((b - 1) as nat);
        assert(pow256((b - 1) as nat) <= 0x100 * pow256((b - 1) as nat)) by (nonlinear_arith)
            requires
                pow256((b - 1) as nat) >= 1,
        ;
    }
}

proof fn lemma_pow256_pos(n: nat)
    ensures
        pow256(n) >= 1,
    decreases n,
{
    if n > 0 {
        lemma_pow256_pos((n - 1) as nat);
        assert(0x100 * pow256((n - 1) as nat) >= pow256((n - 1) as nat)) by (nonlinear_arith)
            requires
                pow256((n - 1) as nat) >= 1,
        ;
    }
}

/// Writes the minimal big-endian bytes of `n`.
pub fn min_be_encode(n: u64, out: &mut Vec<u8>)
    ensures
        final(out)@ == old(out)@ + min_be(n as int),
    decreases n,
{
    if n == 0 {
        proof {
            assert(final(out)@ =~= old(out)@ + min_be(0));
        }
        return ;
    }
    min_be_encode(n / 0x100, out);
    out.push((n % 0x100) as u8);
    proof {
        assert(final(out)@ =~= old(out)@ + min_be(n as int));
    }
}

// ---------------------------------------------------------------------------
// Pointwise exclusive or
// ---------------------------------------------------------------------------

/// `a` XORed pointwise against the first `a.len()` bytes of `b`.
pub open spec fn xor_seq(a: Seq<u8>, b: Seq<u8>) -> Seq<u8> {
    Seq::new(a.len(), |i: int| a[i] ^ b[i])
}

/// Masking is an involution: applying the same keystream twice gives the
/// original bytes back.
pub proof fn lemma_xor_involution(a: Seq<u8>, b: Seq<u8>)
    requires
        b.len() >= a.len(),
    ensures
        xor_seq(xor_seq(a, b), b) == a,
{
    assert forall|i: int| 0 <= i < a.len() implies xor_seq(xor_seq(a, b), b)[i] == a[i] by {
        let x = a[i];
        let y = b[i];
        assert((x ^ y) ^ y == x) by (bit_vector);
    }
    assert(xor_seq(xor_seq(a, b), b) =~= a);
}

/// XORs `a` pointwise against the start of `b`.
pub fn xor_bytes(a: &Vec<u8>, b: &Vec<u8>) -> (r: Vec<u8>)
    requires
        b@.len() >= a@.len(),
    ensures
        r@ == xor_seq(a@, b@),
{
    let mut r: Vec<u8> = Vec::new();
    let mut i: usize = 0;
    while i < a.len()
        invariant
            i <= a@.len(),
            b@.len() >= a@.len(),
            r@ == xor_seq(a@, b@).take(i as int),
        decreases a@.len() - i,
    {
        r.push(a[i] ^ b[i]);
        proof {
            assert(r@ =~= xor_seq(a@, b@).take(i + 1));
        }
        i = i + 1;
    }
    proof {
        assert(r@ =~= xor_seq(a@, b@));
    }
    r
}

/// Copies `v[from..to]` into a fresh vector.
pub fn subvec(v: &Vec<u8>, from: usize, to: usize) -> (r: Vec<u8>)
    requires
        from <= to <= v@.len(),
    ensures
        r@ == v@.subrange(from as int, to as int),
{
    let mut r: Vec<u8> = Vec::new();
    r.extend_from_slice(&v[from..to]);
    proof {
        assert(r@ =~= v@.subrange(from as int, to as int));
    }
    r
}

} // verus!
