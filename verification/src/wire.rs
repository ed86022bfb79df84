//! Big-endian integer interpretation of byte sequences.
//!
//! Every number in the wire format is big-endian; signed values are in
//! two's complement. The spec functions here are the mathematical meaning
//! of those encodings, and the executable readers are proved against them.

use vstd::arithmetic::mul::lemma_mul_inequality;
use vstd::arithmetic::power2::*;
use vstd::prelude::*;

verus! {

/// The unsigned big-endian value of a byte sequence.
pub open spec fn be_unsigned(s: Seq<u8>) -> int
    decreases s.len(),
{
    if s.len() == 0 {
        0
    } else {
        be_unsigned(s.drop_last()) * 256 + s.last()
    }
}

/// The two's-complement big-endian value of a byte sequence: the top bit
/// of the first byte is the sign bit.
pub open spec fn be_signed(s: Seq<u8>) -> int {
    if s.len() > 0 && s[0] >= 128 {
        be_unsigned(s) - pow2((8 * s.len()) as nat)
    } else {
        be_unsigned(s)
    }
}

/// The unsigned big-endian value of a two-byte sequence, as the wire
/// format's 16-bit length and count prefixes use it.
pub open spec fn be_u16(s: Seq<u8>) -> int
    recommends
        s.len() == 2,
{
    s[0] * 256 + s[1]
}

pub proof fn lemma_be_unsigned_bounds(s: Seq<u8>)
    ensures
        0 <= be_unsigned(s) < pow2((8 * s.len()) as nat),
    decreases s.len(),
{
    lemma2_to64();
    if s.len() > 0 {
        lemma_be_unsigned_bounds(s.drop_last());
        lemma_pow2_adds((8 * (s.len() - 1)) as nat, 8);
    }
}

pub proof fn lemma_be_unsigned_first(s: Seq<u8>)
    requires
        s.len() >= 1,
    ensures
        be_unsigned(s) == s[0] * pow2((8 * (s.len() - 1)) as nat) + be_unsigned(s.skip(1)),
    decreases s.len(),
{
    lemma2_to64();
    if s.len() == 1 {
        assert(s.drop_last() =~= Seq::<u8>::empty());
        assert(s.skip(1) =~= Seq::<u8>::empty());
        assert(be_unsigned(Seq::<u8>::empty()) == 0);
        assert(s.last() == s[0]);
        assert(be_unsigned(s) == be_unsigned(s.drop_last()) * 256 + s.last());
        assert(be_unsigned(s) == s[0]);
        assert(pow2((8 * (s.len() - 1)) as nat) == 1);
        assert(be_unsigned(s.skip(1)) == 0);
        assert(s[0] * pow2((8 * (s.len() - 1)) as nat) == s[0]);
    } else {
        let d = s.drop_last();
        lemma_be_unsigned_first(d);
        let p = pow2((8 * (s.len() - 2)) as nat) as int;
        assert(d[0] == s[0]);
        assert(d.skip(1) =~= s.skip(1).drop_last());
        assert(s.skip(1).last() == s.last());
        lemma_pow2_adds((8 * (s.len() - 2)) as nat, 8);
        assert(be_unsigned(s) == be_unsigned(d) * 256 + s.last());
        assert(be_unsigned(d) == s[0] * p + be_unsigned(d.skip(1)));
        assert((s[0] * p + be_unsigned(d.skip(1))) * 256 == s[0] * (p * 256) + be_unsigned(
            d.skip(1),
        ) * 256) by (nonlinear_arith);
        assert(be_unsigned(s.skip(1)) == be_unsigned(s.skip(1).drop_last()) * 256 + s.skip(
            1,
        ).last());
        assert(pow2((8 * (s.len() - 1)) as nat) == p * 256);
    }
}

pub proof fn lemma_be_signed_bounds(s: Seq<u8>)
    requires
        s.len() >= 1,
    ensures
        -pow2((8 * s.len() - 1) as nat) <= be_signed(s) < pow2((8 * s.len() - 1) as nat),
{
    lemma2_to64();
    let n = s.len() as int;
    let p = pow2((8 * (n - 1)) as nat) as int;
    lemma_be_unsigned_first(s);
    lemma_be_unsigned_bounds(s.skip(1));
    lemma_be_unsigned_bounds(s);
    lemma_pow2_adds((8 * (n - 1)) as nat, 7);
    lemma_pow2_adds((8 * (n - 1)) as nat, 8);
    if s[0] >= 128 {
        lemma_mul_inequality(128, s[0] as int, p);
    } else {
        lemma_mul_inequality(s[0] as int, 127, p);
    }
}

pub proof fn lemma_be_signed_step(s: Seq<u8>, i: int)
    requires
        1 <= i < s.len(),
    ensures
        be_signed(s.take(i + 1)) == be_signed(s.take(i)) * 256 + s[i],
{
    let t1 = s.take(i + 1);
    let t0 = s.take(i);
    assert(t1.drop_last() =~= t0);
    assert(t1.last() == s[i]);
    assert(t1[0] == s[0]);
    assert(t0[0] == s[0]);
    if s[0] >= 128 {
        lemma_pow2_adds((8 * i) as nat, 8);
        lemma2_to64();
    }
}

pub proof fn lemma_be_unsigned_injective(a: Seq<u8>, b: Seq<u8>)
    requires
        a.len() == b.len(),
        be_unsigned(a) == be_unsigned(b),
    ensures
        a == b,
    decreases a.len(),
{
    if a.len() == 0 {
        assert(a =~= b);
    } else {
        let ua = be_unsigned(a.drop_last());
        let ub = be_unsigned(b.drop_last());
        assert(ua * 256 + a.last() == ub * 256 + b.last());
        assert(ua == ub && a.last() == b.last());
        lemma_be_unsigned_injective(a.drop_last(), b.drop_last());
        assert forall|i: int| 0 <= i < a.len() implies a[i] == b[i] by {
            if i < a.len() - 1 {
                assert(a[i] == a.drop_last()[i]);
                assert(b[i] == b.drop_last()[i]);
            }
        }
        assert(a =~= b);
    }
}

/// Decoding fixed-width integers is injective: two byte patterns of the
/// same width that decode to the same two's-complement value are the same
/// pattern.
pub proof fn lemma_be_signed_injective(a: Seq<u8>, b: Seq<u8>)
    requires
        a.len() == b.len(),
        be_signed(a) == be_signed(b),
    ensures
        a == b,
{
    if a.len() == 0 {
        assert(a =~= b);
    } else {
        lemma_be_unsigned_bounds(a);
        lemma_be_unsigned_bounds(b);
        lemma_be_unsigned_injective(a, b);
    }
}

proof fn lemma_pow2_le(e1: nat, e2: nat)
    requires
        e1 <= e2,
    ensures
        pow2(e1) <= pow2(e2),
{
    if e1 < e2 {
        lemma_pow2_strictly_increases(e1, e2);
    }
}

/// Reads a whole slice of one to eight bytes as a big-endian
/// two's-complement integer.
pub fn read_be_signed(bytes: &[u8]) -> (r: i64)
    requires
        1 <= bytes@.len() <= 8,
    ensures
        r as int == be_signed(bytes@),
{
    let ghost s = bytes@;
    let n = bytes.len();
    let b0 = bytes[0];
    let mut acc: i64 = if b0 >= 128 {
        (b0 as i64) - 256
    } else {
        b0 as i64
    };
    proof {
        lemma2_to64();
        assert(s.take(1).drop_last() =~= Seq::<u8>::empty());
        assert(be_unsigned(Seq::<u8>::empty()) == 0);
        assert(s.take(1).last() == s[0]);
        assert(be_unsigned(s.take(1)) == s[0]);
        assert(acc as int == be_signed(s.take(1)));
        lemma_be_signed_bounds(s.take(1));
    }
    let mut i: usize = 1;
    while i < n
        invariant
            1 <= i <= n,
            n == s.len() <= 8,
            bytes@ == s,
            acc as int == be_signed(s.take(i as int)),
            -pow2((8 * i - 1) as nat) <= acc as int,
            (acc as int) < pow2((8 * i - 1) as nat),
        decreases n - i,
    {
        proof {
            lemma_be_signed_step(s, i as int);
            lemma_pow2_le((8 * i - 1) as nat, 55);
            lemma_pow2_adds(55, 8);
            lemma2_to64();
            lemma2_to64_rest();
            lemma_be_signed_bounds(s.take(i as int + 1));
        }
        acc = acc * 256 + (bytes[i] as i64);
        i = i + 1;
    }
    proof {
        assert(s.take(n as int) =~= s);
    }
    acc
}

pub proof fn lemma_be_unsigned_step(s: Seq<u8>, i: int)
    requires
        0 <= i < s.len(),
    ensures
        be_unsigned(s.take(i + 1)) == be_unsigned(s.take(i)) * 256 + s[i],
{
    let t1 = s.take(i + 1);
    assert(t1.drop_last() =~= s.take(i));
    assert(t1.last() == s[i]);
}

/// Reads a whole slice of up to eight bytes as a big-endian unsigned
/// integer.
pub fn read_be_unsigned(bytes: &[u8]) -> (r: u64)
    requires
        bytes@.len() <= 8,
    ensures
        r as int == be_unsigned(bytes@),
{
    let ghost s = bytes@;
    let n = bytes.len();
    let mut acc: u64 = 0;
    proof {
        lemma2_to64();
        assert(s.take(0) =~= Seq::<u8>::empty());
        assert(be_unsigned(Seq::<u8>::empty()) == 0);
    }
    let mut i: usize = 0;
    while i < n
        invariant
            i <= n,
            n == s.len() <= 8,
            bytes@ == s,
            acc as int == be_unsigned(s.take(i as int)),
            (acc as int) < pow2((8 * i) as nat),
        decreases n - i,
    {
        proof {
            lemma_be_unsigned_step(s, i as int);
            lemma_pow2_le((8 * i) as nat, 56);
            lemma_pow2_adds(56, 8);
            lemma2_to64();
            lemma2_to64_rest();
            lemma_be_unsigned_bounds(s.take(i as int + 1));
        }
        acc = acc * 256 + (bytes[i] as u64);
        i = i + 1;
    }
    proof {
        assert(s.take(n as int) =~= s);
    }
    acc
}

/// Reads a whole two-byte slice as a big-endian unsigned 16-bit integer.
pub fn read_be_u16(bytes: &[u8]) -> (r: u16)
    requires
        bytes@.len() == 2,
    ensures
        r as int == be_u16(bytes@),
{
    (bytes[0] as u16) * 256 + (bytes[1] as u16)
}

} // verus!
