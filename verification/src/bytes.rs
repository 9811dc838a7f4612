//! Big-endian encoding of 32-bit counters and keys.
//!
//! Checkpoints, sequential ids, indices and accumulated weights are all
//! persisted as 4-byte big-endian values.

use vstd::prelude::*;

verus! {

/// The 4-byte big-endian image of `n`.
pub open spec fn spec_u32_to_be(n: u32) -> Seq<u8> {
    seq![
        (n / 0x1000000) as u8,
        ((n / 0x10000) % 0x100) as u8,
        ((n / 0x100) % 0x100) as u8,
        (n % 0x100) as u8,
    ]
}

/// The value a 4-byte big-endian sequence stands for.
pub open spec fn spec_u32_from_be(s: Seq<u8>) -> u32
    recommends
        s.len() == 4,
{
    (s[0] as nat * 0x1000000 + s[1] as nat * 0x10000 + s[2] as nat * 0x100 + s[3] as nat) as u32
}

/// Decoding inverts encoding.
pub proof fn lemma_u32_be_roundtrip(n: u32)
    ensures
        spec_u32_from_be(spec_u32_to_be(n)) == n,
{
    let s = spec_u32_to_be(n);
    assert(s[0] as nat * 0x1000000 + s[1] as nat * 0x10000 + s[2] as nat * 0x100 + s[3] as nat
        == n as nat) by {
        assert((n / 0x1000000) as nat * 0x1000000 + ((n / 0x10000) % 0x100) as nat * 0x10000 + ((n
            / 0x100) % 0x100) as nat * 0x100 + (n % 0x100) as nat == n as nat) by (bit_vector);
    };
}

/// Encoding the value a 4-byte sequence stands for gives the sequence back.
pub proof fn lemma_u32_be_left_inverse(s: Seq<u8>)
    requires
        s.len() == 4,
    ensures
        spec_u32_to_be(spec_u32_from_be(s)) == s,
{
    let n = spec_u32_from_be(s);
    assert(n as nat == s[0] as nat * 0x1000000 + s[1] as nat * 0x10000 + s[2] as nat * 0x100
        + s[3] as nat) by (nonlinear_arith)
        requires
            s[0] < 0x100 && s[1] < 0x100 && s[2] < 0x100 && s[3] < 0x100 && n == (s[0] as nat
                * 0x1000000 + s[1] as nat * 0x10000 + s[2] as nat * 0x100 + s[3] as nat) as u32,
    ;
    assert(n / 0x1000000 == s[0] && (n / 0x10000) % 0x100 == s[1] && (n / 0x100) % 0x100 == s[2]
        && n % 0x100 == s[3]) by (nonlinear_arith)
        requires
            s[0] < 0x100 && s[1] < 0x100 && s[2] < 0x100 && s[3] < 0x100,
            n as nat == s[0] as nat * 0x1000000 + s[1] as nat * 0x10000 + s[2] as nat * 0x100
                + s[3] as nat,
    ;
    assert(spec_u32_to_be(n) =~= s);
}

/// Distinct values have distinct images.
pub proof fn lemma_u32_be_injective(a: u32, b: u32)
    requires
        spec_u32_to_be(a) == spec_u32_to_be(b),
    ensures
        a == b,
{
    lemma_u32_be_roundtrip(a);
    lemma_u32_be_roundtrip(b);
}

/// Encode `n` as its 4 big-endian bytes.
pub fn u32_to_be(n: u32) -> (r: Vec<u8>)
    ensures
        r@ == spec_u32_to_be(n),
{
    let mut r: Vec<u8> = Vec::new();
    assert(n >> 24 == n / 0x1000000 && n >> 24 < 0x100) by (bit_vector);
    assert((n >> 16) & 0xff == (n / 0x10000) % 0x100) by (bit_vector);
    assert((n >> 8) & 0xff == (n / 0x100) % 0x100) by (bit_vector);
    assert(n & 0xff == n % 0x100) by (bit_vector);
    r.push((n >> 24) as u8);
    r.push(((n >> 16) & 0xff) as u8);
    r.push(((n >> 8) & 0xff) as u8);
    r.push((n & 0xff) as u8);
    assert(r@ =~= spec_u32_to_be(n));
    r
}

/// Read a value back from its 4 big-endian bytes.
pub fn u32_from_be(s: &Vec<u8>) -> (r: u32)
    requires
        s@.len() == 4,
    ensures
        r == spec_u32_from_be(s@),
{
    let b0 = s[0] as u32;
    let b1 = s[1] as u32;
    let b2 = s[2] as u32;
    let b3 = s[3] as u32;
    assert(b0 * 0x1000000 + b1 * 0x10000 + b2 * 0x100 + b3 < 0x100000000) by (nonlinear_arith)
        requires
            b0 < 0x100 && b1 < 0x100 && b2 < 0x100 && b3 < 0x100,
    ;
    b0 * 0x1000000 + b1 * 0x10000 + b2 * 0x100 + b3
}

} // verus!
