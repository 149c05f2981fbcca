//! Big-endian encoding of 32-bit integers as four bytes.
//!
//! All integers in the container format are stored big-endian with no
//! padding. The two spec functions here are exact inverses of each other,
//! which the lemmas below establish.

use vstd::prelude::*;

verus! {

/// The integer stored big-endian in the four bytes of `b`.
pub open spec fn u32_of_be_bytes(b: Seq<u8>) -> u32
    recommends
        b.len() == 4,
{
    ((((b[0] as u32) << 24) | ((b[1] as u32) << 16) | ((b[2] as u32) << 8) | (b[3] as u32)) as u32)
}

/// The four big-endian bytes of `x`.
pub open spec fn be_bytes_of_u32(x: u32) -> Seq<u8> {
    seq![
        ((x >> 24) & 0xff) as u8,
        ((x >> 16) & 0xff) as u8,
        ((x >> 8) & 0xff) as u8,
        (x & 0xff) as u8,
    ]
}

/// Encoding an integer always yields four bytes.
pub broadcast proof fn lemma_be_bytes_len(x: u32)
    ensures
        (#[trigger] be_bytes_of_u32(x)).len() == 4,
{
}

/// Decoding the encoding of `x` gives back `x`.
pub proof fn lemma_u32_be_round_trip(x: u32)
    ensures
        u32_of_be_bytes(be_bytes_of_u32(x)) == x,
{
    assert((((((x >> 24) & 0xff) as u8 as u32) << 24) | ((((x >> 16) & 0xff) as u8 as u32) << 16)
        | ((((x >> 8) & 0xff) as u8 as u32) << 8) | ((x & 0xff) as u8 as u32)) as u32 == x)
        by (bit_vector);
}

/// Encoding the decoding of four bytes gives back the same bytes.
pub proof fn lemma_be_bytes_round_trip(b: Seq<u8>)
    requires
        b.len() == 4,
    ensures
        be_bytes_of_u32(u32_of_be_bytes(b)) == b,
{
    let b0 = b[0];
    let b1 = b[1];
    let b2 = b[2];
    let b3 = b[3];
    let x = u32_of_be_bytes(b);
    assert(((x >> 24) & 0xff) as u8 == b0 && ((x >> 16) & 0xff) as u8 == b1 && ((x >> 8) & 0xff)
        as u8 == b2 && (x & 0xff) as u8 == b3) by (bit_vector)
        requires
            x == ((((b0 as u32) << 24) | ((b1 as u32) << 16) | ((b2 as u32) << 8) | (b3 as u32))
                as u32),
    ;
    assert(be_bytes_of_u32(x) =~= b);
}

/// Two distinct four-byte sequences never decode to the same integer.
pub proof fn lemma_u32_of_be_bytes_injective(a: Seq<u8>, b: Seq<u8>)
    requires
        a.len() == 4,
        b.len() == 4,
        u32_of_be_bytes(a) == u32_of_be_bytes(b),
    ensures
        a == b,
{
    lemma_be_bytes_round_trip(a);
    lemma_be_bytes_round_trip(b);
}

/// Reads the big-endian integer stored at `buf[at .. at + 4]`.
pub fn read_be_u32(buf: &[u8], at: usize) -> (r: u32)
    requires
        at + 4 <= buf@.len(),
    ensures
        r == u32_of_be_bytes(buf@.subrange(at as int, at as int + 4)),
{
    let r = ((buf[at] as u32) << 24) | ((buf[at + 1] as u32) << 16) | ((buf[at + 2] as u32) << 8)
        | (buf[at + 3] as u32);
    proof {
        let w = buf@.subrange(at as int, at as int + 4);
        assert(w[0] == buf@[at as int] && w[1] == buf@[at as int + 1] && w[2] == buf@[at as int + 2]
            && w[3] == buf@[at as int + 3]);
    }
    r
}

/// Appends the four big-endian bytes of `x` to `out`.
pub fn push_be_u32(out: &mut Vec<u8>, x: u32)
    ensures
        final(out)@ == old(out)@ + be_bytes_of_u32(x),
{
    out.push(((x >> 24) & 0xff) as u8);
    out.push(((x >> 16) & 0xff) as u8);
    out.push(((x >> 8) & 0xff) as u8);
    out.push((x & 0xff) as u8);
    assert(out@ =~= old(out)@ + be_bytes_of_u32(x));
}

} // verus!
