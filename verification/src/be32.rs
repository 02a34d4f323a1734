//! Big-endian encoding of 32-bit unsigned values, the integer layout used by
//! every length and checksum field of the chunk envelope.

use vstd::prelude::*;

verus! {

/// The four big-endian bytes of `x`, most significant first.
pub open spec fn be32_encode(x: u32) -> Seq<u8> {
    seq![
        ((x >> 24) & 0xff) as u8,
        ((x >> 16) & 0xff) as u8,
        ((x >> 8) & 0xff) as u8,
        (x & 0xff) as u8,
    ]
}

/// The value read big-endian from the first four bytes of `b`.
pub open spec fn be32_decode(b: Seq<u8>) -> u32
    recommends
        b.len() == 4,
{
    ((b[0] as u32) << 24) | ((b[1] as u32) << 16) | ((b[2] as u32) << 8) | (b[3] as u32)
}

/// Decoding the encoding of a value gives the value back.
pub proof fn lemma_be32_decode_encode(x: u32)
    ensures
        be32_decode(be32_encode(x)) == x,
{
    let b = be32_encode(x);
    assert(b[0] == ((x >> 24) & 0xff) as u8);
    assert(b[1] == ((x >> 16) & 0xff) as u8);
    assert(b[2] == ((x >> 8) & 0xff) as u8);
    assert(b[3] == (x & 0xff) as u8);
    assert(((((x >> 24) & 0xff) as u8 as u32) << 24) | ((((x >> 16) & 0xff) as u8 as u32) << 16) | ((
    ((x >> 8) & 0xff) as u8 as u32) << 8) | ((x & 0xff) as u8 as u32) == x) by (bit_vector);
}

/// Encoding the value decoded from four bytes gives the bytes back.
pub proof fn lemma_be32_encode_decode(b: Seq<u8>)
    requires
        b.len() == 4,
    ensures
        be32_encode(be32_decode(b)) == b,
{
    let b0 = b[0];
    let b1 = b[1];
    let b2 = b[2];
    let b3 = b[3];
    let x = be32_decode(b);
    assert(x == ((b0 as u32) << 24) | ((b1 as u32) << 16) | ((b2 as u32) << 8) | (b3 as u32));
    assert({
        let y = ((b0 as u32) << 24) | ((b1 as u32) << 16) | ((b2 as u32) << 8) | (b3 as u32);
        &&& ((y >> 24) & 0xff) as u8 == b0
        &&& ((y >> 16) & 0xff) as u8 == b1
        &&& ((y >> 8) & 0xff) as u8 == b2
        &&& (y & 0xff) as u8 == b3
    }) by (bit_vector);
    assert(be32_encode(x) =~= b);
}

/// Appends the big-endian encoding of `x` to `out`.
pub fn be32_write(out: &mut Vec<u8>, x: u32)
    ensures
        final(out)@ == old(out)@ + be32_encode(x),
{
    out.push(((x >> 24) & 0xff) as u8);
    out.push(((x >> 16) & 0xff) as u8);
    out.push(((x >> 8) & 0xff) as u8);
    out.push((x & 0xff) as u8);
    proof {
        assert(out@ =~= old(out)@ + be32_encode(x));
    }
}

/// Reads a big-endian value from `buf` at offset `pos`.
pub fn be32_read(buf: &Vec<u8>, pos: usize) -> (r: u32)
    requires
        pos + 4 <= buf@.len(),
    ensures
        r == be32_decode(buf@.subrange(pos as int, pos as int + 4)),
{
    let n = buf.len();
    proof {
        assert(pos + 4 <= n);
    }
    let b0 = buf[pos] as u32;
    let b1 = buf[pos + 1] as u32;
    let b2 = buf[pos + 2] as u32;
    let b3 = buf[pos + 3] as u32;
    let r = (b0 << 24) | (b1 << 16) | (b2 << 8) | b3;
    proof {
        let s = buf@.subrange(pos as int, pos as int + 4);
        assert(s[0] == buf@[pos as int]);
        assert(s[1] == buf@[pos as int + 1]);
        assert(s[2] == buf@[pos as int + 2]);
        assert(s[3] == buf@[pos as int + 3]);
    }
    r
}

} // verus!
