//! Little-endian length prefixes and small byte-vector helpers.

use vstd::prelude::*;

verus! {

/// The two little-endian bytes of a 16-bit integer.
pub open spec fn u16_le(n: u16) -> Seq<u8> {
    seq![(n & 0xff) as u8, ((n >> 8) & 0xff) as u8]
}

/// The four little-endian bytes of a 32-bit integer.
pub open spec fn u32_le(n: u32) -> Seq<u8> {
    seq![
        (n & 0xff) as u8,
        ((n >> 8) & 0xff) as u8,
        ((n >> 16) & 0xff) as u8,
        ((n >> 24) & 0xff) as u8,
    ]
}

/// The 16-bit integer read from two little-endian bytes.
pub open spec fn le16(b0: u8, b1: u8) -> u16 {
    (b0 as u16) | ((b1 as u16) << 8)
}

/// The 32-bit integer read from four little-endian bytes.
pub open spec fn le32(b0: u8, b1: u8, b2: u8, b3: u8) -> u32 {
    (b0 as u32) | ((b1 as u32) << 8) | ((b2 as u32) << 16) | ((b3 as u32) << 24)
}

/// Reading back the two bytes of a 16-bit integer yields that integer.
pub proof fn lemma_le16_roundtrip(n: u16)
    ensures
        le16(u16_le(n)[0], u16_le(n)[1]) == n,
{
    assert(le16((n & 0xff) as u8, ((n >> 8) & 0xff) as u8) == n) by (bit_vector);
}

/// Reading back the four bytes of a 32-bit integer yields that integer.
pub proof fn lemma_le32_roundtrip(n: u32)
    ensures
        le32(u32_le(n)[0], u32_le(n)[1], u32_le(n)[2], u32_le(n)[3]) == n,
{
    assert(le32(
        (n & 0xff) as u8,
        ((n >> 8) & 0xff) as u8,
        ((n >> 16) & 0xff) as u8,
        ((n >> 24) & 0xff) as u8,
    ) == n) by (bit_vector);
}

/// Appends the two little-endian bytes of `n` to `out`.
pub fn push_u16(out: &mut Vec<u8>, n: u16)
    ensures
        final(out)@ == old(out)@ + u16_le(n),
{
    out.push((n & 0xff) as u8);
    out.push(((n >> 8) & 0xff) as u8);
    proof {
        assert(out@ =~= old(out)@ + u16_le(n));
    }
}

/// Appends the four little-endian bytes of `n` to `out`.
pub fn push_u32(out: &mut Vec<u8>, n: u32)
    ensures
        final(out)@ == old(out)@ + u32_le(n),
{
    out.push((n & 0xff) as u8);
    out.push(((n >> 8) & 0xff) as u8);
    out.push(((n >> 16) & 0xff) as u8);
    out.push(((n >> 24) & 0xff) as u8);
    proof {
        assert(out@ =~= old(out)@ + u32_le(n));
    }
}

/// Reads a 16-bit little-endian integer at `pos`.
pub fn read_u16_at(b: &Vec<u8>, pos: usize) -> (n: u16)
    requires
        pos + 2 <= b@.len(),
    ensures
        n == le16(b@[pos as int], b@[pos as int + 1]),
{
    let blen = b.len();
    let b0 = b[pos];
    let b1 = b[pos + 1];
    (b0 as u16) | ((b1 as u16) << 8)
}

/// Reads a 32-bit little-endian integer at `pos`.
pub fn read_u32_at(b: &Vec<u8>, pos: usize) -> (n: u32)
    requires
        pos + 4 <= b@.len(),
    ensures
        n == le32(b@[pos as int], b@[pos as int + 1], b@[pos as int + 2], b@[pos as int + 3]),
{
    let blen = b.len();
    let b0 = b[pos];
    let b1 = b[pos + 1];
    let b2 = b[pos + 2];
    let b3 = b[pos + 3];
    (b0 as u32) | ((b1 as u32) << 8) | ((b2 as u32) << 16) | ((b3 as u32) << 24)
}

/// Copies `len` bytes of `b` starting at `pos` into a fresh vector.
pub fn take_bytes(b: &Vec<u8>, pos: usize, len: usize) -> (r: Vec<u8>)
    requires
        pos + len <= b@.len(),
    ensures
        r@ == b@.subrange(pos as int, pos as int + len as int),
{
    let blen = b.len();
    let mut out: Vec<u8> = Vec::new();
    let mut i: usize = 0;
    while i < len
        invariant
            i <= len,
            pos + len <= blen,
            blen == b@.len(),
            out@ == b@.subrange(pos as int, pos as int + i as int),
        decreases len - i,
    {
        out.push(b[pos + i]);
        i = i + 1;
        proof {
            assert(out@ =~= b@.subrange(pos as int, pos as int + i as int));
        }
    }
    out
}

/// Appends all of `src` to `out`.
pub fn extend_bytes(out: &mut Vec<u8>, src: &Vec<u8>)
    ensures
        final(out)@ == old(out)@ + src@,
{
    let mut i: usize = 0;
    while i < src.len()
        invariant
            i <= src@.len(),
            out@ == old(out)@ + src@.subrange(0, i as int),
        decreases src@.len() - i,
    {
        out.push(src[i]);
        i = i + 1;
        proof {
            assert(out@ =~= old(out)@ + src@.subrange(0, i as int));
        }
    }
    proof {
        assert(old(out)@ + src@.subrange(0, src@.len() as int) =~= old(out)@ + src@);
    }
}

/// Copies a whole byte vector.
pub fn copy_bytes(b: &Vec<u8>) -> (r: Vec<u8>)
    ensures
        r@ == b@,
{
    let r = take_bytes(b, 0, b.len());
    proof {
        assert(r@ =~= b@);
    }
    r
}

/// Compares two byte vectors for equality of their contents.
pub fn bytes_eq(a: &Vec<u8>, b: &Vec<u8>) -> (r: bool)
    ensures
        r <==> a@ == b@,
{
    if a.len() != b.len() {
        return false;
    }
    let mut i: usize = 0;
    while i < a.len()
        invariant
            a@.len() == b@.len(),
            i <= a@.len(),
            forall|j: int| 0 <= j < i ==> a@[j] == b@[j],
        decreases a@.len() - i,
    {
        if a[i] != b[i] {
            return false;
        }
        i = i + 1;
    }
    proof {
        assert(a@ =~= b@);
    }
    true
}

} // verus!
