//! Byte-string helpers: copying, comparison and big-endian integers.
use vstd::prelude::*;

verus! {

/// The big-endian encoding of a `u32`.
pub open spec fn be32(x: u32) -> Seq<u8> {
    seq![(x >> 24u32) as u8, (x >> 16u32) as u8, (x >> 8u32) as u8, x as u8]
}

/// The `u32` whose big-endian encoding is the four bytes at `off`.
pub open spec fn be32_at(b: Seq<u8>, off: int) -> u32 {
    ((b[off] as u32) << 24u32) | ((b[off + 1] as u32) << 16u32) | ((b[off + 2] as u32) << 8u32) | (b[off
        + 3] as u32)
}

/// Reading back a big-endian `u32` gives the value that was written.
pub proof fn lemma_be32_round_trip(x: u32)
    ensures
        be32_at(be32(x), 0) == x,
{
    let b0 = (x >> 24u32) as u8;
    let b1 = (x >> 16u32) as u8;
    let b2 = (x >> 8u32) as u8;
    let b3 = x as u8;
    assert((((b0 as u32) << 24u32) | ((b1 as u32) << 16u32) | ((b2 as u32) << 8u32) | (b3 as u32))
        == x) by (bit_vector)
        requires
            b0 == (x >> 24u32) as u8,
            b1 == (x >> 16u32) as u8,
            b2 == (x >> 8u32) as u8,
            b3 == x as u8,
    ;
}

/// The four bytes at `off` are the big-endian encoding of the value read there.
pub proof fn lemma_be32_read(b: Seq<u8>, off: int)
    requires
        0 <= off && off + 4 <= b.len(),
    ensures
        b.subrange(off, off + 4) == be32(be32_at(b, off)),
{
    let b0 = b[off];
    let b1 = b[off + 1];
    let b2 = b[off + 2];
    let b3 = b[off + 3];
    let x = be32_at(b, off);
    assert(x == ((b0 as u32) << 24u32) | ((b1 as u32) << 16u32) | ((b2 as u32) << 8u32) | (b3 as u32));
    assert((x >> 24u32) as u8 == b0 && (x >> 16u32) as u8 == b1 && (x >> 8u32) as u8 == b2 && x as u8
        == b3) by (bit_vector)
        requires
            x == ((b0 as u32) << 24u32) | ((b1 as u32) << 16u32) | ((b2 as u32) << 8u32) | (b3 as u32),
    ;
    assert(b.subrange(off, off + 4) =~= be32(x));
}

/// Four bytes that encode `x` read back as `x`.
pub proof fn lemma_be32_window(b: Seq<u8>, off: int, x: u32)
    requires
        0 <= off && off + 4 <= b.len(),
        b.subrange(off, off + 4) == be32(x),
    ensures
        be32_at(b, off) == x,
{
    lemma_be32_round_trip(x);
    assert(b[off] == be32(x)[0] && b[off + 1] == be32(x)[1] && b[off + 2] == be32(x)[2] && b[off + 3]
        == be32(x)[3]) by {
        assert(b.subrange(off, off + 4)[0] == b[off]);
        assert(b.subrange(off, off + 4)[1] == b[off + 1]);
        assert(b.subrange(off, off + 4)[2] == b[off + 2]);
        assert(b.subrange(off, off + 4)[3] == b[off + 3]);
    }
}

/// A copy of `b[start..end]`.
pub fn copy_range(b: &[u8], start: usize, end: usize) -> (r: Vec<u8>)
    requires
        start <= end <= b@.len(),
    ensures
        r@ == b@.subrange(start as int, end as int),
{
    let mut r: Vec<u8> = Vec::with_capacity(end - start);
    let mut i: usize = start;
    while i < end
        invariant
            start <= i <= end <= b@.len(),
            r@ == b@.subrange(start as int, i as int),
        decreases end - i,
    {
        r.push(b[i]);
        i += 1;
    }
    r
}

/// A copy of `b`.
pub fn copy_bytes(b: &[u8]) -> (r: Vec<u8>)
    ensures
        r@ == b@,
{
    let r = copy_range(b, 0, b.len());
    assert(b@.subrange(0, b@.len() as int) == b@);
    r
}

/// Appends `src` to `dst`.
pub fn append_bytes(dst: &mut Vec<u8>, src: &[u8])
    ensures
        final(dst)@ == old(dst)@ + src@,
{
    let mut i: usize = 0;
    while i < src.len()
        invariant
            i <= src@.len(),
            dst@ == old(dst)@ + src@.subrange(0, i as int),
        decreases src@.len() - i,
    {
        dst.push(src[i]);
        i += 1;
    }
    assert(src@.subrange(0, src@.len() as int) == src@);
}

/// Appends the big-endian encoding of `x` to `dst`.
pub fn push_be32(dst: &mut Vec<u8>, x: u32)
    ensures
        final(dst)@ == old(dst)@ + be32(x),
{
    dst.push((x >> 24u32) as u8);
    dst.push((x >> 16u32) as u8);
    dst.push((x >> 8u32) as u8);
    dst.push(x as u8);
}

/// Reads the big-endian `u32` at `off`.
pub fn read_be32(b: &[u8], off: usize) -> (r: u32)
    requires
        off + 4 <= b@.len(),
    ensures
        r == be32_at(b@, off as int),
{
    ((b[off] as u32) << 24u32) | ((b[off + 1] as u32) << 16u32) | ((b[off + 2] as u32) << 8u32) | (b[off
        + 3] as u32)
}

/// Whether two byte strings are equal.
pub fn bytes_equal(a: &[u8], b: &[u8]) -> (r: bool)
    ensures
        r == (a@ == b@),
{
    if a.len() != b.len() {
        return false;
    }
    let mut i: usize = 0;
    while i < a.len()
        invariant
            a@.len() == b@.len(),
            i <= a@.len(),
            forall|j: int| 0 <= j < i ==> a@[j] == b@[j],
        decreases a@.len() - i,
    {
        if a[i] != b[i] {
            return false;
        }
        i += 1;
    }
    assert(a@ =~= b@);
    true
}

} // verus!
