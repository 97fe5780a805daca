//! Fixed-width little-endian integers: the building blocks of the encoding.
use vstd::prelude::*;

verus! {

/// The four bytes of `x`, least significant first.
pub open spec fn le32(x: u32) -> Seq<u8> {
    seq![
        (x & 0xff) as u8,
        ((x >> 8u32) & 0xff) as u8,
        ((x >> 16u32) & 0xff) as u8,
        ((x >> 24u32) & 0xff) as u8,
    ]
}

/// The eight bytes of `x`, least significant first.
pub open spec fn le64(x: u64) -> Seq<u8> {
    seq![
        (x & 0xff) as u8,
        ((x >> 8u64) & 0xff) as u8,
        ((x >> 16u64) & 0xff) as u8,
        ((x >> 24u64) & 0xff) as u8,
        ((x >> 32u64) & 0xff) as u8,
        ((x >> 40u64) & 0xff) as u8,
        ((x >> 48u64) & 0xff) as u8,
        ((x >> 56u64) & 0xff) as u8,
    ]
}

pub proof fn lemma_le32_injective(a: u32, b: u32)
    requires
        le32(a) == le32(b),
    ensures
        a == b,
{
    assert(le32(a)[0] == le32(b)[0] && le32(a)[1] == le32(b)[1]);
    assert(le32(a)[2] == le32(b)[2] && le32(a)[3] == le32(b)[3]);
    assert(((a & 0xff) as u8 == (b & 0xff) as u8 && ((a >> 8u32) & 0xff) as u8 == ((b >> 8u32)
        & 0xff) as u8 && ((a >> 16u32) & 0xff) as u8 == ((b >> 16u32) & 0xff) as u8 && ((a
        >> 24u32) & 0xff) as u8 == ((b >> 24u32) & 0xff) as u8) ==> a == b) by (bit_vector);
}

pub proof fn lemma_le64_injective(a: u64, b: u64)
    requires
        le64(a) == le64(b),
    ensures
        a == b,
{
    assert(le64(a)[0] == le64(b)[0] && le64(a)[1] == le64(b)[1]);
    assert(le64(a)[2] == le64(b)[2] && le64(a)[3] == le64(b)[3]);
    assert(le64(a)[4] == le64(b)[4] && le64(a)[5] == le64(b)[5]);
    assert(le64(a)[6] == le64(b)[6] && le64(a)[7] == le64(b)[7]);
    assert(((a & 0xff) as u8 == (b & 0xff) as u8 && ((a >> 8u64) & 0xff) as u8 == ((b >> 8u64)
        & 0xff) as u8 && ((a >> 16u64) & 0xff) as u8 == ((b >> 16u64) & 0xff) as u8 && ((a
        >> 24u64) & 0xff) as u8 == ((b >> 24u64) & 0xff) as u8 && ((a >> 32u64) & 0xff) as u8
        == ((b >> 32u64) & 0xff) as u8 && ((a >> 40u64) & 0xff) as u8 == ((b >> 40u64) & 0xff) as u8
        && ((a >> 48u64) & 0xff) as u8 == ((b >> 48u64) & 0xff) as u8 && ((a >> 56u64) & 0xff) as u8
        == ((b >> 56u64) & 0xff) as u8) ==> a == b) by (bit_vector);
}

/// Appends the four bytes of `x`.
pub fn push_u32(out: &mut Vec<u8>, x: u32)
    ensures
        final(out)@ == old(out)@ + le32(x),
{
    out.push((x & 0xff) as u8);
    out.push(((x >> 8u32) & 0xff) as u8);
    out.push(((x >> 16u32) & 0xff) as u8);
    out.push(((x >> 24u32) & 0xff) as u8);
    assert(out@ =~= old(out)@ + le32(x));
}

/// Appends the eight bytes of `x`.
pub fn push_u64(out: &mut Vec<u8>, x: u64)
    ensures
        final(out)@ == old(out)@ + le64(x),
{
    out.push((x & 0xff) as u8);
    out.push(((x >> 8u64) & 0xff) as u8);
    out.push(((x >> 16u64) & 0xff) as u8);
    out.push(((x >> 24u64) & 0xff) as u8);
    out.push(((x >> 32u64) & 0xff) as u8);
    out.push(((x >> 40u64) & 0xff) as u8);
    out.push(((x >> 48u64) & 0xff) as u8);
    out.push(((x >> 56u64) & 0xff) as u8);
    assert(out@ =~= old(out)@ + le64(x));
}

/// Reads the four bytes at `pos` as a little-endian integer.
pub fn read_u32(b: &[u8], pos: usize) -> (r: u32)
    requires
        pos + 4 <= b@.len(),
    ensures
        le32(r) == b@.subrange(pos as int, pos + 4),
{
    let c0 = b[pos];
    let c1 = b[pos + 1];
    let c2 = b[pos + 2];
    let c3 = b[pos + 3];
    let r = (c0 as u32) | ((c1 as u32) << 8u32) | ((c2 as u32) << 16u32) | ((c3 as u32) << 24u32);
    assert((r & 0xff) as u8 == c0 && ((r >> 8u32) & 0xff) as u8 == c1 && ((r >> 16u32) & 0xff) as u8
        == c2 && ((r >> 24u32) & 0xff) as u8 == c3) by (bit_vector)
        requires
            r == (c0 as u32) | ((c1 as u32) << 8u32) | ((c2 as u32) << 16u32) | ((c3 as u32)
                << 24u32),
    ;
    assert(le32(r) =~= b@.subrange(pos as int, pos + 4));
    r
}

/// Reads the eight bytes at `pos` as a little-endian integer.
pub fn read_u64(b: &[u8], pos: usize) -> (r: u64)
    requires
        pos + 8 <= b@.len(),
    ensures
        le64(r) == b@.subrange(pos as int, pos + 8),
{
    let c0 = b[pos];
    let c1 = b[pos + 1];
    let c2 = b[pos + 2];
    let c3 = b[pos + 3];
    let c4 = b[pos + 4];
    let c5 = b[pos + 5];
    let c6 = b[pos + 6];
    let c7 = b[pos + 7];
    let r = (c0 as u64) | ((c1 as u64) << 8u64) | ((c2 as u64) << 16u64) | ((c3 as u64) << 24u64)
        | ((c4 as u64) << 32u64) | ((c5 as u64) << 40u64) | ((c6 as u64) << 48u64) | ((c7 as u64)
        << 56u64);
    assert((r & 0xff) as u8 == c0 && ((r >> 8u64) & 0xff) as u8 == c1 && ((r >> 16u64) & 0xff) as u8
        == c2 && ((r >> 24u64) & 0xff) as u8 == c3 && ((r >> 32u64) & 0xff) as u8 == c4 && ((r
        >> 40u64) & 0xff) as u8 == c5 && ((r >> 48u64) & 0xff) as u8 == c6 && ((r >> 56u64) & 0xff)
        as u8 == c7) by (bit_vector)
        requires
            r == (c0 as u64) | ((c1 as u64) << 8u64) | ((c2 as u64) << 16u64) | ((c3 as u64)
                << 24u64) | ((c4 as u64) << 32u64) | ((c5 as u64) << 40u64) | ((c6 as u64)
                << 48u64) | ((c7 as u64) << 56u64),
    ;
    assert(le64(r) =~= b@.subrange(pos as int, pos + 8));
    r
}

} // verus!
