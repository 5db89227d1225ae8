//! Fixed-width integers as bytes, in little- and big-endian order.
use byteorder::{BigEndian, LittleEndian, WriteBytesExt};
use vstd::prelude::*;

verus! {

/// The two bytes of `v`, least significant first.
pub open spec fn le_u16(v: u16) -> Seq<u8> {
    seq![(v & 0xff) as u8, ((v >> 8u16) & 0xff) as u8]
}

/// The four bytes of `v`, least significant first.
pub open spec fn le_u32(v: u32) -> Seq<u8> {
    seq![
        (v & 0xff) as u8,
        ((v >> 8u32) & 0xff) as u8,
        ((v >> 16u32) & 0xff) as u8,
        ((v >> 24u32) & 0xff) as u8,
    ]
}

/// The four bytes of `v`, most significant first.
pub open spec fn be_u32(v: u32) -> Seq<u8> {
    seq![
        ((v >> 24u32) & 0xff) as u8,
        ((v >> 16u32) & 0xff) as u8,
        ((v >> 8u32) & 0xff) as u8,
        (v & 0xff) as u8,
    ]
}

/// The eight bytes of `v`, least significant first.
pub open spec fn le_u64(v: u64) -> Seq<u8> {
    le_u32((v & 0xffff_ffff) as u32) + le_u32((v >> 32u64) as u32)
}

/// The two's complement bytes of `v`, least significant first.
pub open spec fn le_i16(v: i16) -> Seq<u8> {
    le_u16(v as u16)
}

/// The two's complement bytes of `v`, least significant first.
pub open spec fn le_i32(v: i32) -> Seq<u8> {
    le_u32(v as u32)
}

/// The number whose little-endian bytes start at `pos` in `s`.
pub open spec fn u32_at_le(s: Seq<u8>, pos: int) -> u32 {
    (s[pos] as u32) | ((s[pos + 1] as u32) << 8u32) | ((s[pos + 2] as u32) << 16u32) | ((s[pos
        + 3] as u32) << 24u32)
}

/// The number whose big-endian bytes start at `pos` in `s`.
pub open spec fn u32_at_be(s: Seq<u8>, pos: int) -> u32 {
    ((s[pos] as u32) << 24u32) | ((s[pos + 1] as u32) << 16u32) | ((s[pos + 2] as u32) << 8u32)
        | (s[pos + 3] as u32)
}

/// Appends `v` in little-endian order, through `byteorder`'s
/// `WriteBytesExt::write_u16::<LittleEndian>`; writing into a `Vec` appends
/// and cannot fail.
#[verifier::external_body]
pub(crate) fn put_u16_le(buf: &mut Vec<u8>, v: u16)
    ensures
        final(buf)@ == old(buf)@ + le_u16(v),
{
    let _ = buf.write_u16::<LittleEndian>(v);
}

/// Appends `v` in little-endian order, through `byteorder`'s
/// `WriteBytesExt::write_i16::<LittleEndian>`.
#[verifier::external_body]
pub(crate) fn put_i16_le(buf: &mut Vec<u8>, v: i16)
    ensures
        final(buf)@ == old(buf)@ + le_i16(v),
{
    let _ = buf.write_i16::<LittleEndian>(v);
}

/// Appends `v` in little-endian order, through `byteorder`'s
/// `WriteBytesExt::write_u32::<LittleEndian>`.
#[verifier::external_body]
pub(crate) fn put_u32_le(buf: &mut Vec<u8>, v: u32)
    ensures
        final(buf)@ == old(buf)@ + le_u32(v),
{
    let _ = buf.write_u32::<LittleEndian>(v);
}

/// Appends `v` in big-endian order, through `byteorder`'s
/// `WriteBytesExt::write_u32::<BigEndian>`.
#[verifier::external_body]
pub(crate) fn put_u32_be(buf: &mut Vec<u8>, v: u32)
    ensures
        final(buf)@ == old(buf)@ + be_u32(v),
{
    let _ = buf.write_u32::<BigEndian>(v);
}

/// Appends `v` in little-endian order, through `byteorder`'s
/// `WriteBytesExt::write_i32::<LittleEndian>`.
#[verifier::external_body]
pub(crate) fn put_i32_le(buf: &mut Vec<u8>, v: i32)
    ensures
        final(buf)@ == old(buf)@ + le_i32(v),
{
    let _ = buf.write_i32::<LittleEndian>(v);
}

/// Appends `v` in little-endian order, through `byteorder`'s
/// `WriteBytesExt::write_u64::<LittleEndian>`.
#[verifier::external_body]
pub(crate) fn put_u64_le(buf: &mut Vec<u8>, v: u64)
    ensures
        final(buf)@ == old(buf)@ + le_u64(v),
{
    let _ = buf.write_u64::<LittleEndian>(v);
}

/// Reads the little-endian number at `pos`.
pub fn read_u32_le(s: &[u8], pos: usize) -> (r: u32)
    requires
        pos + 4 <= s@.len(),
    ensures
        r == u32_at_le(s@, pos as int),
{
    (s[pos] as u32) | ((s[pos + 1] as u32) << 8u32) | ((s[pos + 2] as u32) << 16u32) | ((s[pos
        + 3] as u32) << 24u32)
}

/// Reads the big-endian number at `pos`.
pub fn read_u32_be(s: &[u8], pos: usize) -> (r: u32)
    requires
        pos + 4 <= s@.len(),
    ensures
        r == u32_at_be(s@, pos as int),
{
    ((s[pos] as u32) << 24u32) | ((s[pos + 1] as u32) << 16u32) | ((s[pos + 2] as u32) << 8u32)
        | (s[pos + 3] as u32)
}

/// What is written in little-endian order reads back unchanged.
pub proof fn lemma_le_u32_roundtrip(v: u32, pre: Seq<u8>, post: Seq<u8>)
    ensures
        u32_at_le(pre + le_u32(v) + post, pre.len() as int) == v,
{
    let s = pre + le_u32(v) + post;
    let p = pre.len() as int;
    assert(s[p] == (v & 0xff) as u8);
    assert(s[p + 1] == ((v >> 8u32) & 0xff) as u8);
    assert(s[p + 2] == ((v >> 16u32) & 0xff) as u8);
    assert(s[p + 3] == ((v >> 24u32) & 0xff) as u8);
    let b0 = (v & 0xff) as u8;
    let b1 = ((v >> 8u32) & 0xff) as u8;
    let b2 = ((v >> 16u32) & 0xff) as u8;
    let b3 = ((v >> 24u32) & 0xff) as u8;
    assert(((b0 as u32) | ((b1 as u32) << 8u32) | ((b2 as u32) << 16u32) | ((b3 as u32)
        << 24u32)) == v) by (bit_vector)
        requires
            b0 == (v & 0xff) as u8,
            b1 == ((v >> 8u32) & 0xff) as u8,
            b2 == ((v >> 16u32) & 0xff) as u8,
            b3 == ((v >> 24u32) & 0xff) as u8,
    ;
}

/// What is written in big-endian order reads back unchanged.
pub proof fn lemma_be_u32_roundtrip(v: u32, pre: Seq<u8>, post: Seq<u8>)
    ensures
        u32_at_be(pre + be_u32(v) + post, pre.len() as int) == v,
{
    let s = pre + be_u32(v) + post;
    let p = pre.len() as int;
    let b0 = ((v >> 24u32) & 0xff) as u8;
    let b1 = ((v >> 16u32) & 0xff) as u8;
    let b2 = ((v >> 8u32) & 0xff) as u8;
    let b3 = (v & 0xff) as u8;
    assert(s[p] == b0 && s[p + 1] == b1 && s[p + 2] == b2 && s[p + 3] == b3);
    assert((((b0 as u32) << 24u32) | ((b1 as u32) << 16u32) | ((b2 as u32) << 8u32) | (b3
        as u32)) == v) by (bit_vector)
        requires
            b0 == ((v >> 24u32) & 0xff) as u8,
            b1 == ((v >> 16u32) & 0xff) as u8,
            b2 == ((v >> 8u32) & 0xff) as u8,
            b3 == (v & 0xff) as u8,
    ;
}

/// Appends the bytes of `b`.
pub fn put_bytes(buf: &mut Vec<u8>, b: &[u8])
    ensures
        final(buf)@ == old(buf)@ + b@,
{
    let mut i: usize = 0;
    while i < b.len()
        invariant
            i <= b@.len(),
            buf@ == old(buf)@ + b@.take(i as int),
        decreases b@.len() - i,
    {
        buf.push(b[i]);
        i += 1;
        assert(buf@ =~= old(buf)@ + b@.take(i as int));
    }
    assert(b@.take(i as int) =~= b@);
}

/// Appends a four-character chunk id.
pub fn put_tag(buf: &mut Vec<u8>, t: [u8; 4])
    ensures
        final(buf)@ == old(buf)@ + t@,
{
    put_bytes(buf, t.as_slice());
}

} // verus!
