//! Big-endian integer framing shared by every binary format of the server.
use vstd::prelude::*;

verus! {

pub open spec fn be16(x: u16) -> Seq<u8> {
    seq![(x >> 8u16) as u8, x as u8]
}

pub open spec fn be32(x: u32) -> Seq<u8> {
    seq![(x >> 24u32) as u8, (x >> 16u32) as u8, (x >> 8u32) as u8, x as u8]
}

pub open spec fn be64(x: u64) -> Seq<u8> {
    seq![
        (x >> 56u64) as u8,
        (x >> 48u64) as u8,
        (x >> 40u64) as u8,
        (x >> 32u64) as u8,
        (x >> 24u64) as u8,
        (x >> 16u64) as u8,
        (x >> 8u64) as u8,
        x as u8,
    ]
}

/// The `u16` whose big-endian bytes start at `p`.
pub open spec fn read_be16(s: Seq<u8>, p: int) -> u16 {
    ((s[p] as u16) << 8u16) | (s[p + 1] as u16)
}

/// The `u32` whose big-endian bytes start at `p`.
pub open spec fn read_be32(s: Seq<u8>, p: int) -> u32 {
    ((s[p] as u32) << 24u32) | ((s[p + 1] as u32) << 16u32) | ((s[p + 2] as u32) << 8u32) | (s[p
        + 3] as u32)
}

/// The `u64` whose big-endian bytes start at `p`.
pub open spec fn read_be64(s: Seq<u8>, p: int) -> u64 {
    ((s[p] as u64) << 56u64) | ((s[p + 1] as u64) << 48u64) | ((s[p + 2] as u64) << 40u64) | ((s[p
        + 3] as u64) << 32u64) | ((s[p + 4] as u64) << 24u64) | ((s[p + 5] as u64) << 16u64) | ((s[p
        + 6] as u64) << 8u64) | (s[p + 7] as u64)
}

pub proof fn lemma_be16_roundtrip(x: u16)
    ensures
        read_be16(be16(x), 0) == x,
{
    let b0 = (x >> 8u16) as u8;
    let b1 = x as u8;
    assert(((b0 as u16) << 8u16) | (b1 as u16) == x) by (bit_vector)
        requires
            b0 == (x >> 8u16) as u8,
            b1 == x as u8,
    ;
}

pub proof fn lemma_be32_roundtrip(x: u32)
    ensures
        read_be32(be32(x), 0) == x,
{
    let b0 = (x >> 24u32) as u8;
    let b1 = (x >> 16u32) as u8;
    let b2 = (x >> 8u32) as u8;
    let b3 = x as u8;
    assert(((b0 as u32) << 24u32) | ((b1 as u32) << 16u32) | ((b2 as u32) << 8u32) | (b3 as u32)
        == x) by (bit_vector)
        requires
            b0 == (x >> 24u32) as u8,
            b1 == (x >> 16u32) as u8,
            b2 == (x >> 8u32) as u8,
            b3 == x as u8,
    ;
}

pub proof fn lemma_be64_roundtrip(x: u64)
    ensures
        read_be64(be64(x), 0) == x,
{
    let b0 = (x >> 56u64) as u8;
    let b1 = (x >> 48u64) as u8;
    let b2 = (x >> 40u64) as u8;
    let b3 = (x >> 32u64) as u8;
    let b4 = (x >> 24u64) as u8;
    let b5 = (x >> 16u64) as u8;
    let b6 = (x >> 8u64) as u8;
    let b7 = x as u8;
    assert(((b0 as u64) << 56u64) | ((b1 as u64) << 48u64) | ((b2 as u64) << 40u64) | ((b3 as u64)
        << 32u64) | ((b4 as u64) << 24u64) | ((b5 as u64) << 16u64) | ((b6 as u64) << 8u64) | (b7
        as u64) == x) by (bit_vector)
        requires
            b0 == (x >> 56u64) as u8,
            b1 == (x >> 48u64) as u8,
            b2 == (x >> 40u64) as u8,
            b3 == (x >> 32u64) as u8,
            b4 == (x >> 24u64) as u8,
            b5 == (x >> 16u64) as u8,
            b6 == (x >> 8u64) as u8,
            b7 == x as u8,
    ;
}

/// Reading a field back from any position where its encoding was written.
pub proof fn lemma_read_be32_at(s: Seq<u8>, p: int, x: u32)
    requires
        0 <= p,
        p + 4 <= s.len(),
        s.subrange(p, p + 4) == be32(x),
    ensures
        read_be32(s, p) == x,
{
    lemma_be32_roundtrip(x);
    assert(s[p] == be32(x)[0]);
    assert(s[p + 1] == be32(x)[1]);
    assert(s[p + 2] == be32(x)[2]);
    assert(s[p + 3] == be32(x)[3]);
}

pub proof fn lemma_read_be64_at(s: Seq<u8>, p: int, x: u64)
    requires
        0 <= p,
        p + 8 <= s.len(),
        s.subrange(p, p + 8) == be64(x),
    ensures
        read_be64(s, p) == x,
{
    lemma_be64_roundtrip(x);
    assert(s[p] == be64(x)[0]);
    assert(s[p + 1] == be64(x)[1]);
    assert(s[p + 2] == be64(x)[2]);
    assert(s[p + 3] == be64(x)[3]);
    assert(s[p + 4] == be64(x)[4]);
    assert(s[p + 5] == be64(x)[5]);
    assert(s[p + 6] == be64(x)[6]);
    assert(s[p + 7] == be64(x)[7]);
}

pub proof fn lemma_read_be16_at(s: Seq<u8>, p: int, x: u16)
    requires
        0 <= p,
        p + 2 <= s.len(),
        s.subrange(p, p + 2) == be16(x),
    ensures
        read_be16(s, p) == x,
{
    lemma_be16_roundtrip(x);
    assert(s[p] == be16(x)[0]);
    assert(s[p + 1] == be16(x)[1]);
}

/// The four bytes at `p` are the big-endian encoding of the `u32` read there.
pub proof fn lemma_be32_of_read(s: Seq<u8>, p: int)
    requires
        0 <= p,
        p + 4 <= s.len(),
    ensures
        be32(read_be32(s, p)) == s.subrange(p, p + 4),
{
    let a = s[p];
    let b = s[p + 1];
    let c = s[p + 2];
    let d = s[p + 3];
    let x = read_be32(s, p);
    assert((x >> 24u32) as u8 == a && (x >> 16u32) as u8 == b && (x >> 8u32) as u8 == c && x as u8
        == d) by (bit_vector)
        requires
            x == ((a as u32) << 24u32) | ((b as u32) << 16u32) | ((c as u32) << 8u32) | (d as u32),
    ;
    assert(be32(x) =~= s.subrange(p, p + 4));
}

/// The eight bytes at `p` are the big-endian encoding of the `u64` read there.
pub proof fn lemma_be64_of_read(s: Seq<u8>, p: int)
    requires
        0 <= p,
        p + 8 <= s.len(),
    ensures
        be64(read_be64(s, p)) == s.subrange(p, p + 8),
{
    let b0 = s[p];
    let b1 = s[p + 1];
    let b2 = s[p + 2];
    let b3 = s[p + 3];
    let b4 = s[p + 4];
    let b5 = s[p + 5];
    let b6 = s[p + 6];
    let b7 = s[p + 7];
    let x = read_be64(s, p);
    assert((x >> 56u64) as u8 == b0 && (x >> 48u64) as u8 == b1 && (x >> 40u64) as u8 == b2 && (x
        >> 32u64) as u8 == b3 && (x >> 24u64) as u8 == b4 && (x >> 16u64) as u8 == b5 && (x >> 8u64)
        as u8 == b6 && x as u8 == b7) by (bit_vector)
        requires
            x == ((b0 as u64) << 56u64) | ((b1 as u64) << 48u64) | ((b2 as u64) << 40u64) | ((b3
                as u64) << 32u64) | ((b4 as u64) << 24u64) | ((b5 as u64) << 16u64) | ((b6 as u64)
                << 8u64) | (b7 as u64),
    ;
    assert(be64(x) =~= s.subrange(p, p + 8));
}

pub fn push_be16(buf: &mut Vec<u8>, x: u16)
    ensures
        final(buf)@ == old(buf)@ + be16(x),
{
    buf.push((x >> 8u16) as u8);
    buf.push(x as u8);
}

pub fn push_be32(buf: &mut Vec<u8>, x: u32)
    ensures
        final(buf)@ == old(buf)@ + be32(x),
{
    buf.push((x >> 24u32) as u8);
    buf.push((x >> 16u32) as u8);
    buf.push((x >> 8u32) as u8);
    buf.push(x as u8);
}

pub fn push_be64(buf: &mut Vec<u8>, x: u64)
    ensures
        final(buf)@ == old(buf)@ + be64(x),
{
    buf.push((x >> 56u64) as u8);
    buf.push((x >> 48u64) as u8);
    buf.push((x >> 40u64) as u8);
    buf.push((x >> 32u64) as u8);
    buf.push((x >> 24u64) as u8);
    buf.push((x >> 16u64) as u8);
    buf.push((x >> 8u64) as u8);
    buf.push(x as u8);
}

/// Appends every byte of `data` to `buf`.
pub fn push_bytes(buf: &mut Vec<u8>, data: &[u8])
    ensures
        final(buf)@ == old(buf)@ + data@,
{
    let ghost start = buf@;
    let mut i: usize = 0;
    while i < data.len()
        invariant
            i <= data.len(),
            buf@ == start + data@.subrange(0, i as int),
        decreases data.len() - i,
    {
        buf.push(data[i]);
        i = i + 1;
        assert(buf@ == start + data@.subrange(0, i as int));
    }
    assert(data@.subrange(0, data.len() as int) == data@);
}

/// A copy of `bytes[from..to]`.
pub fn copy_range(bytes: &[u8], from: usize, to: usize) -> (out: Vec<u8>)
    requires
        from <= to <= bytes.len(),
    ensures
        out@ == bytes@.subrange(from as int, to as int),
{
    let mut out: Vec<u8> = Vec::new();
    let mut i: usize = from;
    while i < to
        invariant
            from <= i <= to,
            to <= bytes.len(),
            out@ == bytes@.subrange(from as int, i as int),
        decreases to - i,
    {
        out.push(bytes[i]);
        i = i + 1;
        assert(out@ == bytes@.subrange(from as int, i as int));
    }
    out
}

pub fn read_u16_be(bytes: &[u8], p: usize) -> (x: u16)
    requires
        p + 2 <= bytes.len(),
    ensures
        x == read_be16(bytes@, p as int),
{
    ((bytes[p] as u16) << 8u16) | (bytes[p + 1] as u16)
}

pub fn read_u32_be(bytes: &[u8], p: usize) -> (x: u32)
    requires
        p + 4 <= bytes.len(),
    ensures
        x == read_be32(bytes@, p as int),
{
    ((bytes[p] as u32) << 24u32) | ((bytes[p + 1] as u32) << 16u32) | ((bytes[p + 2] as u32)
        << 8u32) | (bytes[p + 3] as u32)
}

pub fn read_u64_be(bytes: &[u8], p: usize) -> (x: u64)
    requires
        p + 8 <= bytes.len(),
    ensures
        x == read_be64(bytes@, p as int),
{
    ((bytes[p] as u64) << 56u64) | ((bytes[p + 1] as u64) << 48u64) | ((bytes[p + 2] as u64)
        << 40u64) | ((bytes[p + 3] as u64) << 32u64) | ((bytes[p + 4] as u64) << 24u64) | ((bytes[p
        + 5] as u64) << 16u64) | ((bytes[p + 6] as u64) << 8u64) | (bytes[p + 7] as u64)
}

/// The little-endian bytes of `x`.
pub open spec fn le64(x: u64) -> Seq<u8> {
    seq![
        x as u8,
        (x >> 8u64) as u8,
        (x >> 16u64) as u8,
        (x >> 24u64) as u8,
        (x >> 32u64) as u8,
        (x >> 40u64) as u8,
        (x >> 48u64) as u8,
        (x >> 56u64) as u8,
    ]
}

/// The `u64` whose little-endian bytes start at `p`.
pub open spec fn read_le64(s: Seq<u8>, p: int) -> u64 {
    ((s[p + 7] as u64) << 56u64) | ((s[p + 6] as u64) << 48u64) | ((s[p + 5] as u64) << 40u64) | ((s[p
        + 4] as u64) << 32u64) | ((s[p + 3] as u64) << 24u64) | ((s[p + 2] as u64) << 16u64) | ((s[p
        + 1] as u64) << 8u64) | (s[p] as u64)
}

pub proof fn lemma_read_le64_at(s: Seq<u8>, p: int, x: u64)
    requires
        0 <= p,
        p + 8 <= s.len(),
        s.subrange(p, p + 8) == le64(x),
    ensures
        read_le64(s, p) == x,
{
    let b0 = x as u8;
    let b1 = (x >> 8u64) as u8;
    let b2 = (x >> 16u64) as u8;
    let b3 = (x >> 24u64) as u8;
    let b4 = (x >> 32u64) as u8;
    let b5 = (x >> 40u64) as u8;
    let b6 = (x >> 48u64) as u8;
    let b7 = (x >> 56u64) as u8;
    assert(s[p] == le64(x)[0]);
    assert(s[p + 1] == le64(x)[1]);
    assert(s[p + 2] == le64(x)[2]);
    assert(s[p + 3] == le64(x)[3]);
    assert(s[p + 4] == le64(x)[4]);
    assert(s[p + 5] == le64(x)[5]);
    assert(s[p + 6] == le64(x)[6]);
    assert(s[p + 7] == le64(x)[7]);
    assert(((b7 as u64) << 56u64) | ((b6 as u64) << 48u64) | ((b5 as u64) << 40u64) | ((b4 as u64)
        << 32u64) | ((b3 as u64) << 24u64) | ((b2 as u64) << 16u64) | ((b1 as u64) << 8u64) | (b0
        as u64) == x) by (bit_vector)
        requires
            b0 == x as u8,
            b1 == (x >> 8u64) as u8,
            b2 == (x >> 16u64) as u8,
            b3 == (x >> 24u64) as u8,
            b4 == (x >> 32u64) as u8,
            b5 == (x >> 40u64) as u8,
            b6 == (x >> 48u64) as u8,
            b7 == (x >> 56u64) as u8,
    ;
}

pub fn push_le64(buf: &mut Vec<u8>, x: u64)
    ensures
        final(buf)@ == old(buf)@ + le64(x),
{
    buf.push(x as u8);
    buf.push((x >> 8u64) as u8);
    buf.push((x >> 16u64) as u8);
    buf.push((x >> 24u64) as u8);
    buf.push((x >> 32u64) as u8);
    buf.push((x >> 40u64) as u8);
    buf.push((x >> 48u64) as u8);
    buf.push((x >> 56u64) as u8);
}

/// The little-endian bytes of `x`.
pub open spec fn le32(x: u32) -> Seq<u8> {
    seq![x as u8, (x >> 8u32) as u8, (x >> 16u32) as u8, (x >> 24u32) as u8]
}

pub fn push_le32(buf: &mut Vec<u8>, x: u32)
    ensures
        final(buf)@ == old(buf)@ + le32(x),
{
    buf.push(x as u8);
    buf.push((x >> 8u32) as u8);
    buf.push((x >> 16u32) as u8);
    buf.push((x >> 24u32) as u8);
}

pub fn read_u64_le(bytes: &[u8], p: usize) -> (x: u64)
    requires
        p + 8 <= bytes.len(),
    ensures
        x == read_le64(bytes@, p as int),
{
    ((bytes[p + 7] as u64) << 56u64) | ((bytes[p + 6] as u64) << 48u64) | ((bytes[p + 5] as u64)
        << 40u64) | ((bytes[p + 4] as u64) << 32u64) | ((bytes[p + 3] as u64) << 24u64) | ((bytes[p
        + 2] as u64) << 16u64) | ((bytes[p + 1] as u64) << 8u64) | (bytes[p] as u64)
}

} // verus!
