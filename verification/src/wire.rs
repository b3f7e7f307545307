//! Big-endian integers and byte-buffer helpers for the binary encodings.

use vstd::prelude::*;

verus! {

/// The 8 big-endian bytes of `x`.
pub open spec fn u64_be(x: u64) -> Seq<u8> {
    seq![
        (x >> 56u64) as u8,
        (x >> 48u64) as u8,
        (x >> 40u64) as u8,
        (x >> 32u64) as u8,
        (x >> 24u64) as u8,
        (x >> 16u64) as u8,
        (x >> 8u64) as u8,
        x as u8,
    ]
}

/// The 4 big-endian bytes of `x`.
pub open spec fn u32_be(x: u32) -> Seq<u8> {
    seq![(x >> 24u32) as u8, (x >> 16u32) as u8, (x >> 8u32) as u8, x as u8]
}

/// The 2 big-endian bytes of `x`.
pub open spec fn u16_be(x: u16) -> Seq<u8> {
    seq![(x >> 8u16) as u8, x as u8]
}

/// The value of 8 big-endian bytes.
pub open spec fn be_u64(b: Seq<u8>) -> u64 {
    ((b[0] as u64) << 56u64) | ((b[1] as u64) << 48u64) | ((b[2] as u64) << 40u64) | ((b[3] as u64)
        << 32u64) | ((b[4] as u64) << 24u64) | ((b[5] as u64) << 16u64) | ((b[6] as u64) << 8u64)
        | (b[7] as u64)
}

/// The value of 4 big-endian bytes.
pub open spec fn be_u32(b: Seq<u8>) -> u32 {
    ((b[0] as u32) << 24u32) | ((b[1] as u32) << 16u32) | ((b[2] as u32) << 8u32) | (b[3] as u32)
}

/// The value of 2 big-endian bytes.
pub open spec fn be_u16(b: Seq<u8>) -> u16 {
    ((b[0] as u16) << 8u16) | (b[1] as u16)
}

/// Reading back the bytes of a `u64` gives the `u64`.
pub proof fn lemma_u64_roundtrip(x: u64)
    ensures
        be_u64(u64_be(x)) == x,
{
    let b = u64_be(x);
    let (b0, b1, b2, b3, b4, b5, b6, b7) = (b[0], b[1], b[2], b[3], b[4], b[5], b[6], b[7]);
    assert(((b0 as u64) << 56u64) | ((b1 as u64) << 48u64) | ((b2 as u64) << 40u64) | ((b3 as u64)
        << 32u64) | ((b4 as u64) << 24u64) | ((b5 as u64) << 16u64) | ((b6 as u64) << 8u64)
        | (b7 as u64) == x) by (bit_vector)
        requires
            b0 == (x >> 56u64) as u8,
            b1 == (x >> 48u64) as u8,
            b2 == (x >> 40u64) as u8,
            b3 == (x >> 32u64) as u8,
            b4 == (x >> 24u64) as u8,
            b5 == (x >> 16u64) as u8,
            b6 == (x >> 8u64) as u8,
            b7 == x as u8,
    ;
}

/// Reading back the bytes of a `u32` gives the `u32`.
pub proof fn lemma_u32_roundtrip(x: u32)
    ensures
        be_u32(u32_be(x)) == x,
{
    let b = u32_be(x);
    let (b0, b1, b2, b3) = (b[0], b[1], b[2], b[3]);
    assert(((b0 as u32) << 24u32) | ((b1 as u32) << 16u32) | ((b2 as u32) << 8u32) | (b3 as u32)
        == x) by (bit_vector)
        requires
            b0 == (x >> 24u32) as u8,
            b1 == (x >> 16u32) as u8,
            b2 == (x >> 8u32) as u8,
            b3 == x as u8,
    ;
}

/// Writing back the value of 8 bytes gives the bytes.
pub proof fn lemma_be_u64_bytes(b: Seq<u8>)
    requires
        b.len() == 8,
    ensures
        u64_be(be_u64(b)) == b,
{
    let (b0, b1, b2, b3, b4, b5, b6, b7) = (b[0], b[1], b[2], b[3], b[4], b[5], b[6], b[7]);
    let x = be_u64(b);
    assert((x >> 56u64) as u8 == b0 && (x >> 48u64) as u8 == b1 && (x >> 40u64) as u8 == b2 && (x >> 32u64) as u8
        == b3 && (x >> 24u64) as u8 == b4 && (x >> 16u64) as u8 == b5 && (x >> 8u64) as u8 == b6 && x as u8 == b7)
        by (bit_vector)
        requires
            x == ((b0 as u64) << 56u64) | ((b1 as u64) << 48u64) | ((b2 as u64) << 40u64) | ((b3 as u64)
                << 32u64) | ((b4 as u64) << 24u64) | ((b5 as u64) << 16u64) | ((b6 as u64) << 8u64)
                | (b7 as u64),
    ;
    assert(u64_be(x) =~= b);
}

/// Writing back the value of 4 bytes gives the bytes.
pub proof fn lemma_be_u32_bytes(b: Seq<u8>)
    requires
        b.len() == 4,
    ensures
        u32_be(be_u32(b)) == b,
{
    let (b0, b1, b2, b3) = (b[0], b[1], b[2], b[3]);
    let x = be_u32(b);
    assert((x >> 24u32) as u8 == b0 && (x >> 16u32) as u8 == b1 && (x >> 8u32) as u8 == b2 && x as u8 == b3)
        by (bit_vector)
        requires
            x == ((b0 as u32) << 24u32) | ((b1 as u32) << 16u32) | ((b2 as u32) << 8u32) | (b3 as u32),
    ;
    assert(u32_be(x) =~= b);
}

/// Reading back the bytes of a `u16` gives the `u16`.
pub proof fn lemma_u16_roundtrip(x: u16)
    ensures
        be_u16(u16_be(x)) == x,
{
    let b = u16_be(x);
    let (b0, b1) = (b[0], b[1]);
    assert(((b0 as u16) << 8u16) | (b1 as u16) == x) by (bit_vector)
        requires
            b0 == (x >> 8u16) as u8,
            b1 == x as u8,
    ;
}

/// Appends the bytes of `src`.
pub fn push_bytes(buf: &mut Vec<u8>, src: &[u8])
    ensures
        final(buf)@ == old(buf)@ + src@,
{
    let ghost start = buf@;
    let mut i: usize = 0;
    while i < src.len()
        invariant
            0 <= i <= src.len(),
            buf@ == start + src@.take(i as int),
        decreases src.len() - i,
    {
        buf.push(src[i]);
        assert(src@.take(i + 1) =~= src@.take(i as int).push(src@[i as int]));
        assert(buf@ =~= start + src@.take(i + 1));
        i = i + 1;
    }
    assert(src@.take(src.len() as int) =~= src@);
}

/// Appends the big-endian bytes of `x`.
pub fn push_u64_be(buf: &mut Vec<u8>, x: u64)
    ensures
        final(buf)@ == old(buf)@ + u64_be(x),
{
    let ghost start = buf@;
    buf.push((x >> 56u64) as u8);
    buf.push((x >> 48u64) as u8);
    buf.push((x >> 40u64) as u8);
    buf.push((x >> 32u64) as u8);
    buf.push((x >> 24u64) as u8);
    buf.push((x >> 16u64) as u8);
    buf.push((x >> 8u64) as u8);
    buf.push(x as u8);
    assert(buf@ =~= start + u64_be(x));
}

/// Appends the big-endian bytes of `x`.
pub fn push_u32_be(buf: &mut Vec<u8>, x: u32)
    ensures
        final(buf)@ == old(buf)@ + u32_be(x),
{
    let ghost start = buf@;
    buf.push((x >> 24u32) as u8);
    buf.push((x >> 16u32) as u8);
    buf.push((x >> 8u32) as u8);
    buf.push(x as u8);
    assert(buf@ =~= start + u32_be(x));
}

/// Appends the big-endian bytes of `x`.
pub fn push_u16_be(buf: &mut Vec<u8>, x: u16)
    ensures
        final(buf)@ == old(buf)@ + u16_be(x),
{
    let ghost start = buf@;
    buf.push((x >> 8u16) as u8);
    buf.push(x as u8);
    assert(buf@ =~= start + u16_be(x));
}

/// The `u64` stored big-endian at `pos`.
pub fn read_u64_be(b: &[u8], pos: usize) -> (r: u64)
    requires
        pos + 8 <= b@.len(),
    ensures
        r == be_u64(b@.subrange(pos as int, pos + 8)),
{
    ((b[pos] as u64) << 56u64) | ((b[pos + 1] as u64) << 48u64) | ((b[pos + 2] as u64) << 40u64)
        | ((b[pos + 3] as u64) << 32u64) | ((b[pos + 4] as u64) << 24u64) | ((b[pos + 5] as u64)
        << 16u64) | ((b[pos + 6] as u64) << 8u64) | (b[pos + 7] as u64)
}

/// The `u32` stored big-endian at `pos`.
pub fn read_u32_be(b: &[u8], pos: usize) -> (r: u32)
    requires
        pos + 4 <= b@.len(),
    ensures
        r == be_u32(b@.subrange(pos as int, pos + 4)),
{
    ((b[pos] as u32) << 24u32) | ((b[pos + 1] as u32) << 16u32) | ((b[pos + 2] as u32) << 8u32) | (b[pos
        + 3] as u32)
}

/// The `u16` stored big-endian at `pos`.
pub fn read_u16_be(b: &[u8], pos: usize) -> (r: u16)
    requires
        pos + 2 <= b@.len(),
    ensures
        r == be_u16(b@.subrange(pos as int, pos + 2)),
{
    ((b[pos] as u16) << 8u16) | (b[pos + 1] as u16)
}

/// The 32 bytes at `pos`.
pub fn read_array32(b: &[u8], pos: usize) -> (r: [u8; 32])
    requires
        pos + 32 <= b@.len(),
    ensures
        r@ == b@.subrange(pos as int, pos + 32),
{
    let mut r = [0u8; 32];
    let mut i: usize = 0;
    while i < 32
        invariant
            0 <= i <= 32,
            pos + 32 <= b@.len(),
            b@.len() == b.len(),
            forall|k: int| 0 <= k < i ==> r@[k] == b@[pos + k],
        decreases 32 - i,
    {
        r[i] = b[pos + i];
        i = i + 1;
    }
    assert(r@ =~= b@.subrange(pos as int, pos + 32));
    r
}

/// The 64 bytes at `pos`.
pub fn read_array64(b: &[u8], pos: usize) -> (r: [u8; 64])
    requires
        pos + 64 <= b@.len(),
    ensures
        r@ == b@.subrange(pos as int, pos + 64),
{
    let mut r = [0u8; 64];
    let mut i: usize = 0;
    while i < 64
        invariant
            0 <= i <= 64,
            pos + 64 <= b@.len(),
            b@.len() == b.len(),
            forall|k: int| 0 <= k < i ==> r@[k] == b@[pos + k],
        decreases 64 - i,
    {
        r[i] = b[pos + i];
        i = i + 1;
    }
    assert(r@ =~= b@.subrange(pos as int, pos + 64));
    r
}

/// The 16 bytes at `pos`.
pub fn read_array16(b: &[u8], pos: usize) -> (r: [u8; 16])
    requires
        pos + 16 <= b@.len(),
    ensures
        r@ == b@.subrange(pos as int, pos + 16),
{
    let mut r = [0u8; 16];
    let mut i: usize = 0;
    while i < 16
        invariant
            0 <= i <= 16,
            pos + 16 <= b@.len(),
            b@.len() == b.len(),
            forall|k: int| 0 <= k < i ==> r@[k] == b@[pos + k],
        decreases 16 - i,
    {
        r[i] = b[pos + i];
        i = i + 1;
    }
    assert(r@ =~= b@.subrange(pos as int, pos + 16));
    r
}

/// Equal outer parts around different middles make different sequences.
pub proof fn lemma_middle_differs(x: Seq<u8>, m1: Seq<u8>, m2: Seq<u8>, z: Seq<u8>)
    requires
        m1 != m2,
    ensures
        x + m1 + z != x + m2 + z,
{
    if m1.len() == m2.len() {
        assert(!(m1 =~= m2));
        let i = choose|i: int| 0 <= i < m1.len() && m1[i] != m2[i];
        assert((x + m1 + z)[x.len() + i] == m1[i]);
        assert((x + m2 + z)[x.len() + i] == m2[i]);
    } else {
        assert((x + m1 + z).len() != (x + m2 + z).len());
    }
}

/// Different texts have different UTF-8 encodings.
pub proof fn lemma_encode_utf8_differs(a: Seq<char>, b: Seq<char>)
    requires
        a != b,
    ensures
        vstd::utf8::encode_utf8(a) != vstd::utf8::encode_utf8(b),
{
    vstd::utf8::encode_utf8_decode_utf8(a);
    vstd::utf8::encode_utf8_decode_utf8(b);
}

} // verus!
