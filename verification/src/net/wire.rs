//! Big-endian ("network order") encoding of integers and small byte-buffer helpers.
use vstd::prelude::*;

verus! {

/// The two big-endian bytes of a 16-bit value.
pub open spec fn u16_be(v: u16) -> Seq<u8> {
    seq![(v / 256) as u8, (v % 256) as u8]
}

/// The four big-endian bytes of a 32-bit value.
pub open spec fn u32_be(v: u32) -> Seq<u8> {
    seq![
        (v / 0x100_0000) as u8,
        ((v / 0x1_0000) % 256) as u8,
        ((v / 256) % 256) as u8,
        (v % 256) as u8,
    ]
}

/// The 16-bit value whose big-endian bytes are `hi`, `lo`.
pub open spec fn be16(hi: u8, lo: u8) -> u16 {
    (hi as nat * 256 + lo as nat) as u16
}

/// The 32-bit value whose big-endian bytes are `b0..b3`.
pub open spec fn be32(b0: u8, b1: u8, b2: u8, b3: u8) -> u32 {
    (b0 as nat * 0x100_0000 + b1 as nat * 0x1_0000 + b2 as nat * 256 + b3 as nat) as u32
}

/// The two little-endian bytes of a 16-bit value: how the target machine stores it.
pub open spec fn u16_le(v: u16) -> Seq<u8> {
    seq![(v % 256) as u8, (v / 256) as u8]
}

/// The four little-endian bytes of a 32-bit value: how the target machine stores it.
pub open spec fn u32_le(v: u32) -> Seq<u8> {
    seq![
        (v % 256) as u8,
        ((v / 256) % 256) as u8,
        ((v / 0x1_0000) % 256) as u8,
        (v / 0x100_0000) as u8,
    ]
}

/// A 16-bit value with its two bytes exchanged: `to_be`/`from_be` on a little-endian machine.
pub open spec fn swap16(v: u16) -> u16 {
    ((v % 256) * 256 + v / 256) as u16
}

/// A 32-bit value with its byte order reversed: `to_be`/`from_be` on a little-endian machine.
pub open spec fn swap32(v: u32) -> u32 {
    be32((v % 256) as u8, ((v / 256) % 256) as u8, ((v / 0x1_0000) % 256) as u8, (v / 0x100_0000) as u8)
}

/// Storing a byte-swapped value puts its big-endian bytes in memory.
pub proof fn lemma_swap16_le(v: u16)
    ensures
        u16_le(swap16(v)) == u16_be(v),
        swap16(swap16(v)) == v,
{
    assert(u16_le(swap16(v)) =~= u16_be(v));
}

/// Storing a byte-swapped value puts its big-endian bytes in memory.
pub proof fn lemma_swap32_le(v: u32)
    ensures
        u32_le(swap32(v)) == u32_be(v),
        swap32(swap32(v)) == v,
{
    let b0 = (v % 256) as u8;
    let b1 = ((v / 256) % 256) as u8;
    let b2 = ((v / 0x1_0000) % 256) as u8;
    let b3 = (v / 0x100_0000) as u8;
    lemma_be32_bytes(b0, b1, b2, b3);
    let w = swap32(v);
    assert(u32_be(w) == seq![b0, b1, b2, b3]);
    assert(u32_le(w) =~= seq![b3, b2, b1, b0]);
    assert(u32_be(v) =~= seq![b3, b2, b1, b0]);
    lemma_u32_be_parts(v);
}

/// The big-endian bytes of a 32-bit value read back as that value.
proof fn lemma_u32_be_parts(v: u32)
    ensures
        be32((v / 0x100_0000) as u8, ((v / 0x1_0000) % 256) as u8, ((v / 256) % 256) as u8, (v % 256) as u8) == v,
{
    assert(v == (v / 0x100_0000) * 0x100_0000 + ((v / 0x1_0000) % 256) * 0x1_0000 + ((v / 256) % 256) * 256 + (v % 256)) by (bit_vector);
    assert(v / 0x100_0000 < 256) by (bit_vector);
}

/// The little-endian bytes of a value, read back big-endian, give the byte-swapped value.
pub proof fn lemma_le_read_be16(v: u16)
    ensures
        be16(u16_le(v)[0], u16_le(v)[1]) == swap16(v),
{
}

/// The little-endian bytes of a value, read back big-endian, give the byte-swapped value.
pub proof fn lemma_le_read_be32(v: u32)
    ensures
        be32(u32_le(v)[0], u32_le(v)[1], u32_le(v)[2], u32_le(v)[3]) == swap32(v),
{
}

/// `to_be` of a 16-bit value on the little-endian target.
pub fn swap_u16(v: u16) -> (r: u16)
    ensures
        r == swap16(v),
{
    (v % 256) * 256 + v / 256
}

/// `to_be` of a 32-bit value on the little-endian target.
pub fn swap_u32(v: u32) -> (r: u32)
    ensures
        r == swap32(v),
{
    (v % 256) * 0x100_0000 + ((v / 256) % 256) * 0x1_0000 + ((v / 0x1_0000) % 256) * 256 + v
        / 0x100_0000
}

/// Appends the little-endian bytes of `v`.
pub fn push_u16_le(buf: &mut Vec<u8>, v: u16)
    ensures
        final(buf)@ == old(buf)@ + u16_le(v),
{
    buf.push((v % 256) as u8);
    buf.push((v / 256) as u8);
    assert(final(buf)@ =~= old(buf)@ + u16_le(v));
}

/// Appends the little-endian bytes of `v`.
pub fn push_u32_le(buf: &mut Vec<u8>, v: u32)
    ensures
        final(buf)@ == old(buf)@ + u32_le(v),
{
    buf.push((v % 256) as u8);
    buf.push(((v / 256) % 256) as u8);
    buf.push(((v / 0x1_0000) % 256) as u8);
    buf.push((v / 0x100_0000) as u8);
    assert(final(buf)@ =~= old(buf)@ + u32_le(v));
}

/// Encoding then decoding a 16-bit value gives it back.
pub proof fn lemma_u16_be_roundtrip(v: u16)
    ensures
        be16(u16_be(v)[0], u16_be(v)[1]) == v,
        u16_be(v).len() == 2,
{
}

/// Encoding then decoding a 32-bit value gives it back.
pub proof fn lemma_u32_be_roundtrip(v: u32)
    ensures
        be32(u32_be(v)[0], u32_be(v)[1], u32_be(v)[2], u32_be(v)[3]) == v,
        u32_be(v).len() == 4,
{
    lemma_u32_be_parts(v);
    assert(v / 0x100_0000 < 256) by (bit_vector);
}

/// Decoding then encoding two bytes gives them back.
pub proof fn lemma_be16_bytes(hi: u8, lo: u8)
    ensures
        u16_be(be16(hi, lo)) == seq![hi, lo],
{
    assert(u16_be(be16(hi, lo)) =~= seq![hi, lo]);
}

/// Decoding then encoding four bytes gives them back.
pub proof fn lemma_be32_bytes(b0: u8, b1: u8, b2: u8, b3: u8)
    ensures
        u32_be(be32(b0, b1, b2, b3)) == seq![b0, b1, b2, b3],
{
    let v: u32 = ((b0 as u32) * 0x100_0000 + (b1 as u32) * 0x1_0000 + (b2 as u32) * 256 + (b3 as u32)) as u32;
    assert(b0 as nat * 0x100_0000 + b1 as nat * 0x1_0000 + b2 as nat * 256 + (b3 as nat) < 0x1_0000_0000);
    assert(be32(b0, b1, b2, b3) == v);
    assert(v / 0x100_0000 == b0 as u32 && (v / 0x1_0000) % 256 == b1 as u32 && (v / 256) % 256 == b2 as u32 && v % 256 == b3 as u32) by (bit_vector)
        requires v == ((b0 as u32) * 0x100_0000 + (b1 as u32) * 0x1_0000 + (b2 as u32) * 256 + (b3 as u32)) as u32;
    assert(u32_be(v) =~= seq![b0, b1, b2, b3]);
}

/// Appends the big-endian bytes of `v`.
pub fn push_u16_be(buf: &mut Vec<u8>, v: u16)
    ensures
        final(buf)@ == old(buf)@ + u16_be(v),
{
    buf.push((v / 256) as u8);
    buf.push((v % 256) as u8);
    assert(final(buf)@ =~= old(buf)@ + u16_be(v));
}

/// Appends the big-endian bytes of `v`.
pub fn push_u32_be(buf: &mut Vec<u8>, v: u32)
    ensures
        final(buf)@ == old(buf)@ + u32_be(v),
{
    buf.push((v / 0x100_0000) as u8);
    buf.push(((v / 0x1_0000) % 256) as u8);
    buf.push(((v / 256) % 256) as u8);
    buf.push((v % 256) as u8);
    assert(final(buf)@ =~= old(buf)@ + u32_be(v));
}

/// Appends all bytes of `data`.
pub fn push_bytes(buf: &mut Vec<u8>, data: &[u8])
    ensures
        final(buf)@ == old(buf)@ + data@,
{
    let ghost start = buf@;
    let mut i: usize = 0;
    while i < data.len()
        invariant
            i <= data@.len(),
            buf@ == start + data@.take(i as int),
        decreases data@.len() - i,
    {
        buf.push(data[i]);
        i = i + 1;
        assert(buf@ =~= start + data@.take(i as int));
    }
    assert(data@.take(i as int) =~= data@);
}

/// The 16-bit big-endian value at `data[i..i + 2]`.
pub fn read_u16_be(data: &[u8], i: usize) -> (r: u16)
    requires
        i + 2 <= data@.len(),
    ensures
        r == be16(data@[i as int], data@[i + 1]),
{
    (data[i] as u16) * 256 + data[i + 1] as u16
}

/// The 32-bit big-endian value at `data[i..i + 4]`.
pub fn read_u32_be(data: &[u8], i: usize) -> (r: u32)
    requires
        i + 4 <= data@.len(),
    ensures
        r == be32(data@[i as int], data@[i + 1], data@[i + 2], data@[i + 3]),
{
    (data[i] as u32) * 0x100_0000 + (data[i + 1] as u32) * 0x1_0000 + (data[i + 2] as u32) * 256
        + data[i + 3] as u32
}

/// Whether two 4-byte addresses are equal.
pub fn eq4(a: &[u8; 4], b: &[u8; 4]) -> (r: bool)
    ensures
        r == (*a == *b),
{
    let r = a[0] == b[0] && a[1] == b[1] && a[2] == b[2] && a[3] == b[3];
    if r {
        assert(*a =~= *b);
    }
    r
}

/// Whether two 6-byte addresses are equal.
pub fn eq6(a: &[u8; 6], b: &[u8; 6]) -> (r: bool)
    ensures
        r == (*a == *b),
{
    let r = a[0] == b[0] && a[1] == b[1] && a[2] == b[2] && a[3] == b[3] && a[4] == b[4] && a[5] == b[5];
    if r {
        assert(*a =~= *b);
    }
    r
}

/// A vector holding `n` zero bytes.
pub fn zeros(n: usize) -> (r: Vec<u8>)
    ensures
        r@ == Seq::new(n as nat, |_i: int| 0u8),
{
    let mut r: Vec<u8> = Vec::new();
    let mut i: usize = 0;
    while i < n
        invariant
            i <= n,
            r@ == Seq::new(i as nat, |_i: int| 0u8),
        decreases n - i,
    {
        r.push(0);
        i = i + 1;
        assert(r@ =~= Seq::new(i as nat, |_i: int| 0u8));
    }
    r
}

/// A copy of `data[from..to]`.
pub fn copy_range(data: &[u8], from: usize, to: usize) -> (r: Vec<u8>)
    requires
        from <= to <= data@.len(),
    ensures
        r@ == data@.subrange(from as int, to as int),
{
    let mut r: Vec<u8> = Vec::new();
    let mut i: usize = from;
    while i < to
        invariant
            from <= i <= to <= data@.len(),
            r@ == data@.subrange(from as int, i as int),
        decreases to - i,
    {
        r.push(data[i]);
        i = i + 1;
        assert(r@ =~= data@.subrange(from as int, i as int));
    }
    r
}

} // verus!
