//! Little- and big-endian integer fields read from and written to byte
//! buffers, with the round-trip facts the codecs rely on.
use vstd::prelude::*;

verus! {

/// The 32-bit little-endian value of four bytes.
pub open spec fn le_u32(b0: u8, b1: u8, b2: u8, b3: u8) -> u32 {
    (b0 + b1 * 0x100 + b2 * 0x1_0000 + b3 * 0x100_0000) as u32
}

/// The little-endian 32-bit field of `s` starting at index `i`.
pub open spec fn le_u32_at(s: Seq<u8>, i: int) -> u32 {
    le_u32(s[i], s[i + 1], s[i + 2], s[i + 3])
}

/// The little-endian 16-bit field of `s` starting at index `i`.
pub open spec fn le_u16_at(s: Seq<u8>, i: int) -> u16 {
    (s[i] + s[i + 1] * 0x100) as u16
}

/// Reads the little-endian 16-bit field at `pos`.
pub fn read_u16_le(data: &[u8], pos: usize) -> (r: u16)
    requires
        pos + 2 <= data@.len(),
    ensures
        r == le_u16_at(data@, pos as int),
{
    let b0 = data[pos] as u16;
    let b1 = data[pos + 1] as u16;
    b0 + b1 * 0x100
}

/// The 16-bit big-endian value of two bytes.
pub open spec fn be_u16(b0: u8, b1: u8) -> u16 {
    (b0 * 0x100 + b1) as u16
}

/// The big-endian 16-bit field of `s` starting at index `i`.
pub open spec fn be_u16_at(s: Seq<u8>, i: int) -> u16 {
    be_u16(s[i], s[i + 1])
}

/// The 24-bit big-endian value of three bytes.
pub open spec fn be_u24(b0: u8, b1: u8, b2: u8) -> u32 {
    (b0 * 0x1_0000 + b1 * 0x100 + b2) as u32
}

/// The big-endian 24-bit field of `s` starting at index `i`.
pub open spec fn be_u24_at(s: Seq<u8>, i: int) -> u32 {
    be_u24(s[i], s[i + 1], s[i + 2])
}

/// The four bytes of `v` in little-endian order.
pub open spec fn u32_le_bytes(v: u32) -> Seq<u8> {
    seq![
        (v % 0x100) as u8,
        ((v / 0x100) % 0x100) as u8,
        ((v / 0x1_0000) % 0x100) as u8,
        ((v / 0x100_0000) % 0x100) as u8,
    ]
}

/// The two bytes of `v` in big-endian order.
pub open spec fn u16_be_bytes(v: u16) -> Seq<u8> {
    seq![(v / 0x100) as u8, (v % 0x100) as u8]
}

/// The low 24 bits of `v` as three bytes in big-endian order.
pub open spec fn u24_be_bytes(v: u32) -> Seq<u8> {
    seq![((v / 0x1_0000) % 0x100) as u8, ((v / 0x100) % 0x100) as u8, (v % 0x100) as u8]
}

/// Reading back the four bytes written for `v` gives `v` again.
pub proof fn lemma_u32_le_round_trip(v: u32)
    ensures
        le_u32(
            u32_le_bytes(v)[0],
            u32_le_bytes(v)[1],
            u32_le_bytes(v)[2],
            u32_le_bytes(v)[3],
        ) == v,
{
    assert(v % 0x100 + ((v / 0x100) % 0x100) * 0x100 + ((v / 0x1_0000) % 0x100) * 0x1_0000 + ((v
        / 0x100_0000) % 0x100) * 0x100_0000 == v) by (bit_vector);
}

/// Reading back the three bytes written for `v` gives `v` again, as long as
/// `v` fits in 24 bits.
pub proof fn lemma_u24_be_round_trip(v: u32)
    requires
        v < 0x100_0000,
    ensures
        be_u24(u24_be_bytes(v)[0], u24_be_bytes(v)[1], u24_be_bytes(v)[2]) == v,
{
    assert(v < 0x100_0000 ==> ((v / 0x1_0000) % 0x100) * 0x1_0000 + ((v / 0x100) % 0x100) * 0x100
        + v % 0x100 == v) by (bit_vector);
}

/// Reads the little-endian 32-bit field at `pos`.
pub fn read_u32_le(data: &[u8], pos: usize) -> (r: u32)
    requires
        pos + 4 <= data@.len(),
    ensures
        r == le_u32_at(data@, pos as int),
{
    let b0 = data[pos] as u32;
    let b1 = data[pos + 1] as u32;
    let b2 = data[pos + 2] as u32;
    let b3 = data[pos + 3] as u32;
    b0 + b1 * 0x100 + b2 * 0x1_0000 + b3 * 0x100_0000
}

/// Reads the big-endian 16-bit field at `pos`.
pub fn read_u16_be(data: &[u8], pos: usize) -> (r: u16)
    requires
        pos + 2 <= data@.len(),
    ensures
        r == be_u16_at(data@, pos as int),
{
    let b0 = data[pos] as u16;
    let b1 = data[pos + 1] as u16;
    b0 * 0x100 + b1
}

/// Reads the big-endian 24-bit field at `pos`.
pub fn read_u24_be(data: &[u8], pos: usize) -> (r: u32)
    requires
        pos + 3 <= data@.len(),
    ensures
        r == be_u24_at(data@, pos as int),
{
    let b0 = data[pos] as u32;
    let b1 = data[pos + 1] as u32;
    let b2 = data[pos + 2] as u32;
    b0 * 0x1_0000 + b1 * 0x100 + b2
}

/// Appends the four bytes of `v` in little-endian order.
pub fn push_u32_le(out: &mut Vec<u8>, v: u32)
    ensures
        final(out)@ == old(out)@ + u32_le_bytes(v),
{
    out.push((v % 0x100) as u8);
    out.push(((v / 0x100) % 0x100) as u8);
    out.push(((v / 0x1_0000) % 0x100) as u8);
    out.push(((v / 0x100_0000) % 0x100) as u8);
    assert(out@ =~= old(out)@ + u32_le_bytes(v));
}

/// Appends the two bytes of `v` in big-endian order.
pub fn push_u16_be(out: &mut Vec<u8>, v: u16)
    ensures
        final(out)@ == old(out)@ + u16_be_bytes(v),
{
    out.push((v / 0x100) as u8);
    out.push((v % 0x100) as u8);
    assert(out@ =~= old(out)@ + u16_be_bytes(v));
}

/// Appends the low 24 bits of `v` as three bytes in big-endian order.
pub fn push_u24_be(out: &mut Vec<u8>, v: u32)
    requires
        v < 0x100_0000,
    ensures
        final(out)@ == old(out)@ + u24_be_bytes(v),
{
    out.push(((v / 0x1_0000) % 0x100) as u8);
    out.push(((v / 0x100) % 0x100) as u8);
    out.push((v % 0x100) as u8);
    assert(out@ =~= old(out)@ + u24_be_bytes(v));
}

/// Appends `data[from .. from + n]` to `out`.
pub fn push_range(out: &mut Vec<u8>, data: &[u8], from: usize, n: usize)
    requires
        from + n <= data@.len(),
    ensures
        final(out)@ == old(out)@ + data@.subrange(from as int, from + n),
{
    let total = data.len();
    assert(from + n <= total);
    let mut j: usize = 0;
    while j < n
        invariant
            j <= n,
            from + n <= data@.len(),
            from + n <= usize::MAX,
            out@ == old(out)@ + data@.subrange(from as int, from + j),
        decreases n - j,
    {
        let b = data[from + j];
        out.push(b);
        j += 1;
        assert(out@ =~= old(out)@ + data@.subrange(from as int, from + j));
    }
}

/// Concatenation of byte regions is associative.
pub proof fn lemma_seq_add_assoc<T>(a: Seq<T>, b: Seq<T>, c: Seq<T>)
    ensures
        a + b + c == a + (b + c),
{
    assert(a + b + c =~= a + (b + c));
}

/// The empty region is the unit of concatenation.
pub proof fn lemma_seq_add_empty<T>(a: Seq<T>)
    ensures
        a + Seq::<T>::empty() == a,
{
    assert(a + Seq::<T>::empty() =~= a);
}

} // verus!
