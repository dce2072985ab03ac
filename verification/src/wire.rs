//! Integers as bytes on the wire, and byte strings.
//!
//! `beN` and `leN` give the big-endian and little-endian bytes of an unsigned
//! integer; `beN_at` and `leN_at` read one back at an index. The executable
//! functions below are stated over these.

use vstd::prelude::*;

verus! {

/// The two bytes of `x`, most significant first.
pub open spec fn be16(x: u16) -> Seq<u8> {
    seq![(x / 0x100) as u8, (x % 0x100) as u8]
}

/// The four bytes of `x`, most significant first.
pub open spec fn be32(x: u32) -> Seq<u8> {
    be16((x / 0x1_0000) as u16) + be16((x % 0x1_0000) as u16)
}

/// The eight bytes of `x`, most significant first.
pub open spec fn be64(x: u64) -> Seq<u8> {
    be32((x / 0x1_0000_0000) as u32) + be32((x % 0x1_0000_0000) as u32)
}

/// The big-endian 16-bit integer at index `i` of `s`.
pub open spec fn be16_at(s: Seq<u8>, i: int) -> u16 {
    (s[i] * 0x100 + s[i + 1]) as u16
}

/// The big-endian 32-bit integer at index `i` of `s`.
pub open spec fn be32_at(s: Seq<u8>, i: int) -> u32 {
    (be16_at(s, i) * 0x1_0000 + be16_at(s, i + 2)) as u32
}

/// The big-endian 64-bit integer at index `i` of `s`.
pub open spec fn be64_at(s: Seq<u8>, i: int) -> u64 {
    (be32_at(s, i) * 0x1_0000_0000 + be32_at(s, i + 4)) as u64
}

/// The two bytes of `x`, least significant first.
pub open spec fn le16(x: u16) -> Seq<u8> {
    seq![(x % 0x100) as u8, (x / 0x100) as u8]
}

/// The four bytes of `x`, least significant first.
pub open spec fn le32(x: u32) -> Seq<u8> {
    le16((x % 0x1_0000) as u16) + le16((x / 0x1_0000) as u16)
}

/// The eight bytes of `x`, least significant first.
pub open spec fn le64(x: u64) -> Seq<u8> {
    le32((x % 0x1_0000_0000) as u32) + le32((x / 0x1_0000_0000) as u32)
}

/// The little-endian 16-bit integer at index `i` of `s`.
pub open spec fn le16_at(s: Seq<u8>, i: int) -> u16 {
    (s[i] + s[i + 1] * 0x100) as u16
}

/// The little-endian 32-bit integer at index `i` of `s`.
pub open spec fn le32_at(s: Seq<u8>, i: int) -> u32 {
    (le16_at(s, i) + le16_at(s, i + 2) * 0x1_0000) as u32
}

/// The little-endian 64-bit integer at index `i` of `s`.
pub open spec fn le64_at(s: Seq<u8>, i: int) -> u64 {
    (le32_at(s, i) + le32_at(s, i + 4) * 0x1_0000_0000) as u64
}

/// A run of `n` zero bytes.
pub open spec fn zeros(n: nat) -> Seq<u8> {
    Seq::new(n, |i: int| 0u8)
}

/// The contents of a list of byte vectors.
pub open spec fn contents(s: Seq<Vec<u8>>) -> Seq<Seq<u8>> {
    s.map_values(|v: Vec<u8>| v@)
}

/// Reading a 16-bit integer gives back what was written.
pub proof fn be16_round_trip(x: u16, s: Seq<u8>, i: int)
    requires
        0 <= i,
        i + 2 <= s.len(),
        s.subrange(i, i + 2) == be16(x),
    ensures
        be16_at(s, i) == x,
{
    assert(s[i] == s.subrange(i, i + 2)[0]);
    assert(s[i + 1] == s.subrange(i, i + 2)[1]);
}

/// Reading a 32-bit integer gives back what was written.
pub proof fn be32_round_trip(x: u32, s: Seq<u8>, i: int)
    requires
        0 <= i,
        i + 4 <= s.len(),
        s.subrange(i, i + 4) == be32(x),
    ensures
        be32_at(s, i) == x,
{
    let t = s.subrange(i, i + 4);
    assert(s.subrange(i, i + 2) =~= t.subrange(0, 2));
    assert(s.subrange(i + 2, i + 4) =~= t.subrange(2, 4));
    assert(t.subrange(0, 2) =~= be16((x / 0x1_0000) as u16));
    assert(t.subrange(2, 4) =~= be16((x % 0x1_0000) as u16));
    be16_round_trip((x / 0x1_0000) as u16, s, i);
    be16_round_trip((x % 0x1_0000) as u16, s, i + 2);
}

/// Reading a 64-bit integer gives back what was written.
pub proof fn be64_round_trip(x: u64, s: Seq<u8>, i: int)
    requires
        0 <= i,
        i + 8 <= s.len(),
        s.subrange(i, i + 8) == be64(x),
    ensures
        be64_at(s, i) == x,
{
    let t = s.subrange(i, i + 8);
    assert(s.subrange(i, i + 4) =~= t.subrange(0, 4));
    assert(s.subrange(i + 4, i + 8) =~= t.subrange(4, 8));
    assert(t.subrange(0, 4) =~= be32((x / 0x1_0000_0000) as u32));
    assert(t.subrange(4, 8) =~= be32((x % 0x1_0000_0000) as u32));
    be32_round_trip((x / 0x1_0000_0000) as u32, s, i);
    be32_round_trip((x % 0x1_0000_0000) as u32, s, i + 4);
}

/// The bytes at an index are those of the integer read there.
pub proof fn be16_at_bytes(s: Seq<u8>, i: int)
    requires
        0 <= i,
        i + 2 <= s.len(),
    ensures
        be16(be16_at(s, i)) == s.subrange(i, i + 2),
{
    assert(be16(be16_at(s, i)) =~= s.subrange(i, i + 2));
}

/// The bytes at an index are those of the integer read there.
pub proof fn be32_at_bytes(s: Seq<u8>, i: int)
    requires
        0 <= i,
        i + 4 <= s.len(),
    ensures
        be32(be32_at(s, i)) == s.subrange(i, i + 4),
{
    let x = be32_at(s, i);
    assert((x / 0x1_0000) as u16 == be16_at(s, i));
    assert((x % 0x1_0000) as u16 == be16_at(s, i + 2));
    be16_at_bytes(s, i);
    be16_at_bytes(s, i + 2);
    assert(s.subrange(i, i + 4) =~= s.subrange(i, i + 2) + s.subrange(i + 2, i + 4));
}

/// Reading a 16-bit integer gives back what was written.
pub proof fn le16_round_trip(x: u16, s: Seq<u8>, i: int)
    requires
        0 <= i,
        i + 2 <= s.len(),
        s.subrange(i, i + 2) == le16(x),
    ensures
        le16_at(s, i) == x,
{
    assert(s[i] == s.subrange(i, i + 2)[0]);
    assert(s[i + 1] == s.subrange(i, i + 2)[1]);
}

/// Reading a 32-bit integer gives back what was written.
pub proof fn le32_round_trip(x: u32, s: Seq<u8>, i: int)
    requires
        0 <= i,
        i + 4 <= s.len(),
        s.subrange(i, i + 4) == le32(x),
    ensures
        le32_at(s, i) == x,
{
    let t = s.subrange(i, i + 4);
    assert(s.subrange(i, i + 2) =~= t.subrange(0, 2));
    assert(s.subrange(i + 2, i + 4) =~= t.subrange(2, 4));
    assert(t.subrange(0, 2) =~= le16((x % 0x1_0000) as u16));
    assert(t.subrange(2, 4) =~= le16((x / 0x1_0000) as u16));
    le16_round_trip((x % 0x1_0000) as u16, s, i);
    le16_round_trip((x / 0x1_0000) as u16, s, i + 2);
}

/// Reading a 64-bit integer gives back what was written.
pub proof fn le64_round_trip(x: u64, s: Seq<u8>, i: int)
    requires
        0 <= i,
        i + 8 <= s.len(),
        s.subrange(i, i + 8) == le64(x),
    ensures
        le64_at(s, i) == x,
{
    let t = s.subrange(i, i + 8);
    assert(s.subrange(i, i + 4) =~= t.subrange(0, 4));
    assert(s.subrange(i + 4, i + 8) =~= t.subrange(4, 8));
    assert(t.subrange(0, 4) =~= le32((x % 0x1_0000_0000) as u32));
    assert(t.subrange(4, 8) =~= le32((x / 0x1_0000_0000) as u32));
    le32_round_trip((x % 0x1_0000_0000) as u32, s, i);
    le32_round_trip((x / 0x1_0000_0000) as u32, s, i + 4);
}

/// Appends the bytes of `x`, most significant first.
pub fn put_be16(out: &mut Vec<u8>, x: u16)
    ensures
        final(out)@ == old(out)@ + be16(x),
{
    out.push((x / 0x100) as u8);
    out.push((x % 0x100) as u8);
    assert(out@ =~= old(out)@ + be16(x));
}

/// Appends the bytes of `x`, most significant first.
pub fn put_be32(out: &mut Vec<u8>, x: u32)
    ensures
        final(out)@ == old(out)@ + be32(x),
{
    put_be16(out, (x / 0x1_0000) as u16);
    put_be16(out, (x % 0x1_0000) as u16);
    assert(out@ =~= old(out)@ + be32(x));
}

/// Appends the bytes of `x`, most significant first.
pub fn put_be64(out: &mut Vec<u8>, x: u64)
    ensures
        final(out)@ == old(out)@ + be64(x),
{
    put_be32(out, (x / 0x1_0000_0000) as u32);
    put_be32(out, (x % 0x1_0000_0000) as u32);
    assert(out@ =~= old(out)@ + be64(x));
}

/// Appends the bytes of `x`, least significant first.
pub fn put_le16(out: &mut Vec<u8>, x: u16)
    ensures
        final(out)@ == old(out)@ + le16(x),
{
    out.push((x % 0x100) as u8);
    out.push((x / 0x100) as u8);
    assert(out@ =~= old(out)@ + le16(x));
}

/// Appends the bytes of `x`, least significant first.
pub fn put_le32(out: &mut Vec<u8>, x: u32)
    ensures
        final(out)@ == old(out)@ + le32(x),
{
    put_le16(out, (x % 0x1_0000) as u16);
    put_le16(out, (x / 0x1_0000) as u16);
    assert(out@ =~= old(out)@ + le32(x));
}

/// Appends the bytes of `x`, least significant first.
pub fn put_le64(out: &mut Vec<u8>, x: u64)
    ensures
        final(out)@ == old(out)@ + le64(x),
{
    put_le32(out, (x % 0x1_0000_0000) as u32);
    put_le32(out, (x / 0x1_0000_0000) as u32);
    assert(out@ =~= old(out)@ + le64(x));
}

/// Reads a big-endian 16-bit integer at index `i`.
pub fn get_be16(s: &[u8], i: usize) -> (x: u16)
    requires
        i + 2 <= s.len(),
    ensures
        x == be16_at(s@, i as int),
{
    s[i] as u16 * 0x100 + s[i + 1] as u16
}

/// Reads a big-endian 32-bit integer at index `i`.
pub fn get_be32(s: &[u8], i: usize) -> (x: u32)
    requires
        i + 4 <= s.len(),
    ensures
        x == be32_at(s@, i as int),
{
    get_be16(s, i) as u32 * 0x1_0000 + get_be16(s, i + 2) as u32
}

/// Reads a big-endian 64-bit integer at index `i`.
pub fn get_be64(s: &[u8], i: usize) -> (x: u64)
    requires
        i + 8 <= s.len(),
    ensures
        x == be64_at(s@, i as int),
{
    get_be32(s, i) as u64 * 0x1_0000_0000 + get_be32(s, i + 4) as u64
}

/// Reads a little-endian 16-bit integer at index `i`.
pub fn get_le16(s: &[u8], i: usize) -> (x: u16)
    requires
        i + 2 <= s.len(),
    ensures
        x == le16_at(s@, i as int),
{
    s[i] as u16 + s[i + 1] as u16 * 0x100
}

/// Reads a little-endian 32-bit integer at index `i`.
pub fn get_le32(s: &[u8], i: usize) -> (x: u32)
    requires
        i + 4 <= s.len(),
    ensures
        x == le32_at(s@, i as int),
{
    get_le16(s, i) as u32 + get_le16(s, i + 2) as u32 * 0x1_0000
}

/// Reads a little-endian 64-bit integer at index `i`.
pub fn get_le64(s: &[u8], i: usize) -> (x: u64)
    requires
        i + 8 <= s.len(),
    ensures
        x == le64_at(s@, i as int),
{
    get_le32(s, i) as u64 + get_le32(s, i + 4) as u64 * 0x1_0000_0000
}

/// Appends all bytes of `s`.
pub fn put_bytes(out: &mut Vec<u8>, s: &[u8])
    ensures
        final(out)@ == old(out)@ + s@,
{
    out.extend_from_slice(s);
    assert(out@ =~= old(out)@ + s@);
}

/// Appends `n` zero bytes.
pub fn put_zeros(out: &mut Vec<u8>, n: usize)
    ensures
        final(out)@ == old(out)@ + zeros(n as nat),
{
    let mut i: usize = 0;
    while i < n
        invariant
            i <= n,
            out@ == old(out)@ + zeros(i as nat),
        decreases n - i,
    {
        out.push(0);
        i = i + 1;
        assert(out@ =~= old(out)@ + zeros(i as nat));
    }
}

/// Whether two byte strings are the same.
pub fn same_bytes(a: &[u8], b: &[u8]) -> (r: bool)
    ensures
        r == (a@ == b@),
{
    if a.len() != b.len() {
        return false;
    }
    let mut i: usize = 0;
    while i < a.len()
        invariant
            i <= a@.len(),
            a@.len() == b@.len(),
            forall|j: int| 0 <= j < i ==> a@[j] == b@[j],
        decreases a@.len() - i,
    {
        if a[i] != b[i] {
            return false;
        }
        i = i + 1;
    }
    assert(a@ =~= b@);
    true
}

/// The bytes from `from` up to `to`, as a vector of their own.
pub fn copy_range(s: &[u8], from: usize, to: usize) -> (v: Vec<u8>)
    requires
        from <= to <= s@.len(),
    ensures
        v@ == s@.subrange(from as int, to as int),
{
    vstd::slice::slice_to_vec(vstd::slice::slice_subrange(s, from, to))
}

/// The first 16 bytes, as an array.
pub fn array16(s: &[u8]) -> (a: [u8; 16])
    requires
        s.len() >= 16,
    ensures
        a@ == s@.subrange(0, 16),
{
    let a: [u8; 16] = [s[0], s[1], s[2], s[3], s[4], s[5], s[6], s[7], s[8], s[9], s[10], s[11], s[12], s[13], s[14], s[15]];
    assert(a@ =~= s@.subrange(0, 16));
    a
}

/// The first 32 bytes, as an array.
pub fn array32(s: &[u8]) -> (a: [u8; 32])
    requires
        s.len() >= 32,
    ensures
        a@ == s@.subrange(0, 32),
{
    let a: [u8; 32] = [s[0], s[1], s[2], s[3], s[4], s[5], s[6], s[7], s[8], s[9], s[10], s[11], s[12], s[13], s[14], s[15], s[16], s[17], s[18], s[19], s[20], s[21], s[22], s[23], s[24], s[25], s[26], s[27], s[28], s[29], s[30], s[31]];
    assert(a@ =~= s@.subrange(0, 32));
    a
}

/// The first 64 bytes, as an array.
pub fn array64(s: &[u8]) -> (a: [u8; 64])
    requires
        s.len() >= 64,
    ensures
        a@ == s@.subrange(0, 64),
{
    let a: [u8; 64] = [s[0], s[1], s[2], s[3], s[4], s[5], s[6], s[7], s[8], s[9], s[10], s[11], s[12], s[13], s[14], s[15], s[16], s[17], s[18], s[19], s[20], s[21], s[22], s[23], s[24], s[25], s[26], s[27], s[28], s[29], s[30], s[31], s[32], s[33], s[34], s[35], s[36], s[37], s[38], s[39], s[40], s[41], s[42], s[43], s[44], s[45], s[46], s[47], s[48], s[49], s[50], s[51], s[52], s[53], s[54], s[55], s[56], s[57], s[58], s[59], s[60], s[61], s[62], s[63]];
    assert(a@ =~= s@.subrange(0, 64));
    a
}

} // verus!
