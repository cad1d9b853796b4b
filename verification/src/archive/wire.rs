//! Lowest layer of the archive format: CRC32 and fixed-width little-endian integers.
use vstd::prelude::*;

verus! {

/// The CRC-32/ISO-HDLC checksum of `data`, as `crc32fast::hash` computes it.
pub uninterp spec fn crc32_of(data: Seq<u8>) -> u32;

/// Checksum of `data`, computed by `crc32fast::hash`.
///
/// Trusted: the checksum depends on the bytes alone. Nothing is claimed about which bytes share
/// a checksum.
#[verifier::external_body]
pub fn crc32(data: &[u8]) -> (crc: u32)
    ensures
        crc == crc32_of(data@),
{
    crc32fast::hash(data)
}

/// The two little-endian bytes of `v`.
#[verifier::opaque]
pub open spec fn le16(v: u16) -> Seq<u8> {
    seq![(v % 256) as u8, (v / 256 % 256) as u8]
}

/// The number whose two little-endian bytes stand at `at` in `s`.
#[verifier::opaque]
pub open spec fn u16_at(s: Seq<u8>, at: int) -> u16 {
    (s[at] + 256 * s[at + 1]) as u16
}

/// The four little-endian bytes of `v`.
#[verifier::opaque]
pub open spec fn le32(v: u32) -> Seq<u8> {
    seq![
        (v % 256) as u8,
        (v / 256 % 256) as u8,
        (v / 65536 % 256) as u8,
        (v / 16777216 % 256) as u8,
    ]
}

/// The eight little-endian bytes of `v`.
#[verifier::opaque]
pub open spec fn le64(v: u64) -> Seq<u8> {
    le32((v % 0x1_0000_0000) as u32) + le32((v / 0x1_0000_0000) as u32)
}

/// The number whose four little-endian bytes stand at `at` in `s`.
#[verifier::opaque]
pub open spec fn u32_at(s: Seq<u8>, at: int) -> u32 {
    (s[at] + 256 * s[at + 1] + 65536 * s[at + 2] + 16777216 * s[at + 3]) as u32
}

/// The number whose eight little-endian bytes stand at `at` in `s`.
#[verifier::opaque]
pub open spec fn u64_at(s: Seq<u8>, at: int) -> u64 {
    (u32_at(s, at) + 0x1_0000_0000 * u32_at(s, at + 4)) as u64
}

/// Two bytes, as many as the name says.
pub broadcast proof fn le16_len(v: u16)
    ensures
        #[trigger] le16(v).len() == 2,
{
    reveal(le16);
}

/// Reading a two-byte number gives back what writing it wrote, wherever it stands.
pub proof fn le16_reads_back(s: Seq<u8>, at: int, v: u16)
    requires
        0 <= at,
        at + 2 <= s.len(),
        s.subrange(at, at + 2) == le16(v),
    ensures
        u16_at(s, at) == v,
{
    reveal(le16);
    reveal(u16_at);
    let b = s.subrange(at, at + 2);
    assert(s[at] == b[0] && s[at + 1] == b[1]);
}

/// Four bytes, as many as the name says.
pub broadcast proof fn le32_len(v: u32)
    ensures
        #[trigger] le32(v).len() == 4,
{
    reveal(le32);
}

/// Eight bytes, as many as the name says.
pub broadcast proof fn le64_len(v: u64)
    ensures
        #[trigger] le64(v).len() == 8,
{
    reveal(le64);
    reveal(le32);
}

/// Reading a four-byte number gives back what writing it wrote, wherever it stands.
pub proof fn le32_reads_back(s: Seq<u8>, at: int, v: u32)
    requires
        0 <= at,
        at + 4 <= s.len(),
        s.subrange(at, at + 4) == le32(v),
    ensures
        u32_at(s, at) == v,
{
    reveal(le32);
    reveal(u32_at);
    let b = s.subrange(at, at + 4);
    assert(s[at] == b[0] && s[at + 1] == b[1] && s[at + 2] == b[2] && s[at + 3] == b[3]);
}

/// Reading an eight-byte number gives back what writing it wrote, wherever it stands.
pub proof fn le64_reads_back(s: Seq<u8>, at: int, v: u64)
    requires
        0 <= at,
        at + 8 <= s.len(),
        s.subrange(at, at + 8) == le64(v),
    ensures
        u64_at(s, at) == v,
{
    broadcast use le32_len;

    reveal(le64);
    reveal(u64_at);
    let b = s.subrange(at, at + 8);
    assert(s.subrange(at, at + 4) =~= b.subrange(0, 4));
    assert(s.subrange(at + 4, at + 8) =~= b.subrange(4, 8));
    assert(le64(v).subrange(0, 4) =~= le32((v % 0x1_0000_0000) as u32));
    assert(le64(v).subrange(4, 8) =~= le32((v / 0x1_0000_0000) as u32));
    le32_reads_back(s, at, (v % 0x1_0000_0000) as u32);
    le32_reads_back(s, at + 4, (v / 0x1_0000_0000) as u32);
}

/// Where `b` starts with `p` and then `part`, it starts with `p`, and `part` stands behind it.
pub proof fn peel(b: Seq<u8>, p: Seq<u8>, part: Seq<u8>)
    requires
        p.len() + part.len() <= b.len(),
        b.subrange(0, (p.len() + part.len()) as int) == p + part,
    ensures
        b.subrange(0, p.len() as int) == p,
        b.subrange(p.len() as int, (p.len() + part.len()) as int) == part,
{
    let q = b.subrange(0, (p.len() + part.len()) as int);
    assert(q.subrange(0, p.len() as int) =~= p);
    assert(q.subrange(p.len() as int, q.len() as int) =~= part);
    assert(b.subrange(0, p.len() as int) =~= q.subrange(0, p.len() as int));
    assert(b.subrange(p.len() as int, q.len() as int) =~= q.subrange(
        p.len() as int,
        q.len() as int,
    ));
}

/// As `peel`, where a four-byte number stands behind.
pub proof fn peel32(b: Seq<u8>, p: Seq<u8>, v: u32)
    requires
        p.len() + 4 <= b.len(),
        b.subrange(0, (p.len() + 4) as int) == p + le32(v),
    ensures
        b.subrange(0, p.len() as int) == p,
        u32_at(b, p.len() as int) == v,
{
    broadcast use le32_len;

    peel(b, p, le32(v));
    le32_reads_back(b, p.len() as int, v);
}

/// As `peel`, where an eight-byte number stands behind.
pub proof fn peel64(b: Seq<u8>, p: Seq<u8>, v: u64)
    requires
        p.len() + 8 <= b.len(),
        b.subrange(0, (p.len() + 8) as int) == p + le64(v),
    ensures
        b.subrange(0, p.len() as int) == p,
        u64_at(b, p.len() as int) == v,
{
    broadcast use le64_len;

    peel(b, p, le64(v));
    le64_reads_back(b, p.len() as int, v);
}

/// As `peel`, where a two-byte number stands behind.
pub proof fn peel16(b: Seq<u8>, p: Seq<u8>, v: u16)
    requires
        p.len() + 2 <= b.len(),
        b.subrange(0, (p.len() + 2) as int) == p + le16(v),
    ensures
        b.subrange(0, p.len() as int) == p,
        u16_at(b, p.len() as int) == v,
{
    broadcast use le16_len;

    peel(b, p, le16(v));
    le16_reads_back(b, p.len() as int, v);
}

/// Appends the little-endian bytes of `v`.
pub fn put_u16(buf: &mut Vec<u8>, v: u16)
    ensures
        final(buf)@ == old(buf)@ + le16(v),
{
    reveal(le16);
    buf.push((v % 256) as u8);
    buf.push((v / 256 % 256) as u8);
}

/// Reads the little-endian number at `at`.
pub fn get_u16(buf: &[u8], at: usize) -> (v: u16)
    requires
        at + 2 <= buf@.len(),
    ensures
        v == u16_at(buf@, at as int),
{
    reveal(u16_at);
    buf[at] as u16 + 256 * (buf[at + 1] as u16)
}

/// Appends the little-endian bytes of `v`.
pub fn put_u32(buf: &mut Vec<u8>, v: u32)
    ensures
        final(buf)@ == old(buf)@ + le32(v),
{
    reveal(le32);
    buf.push((v % 256) as u8);
    buf.push((v / 256 % 256) as u8);
    buf.push((v / 65536 % 256) as u8);
    buf.push((v / 16777216 % 256) as u8);
}

/// Appends the little-endian bytes of `v`.
pub fn put_u64(buf: &mut Vec<u8>, v: u64)
    ensures
        final(buf)@ == old(buf)@ + le64(v),
{
    reveal(le64);
    put_u32(buf, (v % 0x1_0000_0000) as u32);
    put_u32(buf, (v / 0x1_0000_0000) as u32);
}

/// Reads the little-endian number at `at`.
pub fn get_u32(buf: &[u8], at: usize) -> (v: u32)
    requires
        at + 4 <= buf@.len(),
    ensures
        v == u32_at(buf@, at as int),
{
    reveal(u32_at);
    buf[at] as u32 + 256 * (buf[at + 1] as u32) + 65536 * (buf[at + 2] as u32) + 16777216 * (buf[at
        + 3] as u32)
}

/// Reads the little-endian number at `at`.
pub fn get_u64(buf: &[u8], at: usize) -> (v: u64)
    requires
        at + 8 <= buf@.len(),
    ensures
        v == u64_at(buf@, at as int),
{
    reveal(u64_at);
    let len: usize = buf.len();
    assert(at + 8 <= len);
    get_u32(buf, at) as u64 + 0x1_0000_0000 * (get_u32(buf, at + 4) as u64)
}

/// The bytes of `buf` from `from` up to `to`.
pub fn copy_range(buf: &[u8], from: usize, to: usize) -> (part: Vec<u8>)
    requires
        from <= to <= buf@.len(),
    ensures
        part@ == buf@.subrange(from as int, to as int),
{
    let mut part: Vec<u8> = Vec::new();
    let mut i: usize = from;
    while i < to
        invariant
            from <= i <= to <= buf@.len(),
            part@ == buf@.subrange(from as int, i as int),
        decreases to - i,
    {
        part.push(buf[i]);
        i = i + 1;
    }
    part
}

/// Whether the two byte strings are equal.
pub fn same_bytes(a: &[u8], b: &[u8]) -> (same: bool)
    ensures
        same == (a@ == b@),
{
    if a.len() != b.len() {
        return false;
    }
    let mut i: usize = 0;
    while i < a.len()
        invariant
            i <= a@.len(),
            a@.len() == b@.len(),
            forall|j: int| 0 <= j < i ==> a@[j] == b@[j],
        decreases a@.len() - i,
    {
        if a[i] != b[i] {
            return false;
        }
        i = i + 1;
    }
    assert(a@ =~= b@);
    true
}

/// The bytes of a number stand with the smallest first, and add up to it.
pub proof fn smallest_byte_stands_first(a: u16, b: u32)
    ensures
        le16(a)[0] + 256 * le16(a)[1] == a,
        le32(b)[0] + 256 * le32(b)[1] + 65536 * le32(b)[2] + 16777216 * le32(b)[3] == b,
{
    reveal(le16);
    reveal(le32);
}

/// The eight bytes of a number are the four of its lower half and then the four of its upper half.
pub proof fn lower_half_stands_first(v: u64)
    ensures
        exists|lo: u32, hi: u32| #[trigger] (le32(lo) + le32(hi)) == le64(v) && lo
            + 0x1_0000_0000 * hi == v,
{
    reveal(le64);
    let lo = (v % 0x1_0000_0000) as u32;
    let hi = (v / 0x1_0000_0000) as u32;
    assert(le32(lo) + le32(hi) == le64(v));
}

} // verus!
