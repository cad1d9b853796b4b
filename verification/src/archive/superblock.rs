//! The superblock: encoding, decoding, and which of two slots counts.
use vstd::prelude::*;

use super::wire;
use super::{HeadCache, SB_LEN};

verus! {

/// Magic number of a superblock: "ZSB2" in little-endian order.
pub const SB_MAGIC: u32 = 0x3242_535A;

/// Offset of the checksum within a slot.
pub const SB_CRC_OFFSET: usize = 124;

/// Length of a slot in memory.
pub const SB_SIZE: usize = 128;

/// A superblock: one version of the archive.
#[derive(Debug, Clone, Copy, PartialEq, Eq, Structural)]
pub struct SuperBlock {
    /// Commit number; it only grows.
    pub seq: u64,
    /// Logical chunk size.
    pub chunk_size: u32,
    /// Logical length of the file, with the tail that the journal holds.
    pub uncompressed_size: u64,
    /// Number of chunks.
    pub chunk_count: u64,
    /// Offset of the chunk index.
    pub index_offset: u64,
    /// Length of the chunk index.
    pub index_len: u64,
    /// Checksum of the chunk index.
    pub index_crc: u32,
    /// Offset of the tail journal.
    pub tail_journal_offset: u64,
    /// Length of the tail journal; zero where there is none.
    pub tail_journal_len: u64,
    /// The head cache, where there is one.
    pub head_cache: Option<HeadCache>,
}

/// The head cache fields that a slot holds for `hc`: zeros where there is none.
pub open spec fn head_cache_fields(hc: Option<HeadCache>) -> (u64, u64, u64, u32) {
    match hc {
        None => (0, 0, 0, 0),
        Some(h) => (
            h.offset,
            h.clen,
            h.rawlen,
            if h.verbatim {
                1
            } else {
                0
            },
        ),
    }
}

/// The head cache that a slot's fields stand for: none where offset and lengths are all zero.
pub open spec fn head_cache_from(offset: u64, clen: u64, rawlen: u64, flags: u32) -> Option<
    HeadCache,
> {
    if offset == 0 && clen == 0 && rawlen == 0 {
        None
    } else {
        Some(HeadCache { offset, clen, rawlen, verbatim: flags & 1 != 0 })
    }
}

/// The fields of a superblock in the order of the slot.
pub open spec fn sb_fields(sb: SuperBlock) -> Seq<u8> {
    let h = head_cache_fields(sb.head_cache);
    wire::le32(SB_MAGIC) + wire::le64(sb.seq) + wire::le32(sb.chunk_size) + wire::le64(
        sb.uncompressed_size,
    ) + wire::le64(sb.chunk_count) + wire::le64(sb.index_offset) + wire::le64(sb.index_len)
        + wire::le32(sb.index_crc) + wire::le64(sb.tail_journal_offset) + wire::le64(
        sb.tail_journal_len,
    ) + wire::le64(h.0) + wire::le64(h.1) + wire::le64(h.2) + wire::le32(h.3)
}

/// The bytes of a slot that the checksum covers: the fields, then zeros.
pub open spec fn sb_covered(sb: SuperBlock) -> Seq<u8> {
    sb_fields(sb) + Seq::new(28, |i: int| 0u8)
}

/// The bytes of a slot.
pub open spec fn sb_bytes(sb: SuperBlock) -> Seq<u8> {
    sb_covered(sb) + wire::le32(wire::crc32_of(sb_covered(sb)))
}

/// The superblock that the bytes of a slot stand for, without regard to magic and checksum.
pub open spec fn sb_decoded(b: Seq<u8>) -> SuperBlock {
    SuperBlock {
        seq: wire::u64_at(b, 4),
        chunk_size: wire::u32_at(b, 12),
        uncompressed_size: wire::u64_at(b, 16),
        chunk_count: wire::u64_at(b, 24),
        index_offset: wire::u64_at(b, 32),
        index_len: wire::u64_at(b, 40),
        index_crc: wire::u32_at(b, 48),
        tail_journal_offset: wire::u64_at(b, 52),
        tail_journal_len: wire::u64_at(b, 60),
        head_cache: head_cache_from(
            wire::u64_at(b, 68),
            wire::u64_at(b, 76),
            wire::u64_at(b, 84),
            wire::u32_at(b, 92),
        ),
    }
}

/// Whether a slot counts as written: it is long enough, and its magic and checksum hold.
pub open spec fn sb_sound(b: Seq<u8>) -> bool {
    &&& b.len() >= SB_LEN
    &&& wire::u32_at(b, 0) == SB_MAGIC
    &&& wire::crc32_of(b.subrange(0, SB_CRC_OFFSET as int)) == wire::u32_at(
        b,
        SB_CRC_OFFSET as int,
    )
}

/// The superblock in a slot; none where the slot is short, torn or was never written.
pub open spec fn sb_parsed(b: Seq<u8>) -> Option<SuperBlock> {
    if sb_sound(b) {
        Some(sb_decoded(b))
    } else {
        None
    }
}

/// `sb` as a slot keeps it: a head cache of zero offset and lengths is no head cache.
pub open spec fn sb_kept(sb: SuperBlock) -> SuperBlock {
    SuperBlock {
        head_cache: match sb.head_cache {
            None => None,
            Some(h) => if h.offset == 0 && h.clen == 0 && h.rawlen == 0 {
                None
            } else {
                Some(h)
            },
        },
        ..sb
    }
}

proof fn fields_len(sb: SuperBlock)
    ensures
        sb_fields(sb).len() == 96,
{
    broadcast use {wire::le32_len, wire::le64_len};

}

/// A slot is as long as the format says.
pub proof fn sb_bytes_len(sb: SuperBlock)
    ensures
        sb_bytes(sb).len() == SB_LEN,
{
    broadcast use wire::le32_len;

    fields_len(sb);
}

/// Parsing a slot gives back the superblock that was serialized into it, whatever follows the
/// slot's bytes.
pub proof fn superblock_reads_back(sb: SuperBlock, b: Seq<u8>)
    requires
        b.len() >= SB_LEN,
        b.subrange(0, SB_LEN as int) == sb_bytes(sb),
    ensures
        sb_parsed(b) == Some(sb_kept(sb)),
{
    broadcast use {wire::le32_len, wire::le64_len};

    let h = head_cache_fields(sb.head_cache);
    fields_len(sb);
    wire::peel32(b, sb_covered(sb), wire::crc32_of(sb_covered(sb)));
    wire::peel(b, sb_fields(sb), Seq::new(28, |i: int| 0u8));
    let p1 = wire::le32(SB_MAGIC);
    let p2 = p1 + wire::le64(sb.seq);
    let p3 = p2 + wire::le32(sb.chunk_size);
    let p4 = p3 + wire::le64(sb.uncompressed_size);
    let p5 = p4 + wire::le64(sb.chunk_count);
    let p6 = p5 + wire::le64(sb.index_offset);
    let p7 = p6 + wire::le64(sb.index_len);
    let p8 = p7 + wire::le32(sb.index_crc);
    let p9 = p8 + wire::le64(sb.tail_journal_offset);
    let p10 = p9 + wire::le64(sb.tail_journal_len);
    let p11 = p10 + wire::le64(h.0);
    let p12 = p11 + wire::le64(h.1);
    let p13 = p12 + wire::le64(h.2);
    let p14 = p13 + wire::le32(h.3);
    assert(p14 == sb_fields(sb));
    wire::peel32(b, p13, h.3);
    wire::peel64(b, p12, h.2);
    wire::peel64(b, p11, h.1);
    wire::peel64(b, p10, h.0);
    wire::peel64(b, p9, sb.tail_journal_len);
    wire::peel64(b, p8, sb.tail_journal_offset);
    wire::peel32(b, p7, sb.index_crc);
    wire::peel64(b, p6, sb.index_len);
    wire::peel64(b, p5, sb.index_offset);
    wire::peel64(b, p4, sb.chunk_count);
    wire::peel64(b, p3, sb.uncompressed_size);
    wire::peel32(b, p2, sb.chunk_size);
    wire::peel64(b, p1, sb.seq);
    wire::le32_reads_back(b, 0, SB_MAGIC);
    assert(1u32 & 1u32 != 0 && 0u32 & 1u32 == 0) by (bit_vector);
}

/// The bytes of a slot that holds `sb`.
pub fn serialize_superblock(sb: &SuperBlock) -> (slot: [u8; SB_SIZE])
    ensures
        slot@ == sb_bytes(*sb),
{
    broadcast use {wire::le32_len, wire::le64_len};

    let mut buf: Vec<u8> = Vec::new();
    let h: HeadCache = match sb.head_cache {
        Some(h) => h,
        None => HeadCache { offset: 0, clen: 0, rawlen: 0, verbatim: false },
    };
    let hc_flags: u32 = if h.verbatim { 1 } else { 0 };
    wire::put_u32(&mut buf, SB_MAGIC);
    wire::put_u64(&mut buf, sb.seq);
    wire::put_u32(&mut buf, sb.chunk_size);
    wire::put_u64(&mut buf, sb.uncompressed_size);
    wire::put_u64(&mut buf, sb.chunk_count);
    wire::put_u64(&mut buf, sb.index_offset);
    wire::put_u64(&mut buf, sb.index_len);
    wire::put_u32(&mut buf, sb.index_crc);
    wire::put_u64(&mut buf, sb.tail_journal_offset);
    wire::put_u64(&mut buf, sb.tail_journal_len);
    wire::put_u64(&mut buf, h.offset);
    wire::put_u64(&mut buf, h.clen);
    wire::put_u64(&mut buf, h.rawlen);
    wire::put_u32(&mut buf, hc_flags);
    assert(buf@ =~= sb_fields(*sb));
    proof {
        fields_len(*sb);
    }
    while buf.len() < SB_CRC_OFFSET
        invariant
            96 <= buf@.len() <= SB_CRC_OFFSET,
            buf@ == sb_fields(*sb) + Seq::new((buf@.len() - 96) as nat, |i: int| 0u8),
            sb_fields(*sb).len() == 96,
        decreases SB_CRC_OFFSET - buf@.len(),
    {
        let ghost before = buf@;
        buf.push(0);
        assert(buf@ =~= sb_fields(*sb) + Seq::new((buf@.len() - 96) as nat, |i: int| 0u8));
    }
    assert(buf@ =~= sb_covered(*sb));
    let crc: u32 = wire::crc32(&buf);
    wire::put_u32(&mut buf, crc);
    let mut slot: [u8; SB_SIZE] = [0; SB_SIZE];
    let mut i: usize = 0;
    while i < SB_SIZE
        invariant
            i <= SB_SIZE,
            buf@.len() == SB_SIZE,
            forall|j: int| 0 <= j < i ==> slot@[j] == buf@[j],
        decreases SB_SIZE - i,
    {
        slot[i] = buf[i];
        i = i + 1;
    }
    assert(slot@ =~= buf@);
    slot
}

/// The superblock in a slot. `None` where the slot is short, or its magic or checksum does not
/// hold: it was never written, or was torn.
pub fn parse_superblock(buf: &[u8]) -> (sb: Option<SuperBlock>)
    ensures
        sb == sb_parsed(buf@),
{
    if buf.len() < SB_SIZE {
        return None;
    }
    if wire::get_u32(buf, 0) != SB_MAGIC {
        return None;
    }
    let covered: Vec<u8> = wire::copy_range(buf, 0, SB_CRC_OFFSET);
    if wire::crc32(&covered) != wire::get_u32(buf, SB_CRC_OFFSET) {
        return None;
    }
    let hc_offset: u64 = wire::get_u64(buf, 68);
    let hc_clen: u64 = wire::get_u64(buf, 76);
    let hc_rawlen: u64 = wire::get_u64(buf, 84);
    let hc_flags: u32 = wire::get_u32(buf, 92);
    let head_cache: Option<HeadCache> = if hc_offset == 0 && hc_clen == 0 && hc_rawlen == 0 {
        None
    } else {
        Some(
            HeadCache {
                offset: hc_offset,
                clen: hc_clen,
                rawlen: hc_rawlen,
                verbatim: hc_flags & 1 != 0,
            },
        )
    };
    Some(
        SuperBlock {
            seq: wire::get_u64(buf, 4),
            chunk_size: wire::get_u32(buf, 12),
            uncompressed_size: wire::get_u64(buf, 16),
            chunk_count: wire::get_u64(buf, 24),
            index_offset: wire::get_u64(buf, 32),
            index_len: wire::get_u64(buf, 40),
            index_crc: wire::get_u32(buf, 48),
            tail_journal_offset: wire::get_u64(buf, 52),
            tail_journal_len: wire::get_u64(buf, 60),
            head_cache,
        },
    )
}

/// Of two slots, the one with the greater commit number; A where they are equal.
pub open spec fn sb_picked(a: Option<SuperBlock>, b: Option<SuperBlock>) -> Option<SuperBlock> {
    match (a, b) {
        (Some(x), Some(y)) => Some(
            if y.seq > x.seq {
                y
            } else {
                x
            },
        ),
        (Some(x), None) => Some(x),
        (None, _) => b,
    }
}

/// The slot that counts, going by commit numbers alone.
pub fn pick_active(a: Option<SuperBlock>, b: Option<SuperBlock>) -> (picked: Option<SuperBlock>)
    ensures
        picked == sb_picked(a, b),
{
    match (a, b) {
        (Some(x), Some(y)) => Some(if y.seq > x.seq { y } else { x }),
        (Some(x), None) => Some(x),
        (None, other) => other,
    }
}

/// Of two slots that can be read the one with the greater commit number counts, and the first where
/// the numbers are equal; where one cannot be read, the other counts.
pub proof fn newer_slot_counts(a: Option<SuperBlock>, b: Option<SuperBlock>)
    ensures
        sb_picked(a, b) == a || sb_picked(a, b) == b,
        sb_picked(a, b) is None <==> a is None && b is None,
        a matches Some(x) ==> (sb_picked(a, b) matches Some(p) && x.seq <= p.seq),
        b matches Some(y) ==> (sb_picked(a, b) matches Some(p) && y.seq <= p.seq),
        a is Some && b is Some && a->0.seq == b->0.seq ==> sb_picked(a, b) == a,
{
}

/// Where each field of a slot stands.
pub proof fn slot_has_its_layout(sb: SuperBlock)
    ensures
        ({
            let b = sb_bytes(sb);
            &&& b.len() == 128
            &&& wire::u32_at(b, 0) == 0x3242_535A
            &&& wire::u64_at(b, 4) == sb.seq
            &&& wire::u32_at(b, 12) == sb.chunk_size
            &&& wire::u64_at(b, 16) == sb.uncompressed_size
            &&& wire::u64_at(b, 24) == sb.chunk_count
            &&& wire::u64_at(b, 32) == sb.index_offset
            &&& wire::u64_at(b, 40) == sb.index_len
            &&& wire::u32_at(b, 48) == sb.index_crc
            &&& wire::u64_at(b, 52) == sb.tail_journal_offset
            &&& wire::u64_at(b, 60) == sb.tail_journal_len
            &&& sb.head_cache matches Some(h) ==> {
                &&& wire::u64_at(b, 68) == h.offset
                &&& wire::u64_at(b, 76) == h.clen
                &&& wire::u64_at(b, 84) == h.rawlen
                &&& wire::u32_at(b, 92) == 1 <==> h.verbatim
                &&& wire::u32_at(b, 92) == 0 <==> !h.verbatim
            }
            &&& sb.head_cache is None ==> wire::u64_at(b, 68) == 0 && wire::u64_at(b, 76) == 0
                && wire::u64_at(b, 84) == 0
            &&& wire::u32_at(b, 124) == wire::crc32_of(b.subrange(0, 124))
        }),
{
    broadcast use {wire::le32_len, wire::le64_len};

    let b = sb_bytes(sb);
    let h = head_cache_fields(sb.head_cache);
    fields_len(sb);
    assert(b.subrange(0, 128) =~= b);
    wire::peel32(b, sb_covered(sb), wire::crc32_of(sb_covered(sb)));
    wire::peel(b, sb_fields(sb), Seq::new(28, |i: int| 0u8));
    let p1 = wire::le32(SB_MAGIC);
    let p2 = p1 + wire::le64(sb.seq);
    let p3 = p2 + wire::le32(sb.chunk_size);
    let p4 = p3 + wire::le64(sb.uncompressed_size);
    let p5 = p4 + wire::le64(sb.chunk_count);
    let p6 = p5 + wire::le64(sb.index_offset);
    let p7 = p6 + wire::le64(sb.index_len);
    let p8 = p7 + wire::le32(sb.index_crc);
    let p9 = p8 + wire::le64(sb.tail_journal_offset);
    let p10 = p9 + wire::le64(sb.tail_journal_len);
    let p11 = p10 + wire::le64(h.0);
    let p12 = p11 + wire::le64(h.1);
    let p13 = p12 + wire::le64(h.2);
    assert(p13 + wire::le32(h.3) == sb_fields(sb));
    wire::peel32(b, p13, h.3);
    wire::peel64(b, p12, h.2);
    wire::peel64(b, p11, h.1);
    wire::peel64(b, p10, h.0);
    wire::peel64(b, p9, sb.tail_journal_len);
    wire::peel64(b, p8, sb.tail_journal_offset);
    wire::peel32(b, p7, sb.index_crc);
    wire::peel64(b, p6, sb.index_len);
    wire::peel64(b, p5, sb.index_offset);
    wire::peel64(b, p4, sb.chunk_count);
    wire::peel64(b, p3, sb.uncompressed_size);
    wire::peel32(b, p2, sb.chunk_size);
    wire::peel64(b, p1, sb.seq);
    wire::le32_reads_back(b, 0, SB_MAGIC);
}

/// A slot is read only where its magic number and its checksum hold; a slot of zeros, or one whose
/// checksum does not hold, is none.
pub proof fn torn_slot_is_not_read(b: Seq<u8>)
    ensures
        sb_parsed(b) is Some <==> b.len() >= 128 && wire::u32_at(b, 0) == 0x3242_535A
            && wire::u32_at(b, 124) == wire::crc32_of(b.subrange(0, 124)),
{
}

/// A slot that is read says what stands in it, whatever its spare bytes hold: each field at its place,
/// and a head cache unless its place and its lengths are all zero.
pub proof fn slot_is_read_by_its_layout(b: Seq<u8>)
    requires
        sb_parsed(b) is Some,
    ensures
        ({
            let sb = sb_parsed(b)->0;
            let none = wire::u64_at(b, 68) == 0 && wire::u64_at(b, 76) == 0 && wire::u64_at(b, 84)
                == 0;
            &&& sb.seq == wire::u64_at(b, 4)
            &&& sb.chunk_size == wire::u32_at(b, 12)
            &&& sb.uncompressed_size == wire::u64_at(b, 16)
            &&& sb.chunk_count == wire::u64_at(b, 24)
            &&& sb.index_offset == wire::u64_at(b, 32)
            &&& sb.index_len == wire::u64_at(b, 40)
            &&& sb.index_crc == wire::u32_at(b, 48)
            &&& sb.tail_journal_offset == wire::u64_at(b, 52)
            &&& sb.tail_journal_len == wire::u64_at(b, 60)
            &&& sb.head_cache is None <==> none
            &&& sb.head_cache matches Some(h) ==> {
                &&& h.offset == wire::u64_at(b, 68)
                &&& h.clen == wire::u64_at(b, 76)
                &&& h.rawlen == wire::u64_at(b, 84)
                &&& h.verbatim <==> wire::u32_at(b, 92) % 2 == 1
            }
        }),
{
    let f = wire::u32_at(b, 92);
    assert(f & 1u32 != 0 <==> f % 2 == 1) by (bit_vector);
}

} // verus!
