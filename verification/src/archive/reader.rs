//! Reading an archive: which version the two slots leave, and what it holds.
use vstd::prelude::*;

use super::journal;
use super::superblock;
use super::superblock::SuperBlock;
use super::wire;
use super::{
    ArchiveError, ChunkEntry, Footer, HeadCache, DATA_START, HEADER_LEN, INDEX_ENTRY_LEN, MAGIC,
    SB_A_OFFSET, SB_B_OFFSET, SB_LEN, VERSION,
};
use crate::blockio::BlockIo;

verus! {

/// One version of an archive: a superblock, the slot that it stands in, and its chunk index.
#[verifier::ext_equal]
pub struct Version {
    pub sb: SuperBlock,
    pub off: u64,
    pub index: Seq<ChunkEntry>,
}

/// The bytes of an index entry.
pub open spec fn entry_bytes(e: ChunkEntry) -> Seq<u8> {
    wire::le64(e.offset) + wire::le64(e.clen) + wire::le32(e.flags) + wire::le32(e.block_crc)
}

/// The bytes of an index: its entries one behind the other.
pub open spec fn index_bytes(index: Seq<ChunkEntry>) -> Seq<u8>
    decreases index.len(),
{
    if index.len() == 0 {
        Seq::empty()
    } else {
        index_bytes(index.drop_last()) + entry_bytes(index.last())
    }
}

/// The `i`-th entry of an index.
pub open spec fn entry_at(b: Seq<u8>, i: int) -> ChunkEntry {
    ChunkEntry {
        offset: wire::u64_at(b, 24 * i),
        clen: wire::u64_at(b, 24 * i + 8),
        flags: wire::u32_at(b, 24 * i + 16),
        block_crc: wire::u32_at(b, 24 * i + 20),
    }
}

/// The first `count` entries of an index.
pub open spec fn index_decoded(b: Seq<u8>, count: nat) -> Seq<ChunkEntry> {
    Seq::new(count, |i: int| entry_at(b, i))
}

proof fn index_bytes_len(index: Seq<ChunkEntry>)
    ensures
        index_bytes(index).len() == 24 * index.len(),
    decreases index.len(),
{
    broadcast use {wire::le32_len, wire::le64_len};

    if index.len() > 0 {
        index_bytes_len(index.drop_last());
    }
}

proof fn entry_reads_back(e: ChunkEntry, b: Seq<u8>, at: int)
    requires
        0 <= at,
        at + 24 <= b.len(),
        b.subrange(at, at + 24) == entry_bytes(e),
    ensures
        wire::u64_at(b, at) == e.offset,
        wire::u64_at(b, at + 8) == e.clen,
        wire::u32_at(b, at + 16) == e.flags,
        wire::u32_at(b, at + 20) == e.block_crc,
{
    broadcast use {wire::le32_len, wire::le64_len};

    let s = b.subrange(at, at + 24);
    assert(b.subrange(at, at + 8) =~= s.subrange(0, 8));
    assert(b.subrange(at + 8, at + 16) =~= s.subrange(8, 16));
    assert(b.subrange(at + 16, at + 20) =~= s.subrange(16, 20));
    assert(b.subrange(at + 20, at + 24) =~= s.subrange(20, 24));
    assert(entry_bytes(e).subrange(0, 8) =~= wire::le64(e.offset));
    assert(entry_bytes(e).subrange(8, 16) =~= wire::le64(e.clen));
    assert(entry_bytes(e).subrange(16, 20) =~= wire::le32(e.flags));
    assert(entry_bytes(e).subrange(20, 24) =~= wire::le32(e.block_crc));
    wire::le64_reads_back(b, at, e.offset);
    wire::le64_reads_back(b, at + 8, e.clen);
    wire::le32_reads_back(b, at + 16, e.flags);
    wire::le32_reads_back(b, at + 20, e.block_crc);
}

proof fn index_bytes_entry(index: Seq<ChunkEntry>, i: int)
    requires
        0 <= i < index.len(),
    ensures
        24 * i + 24 <= index_bytes(index).len(),
        index_bytes(index).subrange(24 * i, 24 * i + 24) == entry_bytes(index[i]),
    decreases index.len(),
{
    broadcast use {wire::le32_len, wire::le64_len};

    let head = index.drop_last();
    index_bytes_len(index);
    index_bytes_len(head);
    if i == index.len() - 1 {
        assert(index_bytes(index).subrange(24 * i, 24 * i + 24) =~= entry_bytes(index[i]));
    } else {
        index_bytes_entry(head, i);
        assert(index_bytes(index).subrange(24 * i, 24 * i + 24) =~= index_bytes(head).subrange(
            24 * i,
            24 * i + 24,
        ));
    }
}

/// Parsing an index gives back the entries that were serialized.
pub proof fn index_reads_back(index: Seq<ChunkEntry>)
    ensures
        index_bytes(index).len() == INDEX_ENTRY_LEN * index.len(),
        index_decoded(index_bytes(index), index.len()) == index,
{
    index_bytes_len(index);
    assert forall|i: int| 0 <= i < index.len() implies entry_at(index_bytes(index), i)
        == index[i] by {
        index_bytes_entry(index, i);
        entry_reads_back(index[i], index_bytes(index), 24 * i);
    }
    assert(index_decoded(index_bytes(index), index.len()) =~= index);
}

/// Every entry lies in the data area below `end`.
pub open spec fn entries_inside(index: Seq<ChunkEntry>, end: int) -> bool {
    forall|i: int|
        0 <= i < index.len() ==> DATA_START <= (#[trigger] index[i]).offset && index[i].offset
            + index[i].clen <= end
}

/// The tail journal, where there is one, lies in the data area.
pub open spec fn journal_inside(sb: SuperBlock, end: int) -> bool {
    sb.tail_journal_len > 0 ==> DATA_START <= sb.tail_journal_offset && sb.tail_journal_offset
        + sb.tail_journal_len <= end
}

/// The bytes of the index that `sb` points to.
pub open spec fn index_area(d: Seq<u8>, sb: SuperBlock) -> Seq<u8> {
    d.subrange(sb.index_offset as int, sb.index_offset + sb.index_len)
}

/// Whether everything that `sb` points to holds within `d`.
pub open spec fn version_holds(d: Seq<u8>, sb: SuperBlock) -> bool {
    &&& sb.chunk_size != 0
    &&& sb.index_len == sb.chunk_count * INDEX_ENTRY_LEN
    &&& DATA_START <= sb.index_offset
    &&& sb.index_offset + sb.index_len <= d.len()
    &&& wire::crc32_of(index_area(d, sb)) == sb.index_crc
    &&& entries_inside(
        index_decoded(index_area(d, sb), sb.chunk_count as nat),
        sb.index_offset as int,
    )
    &&& journal_inside(sb, d.len() as int)
}

/// The index that `sb` points to; none where something it points to does not hold.
pub open spec fn index_loaded(d: Seq<u8>, sb: SuperBlock) -> Option<Seq<ChunkEntry>> {
    if version_holds(d, sb) {
        Some(index_decoded(index_area(d, sb), sb.chunk_count as nat))
    } else {
        None
    }
}

/// The superblock in the slot at `off`.
pub open spec fn slot(d: Seq<u8>, off: u64) -> Option<SuperBlock> {
    superblock::sb_parsed(d.subrange(off as int, off + SB_LEN))
}

/// The version in the slot at `off`.
pub open spec fn slot_version(d: Seq<u8>, off: u64) -> Option<Version> {
    match slot(d, off) {
        None => None,
        Some(sb) => match index_loaded(d, sb) {
            None => None,
            Some(index) => Some(Version { sb, off, index }),
        },
    }
}

/// The version that an archive holds: of the two slots' versions, the one with the greater
/// commit number, slot A's where they are equal.
pub open spec fn recovered(d: Seq<u8>) -> Option<Version> {
    let a = slot_version(d, SB_A_OFFSET);
    let b = slot_version(d, SB_B_OFFSET);
    match (a, b) {
        (Some(x), Some(y)) => if y.sb.seq > x.sb.seq {
            b
        } else {
            a
        },
        (Some(_), None) => a,
        (None, _) => b,
    }
}

/// Whether the header is that of an archive of this format.
pub open spec fn header_magic_ok(d: Seq<u8>) -> bool {
    d.subrange(0, 8) == MAGIC@
}

/// The version number in the header.
pub open spec fn header_version(d: Seq<u8>) -> u32 {
    wire::u32_at(d, 8)
}

/// Whether `d` opens, and to which version.
pub open spec fn opened(d: Seq<u8>) -> Option<Version> {
    if d.len() >= DATA_START && header_magic_ok(d) && header_version(d) == VERSION {
        recovered(d)
    } else {
        None
    }
}

/// What a reader tells of a superblock.
pub open spec fn footer_of(sb: SuperBlock) -> Footer {
    Footer {
        chunk_size: sb.chunk_size,
        uncompressed_size: sb.uncompressed_size,
        chunk_count: sb.chunk_count,
        index_offset: sb.index_offset,
        crc: sb.index_crc,
        head_cache: sb.head_cache,
    }
}

/// The stored bytes of a chunk.
pub open spec fn stored(d: Seq<u8>, e: ChunkEntry) -> Seq<u8> {
    d.subrange(e.offset as int, e.offset + e.clen)
}

/// Whether the stored bytes of a chunk hold their checksum.
pub open spec fn chunk_holds(d: Seq<u8>, e: ChunkEntry) -> bool {
    wire::crc32_of(stored(d, e)) == e.block_crc
}

/// The raw bytes of the tail that is not sealed yet; none where there is no journal.
pub open spec fn tail_of(d: Seq<u8>, sb: SuperBlock) -> Option<Seq<u8>> {
    if sb.tail_journal_len > 0 {
        Some(
            journal::replayed(
                d.subrange(
                    sb.tail_journal_offset as int,
                    sb.tail_journal_offset + sb.tail_journal_len,
                ),
            ),
        )
    } else {
        None
    }
}

/// The stored bytes of a head cache; none where they do not lie between the start of the data
/// area and the index.
pub open spec fn head_cache_bytes(d: Seq<u8>, index_offset: u64, hc: HeadCache) -> Option<
    Seq<u8>,
> {
    if DATA_START <= hc.offset && hc.offset + hc.clen <= index_offset {
        Some(d.subrange(hc.offset as int, hc.offset + hc.clen))
    } else {
        None
    }
}

/// The stored bytes of the head cache of a version, and whether they are raw.
pub open spec fn head_cache_of(d: Seq<u8>, sb: SuperBlock) -> Option<(Seq<u8>, bool)> {
    match sb.head_cache {
        None => None,
        Some(hc) => match head_cache_bytes(d, sb.index_offset, hc) {
            None => None,
            Some(bytes) => Some((bytes, hc.verbatim)),
        },
    }
}

/// What a reader tells of a superblock.
pub fn footer_from_sb(sb: &SuperBlock) -> (f: Footer)
    ensures
        f == footer_of(*sb),
{
    Footer {
        chunk_size: sb.chunk_size,
        uncompressed_size: sb.uncompressed_size,
        chunk_count: sb.chunk_count,
        index_offset: sb.index_offset,
        crc: sb.index_crc,
        head_cache: sb.head_cache,
    }
}

/// The bytes of an index.
pub fn serialize_index(index: &[ChunkEntry]) -> (bytes: Vec<u8>)
    ensures
        bytes@ == index_bytes(index@),
{
    let mut bytes: Vec<u8> = Vec::new();
    let mut i: usize = 0;
    assert(index@.subrange(0, 0) =~= Seq::empty());
    while i < index.len()
        invariant
            i <= index@.len(),
            bytes@ == index_bytes(index@.subrange(0, i as int)),
        decreases index@.len() - i,
    {
        let e: ChunkEntry = index[i];
        let ghost before = bytes@;
        wire::put_u64(&mut bytes, e.offset);
        wire::put_u64(&mut bytes, e.clen);
        wire::put_u32(&mut bytes, e.flags);
        wire::put_u32(&mut bytes, e.block_crc);
        assert(bytes@ =~= before + entry_bytes(e));
        i = i + 1;
        assert(index@.subrange(0, i as int).drop_last() =~= index@.subrange(0, i - 1));
    }
    assert(index@.subrange(0, i as int) =~= index@);
    bytes
}

/// The first `count` entries of an index.
pub fn parse_index(bytes: &[u8], count: usize) -> (index: Vec<ChunkEntry>)
    requires
        count * INDEX_ENTRY_LEN <= bytes@.len(),
    ensures
        index@ == index_decoded(bytes@, count as nat),
{
    let mut index: Vec<ChunkEntry> = Vec::new();
    let total: usize = bytes.len();
    let mut i: usize = 0;
    while i < count
        invariant
            i <= count,
            count * INDEX_ENTRY_LEN <= bytes@.len(),
            bytes@.len() == total,
            index@ == index_decoded(bytes@, i as nat),
        decreases count - i,
    {
        assert(24 * i + 24 <= total);
        let base: usize = 24 * i;
        index.push(
            ChunkEntry {
                offset: wire::get_u64(bytes, base),
                clen: wire::get_u64(bytes, base + 8),
                flags: wire::get_u32(bytes, base + 16),
                block_crc: wire::get_u32(bytes, base + 20),
            },
        );
        i = i + 1;
        assert(index@ =~= index_decoded(bytes@, i as nat));
    }
    index
}

fn read_sb_slot<W: BlockIo>(io: &W, off: u64) -> (r: Result<Option<SuperBlock>, ArchiveError>)
    requires
        off + SB_LEN <= io.image().len(),
    ensures
        match r {
            Ok(sb) => sb == slot(io.image(), off),
            Err(e) => e is Io && !io.reliable(),
        },
{
    match io.read_at(off, SB_LEN) {
        Ok(buf) => Ok(superblock::parse_superblock(&buf)),
        Err(e) => Err(ArchiveError::Io(e)),
    }
}

/// Loads the index that `sb` points to; `None` where something it points to does not hold.
fn validate_and_load_index<W: BlockIo>(io: &W, sb: &SuperBlock, total_len: u64) -> (r: Result<
    Option<Vec<ChunkEntry>>,
    ArchiveError,
>)
    requires
        total_len == io.image().len(),
    ensures
        match r {
            Ok(Some(index)) => index_loaded(io.image(), *sb) == Some(index@),
            Ok(None) => index_loaded(io.image(), *sb) is None,
            Err(e) => e is Io && !io.reliable(),
        },
{
    if sb.chunk_size == 0 {
        return Ok(None);
    }
    let expect_len: u64 = match sb.chunk_count.checked_mul(INDEX_ENTRY_LEN) {
        Some(v) => v,
        None => {
            return Ok(None);
        },
    };
    if sb.index_len != expect_len || sb.index_offset < DATA_START {
        return Ok(None);
    }
    let index_end: u64 = match sb.index_offset.checked_add(sb.index_len) {
        Some(v) => v,
        None => {
            return Ok(None);
        },
    };
    if index_end > total_len {
        return Ok(None);
    }
    let bytes: Vec<u8> = match io.read_at(sb.index_offset, sb.index_len) {
        Ok(bytes) => bytes,
        Err(e) => {
            return Err(ArchiveError::Io(e));
        },
    };
    if wire::crc32(&bytes) != sb.index_crc {
        return Ok(None);
    }
    let count: usize = bytes.len() / 24;
    assert(count == sb.chunk_count);
    let index: Vec<ChunkEntry> = parse_index(&bytes, count);
    let mut i: usize = 0;
    while i < index.len()
        invariant
            i <= index@.len(),
            index@ == index_decoded(index_area(io.image(), *sb), sb.chunk_count as nat),
            entries_inside(index@.subrange(0, i as int), sb.index_offset as int),
        decreases index@.len() - i,
    {
        let e: ChunkEntry = index[i];
        let inside: bool = match e.offset.checked_add(e.clen) {
            Some(end) => e.offset >= DATA_START && end <= sb.index_offset,
            None => false,
        };
        if !inside {
            assert(index@[i as int] == e);
            return Ok(None);
        }
        let ghost before = index@.subrange(0, i as int);
        i = i + 1;
        assert forall|j: int| 0 <= j < i implies DATA_START <= (#[trigger] index@.subrange(
            0,
            i as int,
        )[j]).offset && index@.subrange(0, i as int)[j].offset + index@.subrange(0, i as int)[j].clen
            <= sb.index_offset by {
            if j < i - 1 {
                assert(index@.subrange(0, i as int)[j] == before[j]);
            }
        }
    }
    assert(index@.subrange(0, i as int) =~= index@);
    if sb.tail_journal_len > 0 {
        let inside: bool = match sb.tail_journal_offset.checked_add(sb.tail_journal_len) {
            Some(end) => sb.tail_journal_offset >= DATA_START && end <= total_len,
            None => false,
        };
        if !inside {
            return Ok(None);
        }
    }
    Ok(Some(index))
}

/// The version that an archive holds: its superblock, the slot that it stands in, its index.
pub fn load_active<W: BlockIo>(io: &W, total_len: u64) -> (r: Result<
    (SuperBlock, u64, Vec<ChunkEntry>),
    ArchiveError,
>)
    requires
        total_len == io.image().len(),
        total_len >= DATA_START,
    ensures
        match r {
            Ok((sb, off, index)) => recovered(io.image()) == Some(Version { sb, off, index: index@ }),
            Err(ArchiveError::NoUsableSlot) => recovered(io.image()) is None,
            Err(e) => e is Io && !io.reliable(),
        },
{
    let a: Option<SuperBlock> = match read_sb_slot(io, SB_A_OFFSET) {
        Ok(sb) => sb,
        Err(e) => {
            return Err(e);
        },
    };
    let b: Option<SuperBlock> = match read_sb_slot(io, SB_B_OFFSET) {
        Ok(sb) => sb,
        Err(e) => {
            return Err(e);
        },
    };
    let b_first: bool = match (a, b) {
        (Some(x), Some(y)) => y.seq > x.seq,
        (Some(_), None) => false,
        (None, _) => true,
    };
    let first: (Option<SuperBlock>, u64) = if b_first { (b, SB_B_OFFSET) } else { (a, SB_A_OFFSET) };
    let second: (Option<SuperBlock>, u64) = if b_first { (a, SB_A_OFFSET) } else { (b, SB_B_OFFSET)
    };
    if let Some(sb) = first.0 {
        match validate_and_load_index(io, &sb, total_len) {
            Ok(Some(index)) => {
                return Ok((sb, first.1, index));
            },
            Ok(None) => {},
            Err(e) => {
                return Err(e);
            },
        }
    }
    if let Some(sb) = second.0 {
        match validate_and_load_index(io, &sb, total_len) {
            Ok(Some(index)) => {
                return Ok((sb, second.1, index));
            },
            Ok(None) => {},
            Err(e) => {
                return Err(e);
            },
        }
    }
    Err(ArchiveError::NoUsableSlot)
}

/// The stored bytes of a head cache. They can be derived again from the chunks, so `None`, which
/// sends the reader to the chunks, answers a pointer that does not hold and a device that fails.
pub fn read_head_cache_bytes<W: BlockIo>(io: &W, footer: &Footer, hc: HeadCache) -> (r: Option<
    Vec<u8>,
>)
    requires
        footer.index_offset <= io.image().len(),
    ensures
        match r {
            Some(bytes) => head_cache_bytes(io.image(), footer.index_offset, hc) == Some(bytes@),
            None => head_cache_bytes(io.image(), footer.index_offset, hc) is None
                || !io.reliable(),
        },
{
    let end: u64 = match hc.offset.checked_add(hc.clen) {
        Some(end) => end,
        None => {
            return None;
        },
    };
    if hc.offset < DATA_START || end > footer.index_offset {
        return None;
    }
    match io.read_at(hc.offset, hc.clen) {
        Ok(bytes) => Some(bytes),
        Err(_) => None,
    }
}

/// An open archive.
pub struct ArchiveReader<W: BlockIo> {
    file: W,
    footer: Footer,
    index: Vec<ChunkEntry>,
    tail_journal: Option<(u64, u64)>,
}

impl<W: BlockIo> ArchiveReader<W> {
    /// The archive's bytes.
    pub closed spec fn image(&self) -> Seq<u8> {
        self.file.image()
    }

    /// Whether the device under it is reliable.
    pub closed spec fn reliable(&self) -> bool {
        self.file.reliable()
    }

    /// The version that it reads.
    pub open spec fn version(&self) -> Version {
        recovered(self.image())->0
    }

    /// What it keeps in memory is the version that its bytes hold.
    pub closed spec fn wf(&self) -> bool {
        let v = recovered(self.file.image());
        &&& v is Some
        &&& self.footer == footer_of(v->0.sb)
        &&& self.index@ == v->0.index
        &&& self.tail_journal == (if v->0.sb.tail_journal_len > 0 {
            Some((v->0.sb.tail_journal_offset, v->0.sb.tail_journal_len))
        } else {
            None
        })
    }

    /// Opens the archive on a device: header, then the slots, then the index of the version that
    /// they leave.
    pub fn from_file(file: W) -> (r: Result<Self, ArchiveError>)
        ensures
            match r {
                Ok(reader) => {
                    &&& reader.wf()
                    &&& reader.image() == file.image()
                    &&& reader.reliable() == file.reliable()
                    &&& opened(file.image()) == Some(reader.version())
                },
                Err(e) => match e {
                    ArchiveError::Io(_) => !file.reliable(),
                    ArchiveError::TooSmall => file.image().len() < DATA_START,
                    ArchiveError::BadMagic => file.image().len() >= DATA_START && !header_magic_ok(
                        file.image(),
                    ),
                    ArchiveError::BadVersion(v) => {
                        &&& file.image().len() >= DATA_START
                        &&& header_magic_ok(file.image())
                        &&& v == header_version(file.image())
                        &&& v != VERSION
                    },
                    ArchiveError::NoUsableSlot => {
                        &&& file.image().len() >= DATA_START
                        &&& header_magic_ok(file.image())
                        &&& header_version(file.image()) == VERSION
                        &&& recovered(file.image()) is None
                    },
                    _ => false,
                },
            },
    {
        let total_len: u64 = match file.len() {
            Ok(n) => n,
            Err(e) => {
                return Err(ArchiveError::Io(e));
            },
        };
        if total_len < DATA_START {
            return Err(ArchiveError::TooSmall);
        }
        let header: Vec<u8> = match file.read_at(0, HEADER_LEN) {
            Ok(bytes) => bytes,
            Err(e) => {
                return Err(ArchiveError::Io(e));
            },
        };
        let magic: Vec<u8> = wire::copy_range(&header, 0, 8);
        assert(magic@ =~= file.image().subrange(0, 8));
        if !wire::same_bytes(&magic, &MAGIC) {
            return Err(ArchiveError::BadMagic);
        }
        let version: u32 = wire::get_u32(&header, 8);
        assert(version == header_version(file.image())) by {
            reveal(wire::u32_at);
        }
        if version != VERSION {
            return Err(ArchiveError::BadVersion(version));
        }
        match load_active(&file, total_len) {
            Ok((sb, _off, index)) => {
                let tail_journal: Option<(u64, u64)> = if sb.tail_journal_len > 0 {
                    Some((sb.tail_journal_offset, sb.tail_journal_len))
                } else {
                    None
                };
                Ok(ArchiveReader { file, footer: footer_from_sb(&sb), index, tail_journal })
            },
            Err(e) => Err(e),
        }
    }

    /// The raw bytes of the tail that is not sealed yet, replayed from the journal; `None` where
    /// there is no journal.
    pub fn read_tail(&self) -> (r: Result<Option<Vec<u8>>, ArchiveError>)
        requires
            self.wf(),
        ensures
            match r {
                Ok(Some(raw)) => tail_of(self.image(), self.version().sb) == Some(raw@),
                Ok(None) => tail_of(self.image(), self.version().sb) is None,
                Err(e) => e is Io && !self.reliable(),
            },
    {
        match self.tail_journal {
            None => Ok(None),
            Some((off, len)) => match self.file.read_at(off, len) {
                Ok(buf) => Ok(Some(journal::replay_journal(&buf))),
                Err(e) => Err(ArchiveError::Io(e)),
            },
        }
    }

    /// What the superblock says of the file.
    pub fn footer(&self) -> (f: &Footer)
        requires
            self.wf(),
        ensures
            *f == footer_of(self.version().sb),
    {
        &self.footer
    }

    /// Number of chunks.
    pub fn chunk_count(&self) -> (n: u64)
        requires
            self.wf(),
        ensures
            n == self.version().index.len(),
    {
        self.footer.chunk_count
    }

    /// The index entry of a chunk; `None` past the last.
    pub fn entry(&self, idx: u64) -> (e: Option<ChunkEntry>)
        requires
            self.wf(),
        ensures
            e == (if idx < self.version().index.len() {
                Some(self.version().index[idx as int])
            } else {
                None
            }),
    {
        if idx < self.index.len() as u64 {
            Some(self.index[idx as usize])
        } else {
            None
        }
    }

    /// The stored bytes of a chunk and its entry; `None` past the last. Bytes that do not hold
    /// their checksum are an error, never an answer.
    pub fn read_block(&self, idx: u64) -> (r: Result<Option<(Vec<u8>, ChunkEntry)>, ArchiveError>)
        requires
            self.wf(),
        ensures
            match r {
                Ok(None) => idx >= self.version().index.len(),
                Ok(Some((bytes, e))) => {
                    &&& idx < self.version().index.len()
                    &&& e == self.version().index[idx as int]
                    &&& chunk_holds(self.image(), e)
                    &&& bytes@ == stored(self.image(), e)
                },
                Err(ArchiveError::BlockCrc(i)) => {
                    &&& i == idx
                    &&& idx < self.version().index.len()
                    &&& !chunk_holds(self.image(), self.version().index[idx as int])
                },
                Err(e) => e is Io && !self.reliable(),
            },
    {
        let e: ChunkEntry = match self.entry(idx) {
            Some(e) => e,
            None => {
                return Ok(None);
            },
        };
        match self.file.read_at(e.offset, e.clen) {
            Ok(buf) => if wire::crc32(&buf) != e.block_crc {
                Err(ArchiveError::BlockCrc(idx))
            } else {
                Ok(Some((buf, e)))
            },
            Err(err) => Err(ArchiveError::Io(err)),
        }
    }

    /// Length of the prefix that the head cache covers; zero where there is none.
    pub fn head_cache_rawlen(&self) -> (n: u64)
        requires
            self.wf(),
        ensures
            n == (match self.version().sb.head_cache {
                Some(h) => h.rawlen,
                None => 0,
            }),
    {
        match self.footer.head_cache {
            Some(h) => h.rawlen,
            None => 0,
        }
    }

    /// The stored bytes of the head cache and whether they are raw. `None` where there is none,
    /// where its pointer does not hold, and where the device fails: the chunks still have it all.
    pub fn read_head_cache(&self) -> (r: Result<Option<(Vec<u8>, bool)>, ArchiveError>)
        requires
            self.wf(),
        ensures
            match r {
                Ok(Some((bytes, verbatim))) => head_cache_of(self.image(), self.version().sb)
                    == Some((bytes@, verbatim)),
                Ok(None) => head_cache_of(self.image(), self.version().sb) is None
                    || !self.reliable(),
                Err(_) => false,
            },
    {
        match self.footer.head_cache {
            None => Ok(None),
            Some(hc) => match read_head_cache_bytes(&self.file, &self.footer, hc) {
                Some(bytes) => Ok(Some((bytes, hc.verbatim))),
                None => Ok(None),
            },
        }
    }
}

/// What an archive opens to is a version of one of its slots that holds, and no slot holds a newer
/// one; it does not open exactly where the header is another one's or neither slot holds a version.
pub proof fn newest_version_that_holds_is_opened(d: Seq<u8>)
    ensures
        ({
            let a = slot_version(d, 12);
            let b = slot_version(d, 140);
            let header = d.len() >= 268 && d.subrange(0, 8) == MAGIC@ && wire::u32_at(d, 8) == 2;
            &&& opened(d) is Some <==> header && (a is Some || b is Some)
            &&& opened(d) matches Some(v) ==> {
                &&& opened(d) == a || opened(d) == b
                &&& a matches Some(x) ==> x.sb.seq <= v.sb.seq
                &&& b matches Some(y) ==> y.sb.seq <= v.sb.seq
                &&& a is Some && b is Some && a->0.sb.seq == b->0.sb.seq ==> opened(d) == a
            }
        }),
{
}

/// A version holds only where everything that its superblock points to is there: chunks of at least
/// one byte, an index of that many chunks whose checksum holds, chunks that lie between the slots and
/// the index, and a journal within the file.
pub proof fn version_that_holds_is_all_there(d: Seq<u8>, off: u64)
    ensures
        slot_version(d, off) matches Some(v) ==> {
            &&& superblock::sb_parsed(d.subrange(off as int, off + 128)) == Some(v.sb)
            &&& v.off == off
            &&& v.sb.chunk_size > 0
            &&& v.index.len() == v.sb.chunk_count
            &&& v.sb.index_len == 24 * v.sb.chunk_count
            &&& 268 <= v.sb.index_offset
            &&& v.sb.index_offset + v.sb.index_len <= d.len()
            &&& wire::crc32_of(
                d.subrange(v.sb.index_offset as int, v.sb.index_offset + v.sb.index_len),
            ) == v.sb.index_crc
            &&& forall|i: int|
                0 <= i < v.index.len() ==> 268 <= (#[trigger] v.index[i]).offset
                    && v.index[i].offset + v.index[i].clen <= v.sb.index_offset
            &&& v.sb.tail_journal_len > 0 ==> 268 <= v.sb.tail_journal_offset
                && v.sb.tail_journal_offset + v.sb.tail_journal_len <= d.len()
        },
{
}

/// What is told of an archive is what its superblock says.
pub proof fn footer_tells_the_superblock(sb: SuperBlock)
    ensures
        ({
            let f = footer_of(sb);
            &&& f.chunk_size == sb.chunk_size
            &&& f.uncompressed_size == sb.uncompressed_size
            &&& f.chunk_count == sb.chunk_count
            &&& f.index_offset == sb.index_offset
            &&& f.crc == sb.index_crc
            &&& f.head_cache == sb.head_cache
        }),
{
}

/// Where each field of an index entry stands.
pub proof fn entry_has_its_layout(e: ChunkEntry)
    ensures
        ({
            let b = entry_bytes(e);
            &&& b.len() == 24
            &&& wire::u64_at(b, 0) == e.offset
            &&& wire::u64_at(b, 8) == e.clen
            &&& wire::u32_at(b, 16) == e.flags
            &&& wire::u32_at(b, 20) == e.block_crc
        }),
{
    broadcast use {wire::le32_len, wire::le64_len};

    let b = entry_bytes(e);
    assert(b.subrange(0, 24) =~= b);
    entry_reads_back(e, b, 0);
}

/// An index is its entries one behind the other, twenty-four bytes each.
pub proof fn entries_stand_in_their_order(index: Seq<ChunkEntry>, i: int)
    requires
        0 <= i < index.len(),
    ensures
        index_bytes(index).len() == 24 * index.len(),
        index_bytes(index).subrange(24 * i, 24 * i + 24) == entry_bytes(index[i]),
    decreases index.len(),
{
    broadcast use {wire::le32_len, wire::le64_len};

    index_bytes_len(index);
    let head = index.drop_last();
    index_bytes_len(head);
    let all = index_bytes(index);
    if i < head.len() {
        entries_stand_in_their_order(head, i);
        assert(all.subrange(24 * i, 24 * i + 24) =~= index_bytes(head).subrange(
            24 * i,
            24 * i + 24,
        ));
        assert(head[i] == index[i]);
    } else {
        assert(all.subrange(24 * i, 24 * i + 24) =~= entry_bytes(index.last()));
    }
}

/// The stored bytes of a head cache are found only between the slots and the index.
pub proof fn head_cache_lies_before_the_index(d: Seq<u8>, index_offset: u64, hc: HeadCache)
    ensures
        head_cache_bytes(d, index_offset, hc) is Some <==> 268 <= hc.offset && hc.offset + hc.clen
            <= index_offset,
        head_cache_bytes(d, index_offset, hc) matches Some(b) ==> b == d.subrange(
            hc.offset as int,
            hc.offset + hc.clen,
        ),
{
}

/// The head cache that is read is the one that the superblock describes, raw or not as it says; there
/// is none where it describes none, or one that does not lie before the index.
pub proof fn described_head_cache_is_read(d: Seq<u8>, sb: SuperBlock)
    ensures
        sb.head_cache is None ==> head_cache_of(d, sb) is None,
        sb.head_cache matches Some(hc) ==> {
            let inside = 268 <= hc.offset && hc.offset + hc.clen <= sb.index_offset;
            &&& inside ==> head_cache_of(d, sb) == Some(
                (d.subrange(hc.offset as int, hc.offset + hc.clen), hc.verbatim),
            )
            &&& !inside ==> head_cache_of(d, sb) is None
        },
{
}

} // verus!
