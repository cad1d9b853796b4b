//! Writing a new archive from chunks that are compressed already.
use vstd::prelude::*;

use super::reader;
use super::reader::Version;
use super::superblock;
use super::superblock::SuperBlock;
use super::updater;
use super::wire;
use super::{
    ArchiveError, ChunkEntry, HeadCache, DATA_START, FLAG_VERBATIM, MAGIC, SB_A_OFFSET,
    SB_B_OFFSET, SB_LEN, VERSION,
};
use crate::blockio;
use crate::blockio::BlockIo;

verus! {

/// What a writer has written, and what it will write when it finishes.
#[verifier::ext_equal]
pub struct WriterView {
    /// What the device holds.
    pub image: Seq<u8>,
    /// Whether the device is reliable.
    pub reliable: bool,
    /// How long the device can grow.
    pub limit: u64,
    /// Logical chunk size.
    pub chunk_size: u32,
    /// Logical length so far.
    pub size: u64,
    /// Where the next write goes.
    pub cursor: u64,
    /// The chunks so far.
    pub index: Seq<ChunkEntry>,
    /// The head cache: stored bytes, whether they are raw, length of the prefix.
    pub head: Option<(Seq<u8>, bool, u64)>,
}

/// The first bytes of an archive: header, then two slots of zeros.
pub open spec fn preamble() -> Seq<u8> {
    MAGIC@ + wire::le32(VERSION) + updater::zeros(256)
}

impl WriterView {
    /// Whether the header stands and every chunk lies in the data area below the cursor.
    pub open spec fn wf(&self) -> bool {
        &&& DATA_START <= self.cursor <= self.image.len()
        &&& reader::header_magic_ok(self.image)
        &&& reader::header_version(self.image) == VERSION
        &&& self.chunk_size != 0
        &&& reader::entries_inside(self.index, self.cursor as int)
    }

    /// The stored bytes of the head cache.
    pub open spec fn head_bytes(&self) -> Seq<u8> {
        match self.head {
            Some((bytes, _, _)) => bytes,
            None => Seq::empty(),
        }
    }

    /// Where the index goes: behind the chunks and the head cache.
    pub open spec fn index_offset(&self) -> int {
        self.cursor + self.head_bytes().len()
    }

    /// Where the archive ends.
    pub open spec fn end(&self) -> int {
        self.index_offset() + reader::index_bytes(self.index).len()
    }

    /// The superblock of the finished archive.
    pub open spec fn sb(&self) -> SuperBlock {
        let bytes = reader::index_bytes(self.index);
        SuperBlock {
            seq: 0,
            chunk_size: self.chunk_size,
            uncompressed_size: self.size,
            chunk_count: self.index.len() as u64,
            index_offset: self.index_offset() as u64,
            index_len: bytes.len() as u64,
            index_crc: wire::crc32_of(bytes),
            tail_journal_offset: 0,
            tail_journal_len: 0,
            head_cache: match self.head {
                Some((bytes, verbatim, rawlen)) => Some(
                    HeadCache { offset: self.cursor, clen: bytes.len() as u64, rawlen, verbatim },
                ),
                None => None,
            },
        }
    }

    /// The finished archive.
    pub open spec fn finished(&self) -> Seq<u8> {
        let with_head = if self.head is Some {
            blockio::written(self.image, self.cursor as int, self.head_bytes())
        } else {
            self.image
        };
        let with_index = blockio::written(
            with_head,
            self.index_offset(),
            reader::index_bytes(self.index),
        );
        let slot = superblock::sb_bytes(self.sb());
        blockio::written(
            blockio::written(with_index, SB_A_OFFSET as int, slot),
            SB_B_OFFSET as int,
            slot,
        )
    }
}

/// A finished archive opens to what was written: slot A's version, with every chunk and the head
/// cache as they were given.
pub proof fn finished_archive_opens(v: WriterView)
    requires
        v.wf(),
        v.end() <= u64::MAX,
    ensures
        reader::opened(v.finished()) == Some(
            Version { sb: v.sb(), off: SB_A_OFFSET, index: v.index },
        ),
        reader::slot(v.finished(), SB_B_OFFSET) == Some(v.sb()),
        updater::head_loaded(v.finished(), v.sb()) == v.head,
        forall|i: int|
            0 <= i < v.index.len() ==> reader::stored(v.finished(), #[trigger] v.index[i])
                == reader::stored(v.image, v.index[i]),
{
    let d1 = if v.head is Some {
        blockio::written(v.image, v.cursor as int, v.head_bytes())
    } else {
        v.image
    };
    let at = v.index_offset();
    let bytes = reader::index_bytes(v.index);
    let d2 = blockio::written(d1, at, bytes);
    let sb = v.sb();
    let slot = superblock::sb_bytes(sb);
    let d = v.finished();
    superblock::sb_bytes_len(sb);
    updater::written_differs(v.image, v.cursor as int, v.head_bytes());
    updater::written_differs(d1, at, bytes);
    updater::written_differs(d2, SB_A_OFFSET as int, slot);
    updater::written_differs(
        blockio::written(d2, SB_A_OFFSET as int, slot),
        SB_B_OFFSET as int,
        slot,
    );
    updater::header_is_kept(v.image, d);
    let a = d.subrange(SB_A_OFFSET as int, SB_A_OFFSET + SB_LEN);
    let b = d.subrange(SB_B_OFFSET as int, SB_B_OFFSET + SB_LEN);
    assert(a =~= slot);
    assert(b =~= slot);
    assert(a.subrange(0, SB_LEN as int) =~= a);
    assert(b.subrange(0, SB_LEN as int) =~= b);
    superblock::superblock_reads_back(sb, a);
    superblock::superblock_reads_back(sb, b);
    reader::index_reads_back(v.index);
    assert(reader::index_area(d, sb) =~= bytes) by {
        assert(d2.subrange(at, at + bytes.len()) =~= bytes);
    }
    assert(reader::index_loaded(d, sb) == Some(v.index));
    if v.head is Some {
        assert(d1.subrange(v.cursor as int, at) =~= v.head_bytes());
        assert(d.subrange(v.cursor as int, at) =~= v.head_bytes());
    }
    assert forall|i: int| 0 <= i < v.index.len() implies reader::stored(
        d,
        #[trigger] v.index[i],
    ) == reader::stored(v.image, v.index[i]) by {
        assert(reader::stored(d, v.index[i]) =~= reader::stored(v.image, v.index[i]));
    }
}

/// A new archive that is being written.
pub struct ArchiveWriter<W: BlockIo> {
    inner: W,
    chunk_size: u32,
    uncompressed_size: u64,
    cursor: u64,
    index: Vec<ChunkEntry>,
    head_cache: Option<(Vec<u8>, bool, u64)>,
}

impl<W: BlockIo> View for ArchiveWriter<W> {
    type V = WriterView;

    closed spec fn view(&self) -> WriterView {
        WriterView {
            image: self.inner.image(),
            reliable: self.inner.reliable(),
            limit: self.inner.limit(),
            chunk_size: self.chunk_size,
            size: self.uncompressed_size,
            cursor: self.cursor,
            index: self.index@,
            head: match self.head_cache {
                Some((bytes, verbatim, rawlen)) => Some((bytes@, verbatim, rawlen)),
                None => None,
            },
        }
    }
}

impl<W: BlockIo> ArchiveWriter<W> {
    /// Starts an archive at the beginning of a device: header and two empty slots.
    pub fn new(mut inner: W, chunk_size: u32) -> (r: Result<Self, ArchiveError>)
        ensures
            match r {
                Ok(w) => {
                    &&& chunk_size != 0
                    &&& w@.wf()
                    &&& w@ == (WriterView {
                        image: blockio::written(inner.image(), 0, preamble()),
                        reliable: inner.reliable(),
                        limit: inner.limit(),
                        chunk_size,
                        size: 0,
                        cursor: DATA_START,
                        index: Seq::empty(),
                        head: None,
                    })
                },
                Err(ArchiveError::ZeroChunkSize) => chunk_size == 0,
                Err(e) => e is Io && chunk_size != 0 && (!inner.reliable() || inner.limit()
                    < DATA_START),
            },
    {
        broadcast use wire::le32_len;

        if chunk_size == 0 {
            return Err(ArchiveError::ZeroChunkSize);
        }
        let ghost before = inner.image();
        let mut start: Vec<u8> = Vec::new();
        start.extend_from_slice(&MAGIC);
        wire::put_u32(&mut start, VERSION);
        let mut slots: Vec<u8> = vec![0u8; 256];
        start.append(&mut slots);
        assert(start@ =~= preamble());
        if let Err(e) = inner.write_at(0, &start) {
            return Err(ArchiveError::Io(e));
        }
        proof {
            let d = inner.image();
            assert(preamble().subrange(0, 8) =~= MAGIC@);
            assert(preamble().subrange(8, 12) =~= wire::le32(VERSION));
            assert(d.subrange(0, 8) =~= preamble().subrange(0, 8));
            assert(d.subrange(8, 12) =~= preamble().subrange(8, 12));
            wire::le32_reads_back(d, 8, VERSION);
        }
        Ok(
            ArchiveWriter {
                inner,
                chunk_size,
                uncompressed_size: 0,
                cursor: DATA_START,
                index: Vec::new(),
                head_cache: None,
            },
        )
    }

    /// Sets the head cache, which is written when the archive is finished.
    pub fn set_head_cache(&mut self, stored_bytes: Vec<u8>, verbatim: bool, raw_len: u64)
        ensures
            final(self)@ == (WriterView {
                head: Some((stored_bytes@, verbatim, raw_len)),
                ..old(self)@
            }),
    {
        self.head_cache = Some((stored_bytes, verbatim, raw_len));
    }

    /// Appends a chunk: `stored_bytes` as they are, `raw_len` bytes once decompressed.
    pub fn append_block(&mut self, stored_bytes: &[u8], verbatim: bool, raw_len: u64) -> (r: Result<
        (),
        ArchiveError,
    >)
        requires
            old(self)@.wf(),
            old(self)@.size + raw_len <= u64::MAX,
        ensures
            final(self)@.wf(),
            forall|i: int|
                DATA_START <= i < old(self)@.cursor ==> final(self)@.image[i]
                    == old(self)@.image[i],
            match r {
                Ok(_) => {
                    let v = old(self)@;
                    let entry = ChunkEntry {
                        offset: v.cursor,
                        clen: stored_bytes@.len() as u64,
                        flags: super::flags_of(verbatim),
                        block_crc: wire::crc32_of(stored_bytes@),
                    };
                    &&& v.cursor + stored_bytes@.len() <= u64::MAX
                    &&& final(self)@ == (WriterView {
                        image: blockio::written(v.image, v.cursor as int, stored_bytes@),
                        cursor: (v.cursor + stored_bytes@.len()) as u64,
                        index: v.index.push(entry),
                        size: (v.size + raw_len) as u64,
                        ..v
                    })
                    &&& reader::stored(final(self)@.image, entry) == stored_bytes@
                    &&& reader::chunk_holds(final(self)@.image, entry)
                },
                Err(e) => {
                    let v = old(self)@;
                    &&& e is Io
                    &&& !v.reliable || v.cursor + stored_bytes@.len() > v.limit
                    &&& final(self)@ == (WriterView { image: final(self)@.image, ..v })
                },
            },
    {
        let ghost v = self@;
        let write: Result<(), blockio::IoError> = self.inner.write_at(self.cursor, stored_bytes);
        proof {
            updater::written_differs(v.image, v.cursor as int, stored_bytes@);
            updater::header_is_kept(v.image, self.inner.image());
        }
        if let Err(e) = write {
            return Err(ArchiveError::Io(e));
        }
        self.index.push(
            ChunkEntry {
                offset: self.cursor,
                clen: stored_bytes.len() as u64,
                flags: if verbatim { FLAG_VERBATIM } else { 0 },
                block_crc: wire::crc32(stored_bytes),
            },
        );
        self.cursor = self.cursor + stored_bytes.len() as u64;
        self.uncompressed_size = self.uncompressed_size + raw_len;
        Ok(())
    }

    /// Writes the head cache and the index, then the superblock into both slots.
    pub fn finish(self) -> (r: Result<W, ArchiveError>)
        requires
            self@.wf(),
        ensures
            match r {
                Ok(io) => {
                    &&& self@.end() <= u64::MAX
                    &&& io.image() == self@.finished()
                    &&& io.reliable() == self@.reliable
                    &&& io.limit() == self@.limit
                    &&& reader::opened(io.image()) == Some(
                        Version { sb: self@.sb(), off: SB_A_OFFSET, index: self@.index },
                    )
                },
                Err(e) => e is Io && (!self@.reliable || self@.end() > self@.limit),
            },
    {
        let ghost v = self@;
        let mut inner: W = self.inner;
        let mut cursor: u64 = self.cursor;
        let head_cache: Option<HeadCache> = match &self.head_cache {
            Some((bytes, verbatim, raw_len)) => {
                if let Err(e) = inner.write_at(cursor, bytes) {
                    return Err(ArchiveError::Io(e));
                }
                let offset: u64 = cursor;
                cursor = cursor + bytes.len() as u64;
                Some(
                    HeadCache {
                        offset,
                        clen: bytes.len() as u64,
                        rawlen: *raw_len,
                        verbatim: *verbatim,
                    },
                )
            },
            None => None,
        };
        let index_bytes: Vec<u8> = reader::serialize_index(&self.index);
        let index_crc: u32 = wire::crc32(&index_bytes);
        if let Err(e) = inner.write_at(cursor, &index_bytes) {
            return Err(ArchiveError::Io(e));
        }
        let sb: SuperBlock = SuperBlock {
            seq: 0,
            chunk_size: self.chunk_size,
            uncompressed_size: self.uncompressed_size,
            chunk_count: self.index.len() as u64,
            index_offset: cursor,
            index_len: index_bytes.len() as u64,
            index_crc,
            tail_journal_offset: 0,
            tail_journal_len: 0,
            head_cache,
        };
        assert(sb == v.sb());
        let slot: [u8; 128] = superblock::serialize_superblock(&sb);
        if let Err(e) = inner.write_at(SB_A_OFFSET, &slot) {
            return Err(ArchiveError::Io(e));
        }
        if let Err(e) = inner.write_at(SB_B_OFFSET, &slot) {
            return Err(ArchiveError::Io(e));
        }
        assert(inner.image() == v.finished());
        proof {
            finished_archive_opens(v);
        }
        Ok(inner)
    }
}

/// A finished archive tells what was written: the chunk size, the logical length, the number of
/// chunks, and where the head cache is; it is the first version and has no journal.
pub proof fn finished_archive_tells_what_was_written(v: WriterView)
    requires
        v.wf(),
        v.end() <= u64::MAX,
    ensures
        reader::opened(v.finished()) matches Some(ver) && {
            &&& ver.sb.seq == 0
            &&& ver.sb.chunk_size == v.chunk_size
            &&& ver.sb.uncompressed_size == v.size
            &&& ver.sb.chunk_count == v.index.len()
            &&& ver.index == v.index
            &&& ver.sb.tail_journal_len == 0
            &&& v.head is None <==> ver.sb.head_cache is None
            &&& v.head matches Some((bytes, verbatim, rawlen)) ==> {
                &&& ver.sb.head_cache->0.rawlen == rawlen
                &&& ver.sb.head_cache->0.verbatim == verbatim
                &&& ver.sb.head_cache->0.clen == bytes.len()
            }
        },
{
    finished_archive_opens(v);
    reader::index_reads_back(v.index);
}

/// An archive starts with its magic bytes and its version, and two slots that hold nothing.
pub proof fn archive_starts_with_its_header()
    ensures
        preamble().len() == 268,
        preamble().subrange(0, 8) == MAGIC@,
        wire::u32_at(preamble(), 8) == 2,
        forall|i: int| 12 <= i < 268 ==> #[trigger] preamble()[i] == 0,
{
    broadcast use wire::le32_len;

    let p = preamble();
    assert(p.subrange(0, 8) =~= MAGIC@);
    assert(p.subrange(8, 12) =~= wire::le32(VERSION));
    wire::le32_reads_back(p, 8, VERSION);
}

} // verus!
