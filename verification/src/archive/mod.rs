//! Chunked archive format with a crash-safe double superblock.
//!
//! ```text
//! [magic | version]                              header
//! [superblock slot A] [superblock slot B]        commit point, written in turn
//! [stored block] ... [head cache] [chunk index]  data area, append only
//! [journal record] ...                           raw bytes of a tail not sealed yet
//! ```
//!
//! A logical file is a sequence of chunks of one size, each compressed on its own. The index of
//! the chunks stands behind the data, so an update appends and never rewrites what a superblock
//! reaches. An update takes effect when the slot that is not in use is written with a higher
//! sequence number; a slot that was torn by a crash fails its checksum and the other one counts.
use vstd::prelude::*;

use crate::blockio::IoError;

pub mod history;
pub mod journal;
pub mod reader;
pub mod superblock;
pub mod updater;
pub mod wire;
pub mod writer;

pub use journal::{replay_journal, serialize_journal_record, JOURNAL_REC_HEADER_LEN};
pub use reader::ArchiveReader;
pub use superblock::{parse_superblock, pick_active, serialize_superblock, SuperBlock, SB_MAGIC};
pub use updater::ArchiveUpdater;
pub use wire::crc32;
pub use writer::ArchiveWriter;

verus! {

/// Magic bytes at the start of an archive: "ZIPFSAR" and 1.
pub const MAGIC: [u8; 8] = [90, 73, 80, 70, 83, 65, 82, 1];

/// Version of the format: the double superblock.
pub const VERSION: u32 = 2;

/// Length of the header: magic and version.
pub const HEADER_LEN: u64 = 12;

/// Length of a superblock slot.
pub const SB_LEN: u64 = 128;

/// Offset of superblock slot A.
pub const SB_A_OFFSET: u64 = 12;

/// Offset of superblock slot B.
pub const SB_B_OFFSET: u64 = 140;

/// Start of the data area, behind the header and the two slots.
pub const DATA_START: u64 = 268;

/// Length of an entry of the chunk index.
pub const INDEX_ENTRY_LEN: u64 = 24;

/// Length of the prefix that the head cache covers in a long file.
pub const HEAD_CACHE_BYTES: u64 = 65536;

/// Chunk flag: the stored bytes are the raw bytes.
pub const FLAG_VERBATIM: u32 = 1;

/// Why an archive could not be opened, read or written.
#[derive(Debug, Clone, Copy, PartialEq, Eq, Structural)]
pub enum ArchiveError {
    /// Shorter than the header and the two slots.
    TooSmall,
    /// The magic bytes are not an archive's.
    BadMagic,
    /// The header holds this version.
    BadVersion(u32),
    /// The header is not one that can be updated.
    NotUpdatable,
    /// Neither slot holds a superblock whose index holds.
    NoUsableSlot,
    /// The stored bytes of this chunk do not hold their checksum.
    BlockCrc(u64),
    /// An archive needs chunks of at least one byte.
    ZeroChunkSize,
    /// The device failed.
    Io(IoError),
}

impl ArchiveError {
    /// Whether the archive's own bytes are at fault.
    pub open spec fn corrupt(&self) -> bool {
        match self {
            ArchiveError::ZeroChunkSize => false,
            ArchiveError::Io(_) => false,
            _ => true,
        }
    }

    /// Whether the archive's own bytes are at fault.
    pub fn is_corrupt(&self) -> (b: bool)
        ensures
            b == self.corrupt(),
    {
        match self {
            ArchiveError::ZeroChunkSize => false,
            ArchiveError::Io(_) => false,
            _ => true,
        }
    }
}

/// Where a chunk is stored.
#[derive(Debug, Clone, Copy, PartialEq, Eq, Structural)]
pub struct ChunkEntry {
    /// Offset of the stored bytes.
    pub offset: u64,
    /// Number of stored bytes.
    pub clen: u64,
    /// Flags, of which `FLAG_VERBATIM` is the only one in use.
    pub flags: u32,
    /// Checksum of the stored bytes.
    pub block_crc: u32,
}

impl ChunkEntry {
    /// Whether the flags mark the chunk as stored raw.
    pub open spec fn verbatim(&self) -> bool {
        self.flags & FLAG_VERBATIM != 0
    }

    /// Whether the chunk is stored raw.
    pub fn is_verbatim(&self) -> (b: bool)
        ensures
            b == self.verbatim(),
    {
        self.flags & FLAG_VERBATIM != 0
    }
}

/// The flags of a chunk that is stored raw, or not.
pub open spec fn flags_of(verbatim: bool) -> u32 {
    if verbatim {
        FLAG_VERBATIM
    } else {
        0
    }
}

/// The verbatim flag reads back as it was set.
pub proof fn flags_read_back(e: ChunkEntry, verbatim: bool)
    requires
        e.flags == flags_of(verbatim),
    ensures
        e.verbatim() == verbatim,
{
    assert(1u32 & 1u32 != 0 && 0u32 & 1u32 == 0) by (bit_vector);
}

/// Where the separately stored prefix of a file is.
#[derive(Debug, Clone, Copy, PartialEq, Eq, Structural)]
pub struct HeadCache {
    /// Offset of the stored bytes.
    pub offset: u64,
    /// Number of stored bytes.
    pub clen: u64,
    /// Length of the prefix once decompressed.
    pub rawlen: u64,
    /// Whether the prefix is stored raw.
    pub verbatim: bool,
}

/// What a reader tells of an open archive.
#[derive(Debug, Clone, Copy, PartialEq, Eq, Structural)]
pub struct Footer {
    /// Logical chunk size.
    pub chunk_size: u32,
    /// Logical length of the file.
    pub uncompressed_size: u64,
    /// Number of chunks.
    pub chunk_count: u64,
    /// Offset of the chunk index.
    pub index_offset: u64,
    /// Checksum of the chunk index.
    pub crc: u32,
    /// The head cache, where there is one.
    pub head_cache: Option<HeadCache>,
}

/// An archive is called corrupt for what its own bytes are, and for nothing else: not where the device
/// failed, nor where chunks of no length were asked for.
pub proof fn bytes_at_fault_are_told(e: ArchiveError)
    ensures
        e.corrupt() <==> e is TooSmall || e is BadMagic || e is BadVersion || e is NotUpdatable || e
            is NoUsableSlot || e is BlockCrc,
        e is Io || e is ZeroChunkSize ==> !e.corrupt(),
{
}

/// The lowest bit of its flags marks a chunk that is stored raw, whatever the others are.
pub proof fn lowest_flag_marks_raw_bytes(e: ChunkEntry)
    ensures
        e.verbatim() <==> e.flags % 2 == 1,
        flags_of(true) == 1,
        flags_of(false) == 0,
{
    let f = e.flags;
    assert(f & 1u32 != 0 <==> f % 2 == 1) by (bit_vector);
}

} // verus!
