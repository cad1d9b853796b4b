//! Updating an archive in place: append only, with an atomic commit.
//!
//! New chunks, indexes, head caches and journal records go to the end of the file. No byte that
//! a superblock reaches is written again. A commit takes effect when the slot that is not in use
//! is written; whatever a crash leaves in that slot, the other one still holds a version.
use vstd::prelude::*;

use super::journal;
use super::reader;
use super::reader::Version;
use super::superblock;
use super::superblock::SuperBlock;
use super::wire;
use super::{
    ArchiveError, ChunkEntry, Footer, HeadCache, DATA_START, FLAG_VERBATIM, HEADER_LEN,
    MAGIC, SB_A_OFFSET, SB_B_OFFSET, SB_LEN, VERSION,
};
use crate::blockio;
use crate::blockio::{BlockIo, IoCall, IoError, IoStep};

verus! {

/// What an updater knows, and what its device holds.
#[verifier::ext_equal]
pub struct UpdaterView {
    /// What the device holds.
    pub image: Seq<u8>,
    /// Whether the device is reliable.
    pub reliable: bool,
    /// How long the device can grow.
    pub limit: u64,
    /// Whether all that the device holds survives a crash.
    pub durable: bool,
    /// The calls on the device so far.
    pub log: Seq<IoCall>,
    /// Logical chunk size.
    pub chunk_size: u32,
    /// The chunk index, with what is not committed yet.
    pub index: Seq<ChunkEntry>,
    /// Logical length of the file.
    pub size: u64,
    /// Where the next write goes.
    pub cursor: u64,
    /// Head cache for the next commit: stored bytes, whether they are raw, length of the prefix.
    pub head: Option<(Seq<u8>, bool, u64)>,
    /// Commit number of the version in use.
    pub seq: u64,
    /// The slot that the next commit writes.
    pub inactive_off: u64,
    /// Offset, length and checksum of the index of the version in use.
    pub committed_index: (u64, u64, u32),
    /// Head cache that a journal commit writes again.
    pub committed_head: Option<HeadCache>,
    /// Offset of the first journal record.
    pub journal_offset: Option<u64>,
    /// Length of the journal.
    pub journal_len: u64,
    /// Whether the index differs from the one in use.
    pub dirty: bool,
}

/// The other of the two slots.
pub open spec fn other_slot(off: u64) -> u64 {
    if off == SB_A_OFFSET {
        SB_B_OFFSET
    } else {
        SB_A_OFFSET
    }
}

/// `d2` keeps what the version in the slot at `off` of `d` may reach below `end`: the header,
/// that slot, and the data area up to `end`.
pub open spec fn keeps(d: Seq<u8>, d2: Seq<u8>, off: u64, end: int) -> bool {
    &&& end <= d.len()
    &&& end <= d2.len()
    &&& forall|i: int| 0 <= i < HEADER_LEN ==> d2[i] == d[i]
    &&& forall|i: int| off <= i < off + SB_LEN ==> d2[i] == d[i]
    &&& forall|i: int| DATA_START <= i < end ==> d2[i] == d[i]
}

impl UpdaterView {
    /// The slot of the version in use.
    pub open spec fn active_off(&self) -> u64 {
        other_slot(self.inactive_off)
    }

    /// The version in use.
    pub open spec fn active(&self) -> Version {
        reader::slot_version(self.image, self.active_off())->0
    }

    /// Whether everything that the version in use and the next one point to lies below the
    /// cursor, and the version in use holds.
    pub open spec fn wf(&self) -> bool {
        &&& self.inactive_off == SB_A_OFFSET || self.inactive_off == SB_B_OFFSET
        &&& DATA_START <= self.cursor <= self.image.len()
        &&& reader::header_magic_ok(self.image)
        &&& reader::header_version(self.image) == VERSION
        &&& self.chunk_size != 0
        &&& reader::entries_inside(self.index, self.cursor as int)
        &&& reader::slot_version(self.image, self.active_off()) is Some
        &&& self.active().sb.seq == self.seq
        &&& self.active().sb.chunk_size == self.chunk_size
        &&& self.committed_index == (
            self.active().sb.index_offset,
            self.active().sb.index_len,
            self.active().sb.index_crc,
        )
        &&& self.active().sb.index_offset + self.active().sb.index_len <= self.cursor
        &&& reader::journal_inside(self.active().sb, self.cursor as int)
        &&& !self.dirty ==> self.index == self.active().index
        &&& self.journal_len > 0 ==> self.journal_offset is Some
        &&& self.journal_offset matches Some(o) ==> DATA_START <= o && o + self.journal_len
            <= self.cursor
        &&& (self.committed_head matches Some(h) ==> h.offset != 0 || h.clen != 0 || h.rawlen != 0)
    }

    /// Whether the slot not in use cannot win against the one in use, whatever the data area
    /// holds: it does not parse, or its commit number is no greater.
    pub open spec fn settled(&self) -> bool {
        match reader::slot(self.image, self.inactive_off) {
            None => true,
            Some(sb) => sb.seq < self.seq || (sb.seq == self.seq && self.inactive_off
                == SB_B_OFFSET),
        }
    }

    /// The raw bytes in the journal; none where there is no journal.
    pub open spec fn tail(&self) -> Option<Seq<u8>> {
        if self.journal_len > 0 {
            Some(
                journal::replayed(
                    self.image.subrange(
                        self.journal_offset->0 as int,
                        self.journal_offset->0 + self.journal_len,
                    ),
                ),
            )
        } else {
            None
        }
    }

    /// Whether a record written at the cursor continues the journal: there is none yet, or its
    /// records are whole and end there.
    pub open spec fn journal_continues(&self) -> bool {
        if self.journal_len > 0 {
            &&& self.journal_offset->0 + self.journal_len == self.cursor
            &&& journal::whole(
                self.image.subrange(self.journal_offset->0 as int, self.cursor as int),
            )
        } else {
            self.journal_offset is None || self.journal_offset == Some(self.cursor)
        }
    }

    /// The stored bytes of the head cache that a commit writes.
    pub open spec fn head_bytes(&self) -> Seq<u8> {
        match self.head {
            Some((bytes, _, _)) => bytes,
            None => Seq::empty(),
        }
    }

    /// The head cache of the next commit.
    pub open spec fn head_desc(&self) -> Option<HeadCache> {
        match self.head {
            Some((bytes, verbatim, rawlen)) => Some(
                HeadCache { offset: self.cursor, clen: bytes.len() as u64, rawlen, verbatim },
            ),
            None => None,
        }
    }

    /// Where the next commit writes the index.
    pub open spec fn next_index_offset(&self) -> int {
        self.cursor + self.head_bytes().len()
    }

    /// Where the cursor stands after the next commit.
    pub open spec fn next_cursor(&self) -> int {
        self.next_index_offset() + reader::index_bytes(self.index).len()
    }

    /// The superblock of the next commit.
    pub open spec fn next_sb(&self) -> SuperBlock {
        let bytes = reader::index_bytes(self.index);
        SuperBlock {
            seq: (self.seq + 1) as u64,
            chunk_size: self.chunk_size,
            uncompressed_size: self.size,
            chunk_count: self.index.len() as u64,
            index_offset: self.next_index_offset() as u64,
            index_len: bytes.len() as u64,
            index_crc: wire::crc32_of(bytes),
            tail_journal_offset: self.tail_offset(),
            tail_journal_len: self.journal_len,
            head_cache: self.head_desc(),
        }
    }

    /// The journal offset that a commit writes.
    pub open spec fn tail_offset(&self) -> u64 {
        match self.journal_offset {
            Some(o) => o,
            None => 0,
        }
    }

    /// The superblock of the next journal commit: the index and the head cache stay.
    pub open spec fn next_journal_sb(&self) -> SuperBlock {
        SuperBlock {
            seq: (self.seq + 1) as u64,
            chunk_size: self.chunk_size,
            uncompressed_size: self.size,
            chunk_count: self.index.len() as u64,
            index_offset: self.committed_index.0,
            index_len: self.committed_index.1,
            index_crc: self.committed_index.2,
            tail_journal_offset: self.tail_offset(),
            tail_journal_len: self.journal_len,
            head_cache: self.committed_head,
        }
    }

    /// The calls of the next commit: what it writes at the end of the file, a barrier, the slot,
    /// a barrier.
    pub open spec fn commit_steps(&self) -> Seq<IoStep> {
        let head = if self.head is Some {
            seq![IoStep::Write(self.cursor, self.head_bytes())]
        } else {
            Seq::empty()
        };
        head + seq![
            IoStep::Write(self.next_index_offset() as u64, reader::index_bytes(self.index)),
            IoStep::Sync,
            IoStep::Write(self.inactive_off, superblock::sb_bytes(self.next_sb())),
            IoStep::Sync,
        ]
    }

    /// The calls of the next journal commit: a barrier, the slot, a barrier.
    pub open spec fn journal_commit_steps(&self) -> Seq<IoStep> {
        seq![
            IoStep::Sync,
            IoStep::Write(self.inactive_off, superblock::sb_bytes(self.next_journal_sb())),
            IoStep::Sync,
        ]
    }

    /// How many calls on the device were made since `before`.
    pub open spec fn calls_since(&self, before: UpdaterView) -> int {
        self.log.len() - before.log.len()
    }

    /// Whether a commit with these calls stopped at the first of them that failed, with that error:
    /// all before it succeeded, none was made after it, and unless the barrier in front of the slot
    /// succeeded neither slot nor anything else below the cursor was written.
    pub open spec fn stopped_within(
        &self,
        before: UpdaterView,
        steps: Seq<IoStep>,
        e: ArchiveError,
    ) -> bool {
        let n = self.calls_since(before);
        &&& 0 < n <= steps.len()
        &&& e matches ArchiveError::Io(why) && self.log == before.log + blockio::done_but_last(
            steps,
            n,
            why,
        )
        &&& n <= steps.len() - 2 ==> forall|i: int|
            0 <= i < before.cursor ==> self.image[i] == before.image[i]
    }

    /// The device with the head cache and the index of the next commit.
    pub open spec fn index_image(&self) -> Seq<u8> {
        let with_head = if self.head is Some {
            blockio::written(self.image, self.cursor as int, self.head_bytes())
        } else {
            self.image
        };
        blockio::written(with_head, self.next_index_offset(), reader::index_bytes(self.index))
    }

    /// The device after the next commit.
    pub open spec fn commit_image(&self) -> Seq<u8> {
        blockio::written(
            self.index_image(),
            self.inactive_off as int,
            superblock::sb_bytes(self.next_sb()),
        )
    }

    /// The updater's state after a commit.
    pub open spec fn committed(&self) -> UpdaterView {
        UpdaterView {
            image: self.commit_image(),
            cursor: self.next_cursor() as u64,
            seq: self.next_sb().seq,
            inactive_off: self.active_off(),
            committed_index: (
                self.next_sb().index_offset,
                self.next_sb().index_len,
                self.next_sb().index_crc,
            ),
            committed_head: self.head_desc(),
            dirty: false,
            durable: true,
            log: self.log + blockio::done(self.commit_steps()),
            ..*self
        }
    }

    /// The updater's state after a journal commit.
    pub open spec fn journal_committed(&self) -> UpdaterView {
        UpdaterView {
            image: blockio::written(
                self.image,
                self.inactive_off as int,
                superblock::sb_bytes(self.next_journal_sb()),
            ),
            seq: self.next_journal_sb().seq,
            inactive_off: self.active_off(),
            durable: true,
            log: self.log + blockio::done(self.journal_commit_steps()),
            ..*self
        }
    }

    /// Where the journal starts once it has a record.
    pub open spec fn journal_start(&self) -> u64 {
        match self.journal_offset {
            Some(o) => o,
            None => self.cursor,
        }
    }

    /// The updater's state after a journal record was appended; whether it is durable is left as it
    /// was.
    pub open spec fn with_record(&self, raw_delta: Seq<u8>) -> UpdaterView {
        let rec = journal::journal_record(raw_delta);
        UpdaterView {
            image: blockio::written(self.image, self.cursor as int, rec),
            cursor: (self.cursor + rec.len()) as u64,
            journal_offset: Some(self.journal_start()),
            journal_len: (self.journal_len + rec.len()) as u64,
            log: self.log + blockio::done(seq![IoStep::Write(self.cursor, rec)]),
            ..*self
        }
    }

    /// The updater's state without the chunks from `keep_from` on. A head cache that would reach
    /// past the new end goes too.
    pub open spec fn truncated(&self, keep_from: u64, new_size: u64) -> UpdaterView {
        let rawlen = match self.head {
            Some((_, _, rawlen)) => rawlen,
            None => match self.committed_head {
                Some(h) => h.rawlen,
                None => 0,
            },
        };
        UpdaterView {
            index: if keep_from < self.index.len() {
                self.index.subrange(0, keep_from as int)
            } else {
                self.index
            },
            size: new_size,
            dirty: true,
            head: if new_size < rawlen {
                None
            } else {
                self.head
            },
            committed_head: if new_size < rawlen {
                None
            } else {
                self.committed_head
            },
            ..*self
        }
    }
}

/// `n` zero bytes.
pub open spec fn zeros(n: nat) -> Seq<u8> {
    Seq::new(n, |i: int| 0u8)
}

impl UpdaterView {
    /// How many chunks are missing between the last one and chunk `idx`.
    pub open spec fn gap(&self, idx: u64) -> nat {
        if idx > self.index.len() {
            (idx - self.index.len()) as nat
        } else {
            0
        }
    }

    /// Where chunk `idx` is written: behind the zero chunks that fill the gap before it.
    pub open spec fn chunk_offset(&self, idx: u64) -> int {
        self.cursor + self.gap(idx) * self.chunk_size
    }

    /// The index with `n` zero chunks behind the last one.
    pub open spec fn padded(&self, n: nat) -> Seq<ChunkEntry> {
        Seq::new(
            self.index.len() + n,
            |i: int|
                if i < self.index.len() {
                    self.index[i]
                } else {
                    ChunkEntry {
                        offset: (self.cursor + (i - self.index.len()) * self.chunk_size) as u64,
                        clen: self.chunk_size as u64,
                        flags: FLAG_VERBATIM,
                        block_crc: wire::crc32_of(zeros(self.chunk_size as nat)),
                    }
                },
        )
    }

    /// The device with `n` zero chunks at the cursor.
    pub open spec fn padded_image(&self, n: nat) -> Seq<u8> {
        blockio::written(self.image, self.cursor as int, zeros(n * self.chunk_size as nat))
    }

    /// The calls that write chunk `idx`: the zero chunks before it, then the chunk.
    pub open spec fn block_steps(&self, idx: u64, bytes: Seq<u8>) -> Seq<IoStep> {
        Seq::new(
            self.gap(idx),
            |i: int|
                IoStep::Write(
                    (self.cursor + i * self.chunk_size) as u64,
                    zeros(self.chunk_size as nat),
                ),
        ).push(IoStep::Write(self.chunk_offset(idx) as u64, bytes))
    }

    /// The updater's state after writing chunk `idx`; whether it is durable is left as it was.
    pub open spec fn with_block(
        &self,
        idx: u64,
        bytes: Seq<u8>,
        verbatim: bool,
        new_size: u64,
    ) -> UpdaterView {
        let entry = ChunkEntry {
            offset: self.chunk_offset(idx) as u64,
            clen: bytes.len() as u64,
            flags: super::flags_of(verbatim),
            block_crc: wire::crc32_of(bytes),
        };
        let padded = self.padded(self.gap(idx));
        UpdaterView {
            image: blockio::written(
                self.padded_image(self.gap(idx)),
                self.chunk_offset(idx),
                bytes,
            ),
            index: if idx < padded.len() {
                padded.update(idx as int, entry)
            } else {
                padded.push(entry)
            },
            cursor: (self.chunk_offset(idx) + bytes.len()) as u64,
            size: new_size,
            dirty: true,
            log: self.log + blockio::done(self.block_steps(idx, bytes)),
            ..*self
        }
    }
}

/// What is written is what is read: after chunk `idx` was written it holds its checksum and its
/// stored bytes are the ones given, the chunks that fill a gap are zero bytes stored raw, and
/// every other chunk reads as before.
pub proof fn block_reads_back(v: UpdaterView, idx: u64, bytes: Seq<u8>, verbatim: bool, size: u64)
    requires
        v.wf(),
        v.chunk_offset(idx) + bytes.len() <= u64::MAX,
    ensures
        ({
            let w = v.with_block(idx, bytes, verbatim, size);
            &&& idx < w.index.len()
            &&& reader::stored(w.image, w.index[idx as int]) == bytes
            &&& reader::chunk_holds(w.image, w.index[idx as int])
            &&& w.index[idx as int].verbatim() == verbatim
            &&& forall|i: int|
                v.index.len() <= i < idx ==> {
                    &&& reader::stored(w.image, #[trigger] w.index[i]) == zeros(
                        v.chunk_size as nat,
                    )
                    &&& reader::chunk_holds(w.image, w.index[i])
                    &&& w.index[i].verbatim()
                }
            &&& forall|i: int|
                0 <= i < v.index.len() && i != idx ==> (#[trigger] w.index[i]) == v.index[i]
                    && reader::stored(w.image, w.index[i]) == reader::stored(v.image, v.index[i])
        }),
{
    let w = v.with_block(idx, bytes, verbatim, size);
    let at = v.chunk_offset(idx);
    let gap = v.gap(idx);
    let cs = v.chunk_size as int;
    assert(gap * cs >= 0) by (nonlinear_arith)
        requires
            gap >= 0,
            cs >= 0,
    ;
    assert(reader::stored(w.image, w.index[idx as int]) =~= bytes);
    super::flags_read_back(w.index[idx as int], verbatim);
    assert forall|i: int| v.index.len() <= i < idx implies {
        &&& reader::stored(w.image, #[trigger] w.index[i]) == zeros(v.chunk_size as nat)
        &&& reader::chunk_holds(w.image, w.index[i])
        &&& w.index[i].verbatim()
    } by {
        let k = i - v.index.len();
        assert(0 <= k * cs && k * cs + cs <= gap * cs) by (nonlinear_arith)
            requires
                0 <= k < gap,
                cs >= 0,
        ;
        assert(w.index[i].offset == v.cursor + k * cs);
        super::flags_read_back(w.index[i], true);
        assert(reader::stored(w.image, w.index[i]) =~= zeros(v.chunk_size as nat));
    }
    assert forall|i: int| 0 <= i < v.index.len() && i != idx implies (#[trigger] w.index[i])
        == v.index[i] && reader::stored(w.image, w.index[i]) == reader::stored(
        v.image,
        v.index[i],
    ) by {
        assert(w.index[i] == v.index[i]);
        assert(reader::stored(w.image, w.index[i]) =~= reader::stored(v.image, v.index[i]));
    }
}

/// A version is not lost as long as what it reaches is kept, however the rest of the file
/// changes: the slot not in use may hold anything, and so may what lies past `end`.
pub proof fn version_is_kept(d: Seq<u8>, d2: Seq<u8>, off: u64, end: int)
    requires
        off == SB_A_OFFSET || off == SB_B_OFFSET,
        DATA_START <= end,
        keeps(d, d2, off, end),
        reader::slot_version(d, off) is Some,
        reader::slot_version(d, off)->0.sb.index_offset + reader::slot_version(
            d,
            off,
        )->0.sb.index_len <= end,
        reader::journal_inside(reader::slot_version(d, off)->0.sb, end),
    ensures
        reader::slot_version(d2, off) == reader::slot_version(d, off),
        reader::recovered(d2) is Some,
{
    let sb = reader::slot(d, off)->0;
    assert(d2.subrange(off as int, off + SB_LEN) =~= d.subrange(off as int, off + SB_LEN));
    assert(reader::slot(d2, off) == Some(sb));
    assert(reader::index_area(d2, sb) =~= reader::index_area(d, sb));
    assert(reader::version_holds(d2, sb));
}

/// Recovery goes back to the version in use, whatever a crash did to the rest of the file, as
/// long as the slot not in use does not parse or its commit number is no greater.
pub proof fn crash_recovers_version_in_use(v: UpdaterView, d2: Seq<u8>)
    requires
        v.wf(),
        keeps(v.image, d2, v.active_off(), v.cursor as int),
        reader::slot(d2, v.inactive_off) is None || reader::slot(d2, v.inactive_off)->0.seq
            < v.seq || (reader::slot(d2, v.inactive_off)->0.seq == v.seq && v.inactive_off
            == SB_B_OFFSET),
    ensures
        reader::opened(d2) == Some(v.active()),
{
    version_is_kept(v.image, d2, v.active_off(), v.cursor as int);
    header_is_kept(v.image, d2);
}

/// A crash while a commit writes its slot leaves the version in use or the new one and nothing
/// else: what is recovered is the version in use, unless the slot holds a sound superblock whose
/// index holds too.
pub proof fn torn_commit_leaves_a_version(v: UpdaterView, d2: Seq<u8>)
    requires
        v.wf(),
        keeps(v.image, d2, v.active_off(), v.cursor as int),
    ensures
        reader::opened(d2) is Some,
        reader::opened(d2) == Some(v.active()) || (reader::opened(d2) == reader::slot_version(
            d2,
            v.inactive_off,
        ) && reader::slot_version(d2, v.inactive_off)->0.sb.seq >= v.seq),
{
    version_is_kept(v.image, d2, v.active_off(), v.cursor as int);
    header_is_kept(v.image, d2);
}

/// A crash before the slot is written leaves the version in use. `durable` is what the device held
/// at the last barrier before the commit, and `since` the calls from then on, which wrote nothing
/// below `floor`; the version in use lies below it. `n` calls of the commit were begun, up to its
/// first barrier; none where it is a journal commit, whose own first barrier is one of `since`.
pub proof fn crash_before_the_slot_keeps_the_version(
    v: UpdaterView,
    floor: int,
    durable: Seq<u8>,
    since: Seq<IoStep>,
    n: int,
    left: Seq<u8>,
)
    requires
        v.wf(),
        v.settled(),
        n > 0 ==> v.next_cursor() <= u64::MAX,
        DATA_START <= floor <= v.cursor,
        v.active().sb.index_offset + v.active().sb.index_len <= floor,
        reader::journal_inside(v.active().sb, floor),
        floor <= durable.len(),
        forall|i: int| 0 <= i < floor ==> durable[i] == v.image[i],
        forall|k: int, i: int|
            0 <= k < since.len() && 0 <= i < floor ==> !(#[trigger] blockio::touches_byte(
                since[k],
                i,
            )),
        0 <= n <= v.commit_steps().len() - 2,
        blockio::crash_leaves(durable, since + v.commit_steps().subrange(0, n), left),
    ensures
        reader::opened(left) == Some(v.active()),
{
    let steps = since + v.commit_steps().subrange(0, n);
    assert forall|i: int| 0 <= i < floor implies i < left.len() && #[trigger] left[i]
        == v.image[i] by {
        assert forall|k: int| 0 <= k < steps.len() implies !blockio::touches_byte(
            #[trigger] steps[k],
            i,
        ) by {
            if k < since.len() {
                assert(steps[k] == since[k]);
            } else {
                assert(steps[k] == v.commit_steps()[k - since.len()]);
            }
        }
        assert(!blockio::touched(steps, i));
        assert(left[i] == durable[i]);
    }
    assert(left[floor - 1] == v.image[floor - 1]);
    version_is_kept(v.image, left, v.active_off(), floor);
    header_is_kept(v.image, left);
    assert(left.subrange(v.inactive_off as int, v.inactive_off + SB_LEN) =~= v.image.subrange(
        v.inactive_off as int,
        v.inactive_off + SB_LEN,
    ));
}

/// A crash while the slot is written leaves the version in use or what the slot then holds, and the
/// new version where the slot was written whole: the barrier made the index durable before. `n`
/// calls were begun since that barrier.
pub proof fn crash_at_the_slot_keeps_a_version(v: UpdaterView, n: int, left: Seq<u8>)
    requires
        v.wf(),
        v.seq < u64::MAX,
        v.next_cursor() <= u64::MAX,
        0 <= n <= 2,
        blockio::crash_leaves(
            v.index_image(),
            v.commit_steps().subrange(
                v.commit_steps().len() - 2,
                v.commit_steps().len() - 2 + n,
            ),
            left,
        ),
    ensures
        reader::opened(left) is Some,
        reader::opened(left) == Some(v.active()) || reader::opened(left) == reader::slot_version(
            left,
            v.inactive_off,
        ),
        n == 0 && v.settled() ==> reader::opened(left) == Some(v.active()),
        left.subrange(v.inactive_off as int, v.inactive_off + SB_LEN) == superblock::sb_bytes(
            v.next_sb(),
        ) ==> reader::opened(left) == Some(
            Version { sb: v.next_sb(), off: v.inactive_off, index: v.index },
        ),
{
    let d1 = if v.head is Some {
        blockio::written(v.image, v.cursor as int, v.head_bytes())
    } else {
        v.image
    };
    let d2 = v.index_image();
    let all = v.commit_steps();
    let steps = all.subrange(all.len() - 2, all.len() - 2 + n);
    let sb = v.next_sb();
    let at = v.next_index_offset();
    let bytes = reader::index_bytes(v.index);
    superblock::sb_bytes_len(sb);
    written_differs(v.image, v.cursor as int, v.head_bytes());
    written_differs(d1, at, bytes);
    assert forall|i: int|
        0 <= i < d2.len() && (n == 0 || !(v.inactive_off <= i < v.inactive_off + SB_LEN)) implies i
        < left.len() && #[trigger] left[i] == d2[i] by {
        assert forall|k: int| 0 <= k < steps.len() implies !blockio::touches_byte(
            #[trigger] steps[k],
            i,
        ) by {
            assert(steps[k] == all[all.len() - 2 + k]);
        }
        assert(!blockio::touched(steps, i));
        assert(left[i] == d2[i]);
    }
    assert forall|k: int| 0 <= k < steps.len() implies !(#[trigger] steps[k] is SetLen) by {
        assert(steps[k] == all[all.len() - 2 + k]);
    }
    assert(keeps(v.image, left, v.active_off(), v.cursor as int));
    torn_commit_leaves_a_version(v, left);
    if n == 0 {
        assert(left.subrange(v.inactive_off as int, v.inactive_off + SB_LEN) =~= v.image.subrange(
            v.inactive_off as int,
            v.inactive_off + SB_LEN,
        ));
        header_is_kept(v.image, left);
        version_is_kept(v.image, left, v.active_off(), v.cursor as int);
    }
    if left.subrange(v.inactive_off as int, v.inactive_off + SB_LEN) == superblock::sb_bytes(sb) {
        reader::index_reads_back(v.index);
        assert(reader::index_area(left, sb) =~= bytes) by {
            assert(d2.subrange(at, at + bytes.len()) =~= bytes);
        }
        assert(reader::index_loaded(left, sb) == Some(v.index));
        committed_version(v, left, sb, v.index);
    }
}

/// A crash after a commit leaves the new version.
pub proof fn crash_after_a_commit_keeps_the_new_version(v: UpdaterView, left: Seq<u8>)
    requires
        v.wf(),
        v.seq < u64::MAX,
        v.next_cursor() <= u64::MAX,
        blockio::crash_leaves(v.commit_image(), Seq::empty(), left),
    ensures
        reader::opened(left) == Some(
            Version { sb: v.next_sb(), off: v.inactive_off, index: v.index },
        ),
{
    let d = v.commit_image();
    let d2 = v.index_image();
    let slot = superblock::sb_bytes(v.next_sb());
    let all = v.commit_steps();
    superblock::sb_bytes_len(v.next_sb());
    commit_lands(v);
    written_differs(d2, v.inactive_off as int, slot);
    assert forall|i: int| 0 <= i < d.len() implies i < left.len() && #[trigger] left[i]
        == d[i] by {
        assert(!blockio::touched(Seq::empty(), i));
        assert(left[i] == d[i]);
    }
    let steps = all.subrange(all.len() - 2, all.len() - 2 + 1);
    assert forall|i: int| 0 <= i < d2.len() && !blockio::touched(steps, i) implies i < left.len()
        && #[trigger] left[i] == d2[i] by {
        assert(steps[0] == IoStep::Write(v.inactive_off, slot));
        assert(!blockio::touches_byte(steps[0], i));
        assert(left[i] == d[i]);
    }
    assert(left.subrange(v.inactive_off as int, v.inactive_off + SB_LEN) =~= d.subrange(
        v.inactive_off as int,
        v.inactive_off + SB_LEN,
    ));
    crash_at_the_slot_keeps_a_version(v, 1, left);
}

/// A crash while a journal commit writes the slot leaves the version in use or what the slot then
/// holds, and the new version with the whole journal where the slot was written whole: the barrier
/// made the records durable before. `n` calls were begun since that barrier.
pub proof fn crash_at_the_journal_slot_keeps_a_version(v: UpdaterView, n: int, left: Seq<u8>)
    requires
        v.wf(),
        !v.dirty,
        v.seq < u64::MAX,
        0 <= n <= 2,
        blockio::crash_leaves(v.image, v.journal_commit_steps().subrange(1, 1 + n), left),
    ensures
        reader::opened(left) is Some,
        reader::opened(left) == Some(v.active()) || reader::opened(left) == reader::slot_version(
            left,
            v.inactive_off,
        ),
        n == 0 && v.settled() ==> reader::opened(left) == Some(v.active()),
        left.subrange(v.inactive_off as int, v.inactive_off + SB_LEN) == superblock::sb_bytes(
            v.next_journal_sb(),
        ) ==> {
            &&& reader::opened(left) == Some(
                Version { sb: v.next_journal_sb(), off: v.inactive_off, index: v.index },
            )
            &&& reader::tail_of(left, v.next_journal_sb()) == v.tail()
        },
{
    let all = v.journal_commit_steps();
    let steps = all.subrange(1, 1 + n);
    let sb = v.next_journal_sb();
    superblock::sb_bytes_len(sb);
    assert forall|k: int| 0 <= k < steps.len() implies !(#[trigger] steps[k] is SetLen) by {
        assert(steps[k] == all[1 + k]);
    }
    assert forall|i: int|
        0 <= i < v.image.len() && (n == 0 || !(v.inactive_off <= i < v.inactive_off
            + SB_LEN)) implies #[trigger] left[i] == v.image[i] by {
        assert forall|k: int| 0 <= k < steps.len() implies !blockio::touches_byte(
            #[trigger] steps[k],
            i,
        ) by {
            assert(steps[k] == all[1 + k]);
        }
        assert(!blockio::touched(steps, i));
        assert(left[i] == v.image[i]);
    }
    torn_commit_leaves_a_version(v, left);
    if n == 0 {
        assert(left.subrange(v.inactive_off as int, v.inactive_off + SB_LEN) =~= v.image.subrange(
            v.inactive_off as int,
            v.inactive_off + SB_LEN,
        ));
        header_is_kept(v.image, left);
        version_is_kept(v.image, left, v.active_off(), v.cursor as int);
    }
    if left.subrange(v.inactive_off as int, v.inactive_off + SB_LEN) == superblock::sb_bytes(sb) {
        assert(reader::index_area(left, sb) =~= reader::index_area(v.image, v.active().sb));
        assert(reader::index_loaded(left, sb) == Some(v.index));
        committed_version(v, left, sb, v.index);
        if v.journal_len > 0 {
            let o = v.journal_offset->0;
            assert(left.subrange(o as int, o + v.journal_len) =~= v.image.subrange(
                o as int,
                o + v.journal_len,
            ));
        }
    }
}

/// A file whose first bytes are kept has the same magic bytes and version.
pub proof fn header_is_kept(d: Seq<u8>, d2: Seq<u8>)
    requires
        d.len() >= DATA_START,
        d2.len() >= DATA_START,
        forall|i: int| 0 <= i < HEADER_LEN ==> d2[i] == d[i],
    ensures
        reader::header_magic_ok(d2) == reader::header_magic_ok(d),
        reader::header_version(d2) == reader::header_version(d),
{
    assert(d2.subrange(0, 8) =~= d.subrange(0, 8));
    reveal(wire::u32_at);
}

/// A write changes what it is about, and there holds what was written.
pub proof fn written_differs(d: Seq<u8>, at: int, bytes: Seq<u8>)
    requires
        0 <= at,
    ensures
        blockio::differs_only_in(d, blockio::written(d, at, bytes), at, bytes.len() as int),
        at + bytes.len() <= blockio::written(d, at, bytes).len(),
        blockio::written(d, at, bytes).subrange(at, at + bytes.len()) == bytes,
{
    assert(blockio::written(d, at, bytes).subrange(at, at + bytes.len()) =~= bytes);
}

/// What is committed is what is recovered: the version of the new superblock holds on a device
/// whose inactive slot holds it and whose data area holds its index, and it wins.
proof fn committed_version(v: UpdaterView, d: Seq<u8>, sb: SuperBlock, index: Seq<ChunkEntry>)
    requires
        v.wf(),
        keeps(v.image, d, v.active_off(), v.cursor as int),
        sb.seq > v.seq,
        superblock::sb_kept(sb) == sb,
        d.subrange(v.inactive_off as int, v.inactive_off + SB_LEN) == superblock::sb_bytes(sb),
        reader::index_loaded(d, sb) == Some(index),
    ensures
        reader::slot(d, v.inactive_off) == Some(sb),
        reader::opened(d) == Some(Version { sb, off: v.inactive_off, index }),
{
    let s = d.subrange(v.inactive_off as int, v.inactive_off + SB_LEN);
    assert(s.subrange(0, SB_LEN as int) =~= s);
    superblock::superblock_reads_back(sb, s);
    version_is_kept(v.image, d, v.active_off(), v.cursor as int);
    header_is_kept(v.image, d);
}

/// A commit lands: the device then opens to the new version, with the journal and the head cache
/// that the updater held, and the version in use before still holds.
proof fn commit_lands(v: UpdaterView)
    requires
        v.wf(),
        v.seq < u64::MAX,
        v.next_cursor() <= u64::MAX,
    ensures
        ({
            let d = v.commit_image();
            let sb = v.next_sb();
            &&& v.next_cursor() <= d.len()
            &&& keeps(v.image, d, v.active_off(), v.cursor as int)
            &&& reader::opened(d) == Some(Version { sb, off: v.inactive_off, index: v.index })
            &&& reader::slot_version(d, v.inactive_off) == reader::opened(d)
            &&& reader::slot(d, v.active_off()) == reader::slot(v.image, v.active_off())
            &&& reader::entries_inside(v.index, v.next_cursor())
            &&& reader::header_magic_ok(d)
            &&& reader::header_version(d) == VERSION
            &&& reader::tail_of(d, sb) == v.tail()
            &&& head_loaded(d, sb) == v.head
            &&& sb.index_offset + sb.index_len == v.next_cursor()
        }),
{
    let d1 = if v.head is Some {
        blockio::written(v.image, v.cursor as int, v.head_bytes())
    } else {
        v.image
    };
    let at = v.next_index_offset();
    let bytes = reader::index_bytes(v.index);
    let d2 = blockio::written(d1, at, bytes);
    let sb = v.next_sb();
    let slot = superblock::sb_bytes(sb);
    let d = v.commit_image();
    superblock::sb_bytes_len(sb);
    written_differs(v.image, v.cursor as int, v.head_bytes());
    written_differs(d1, at, bytes);
    written_differs(d2, v.inactive_off as int, slot);
    assert(keeps(v.image, d, v.active_off(), v.cursor as int));
    header_is_kept(v.image, d);
    reader::index_reads_back(v.index);
    assert(reader::index_area(d, sb) =~= bytes) by {
        assert(d2.subrange(at, at + bytes.len()) =~= bytes);
    }
    assert(reader::index_loaded(d, sb) == Some(v.index));
    committed_version(v, d, sb, v.index);
    assert(d.subrange(v.active_off() as int, v.active_off() + SB_LEN) =~= v.image.subrange(
        v.active_off() as int,
        v.active_off() + SB_LEN,
    ));
    if v.journal_len > 0 {
        let o = v.journal_offset->0;
        assert(d.subrange(o as int, o + v.journal_len) =~= v.image.subrange(
            o as int,
            o + v.journal_len,
        ));
    }
    if v.head is Some {
        assert(d1.subrange(v.cursor as int, at) =~= v.head_bytes());
        assert(d.subrange(v.cursor as int, at) =~= v.head_bytes());
    }
}

/// A commit leaves what lies below the cursor in the data area.
pub proof fn commit_keeps_data(v: UpdaterView)
    requires
        v.wf(),
        v.seq < u64::MAX,
        v.next_cursor() <= u64::MAX,
    ensures
        v.cursor <= v.commit_image().len(),
        forall|i: int| DATA_START <= i < v.cursor ==> v.commit_image()[i] == v.image[i],
{
    commit_lands(v);
}

/// The device opens to what was committed.
pub proof fn commit_opens(v: UpdaterView)
    requires
        v.wf(),
        v.seq < u64::MAX,
        v.next_cursor() <= u64::MAX,
    ensures
        reader::opened(v.commit_image()) == Some(
            Version { sb: v.next_sb(), off: v.inactive_off, index: v.index },
        ),
        head_loaded(v.commit_image(), v.next_sb()) == v.head,
{
    commit_lands(v);
}

/// Zero chunks at the cursor leave what lies below it, and the slots, as they were.
proof fn kept_below(v: UpdaterView, d: Seq<u8>, n: nat)
    requires
        v.wf(),
        d == v.padded_image(n),
    ensures
        d.len() >= v.image.len(),
        forall|i: int| 0 <= i < v.cursor ==> d[i] == v.image[i],
{
}

/// A write at or past the cursor leaves it open as before which slot wins.
proof fn write_above_keeps(v: UpdaterView, d: Seq<u8>, d2: Seq<u8>, end: int)
    requires
        v.wf(),
        v.cursor <= end <= d.len(),
        forall|i: int| 0 <= i < v.cursor ==> d[i] == v.image[i],
        d2.len() >= d.len(),
        forall|i: int| 0 <= i < end ==> d2[i] == d[i],
    ensures
        forall|i: int| 0 <= i < v.cursor ==> d2[i] == v.image[i],
        reader::slot(d2, v.inactive_off) == reader::slot(v.image, v.inactive_off),
        v.settled() ==> reader::opened(d2) == Some(v.active()),
        reader::slot_version(d2, v.active_off()) == reader::slot_version(v.image, v.active_off()),
{
    version_is_kept(v.image, d2, v.active_off(), v.cursor as int);
    assert(d2.subrange(v.inactive_off as int, v.inactive_off + SB_LEN) =~= v.image.subrange(
        v.inactive_off as int,
        v.inactive_off + SB_LEN,
    ));
    if v.settled() {
        crash_recovers_version_in_use(v, d2);
    }
}

/// An archive that is being updated.
pub struct ArchiveUpdater<W: BlockIo> {
    io: W,
    chunk_size: u32,
    index: Vec<ChunkEntry>,
    uncompressed_size: u64,
    write_cursor: u64,
    head_cache: Option<(Vec<u8>, bool, u64)>,
    active_seq: u64,
    inactive_off: u64,
    committed_index: (u64, u64, u32),
    committed_head_cache: Option<HeadCache>,
    journal_offset: Option<u64>,
    journal_len: u64,
    index_dirty: bool,
}

impl<W: BlockIo> View for ArchiveUpdater<W> {
    type V = UpdaterView;

    closed spec fn view(&self) -> UpdaterView {
        UpdaterView {
            image: self.io.image(),
            reliable: self.io.reliable(),
            limit: self.io.limit(),
            durable: self.io.durable(),
            log: self.io.log(),
            chunk_size: self.chunk_size,
            index: self.index@,
            size: self.uncompressed_size,
            cursor: self.write_cursor,
            head: match self.head_cache {
                Some((bytes, verbatim, rawlen)) => Some((bytes@, verbatim, rawlen)),
                None => None,
            },
            seq: self.active_seq,
            inactive_off: self.inactive_off,
            committed_index: self.committed_index,
            committed_head: self.committed_head_cache,
            journal_offset: self.journal_offset,
            journal_len: self.journal_len,
            dirty: self.index_dirty,
        }
    }
}

/// The head cache that opening an archive loads.
pub open spec fn head_loaded(d: Seq<u8>, sb: SuperBlock) -> Option<(Seq<u8>, bool, u64)> {
    match sb.head_cache {
        None => None,
        Some(hc) => match reader::head_cache_bytes(d, sb.index_offset, hc) {
            None => None,
            Some(bytes) => Some((bytes, hc.verbatim, hc.rawlen)),
        },
    }
}

/// What an updater knows right after opening the version `v`.
pub open spec fn opened_view<W: BlockIo>(
    io: W,
    v: Version,
    head: Option<(Seq<u8>, bool, u64)>,
) -> UpdaterView {
    UpdaterView {
        image: io.image(),
        reliable: io.reliable(),
        limit: io.limit(),
        durable: io.durable(),
        log: io.log(),
        chunk_size: v.sb.chunk_size,
        index: v.index,
        size: v.sb.uncompressed_size,
        cursor: io.image().len() as u64,
        head,
        seq: v.sb.seq,
        inactive_off: other_slot(v.off),
        committed_index: (v.sb.index_offset, v.sb.index_len, v.sb.index_crc),
        committed_head: v.sb.head_cache,
        journal_offset: if v.sb.tail_journal_len > 0 {
            Some(v.sb.tail_journal_offset)
        } else {
            None
        },
        journal_len: v.sb.tail_journal_len,
        dirty: false,
    }
}

impl<W: BlockIo> ArchiveUpdater<W> {
    /// Opens the archive on a device for updating: the version that its slots leave, with the
    /// cursor at the end of the device.
    pub fn from_io(io: W) -> (r: Result<Self, ArchiveError>)
        ensures
            match r {
                Ok(up) => {
                    &&& reader::opened(io.image()) is Some
                    &&& up@ == opened_view(io, reader::opened(io.image())->0, up@.head)
                    &&& up@.head == head_loaded(io.image(), reader::opened(io.image())->0.sb) || (
                    up@.head is None && !io.reliable())
                    &&& up@.wf()
                    &&& up@.active() == reader::opened(io.image())->0
                },
                Err(e) => match e {
                    ArchiveError::Io(_) => !io.reliable(),
                    ArchiveError::TooSmall => io.image().len() < DATA_START,
                    ArchiveError::NotUpdatable => io.image().len() >= DATA_START && !(
                    reader::header_magic_ok(io.image()) && reader::header_version(io.image())
                        == VERSION),
                    ArchiveError::NoUsableSlot => {
                        &&& io.image().len() >= DATA_START
                        &&& reader::header_magic_ok(io.image())
                        &&& reader::header_version(io.image()) == VERSION
                        &&& reader::recovered(io.image()) is None
                    },
                    _ => false,
                },
            },
    {
        let total_len: u64 = match io.len() {
            Ok(n) => n,
            Err(e) => {
                return Err(ArchiveError::Io(e));
            },
        };
        if total_len < DATA_START {
            return Err(ArchiveError::TooSmall);
        }
        let header: Vec<u8> = match io.read_at(0, HEADER_LEN) {
            Ok(bytes) => bytes,
            Err(e) => {
                return Err(ArchiveError::Io(e));
            },
        };
        let magic: Vec<u8> = wire::copy_range(&header, 0, 8);
        assert(magic@ =~= io.image().subrange(0, 8));
        let version: u32 = wire::get_u32(&header, 8);
        assert(version == reader::header_version(io.image())) by {
            reveal(wire::u32_at);
        }
        if !wire::same_bytes(&magic, &MAGIC) || version != VERSION {
            return Err(ArchiveError::NotUpdatable);
        }
        let (sb, active_off, index) = match reader::load_active(&io, total_len) {
            Ok(found) => found,
            Err(e) => {
                return Err(e);
            },
        };
        let footer: Footer = reader::footer_from_sb(&sb);
        let head_cache: Option<(Vec<u8>, bool, u64)> = match sb.head_cache {
            Some(hc) => match reader::read_head_cache_bytes(&io, &footer, hc) {
                Some(bytes) => Some((bytes, hc.verbatim, hc.rawlen)),
                None => None,
            },
            None => None,
        };
        let inactive_off: u64 = if active_off == SB_A_OFFSET { SB_B_OFFSET } else { SB_A_OFFSET };
        let journal_offset: Option<u64> = if sb.tail_journal_len > 0 {
            Some(sb.tail_journal_offset)
        } else {
            None
        };
        let up: ArchiveUpdater<W> = ArchiveUpdater {
            io,
            chunk_size: sb.chunk_size,
            index,
            uncompressed_size: sb.uncompressed_size,
            write_cursor: total_len,
            head_cache,
            active_seq: sb.seq,
            inactive_off,
            committed_index: (sb.index_offset, sb.index_len, sb.index_crc),
            committed_head_cache: sb.head_cache,
            journal_offset,
            journal_len: sb.tail_journal_len,
            index_dirty: false,
        };
        assert(reader::slot_version(up@.image, active_off) == reader::recovered(up@.image));
        Ok(up)
    }

    fn flip_active(&mut self, new_seq: u64)
        ensures
            final(self)@ == (UpdaterView {
                seq: new_seq,
                inactive_off: other_slot(old(self)@.inactive_off),
                ..old(self)@
            }),
    {
        self.active_seq = new_seq;
        self.inactive_off = if self.inactive_off == SB_A_OFFSET { SB_B_OFFSET } else { SB_A_OFFSET };
    }

    /// Commits the journal alone: the index and the head cache in use stay, the superblock gets
    /// the new logical length and the new extent of the journal. The superblock is written between
    /// two barriers, and nothing else is.
    ///
    /// On failure the version in use is the one from before the call, and the updater goes on
    /// from there.
    pub fn commit_journal(&mut self) -> (r: Result<(), ArchiveError>)
        requires
            old(self)@.wf(),
            !old(self)@.dirty,
            old(self)@.seq < u64::MAX,
        ensures
            final(self)@.wf(),
            keeps(
                old(self)@.image,
                final(self)@.image,
                old(self)@.active_off(),
                old(self)@.cursor as int,
            ),
            match r {
                Ok(_) => {
                    let sb = old(self)@.next_journal_sb();
                    &&& final(self)@ == old(self)@.journal_committed()
                    &&& reader::opened(final(self)@.image) == Some(
                        Version { sb, off: old(self)@.inactive_off, index: old(self)@.index },
                    )
                    &&& final(self)@.active() == reader::opened(final(self)@.image)->0
                    &&& final(self)@.settled()
                    &&& reader::tail_of(final(self)@.image, sb) == old(self)@.tail()
                },
                Err(e) => {
                    &&& e is Io
                    &&& !old(self)@.reliable || old(self)@.limit < DATA_START
                    &&& final(self)@ == (UpdaterView {
                        image: final(self)@.image,
                        durable: final(self)@.durable,
                        log: final(self)@.log,
                        ..old(self)@
                    })
                    &&& final(self)@.stopped_within(
                        old(self)@,
                        old(self)@.journal_commit_steps(),
                        e,
                    )
                    &&& final(self)@.active() == old(self)@.active()
                },
            },
    {
        let ghost v = self@;
        let ghost steps = v.journal_commit_steps();
        proof {
            blockio::calls_add_up(v.log, steps, 0);
            blockio::calls_add_up(v.log, steps, 1);
            blockio::calls_add_up(v.log, steps, 2);
        }
        if let Err(e) = self.io.sync() {
            return Err(ArchiveError::Io(e));
        }
        let new_seq: u64 = self.active_seq + 1;
        let tail_journal_offset: u64 = match self.journal_offset {
            Some(o) => o,
            None => 0,
        };
        let sb: SuperBlock = SuperBlock {
            seq: new_seq,
            chunk_size: self.chunk_size,
            uncompressed_size: self.uncompressed_size,
            chunk_count: self.index.len() as u64,
            index_offset: self.committed_index.0,
            index_len: self.committed_index.1,
            index_crc: self.committed_index.2,
            tail_journal_offset,
            tail_journal_len: self.journal_len,
            head_cache: self.committed_head_cache,
        };
        let slot: [u8; 128] = superblock::serialize_superblock(&sb);
        let write: Result<(), IoError> = self.io.write_at(self.inactive_off, &slot);
        proof {
            written_differs(v.image, v.inactive_off as int, slot@);
            version_is_kept(v.image, self.io.image(), v.active_off(), v.cursor as int);
            header_is_kept(v.image, self.io.image());
        }
        if let Err(e) = write {
            return Err(ArchiveError::Io(e));
        }
        if let Err(e) = self.io.sync() {
            return Err(ArchiveError::Io(e));
        }
        proof {
            let d = self.io.image();
            assert(reader::index_area(d, sb) =~= reader::index_area(v.image, v.active().sb));
            committed_version(v, d, sb, v.index);
            assert(reader::slot(d, v.active_off()) == reader::slot(v.image, v.active_off()));
            if v.journal_len > 0 {
                assert(d.subrange(v.journal_offset->0 as int, v.journal_offset->0 + v.journal_len)
                    =~= v.image.subrange(
                    v.journal_offset->0 as int,
                    v.journal_offset->0 + v.journal_len,
                ));
            }
        }
        self.flip_active(new_seq);
        Ok(())
    }

    /// Appends a journal record with the raw bytes that the tail grew by. Nothing is compressed
    /// and the index stays. The first record settles where the journal starts.
    ///
    /// The tail then reads as before with `raw_delta` behind it, provided the journal's records
    /// end where the cursor stands.
    pub fn append_journal(&mut self, raw_delta: &[u8]) -> (r: Result<(), ArchiveError>)
        requires
            old(self)@.wf(),
        ensures
            final(self)@.wf(),
            keeps(
                old(self)@.image,
                final(self)@.image,
                old(self)@.active_off(),
                old(self)@.cursor as int,
            ),
            final(self)@.active() == old(self)@.active(),
            old(self)@.settled() ==> final(self)@.settled() && reader::opened(final(self)@.image)
                == Some(old(self)@.active()),
            ({
                let rec = journal::journal_record(raw_delta@);
                match r {
                    Ok(_) => {
                        &&& final(self)@ == (UpdaterView {
                            durable: final(self)@.durable,
                            ..old(self)@.with_record(raw_delta@)
                        })
                        &&& old(self)@.cursor + rec.len() <= u64::MAX
                        &&& old(self)@.journal_continues() ==> {
                            &&& final(self)@.journal_continues()
                            &&& final(self)@.tail() == Some(
                                match old(self)@.tail() {
                                    Some(t) => t + raw_delta@,
                                    None => raw_delta@,
                                },
                            )
                        }
                    },
                    Err(e) => {
                        &&& e is Io
                        &&& !old(self)@.reliable || old(self)@.cursor + rec.len() > old(self)@.limit
                        &&& final(self)@ == (UpdaterView {
                            image: final(self)@.image,
                            journal_offset: Some(old(self)@.journal_start()),
                            durable: final(self)@.durable,
                            log: old(self)@.log.push(
                                IoCall {
                                    step: IoStep::Write(old(self)@.cursor, rec),
                                    failure: Some(e->Io_0),
                                },
                            ),
                            ..old(self)@
                        })
                    },
                }
            }),
    {
        let ghost v = self@;
        let delta_len: usize = raw_delta.len();
        let rec: Vec<u8> = journal::serialize_journal_record(raw_delta);
        if self.journal_offset.is_none() {
            self.journal_offset = Some(self.write_cursor);
        }
        let write: Result<(), IoError> = self.io.write_at(self.write_cursor, &rec);
        proof {
            written_differs(v.image, v.cursor as int, rec@);
            version_is_kept(v.image, self.io.image(), v.active_off(), v.cursor as int);
            header_is_kept(v.image, self.io.image());
            assert(self.io.image().subrange(v.inactive_off as int, v.inactive_off + SB_LEN)
                =~= v.image.subrange(v.inactive_off as int, v.inactive_off + SB_LEN));
            journal::record_replays(raw_delta@);
        }
        if let Err(e) = write {
            return Err(ArchiveError::Io(e));
        }
        self.write_cursor = self.write_cursor + rec.len() as u64;
        self.journal_len = self.journal_len + rec.len() as u64;
        proof {
            if v.journal_continues() {
                let d = self.io.image();
                let o = self.journal_offset->0;
                if v.journal_len > 0 {
                    let before = v.image.subrange(o as int, v.cursor as int);
                    journal::journal_concatenates(before, rec@);
                    assert(d.subrange(o as int, self.write_cursor as int) =~= before + rec@);
                } else {
                    assert(d.subrange(o as int, self.write_cursor as int) =~= rec@);
                }
            }
        }
        Ok(())
    }

    /// Forgets the journal, once its bytes are sealed in a chunk. The records stay in the file
    /// and nothing points to them.
    pub fn reset_journal(&mut self)
        requires
            old(self)@.wf(),
        ensures
            final(self)@.wf(),
            final(self)@ == (UpdaterView { journal_offset: None, journal_len: 0, ..old(self)@ }),
    {
        self.journal_offset = None;
        self.journal_len = 0;
    }

    /// Sets the logical length of the file, which the journal can grow past the chunks.
    pub fn set_size(&mut self, new_size: u64)
        requires
            old(self)@.wf(),
        ensures
            final(self)@.wf(),
            final(self)@ == (UpdaterView { size: new_size, ..old(self)@ }),
    {
        self.uncompressed_size = new_size;
    }

    /// Sets the head cache of the next commit.
    pub fn set_head_cache(&mut self, stored_bytes: Vec<u8>, verbatim: bool, raw_len: u64)
        requires
            old(self)@.wf(),
        ensures
            final(self)@.wf(),
            final(self)@ == (UpdaterView {
                head: Some((stored_bytes@, verbatim, raw_len)),
                ..old(self)@
            }),
    {
        self.head_cache = Some((stored_bytes, verbatim, raw_len));
    }

    /// Drops the head cache, where the first chunk changed and no new one is at hand.
    pub fn clear_head_cache(&mut self)
        requires
            old(self)@.wf(),
        ensures
            final(self)@.wf(),
            final(self)@ == (UpdaterView { head: None, committed_head: None, ..old(self)@ }),
    {
        self.head_cache = None;
        self.committed_head_cache = None;
    }

    /// Length of the prefix that the head cache covers; zero where there is none.
    pub fn head_cache_rawlen(&self) -> (n: u64)
        ensures
            n == (match self@.head {
                Some((_, _, rawlen)) => rawlen,
                None => 0,
            }),
    {
        match &self.head_cache {
            Some((_, _, rawlen)) => *rawlen,
            None => 0,
        }
    }

    /// Number of chunks.
    pub fn chunk_count(&self) -> (n: u64)
        ensures
            n == self@.index.len(),
    {
        self.index.len() as u64
    }

    /// Logical chunk size.
    pub fn chunk_size(&self) -> (n: u32)
        ensures
            n == self@.chunk_size,
    {
        self.chunk_size
    }

    /// Logical length of the file.
    pub fn uncompressed_size(&self) -> (n: u64)
        ensures
            n == self@.size,
    {
        self.uncompressed_size
    }

    /// Drops the chunks from `keep_from` on and sets the logical length. A head cache that would
    /// reach past the new end goes too.
    pub fn truncate(&mut self, keep_from: u64, new_size: u64)
        requires
            old(self)@.wf(),
        ensures
            final(self)@.wf(),
            final(self)@ == old(self)@.truncated(keep_from, new_size),
    {
        let ghost v = self@;
        if keep_from < self.index.len() as u64 {
            self.index.truncate(keep_from as usize);
            assert forall|i: int| 0 <= i < keep_from implies DATA_START <= (
            #[trigger] self.index@[i]).offset && self.index@[i].offset + self.index@[i].clen
                <= v.cursor by {
                assert(self.index@[i] == v.index[i]);
            }
        }
        self.uncompressed_size = new_size;
        self.index_dirty = true;
        let rawlen: u64 = match &self.head_cache {
            Some((_, _, rawlen)) => *rawlen,
            None => match self.committed_head_cache {
                Some(h) => h.rawlen,
                None => 0,
            },
        };
        if rawlen > 0 && new_size < rawlen {
            self.head_cache = None;
            self.committed_head_cache = None;
        }
    }

    /// Barrier on the device: what was written before is durable once this succeeds. It changes
    /// nothing of the archive, and fails only where the device does.
    pub fn sync(&mut self) -> (r: Result<(), ArchiveError>)
        requires
            old(self)@.wf(),
        ensures
            final(self)@ == (UpdaterView {
                durable: final(self)@.durable,
                log: old(self)@.log.push(
                    IoCall {
                        step: IoStep::Sync,
                        failure: match r {
                            Ok(_) => None,
                            Err(e) => Some(e->Io_0),
                        },
                    },
                ),
                ..old(self)@
            }),
            match r {
                Ok(_) => final(self)@.durable,
                Err(e) => e is Io && !old(self)@.reliable,
            },
    {
        match self.io.sync() {
            Ok(_) => Ok(()),
            Err(e) => Err(ArchiveError::Io(e)),
        }
    }

    /// The device, once updating is over.
    pub fn into_io(self) -> (io: W)
        ensures
            io.image() == self@.image,
            io.reliable() == self@.reliable,
            io.limit() == self@.limit,
            io.durable() == self@.durable,
            io.log() == self@.log,
    {
        self.io
    }

    /// Commits everything: writes the head cache and the index at the end of the file, then, past
    /// a barrier, the superblock into the slot not in use, and ends with a second barrier. Each call
    /// on the device is made only if those before it succeeded.
    ///
    /// On success the archive opens to the new version: its index, its logical length, its head
    /// cache and its journal. On failure the version in use is the one from before the call.
    #[verifier::rlimit(60)]
    pub fn commit(&mut self) -> (r: Result<(), ArchiveError>)
        requires
            old(self)@.wf(),
            !(old(self)@.dirty && old(self)@.journal_len > 0),
            old(self)@.seq < u64::MAX,
        ensures
            final(self)@.wf(),
            keeps(
                old(self)@.image,
                final(self)@.image,
                old(self)@.active_off(),
                old(self)@.cursor as int,
            ),
            match r {
                Ok(_) => {
                    let v = old(self)@;
                    &&& final(self)@ == v.committed()
                    &&& v.next_cursor() <= u64::MAX
                    &&& reader::opened(final(self)@.image) == Some(
                        Version { sb: v.next_sb(), off: v.inactive_off, index: v.index },
                    )
                    &&& final(self)@.active() == reader::opened(final(self)@.image)->0
                    &&& final(self)@.settled()
                    &&& reader::tail_of(final(self)@.image, v.next_sb()) == v.tail()
                    &&& head_loaded(final(self)@.image, v.next_sb()) == v.head
                },
                Err(e) => {
                    let v = old(self)@;
                    &&& e is Io
                    &&& !v.reliable || v.next_cursor() > v.limit
                    &&& final(self)@.cursor >= v.cursor
                    &&& final(self)@ == (UpdaterView {
                        image: final(self)@.image,
                        cursor: final(self)@.cursor,
                        durable: final(self)@.durable,
                        log: final(self)@.log,
                        ..v
                    })
                    &&& final(self)@.stopped_within(v, v.commit_steps(), e)
                    &&& final(self)@.active() == v.active()
                },
            },
    {
        let ghost v = self@;
        let ghost steps = v.commit_steps();
        let ghost h: int = if v.head is Some { 1 } else { 0 };
        proof {
            if v.head is Some {
                blockio::calls_add_up(v.log, steps, 0);
            }
            blockio::calls_add_up(v.log, steps, h);
            blockio::calls_add_up(v.log, steps, h + 1);
            blockio::calls_add_up(v.log, steps, h + 2);
            blockio::calls_add_up(v.log, steps, h + 3);
        }
        let head_cache: Option<HeadCache> = match &self.head_cache {
            Some((bytes, verbatim, raw_len)) => {
                let offset: u64 = self.write_cursor;
                let write: Result<(), IoError> = self.io.write_at(offset, bytes);
                proof {
                    written_differs(v.image, v.cursor as int, bytes@);
                    version_is_kept(v.image, self.io.image(), v.active_off(), v.cursor as int);
                    header_is_kept(v.image, self.io.image());
                }
                if let Err(e) = write {
                    return Err(ArchiveError::Io(e));
                }
                self.write_cursor = offset + bytes.len() as u64;
                Some(
                    HeadCache {
                        offset,
                        clen: bytes.len() as u64,
                        rawlen: *raw_len,
                        verbatim: *verbatim,
                    },
                )
            },
            None => None,
        };
        let ghost d1 = self.io.image();
        let index_offset: u64 = self.write_cursor;
        let index_bytes: Vec<u8> = reader::serialize_index(&self.index);
        let index_crc: u32 = wire::crc32(&index_bytes);
        let write: Result<(), IoError> = self.io.write_at(index_offset, &index_bytes);
        proof {
            assert(index_offset == v.next_index_offset());
            written_differs(d1, index_offset as int, index_bytes@);
            version_is_kept(v.image, self.io.image(), v.active_off(), v.cursor as int);
            header_is_kept(v.image, self.io.image());
        }
        if let Err(e) = write {
            return Err(ArchiveError::Io(e));
        }
        let ghost d2 = self.io.image();
        self.write_cursor = index_offset + index_bytes.len() as u64;
        if let Err(e) = self.io.sync() {
            return Err(ArchiveError::Io(e));
        }
        let new_seq: u64 = self.active_seq + 1;
        let tail_journal_offset: u64 = match self.journal_offset {
            Some(o) => o,
            None => 0,
        };
        let sb: SuperBlock = SuperBlock {
            seq: new_seq,
            chunk_size: self.chunk_size,
            uncompressed_size: self.uncompressed_size,
            chunk_count: self.index.len() as u64,
            index_offset,
            index_len: index_bytes.len() as u64,
            index_crc,
            tail_journal_offset,
            tail_journal_len: self.journal_len,
            head_cache,
        };
        assert(sb == v.next_sb());
        let slot: [u8; 128] = superblock::serialize_superblock(&sb);
        let write: Result<(), IoError> = self.io.write_at(self.inactive_off, &slot);
        proof {
            written_differs(d2, v.inactive_off as int, slot@);
            version_is_kept(v.image, self.io.image(), v.active_off(), v.cursor as int);
            header_is_kept(v.image, self.io.image());
        }
        if let Err(e) = write {
            return Err(ArchiveError::Io(e));
        }
        if let Err(e) = self.io.sync() {
            return Err(ArchiveError::Io(e));
        }
        proof {
            assert(self.io.image() == v.commit_image());
            commit_lands(v);
        }
        self.committed_index = (index_offset, index_bytes.len() as u64, index_crc);
        self.committed_head_cache = head_cache;
        self.index_dirty = false;
        self.flip_active(new_seq);
        Ok(())
    }

    /// Writes chunk `idx` at the end of the file and points the index to it. Chunks missing
    /// before it are filled with zeros. What the index pointed to before stays where it was.
    ///
    /// A failure leaves the index as it was, up to zero chunks already written behind it.
    pub fn set_block(
        &mut self,
        idx: u64,
        stored_bytes: &[u8],
        verbatim: bool,
        new_size: u64,
    ) -> (r: Result<(), ArchiveError>)
        requires
            old(self)@.wf(),
        ensures
            final(self)@.wf(),
            final(self)@.cursor >= old(self)@.cursor,
            forall|i: int|
                0 <= i < old(self)@.cursor ==> final(self)@.image[i] == old(self)@.image[i],
            final(self)@.active() == old(self)@.active(),
            old(self)@.settled() ==> final(self)@.settled() && reader::opened(final(self)@.image)
                == Some(old(self)@.active()),
            match r {
                Ok(_) => {
                    &&& old(self)@.chunk_offset(idx) + stored_bytes@.len() <= u64::MAX
                    &&& final(self)@ == (UpdaterView {
                        durable: final(self)@.durable,
                        ..old(self)@.with_block(idx, stored_bytes@, verbatim, new_size)
                    })
                },
                Err(e) => {
                    &&& e is Io
                    &&& !old(self)@.reliable || old(self)@.chunk_offset(idx) + stored_bytes@.len()
                        > old(self)@.limit
                    &&& exists|n: nat|
                        {
                            &&& n <= old(self)@.gap(idx)
                            &&& final(self)@.index == #[trigger] old(self)@.padded(n)
                            &&& final(self)@ == (UpdaterView {
                                image: final(self)@.image,
                                index: final(self)@.index,
                                cursor: (old(self)@.cursor + n * old(self)@.chunk_size) as u64,
                                dirty: old(self)@.dirty || n > 0,
                                durable: final(self)@.durable,
                                log: old(self)@.log + blockio::done_but_last(
                                    old(self)@.block_steps(idx, stored_bytes@),
                                    (n + 1) as int,
                                    e->Io_0,
                                ),
                                ..old(self)@
                            })
                        }
                },
            },
    {
        let ghost v = self@;
        let ghost gap = v.gap(idx);
        let ghost cs = v.chunk_size as int;
        let ghost mut k: nat = 0;
        let ghost steps = v.block_steps(idx, stored_bytes@);
        assert(v.log + blockio::done(steps.subrange(0, 0)) =~= v.log);
        assert(v.padded(0) =~= v.index);
        assert(zeros(0nat * v.chunk_size as nat) =~= Seq::<u8>::empty());
        assert(v.padded_image(0) =~= v.image);
        if (self.index.len() as u64) < idx {
            let zero_chunk: Vec<u8> = vec![0u8; self.chunk_size as usize];
            assert(zero_chunk@ =~= zeros(v.chunk_size as nat));
            let zero_crc: u32 = wire::crc32(&zero_chunk);
            while (self.index.len() as u64) < idx
                invariant
                    v == old(self)@,
                    v.wf(),
                    self@.wf(),
                    gap == v.gap(idx),
                    cs == v.chunk_size,
                    v.index.len() < idx,
                    k <= gap,
                    self@.index.len() == v.index.len() + k,
                    zero_chunk@ == zeros(v.chunk_size as nat),
                    zero_crc == wire::crc32_of(zero_chunk@),
                    v.cursor + k * cs <= u64::MAX,
                    self@ == (UpdaterView {
                        image: v.padded_image(k),
                        index: v.padded(k),
                        cursor: (v.cursor + k * cs) as u64,
                        dirty: v.dirty || k > 0,
                        durable: self@.durable,
                        log: v.log + blockio::done(steps.subrange(0, k as int)),
                        ..v
                    }),
                    steps == v.block_steps(idx, stored_bytes@),
                decreases idx - self@.index.len(),
            {
                let ghost before = self@;
                let offset: u64 = self.write_cursor;
                let write: Result<(), IoError> = self.io.write_at(offset, &zero_chunk);
                proof {
                    assert(k * cs >= 0 && (k + 1) * cs == k * cs + cs && (k + 1) * cs <= gap * cs)
                        by (nonlinear_arith)
                        requires
                            0 <= k,
                            k + 1 <= gap,
                            cs >= 0,
                    ;
                    written_differs(before.image, offset as int, zero_chunk@);
                    version_is_kept(
                        before.image,
                        self.io.image(),
                        v.active_off(),
                        before.cursor as int,
                    );
                    header_is_kept(before.image, self.io.image());
                    kept_below(v, before.image, k);
                    write_above_keeps(v, before.image, self.io.image(), before.cursor as int);
                    assert(steps[k as int] == IoStep::Write(offset, zero_chunk@));
                    blockio::calls_add_up(v.log, steps, k as int);
                }
                if let Err(e) = write {
                    return Err(ArchiveError::Io(e));
                }
                self.write_cursor = offset + zero_chunk.len() as u64;
                self.index_dirty = true;
                self.index.push(
                    ChunkEntry {
                        offset,
                        clen: zero_chunk.len() as u64,
                        flags: FLAG_VERBATIM,
                        block_crc: zero_crc,
                    },
                );
                proof {
                    assert(self.index@ =~= v.padded(k + 1));
                    assert(zeros((k + 1) * v.chunk_size as nat).len() == k * cs + cs);
                    assert(self.io.image() =~= v.padded_image(k + 1));
                    k = k + 1;
                }
            }
        }
        let ghost before = self@;
        let offset: u64 = self.write_cursor;
        let write: Result<(), IoError> = self.io.write_at(offset, stored_bytes);
        proof {
            assert(k == gap);
            assert(gap * cs >= 0) by (nonlinear_arith)
                requires
                    gap >= 0,
                    cs >= 0,
            ;
            written_differs(before.image, offset as int, stored_bytes@);
            version_is_kept(before.image, self.io.image(), v.active_off(), before.cursor as int);
            header_is_kept(before.image, self.io.image());
            kept_below(v, before.image, k);
            write_above_keeps(v, before.image, self.io.image(), before.cursor as int);
            assert(steps[k as int] == IoStep::Write(offset, stored_bytes@));
            blockio::calls_add_up(v.log, steps, k as int);
        }
        if let Err(e) = write {
            return Err(ArchiveError::Io(e));
        }
        self.write_cursor = offset + stored_bytes.len() as u64;
        let entry: ChunkEntry = ChunkEntry {
            offset,
            clen: stored_bytes.len() as u64,
            flags: if verbatim { FLAG_VERBATIM } else { 0 },
            block_crc: wire::crc32(stored_bytes),
        };
        if idx == self.index.len() as u64 {
            self.index.push(entry);
        } else {
            self.index.set(idx as usize, entry);
        }
        self.uncompressed_size = new_size;
        self.index_dirty = true;
        Ok(())
    }
}

/// A commit is one version newer and tells what the updater had: the chunk size, the logical length,
/// the chunks, the journal and the head cache. A journal commit tells the logical length and the
/// journal, and keeps the index and the head cache of the version in use.
pub proof fn commit_is_one_version_newer(v: UpdaterView)
    requires
        v.wf(),
        v.seq < u64::MAX,
        v.next_cursor() <= u64::MAX,
    ensures
        reader::opened(v.commit_image()) matches Some(ver) && {
            &&& ver.sb.seq == v.active().sb.seq + 1
            &&& ver.sb.chunk_size == v.chunk_size
            &&& ver.sb.uncompressed_size == v.size
            &&& ver.index == v.index
            &&& ver.sb.chunk_count == v.index.len()
            &&& ver.off != v.active_off()
            &&& ver.sb.tail_journal_len == v.journal_len
            &&& v.journal_offset matches Some(o) ==> ver.sb.tail_journal_offset == o
            &&& v.journal_offset is None ==> ver.sb.tail_journal_offset == 0
            &&& ver.sb.head_cache is None <==> v.head is None
            &&& v.head matches Some((bytes, verbatim, rawlen)) ==> {
                &&& ver.sb.head_cache->0.rawlen == rawlen
                &&& ver.sb.head_cache->0.verbatim == verbatim
                &&& ver.sb.head_cache->0.clen == bytes.len()
            }
        },
        v.next_journal_sb().seq == v.active().sb.seq + 1,
        v.next_journal_sb().uncompressed_size == v.size,
        v.next_journal_sb().chunk_size == v.active().sb.chunk_size,
        v.next_journal_sb().index_offset == v.active().sb.index_offset,
        v.next_journal_sb().index_len == v.active().sb.index_len,
        v.next_journal_sb().index_crc == v.active().sb.index_crc,
        v.next_journal_sb().tail_journal_len == v.journal_len,
        v.journal_offset matches Some(o) ==> v.next_journal_sb().tail_journal_offset == o,
        v.journal_offset is None ==> v.next_journal_sb().tail_journal_offset == 0,
        v.next_journal_sb().chunk_count == v.index.len(),
        v.next_journal_sb().head_cache == v.committed_head,
{
    commit_lands(v);
}

/// Chunks below the cut stay as they were and none behind it stays; a head cache that reaches past
/// the new end goes, and another stays.
pub proof fn truncating_keeps_what_lies_below(v: UpdaterView, keep_from: u64, size: u64, i: int)
    ensures
        ({
            let w = v.truncated(keep_from, size);
            &&& w.size == size
            &&& w.index.len() <= v.index.len()
            &&& v.index.len() <= keep_from ==> w.index == v.index
            &&& keep_from < v.index.len() ==> w.index.len() == keep_from
            &&& 0 <= i < w.index.len() ==> w.index[i] == v.index[i]
            &&& w.image == v.image && w.cursor == v.cursor && w.dirty
            &&& v.head matches Some((_, _, rawlen)) ==> (w.head is None <==> size < rawlen)
            &&& v.head matches Some((_, _, rawlen)) ==> (size >= rawlen ==> w.head == v.head
                && w.committed_head == v.committed_head)
            &&& w.head is Some ==> v.head is Some
        }),
{
}

/// Writing a chunk sets the logical length, marks the index as changed, and leaves the head cache,
/// the journal and the version in use.
pub proof fn writing_a_chunk_sets_the_length(
    v: UpdaterView,
    idx: u64,
    bytes: Seq<u8>,
    verbatim: bool,
    size: u64,
)
    requires
        v.wf(),
        v.chunk_offset(idx) + bytes.len() <= u64::MAX,
    ensures
        ({
            let w = v.with_block(idx, bytes, verbatim, size);
            &&& w.size == size
            &&& w.dirty
            &&& w.index.len() == (if idx < v.index.len() {
                v.index.len() as int
            } else {
                idx + 1
            })
            &&& w.cursor >= v.cursor + bytes.len()
            &&& w.seq == v.seq && w.inactive_off == v.inactive_off && w.head == v.head
            &&& w.journal_len == v.journal_len && w.journal_offset == v.journal_offset
            &&& w.committed_head == v.committed_head && w.committed_index == v.committed_index
        }),
{
    assert(v.gap(idx) * v.chunk_size >= 0) by (nonlinear_arith);
}

/// A head cache that would reach past the new end goes, whether it was given since the last commit or
/// stands in the version in use; one that does not stays.
pub proof fn head_cache_goes_where_it_would_reach_too_far(
    v: UpdaterView,
    keep_from: u64,
    size: u64,
)
    ensures
        ({
            let w = v.truncated(keep_from, size);
            let rawlen: u64 = match (v.head, v.committed_head) {
                (Some((_, _, n)), _) => n,
                (None, Some(h)) => h.rawlen,
                (None, None) => 0,
            };
            &&& size < rawlen ==> w.head is None && w.committed_head is None
            &&& size >= rawlen ==> w.head == v.head && w.committed_head == v.committed_head
            &&& w.journal_len == v.journal_len && w.journal_offset == v.journal_offset
            &&& w.seq == v.seq && w.inactive_off == v.inactive_off && w.committed_index
                == v.committed_index
        }),
{
}

/// After a commit nothing waits for one: the index is that of the version in use, all that was written
/// survives a crash, and the head cache and the journal are those that were committed.
pub proof fn committed_updater_has_nothing_left(v: UpdaterView)
    ensures
        ({
            let w = v.committed();
            &&& !w.dirty
            &&& w.durable
            &&& w.index == v.index && w.size == v.size && w.chunk_size == v.chunk_size
            &&& w.head == v.head
            &&& w.journal_len == v.journal_len && w.journal_offset == v.journal_offset
            &&& v.head is None ==> w.committed_head is None
            &&& v.head matches Some((bytes, verbatim, rawlen)) ==> (w.committed_head matches Some(
                h,
            ) && h.offset == v.cursor && h.rawlen == rawlen && h.verbatim == verbatim)
        }),
        ({
            let w = v.journal_committed();
            &&& w.dirty == v.dirty
            &&& w.durable
            &&& w.index == v.index && w.size == v.size && w.cursor == v.cursor
            &&& w.head == v.head && w.committed_head == v.committed_head
            &&& w.committed_index == v.committed_index
            &&& w.journal_len == v.journal_len && w.journal_offset == v.journal_offset
        }),
{
}

/// A journal record goes to the end of the file, behind the records before it or as the first of a new
/// journal, and leaves the index as it is.
pub proof fn record_goes_to_the_end(v: UpdaterView, delta: Seq<u8>)
    requires
        v.cursor + delta.len() + 12 <= u64::MAX,
        v.journal_len + delta.len() + 12 <= u64::MAX,
    ensures
        ({
            let w = v.with_record(delta);
            &&& w.cursor == v.cursor + 12 + delta.len()
            &&& w.journal_len == v.journal_len + 12 + delta.len()
            &&& v.journal_offset is None ==> w.journal_offset == Some(v.cursor)
            &&& v.journal_offset is Some ==> w.journal_offset == v.journal_offset
            &&& w.index == v.index && w.size == v.size && w.dirty == v.dirty && w.seq == v.seq
            &&& w.head == v.head && w.committed_head == v.committed_head
        }),
{
    journal::record_has_its_layout(delta);
}

/// A commit that stopped made its calls in their order up to one that failed, and none behind it; what
/// lies below the cursor is untouched unless the barrier before the slot was passed.
pub proof fn stopped_commit_made_its_first_calls(
    w: UpdaterView,
    before: UpdaterView,
    steps: Seq<IoStep>,
    e: ArchiveError,
    k: int,
)
    requires
        w.stopped_within(before, steps, e),
    ensures
        ({
            let n = w.log.len() - before.log.len();
            let at = before.log.len() as int;
            &&& 0 < n <= steps.len()
            &&& e is Io
            &&& 0 <= k < before.log.len() ==> w.log[k] == before.log[k]
            &&& 0 <= k < n - 1 ==> w.log[at + k] == (IoCall { step: steps[k], failure: None })
            &&& w.log.last() == (IoCall { step: steps[n - 1], failure: Some(e->Io_0) })
            &&& n + 2 <= steps.len() && 0 <= k < before.cursor ==> w.image[k] == before.image[k]
        }),
{
}

} // verus!
