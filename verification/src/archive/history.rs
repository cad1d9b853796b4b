//! What a whole history of changes to an archive leaves: every chunk as it was last written, also
//! once the archive was committed and opened again.
use vstd::prelude::*;

use super::journal;
use super::reader;
use super::superblock;
use super::updater;
use super::updater::UpdaterView;
use crate::blockio;
use crate::blockio::{BlockIo, IoStep};

verus! {

/// A call on an updater that succeeded.
pub enum Edit {
    /// Chunk, stored bytes, whether they are raw, logical length.
    SetBlock(u64, Seq<u8>, bool, u64),
    /// First chunk that goes, logical length.
    Truncate(u64, u64),
    SetSize(u64),
    SetHead(Seq<u8>, bool, u64),
    ClearHead,
    /// Raw bytes of a journal record.
    Append(Seq<u8>),
    ResetJournal,
    Commit,
    CommitJournal,
    Sync,
}

/// Whether a call was allowed and fits the machine's numbers.
pub open spec fn fits(v: UpdaterView, e: Edit) -> bool {
    match e {
        Edit::SetBlock(idx, bytes, _, _) => v.chunk_offset(idx) + bytes.len() <= u64::MAX,
        Edit::Append(delta) => v.cursor + journal::journal_record(delta).len() <= u64::MAX,
        Edit::Commit => {
            &&& !(v.dirty && v.journal_len > 0)
            &&& v.seq < u64::MAX
            &&& v.next_cursor() <= u64::MAX
        },
        Edit::CommitJournal => !v.dirty && v.seq < u64::MAX,
        _ => true,
    }
}

/// The updater's state after a call; whether it is durable is left as it was where the call does
/// not say.
pub open spec fn edited(v: UpdaterView, e: Edit) -> UpdaterView {
    match e {
        Edit::SetBlock(idx, bytes, verbatim, size) => v.with_block(idx, bytes, verbatim, size),
        Edit::Truncate(keep_from, size) => v.truncated(keep_from, size),
        Edit::SetSize(size) => UpdaterView { size, ..v },
        Edit::SetHead(bytes, verbatim, rawlen) => UpdaterView {
            head: Some((bytes, verbatim, rawlen)),
            ..v
        },
        Edit::ClearHead => UpdaterView { head: None, committed_head: None, ..v },
        Edit::Append(delta) => v.with_record(delta),
        Edit::ResetJournal => UpdaterView { journal_offset: None, journal_len: 0, ..v },
        Edit::Commit => v.committed(),
        Edit::CommitJournal => v.journal_committed(),
        Edit::Sync => UpdaterView { log: v.log + blockio::done(seq![IoStep::Sync]), ..v },
    }
}

/// Whether `vs` are the states of an updater before and after each of the calls, all of which
/// succeeded.
pub open spec fn history(vs: Seq<UpdaterView>, es: Seq<Edit>) -> bool {
    &&& vs.len() == es.len() + 1
    &&& forall|k: int| 0 <= k < vs.len() ==> (#[trigger] vs[k]).wf()
    &&& forall|k: int|
        0 <= k < es.len() ==> fits(vs[k], #[trigger] es[k]) && vs[k + 1] == (UpdaterView {
            durable: vs[k + 1].durable,
            ..edited(vs[k], es[k])
        })
}

/// The stored bytes of a chunk, and whether they are raw.
pub open spec fn chunk(v: UpdaterView, i: int) -> (Seq<u8>, bool) {
    (reader::stored(v.image, v.index[i]), v.index[i].verbatim())
}

/// Whether a call writes or drops chunk `i`.
pub open spec fn concerns(e: Edit, i: int) -> bool {
    match e {
        Edit::SetBlock(idx, _, _, _) => idx == i,
        Edit::Truncate(keep_from, _) => keep_from <= i,
        _ => false,
    }
}

proof fn edit_keeps_chunk(v: UpdaterView, e: Edit, i: int)
    requires
        v.wf(),
        fits(v, e),
        0 <= i < v.index.len(),
        !concerns(e, i),
    ensures
        i < edited(v, e).index.len(),
        chunk(edited(v, e), i) == chunk(v, i),
{
    let w = edited(v, e);
    let entry = v.index[i];
    match e {
        Edit::SetBlock(idx, bytes, verbatim, size) => {
            updater::block_reads_back(v, idx, bytes, verbatim, size);
            assert(w.index[i] == v.index[i]);
        },
        Edit::Commit => {
            updater::commit_keeps_data(v);
            assert(reader::stored(w.image, entry) =~= reader::stored(v.image, entry));
        },
        Edit::CommitJournal => {
            superblock::sb_bytes_len(v.next_journal_sb());
            assert(reader::stored(w.image, entry) =~= reader::stored(v.image, entry));
        },
        _ => {
            assert(reader::stored(w.image, entry) =~= reader::stored(v.image, entry));
        },
    }
}

/// A chunk stays as it was as long as no call writes or drops it.
pub proof fn chunk_stays(vs: Seq<UpdaterView>, es: Seq<Edit>, from: int, to: int, i: int)
    requires
        history(vs, es),
        0 <= from <= to <= es.len(),
        0 <= i < vs[from].index.len(),
        forall|k: int| from <= k < to ==> !concerns(#[trigger] es[k], i),
    ensures
        i < vs[to].index.len(),
        chunk(vs[to], i) == chunk(vs[from], i),
    decreases to - from,
{
    if from < to {
        chunk_stays(vs, es, from, to - 1, i);
        assert(!concerns(es[to - 1], i));
        edit_keeps_chunk(vs[to - 1], es[to - 1], i);
        assert(vs[to - 1 + 1] == vs[to]);
    }
}

/// A chunk reads as it was last written: after call `k` wrote chunk `idx` and none since wrote or
/// dropped it, it holds the bytes given, raw or not as was said.
pub proof fn last_written_chunk_reads_back(vs: Seq<UpdaterView>, es: Seq<Edit>, k: int)
    requires
        history(vs, es),
        0 <= k < es.len(),
        es[k] is SetBlock,
        forall|j: int| k < j < es.len() ==> !concerns(#[trigger] es[j], es[k]->SetBlock_0 as int),
    ensures
        ({
            let last = vs[es.len() as int];
            let idx = es[k]->SetBlock_0 as int;
            &&& idx < last.index.len()
            &&& chunk(last, idx) == (es[k]->SetBlock_1, es[k]->SetBlock_2)
        }),
{
    match es[k] {
        Edit::SetBlock(idx, bytes, verbatim, size) => {
            updater::block_reads_back(vs[k], idx, bytes, verbatim, size);
            assert(chunk(vs[k + 1], idx as int) == (bytes, verbatim));
            chunk_stays(vs, es, k + 1, es.len() as int, idx as int);
        },
        _ => {},
    }
}

/// What was committed is what is opened: where the last call of a history is a commit, the archive
/// on a device that holds the same bytes opens, with the same chunks, chunk size, logical length and
/// head cache as the updater had, and every chunk holds what it held.
pub proof fn committed_history_reopens<W: BlockIo>(vs: Seq<UpdaterView>, es: Seq<Edit>, io: W)
    requires
        history(vs, es),
        es.len() > 0,
        es.last() is Commit,
        io.image() == vs.last().image,
    ensures
        ({
            let last = vs.last();
            let version = reader::opened(io.image());
            let again = updater::opened_view(
                io,
                version->0,
                updater::head_loaded(io.image(), version->0.sb),
            );
            &&& version is Some
            &&& again.index == last.index
            &&& again.chunk_size == last.chunk_size
            &&& again.size == last.size
            &&& again.head == last.head
            &&& forall|i: int|
                0 <= i < last.index.len() ==> #[trigger] chunk(again, i) == chunk(last, i)
        }),
{
    let k = es.len() - 1;
    assert(fits(vs[k], es[k]));
    assert(vs[k + 1] == vs.last());
    updater::commit_opens(vs[k]);
}

/// What was written is there when the archive is opened again: a chunk as it was last written in a
/// history that ends with a commit.
pub proof fn written_chunk_is_reopened<W: BlockIo>(
    vs: Seq<UpdaterView>,
    es: Seq<Edit>,
    k: int,
    io: W,
)
    requires
        history(vs, es),
        0 <= k < es.len(),
        es[k] is SetBlock,
        forall|j: int| k < j < es.len() ==> !concerns(#[trigger] es[j], es[k]->SetBlock_0 as int),
        es.last() is Commit,
        io.image() == vs.last().image,
    ensures
        ({
            let version = reader::opened(io.image());
            let idx = es[k]->SetBlock_0 as int;
            &&& version is Some
            &&& idx < version->0.index.len()
            &&& reader::stored(io.image(), version->0.index[idx]) == es[k]->SetBlock_1
            &&& version->0.index[idx].verbatim() == es[k]->SetBlock_2
        }),
{
    last_written_chunk_reads_back(vs, es, k);
    committed_history_reopens(vs, es, io);
}

/// What was there before and was neither written nor dropped is there when the archive is opened
/// again after a history that ends with a commit.
pub proof fn older_chunk_is_reopened<W: BlockIo>(
    vs: Seq<UpdaterView>,
    es: Seq<Edit>,
    i: int,
    io: W,
)
    requires
        history(vs, es),
        0 <= i < vs[0].index.len(),
        forall|j: int| 0 <= j < es.len() ==> !concerns(#[trigger] es[j], i),
        es.len() > 0,
        es.last() is Commit,
        io.image() == vs.last().image,
    ensures
        ({
            let version = reader::opened(io.image());
            &&& version is Some
            &&& i < version->0.index.len()
            &&& reader::stored(io.image(), version->0.index[i]) == chunk(vs[0], i).0
            &&& version->0.index[i].verbatim() == chunk(vs[0], i).1
        }),
{
    chunk_stays(vs, es, 0, es.len() as int, i);
    committed_history_reopens(vs, es, io);
}

} // verus!
