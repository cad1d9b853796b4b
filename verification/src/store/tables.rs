//! What a container's database holds, and what each operation does to it.
//!
//! An operation is decided here from what was read of the tables, and comes out as a list of
//! changes that the database then makes in one transaction.
use vstd::prelude::*;
use vstd::string::*;

use super::pending::{Pending, PendingView};
use super::row;
use super::row::InodeRow;
use super::types::{BlockView, StoreError, StoredBlock, Time};
use crate::archive::wire;
use crate::ordmap;
use crate::ordmap::{BlockKey, Key, OrdMap};
use crate::text;

verus! {

/// A change of the tables.
pub enum TableOp {
    /// Sets the row of a file.
    PutInode(u64, Vec<u8>),
    /// Removes the row of a file.
    DelInode(u64),
    /// Sets a directory entry.
    PutDirent(String, u64),
    /// Removes a directory entry.
    DelDirent(String),
    /// Sets a block.
    PutBlock(BlockKey, Vec<u8>),
    /// Removes the blocks of a file from a chunk on.
    DelBlocksFrom(u64, u64),
}

/// A change of the tables, as a mathematical value.
#[verifier::ext_equal]
pub enum OpView {
    PutInode(u64, Seq<u8>),
    DelInode(u64),
    PutDirent(Seq<char>, u64),
    DelDirent(Seq<char>),
    PutBlock(BlockKey, Seq<u8>),
    DelBlocksFrom(u64, u64),
}

impl View for TableOp {
    type V = OpView;

    open spec fn view(&self) -> OpView {
        match self {
            TableOp::PutInode(ino, b) => OpView::PutInode(*ino, b@),
            TableOp::DelInode(ino) => OpView::DelInode(*ino),
            TableOp::PutDirent(key, ino) => OpView::PutDirent(key@, *ino),
            TableOp::DelDirent(key) => OpView::DelDirent(key@),
            TableOp::PutBlock(k, b) => OpView::PutBlock(*k, b@),
            TableOp::DelBlocksFrom(ino, from) => OpView::DelBlocksFrom(*ino, *from),
        }
    }
}

/// The changes of a list.
pub open spec fn op_views(ops: Seq<TableOp>) -> Seq<OpView> {
    Seq::new(ops.len(), |i: int| ops[i]@)
}

/// What the tables hold.
#[verifier::ext_equal]
pub struct Tables {
    /// Rows by file.
    pub inodes: Map<u64, Seq<u8>>,
    /// Files by directory entry.
    pub dirents: Map<Seq<char>, u64>,
    /// Blocks.
    pub blocks: Map<BlockKey, Seq<u8>>,
}

impl Tables {
    /// The tables after a change.
    pub open spec fn after(&self, op: OpView) -> Tables {
        match op {
            OpView::PutInode(ino, b) => Tables { inodes: self.inodes.insert(ino, b), ..*self },
            OpView::DelInode(ino) => Tables { inodes: self.inodes.remove(ino), ..*self },
            OpView::PutDirent(key, ino) => Tables {
                dirents: self.dirents.insert(key, ino),
                ..*self
            },
            OpView::DelDirent(key) => Tables { dirents: self.dirents.remove(key), ..*self },
            OpView::PutBlock(k, b) => Tables { blocks: self.blocks.insert(k, b), ..*self },
            OpView::DelBlocksFrom(ino, from) => Tables {
                blocks: ordmap::without_tail(self.blocks, ino, from),
                ..*self
            },
        }
    }

    /// The tables after a list of changes.
    pub open spec fn after_all(&self, ops: Seq<OpView>) -> Tables
        decreases ops.len(),
    {
        if ops.len() == 0 {
            *self
        } else {
            self.after_all(ops.drop_last()).after(ops.last())
        }
    }

    /// Every block is one of a file that has a row.
    pub open spec fn no_orphans(&self) -> bool {
        forall|k: BlockKey| #[trigger]
            self.blocks.contains_key(k) ==> self.inodes.contains_key(k.ino)
    }

    /// Every directory entry leads to a file that has a row.
    pub open spec fn entries_lead_somewhere(&self) -> bool {
        forall|key: Seq<char>| #[trigger]
            self.dirents.contains_key(key) ==> self.inodes.contains_key(self.dirents[key])
    }
}

proof fn after_push(t: Tables, ops: Seq<OpView>, op: OpView)
    ensures
        t.after_all(ops.push(op)) == t.after_all(ops).after(op),
{
    assert(ops.push(op).drop_last() =~= ops);
}

proof fn views_push(ops: Seq<TableOp>, op: TableOp)
    ensures
        op_views(ops.push(op)) == op_views(ops).push(op@),
{
    assert(op_views(ops.push(op)) =~= op_views(ops).push(op@));
}

/// The stored form of a block: a byte that says whether it is raw, then its bytes.
pub open spec fn block_bytes(b: BlockView) -> Seq<u8> {
    seq![
        if b.verbatim {
            1u8
        } else {
            0u8
        },
    ] + b.bytes
}

/// The block that a stored form stands for.
pub open spec fn block_decoded(raw: Seq<u8>) -> BlockView {
    BlockView {
        bytes: if raw.len() > 0 {
            raw.subrange(1, raw.len() as int)
        } else {
            Seq::empty()
        },
        verbatim: raw.len() > 0 && raw[0] == 1,
    }
}

/// A block comes back as it was stored.
pub proof fn block_reads_back(b: BlockView)
    ensures
        block_decoded(block_bytes(b)) == b,
{
    assert(block_decoded(block_bytes(b)).bytes =~= b.bytes);
}

/// The stored form of a block.
pub fn encode_block(b: &StoredBlock) -> (raw: Vec<u8>)
    ensures
        raw@ == block_bytes(b@),
{
    let mut raw: Vec<u8> = Vec::new();
    raw.push(if b.stored_verbatim { 1 } else { 0 });
    raw.extend_from_slice(&b.bytes);
    assert(raw@ =~= block_bytes(b@));
    raw
}

/// The block that a stored form stands for.
pub fn decode_block(raw: &[u8]) -> (b: StoredBlock)
    ensures
        b@ == block_decoded(raw@),
{
    if raw.len() == 0 {
        let bytes: Vec<u8> = Vec::new();
        assert(bytes@ =~= Seq::empty());
        return StoredBlock { bytes, stored_verbatim: false };
    }
    StoredBlock { bytes: wire::copy_range(raw, 1, raw.len()), stored_verbatim: raw[0] == 1 }
}

/// The blocks that the tables hold.
pub open spec fn decoded_blocks(m: Map<BlockKey, Seq<u8>>) -> Map<BlockKey, BlockView> {
    Map::new(|k: BlockKey| m.contains_key(k), |k: BlockKey| block_decoded(m[k]))
}

/// The key of a directory entry.
pub open spec fn dirent(parent: u64, name: Seq<char>) -> Seq<char> {
    text::decimal(parent as nat) + seq!['/'] + name
}

/// The key of a directory entry.
pub fn dirent_key(parent: u64, name: &str) -> (key: String)
    ensures
        key@ == dirent(parent, name@),
{
    let mut key: String = String::new();
    text::push_decimal(&mut key, parent);
    key.push('/');
    key.append(name);
    assert(key@ =~= dirent(parent, name@));
    key
}

/// The tables after some writes were committed. The writes of a file that has no row are dropped;
/// a file whose content changed gets new times.
pub open spec fn committed(t: Tables, p: PendingView, now: Time) -> Tables {
    Tables {
        inodes: Map::new(
            |ino: u64| t.inodes.contains_key(ino),
            |ino: u64|
                if p.sizes.contains_key(ino) {
                    row::row_bytes(
                        InodeRow {
                            size: p.sizes[ino],
                            mtime: now,
                            ctime: now,
                            ..row::row_decoded(t.inodes[ino])->0
                        },
                    )
                } else {
                    t.inodes[ino]
                },
        ),
        dirents: t.dirents,
        blocks: Map::new(
            |k: BlockKey|
                if t.inodes.contains_key(k.ino) {
                    p.blocks.contains_key(k) || (t.blocks.contains_key(k) && !p.cuts(k))
                } else {
                    t.blocks.contains_key(k)
                },
            |k: BlockKey|
                if t.inodes.contains_key(k.ino) && p.blocks.contains_key(k) {
                    block_bytes(p.blocks[k])
                } else {
                    t.blocks[k]
                },
        ),
    }
}

/// Whether every row that a commit reads can be decoded.
pub open spec fn rows_decode(t: Tables, p: PendingView) -> bool {
    forall|ino: u64|
        p.sizes.contains_key(ino) && #[trigger] t.inodes.contains_key(ino) ==> row::row_decoded(
            t.inodes[ino],
        ) is Some
}

/// The rows that were read, as byte strings.
pub open spec fn row_views(m: Map<u64, Vec<u8>>) -> Map<u64, Seq<u8>> {
    Map::new(|i: u64| m.contains_key(i), |i: u64| m[i]@)
}

/// Whether `rows` is what the tables hold of the files that the writes are about.
pub open spec fn rows_read(t: Tables, rows: Map<u64, Seq<u8>>, p: PendingView) -> bool {
    forall|ino: u64|
        #![trigger rows.contains_key(ino)]
        #![trigger t.inodes.contains_key(ino)]
        touches(p, ino) ==> rows.contains_key(ino) == t.inodes.contains_key(ino) && (
        rows.contains_key(ino) ==> rows[ino] == t.inodes[ino])
}

/// Whether the writes are about the file.
pub open spec fn touches(p: PendingView, ino: u64) -> bool {
    ||| p.truncations.contains_key(ino)
    ||| p.sizes.contains_key(ino)
    ||| exists|idx: u64| #[trigger] p.blocks.contains_key(BlockKey { ino, idx })
}

/// Whether one of the first `n` entries has that key.
spec fn among<K: Key, V>(s: Seq<(K, V)>, n: int, k: K::K) -> bool {
    exists|j: int| 0 <= j < n && #[trigger] s[j].0.key() == k
}

/// The tables after the first `a` truncations, `b` blocks and `c` lengths of a commit.
spec fn partly(
    t: Tables,
    p: PendingView,
    now: Time,
    ts: Seq<(u64, u64)>,
    a: int,
    bs: Seq<(BlockKey, StoredBlock)>,
    b: int,
    ss: Seq<(u64, u64)>,
    c: int,
) -> Tables {
    Tables {
        inodes: Map::new(
            |ino: u64| t.inodes.contains_key(ino),
            |ino: u64|
                if among(ss, c, ino) {
                    row::row_bytes(
                        InodeRow {
                            size: p.sizes[ino],
                            mtime: now,
                            ctime: now,
                            ..row::row_decoded(t.inodes[ino])->0
                        },
                    )
                } else {
                    t.inodes[ino]
                },
        ),
        dirents: t.dirents,
        blocks: Map::new(
            |k: BlockKey|
                if t.inodes.contains_key(k.ino) {
                    among(bs, b, k) || (t.blocks.contains_key(k) && !(among(ts, a, k.ino)
                        && p.cuts(k)))
                } else {
                    t.blocks.contains_key(k)
                },
            |k: BlockKey|
                if t.inodes.contains_key(k.ino) && among(bs, b, k) {
                    block_bytes(p.blocks[k])
                } else {
                    t.blocks[k]
                },
        ),
    }
}

proof fn among_next<K: Key, V>(s: Seq<(K, V)>, n: int, k: K::K)
    requires
        0 <= n < s.len(),
    ensures
        among(s, n + 1, k) == (among(s, n, k) || s[n].0.key() == k),
{
    if among(s, n + 1, k) {
        let j = choose|j: int| 0 <= j < n + 1 && #[trigger] s[j].0.key() == k;
        if j < n {
            assert(among(s, n, k));
        }
    }
    if among(s, n, k) {
        let j = choose|j: int| 0 <= j < n && #[trigger] s[j].0.key() == k;
        assert(among(s, n + 1, k));
    }
    if s[n].0.key() == k {
        assert(among(s, n + 1, k));
    }
}

proof fn truncation_step(
    t: Tables,
    p: PendingView,
    now: Time,
    ts: Seq<(u64, u64)>,
    a: int,
    bs: Seq<(BlockKey, StoredBlock)>,
    ss: Seq<(u64, u64)>,
)
    requires
        ordmap::sorted(ts),
        p.truncations == ordmap::as_map(ts),
        0 <= a < ts.len(),
    ensures
        ({
            let here = partly(t, p, now, ts, a, bs, 0, ss, 0);
            let next = partly(t, p, now, ts, a + 1, bs, 0, ss, 0);
            if t.inodes.contains_key(ts[a].0) {
                here.after(OpView::DelBlocksFrom(ts[a].0, ts[a].1)) == next
            } else {
                here == next
            }
        }),
{
    let here = partly(t, p, now, ts, a, bs, 0, ss, 0);
    let next = partly(t, p, now, ts, a + 1, bs, 0, ss, 0);
    let ino = ts[a].0;
    ordmap::entry_in_map(ts, a);
    assert(ts[a].0.key() == ino);
    assert forall|i: u64| among(ts, a + 1, i) == (among(ts, a, i) || i == ino) by {
        among_next(ts, a, i);
    }
    assert(forall|k: BlockKey| !among(bs, 0, k));
    if t.inodes.contains_key(ino) {
        assert(here.after(OpView::DelBlocksFrom(ts[a].0, ts[a].1)).blocks =~= next.blocks);
        assert(here.inodes =~= next.inodes);
    } else {
        assert(here.blocks =~= next.blocks);
        assert(here.inodes =~= next.inodes);
    }
}

proof fn block_step(
    t: Tables,
    p: PendingView,
    now: Time,
    ts: Seq<(u64, u64)>,
    bs: Seq<(BlockKey, StoredBlock)>,
    b: int,
    ss: Seq<(u64, u64)>,
)
    requires
        ordmap::sorted(bs),
        p.blocks == super::pending::block_views(ordmap::as_map(bs)),
        0 <= b < bs.len(),
    ensures
        ({
            let n = ts.len() as int;
            let here = partly(t, p, now, ts, n, bs, b, ss, 0);
            let next = partly(t, p, now, ts, n, bs, b + 1, ss, 0);
            if t.inodes.contains_key(bs[b].0.ino) {
                here.after(OpView::PutBlock(bs[b].0, block_bytes(bs[b].1@))) == next
            } else {
                here == next
            }
        }),
{
    let n = ts.len() as int;
    let here = partly(t, p, now, ts, n, bs, b, ss, 0);
    let next = partly(t, p, now, ts, n, bs, b + 1, ss, 0);
    let key = bs[b].0;
    ordmap::entry_in_map(bs, b);
    assert(bs[b].0.key() == key);
    assert forall|k: BlockKey| among(bs, b + 1, k) == (among(bs, b, k) || k == key) by {
        among_next(bs, b, k);
    }
    if t.inodes.contains_key(key.ino) {
        let got = here.after(OpView::PutBlock(key, block_bytes(bs[b].1@)));
        assert(got.blocks =~= next.blocks);
        assert(got.inodes =~= next.inodes);
    } else {
        assert(here.blocks =~= next.blocks);
        assert(here.inodes =~= next.inodes);
    }
}

proof fn size_step(
    t: Tables,
    p: PendingView,
    now: Time,
    ts: Seq<(u64, u64)>,
    bs: Seq<(BlockKey, StoredBlock)>,
    ss: Seq<(u64, u64)>,
    c: int,
)
    requires
        ordmap::sorted(ss),
        p.sizes == ordmap::as_map(ss),
        0 <= c < ss.len(),
    ensures
        ({
            let (n, m) = (ts.len() as int, bs.len() as int);
            let here = partly(t, p, now, ts, n, bs, m, ss, c);
            let next = partly(t, p, now, ts, n, bs, m, ss, c + 1);
            if t.inodes.contains_key(ss[c].0) {
                here.after(
                    OpView::PutInode(
                        ss[c].0,
                        row::row_bytes(
                            InodeRow {
                                size: ss[c].1,
                                mtime: now,
                                ctime: now,
                                ..row::row_decoded(t.inodes[ss[c].0])->0
                            },
                        ),
                    ),
                ) == next
            } else {
                here == next
            }
        }),
{
    let (n, m) = (ts.len() as int, bs.len() as int);
    let here = partly(t, p, now, ts, n, bs, m, ss, c);
    let next = partly(t, p, now, ts, n, bs, m, ss, c + 1);
    let ino = ss[c].0;
    ordmap::entry_in_map(ss, c);
    assert(ss[c].0.key() == ino);
    assert forall|i: u64| among(ss, c + 1, i) == (among(ss, c, i) || i == ino) by {
        among_next(ss, c, i);
    }
    assert(here.blocks =~= next.blocks);
    if t.inodes.contains_key(ino) {
        let bytes = row::row_bytes(
            InodeRow {
                size: ss[c].1,
                mtime: now,
                ctime: now,
                ..row::row_decoded(t.inodes[ino])->0
            },
        );
        assert(here.after(OpView::PutInode(ino, bytes)).inodes =~= next.inodes);
    } else {
        assert(here.inodes =~= next.inodes);
    }
}

proof fn wholly(
    t: Tables,
    p: PendingView,
    now: Time,
    ts: Seq<(u64, u64)>,
    bs: Seq<(BlockKey, StoredBlock)>,
    ss: Seq<(u64, u64)>,
)
    requires
        p.truncations == ordmap::as_map(ts),
        p.blocks == super::pending::block_views(ordmap::as_map(bs)),
        p.sizes == ordmap::as_map(ss),
    ensures
        partly(t, p, now, ts, 0, bs, 0, ss, 0) == t,
        partly(t, p, now, ts, ts.len() as int, bs, bs.len() as int, ss, ss.len() as int)
            == committed(t, p, now),
{
    let start = partly(t, p, now, ts, 0, bs, 0, ss, 0);
    assert(forall|k: BlockKey| !among(bs, 0, k));
    assert(forall|i: u64| !among(ts, 0, i) && !among(ss, 0, i));
    assert(start.inodes =~= t.inodes);
    assert(start.blocks =~= t.blocks);
    let end = partly(t, p, now, ts, ts.len() as int, bs, bs.len() as int, ss, ss.len() as int);
    let want = committed(t, p, now);
    assert forall|k: BlockKey| among(bs, bs.len() as int, k) == p.blocks.contains_key(k) by {
        assert(among(bs, bs.len() as int, k) == ordmap::has_key(bs, k));
    }
    assert forall|i: u64|
        among(ts, ts.len() as int, i) == p.truncations.contains_key(i) && among(
            ss,
            ss.len() as int,
            i,
        ) == p.sizes.contains_key(i) by {
        assert(among(ts, ts.len() as int, i) == ordmap::has_key(ts, i));
        assert(among(ss, ss.len() as int, i) == ordmap::has_key(ss, i));
    }
    assert(end.inodes =~= want.inodes);
    assert(end.blocks =~= want.blocks);
}

/// Plans a commit: `rows` holds the rows of the files that the writes are about, as far as they
/// have one, and `now` is the time of the commit. The plan leads from the tables to the tables
/// with the writes committed. A row that cannot be decoded stops the commit.
pub fn plan_flush(pending: &Pending, rows: &OrdMap<u64, Vec<u8>>, now: Time) -> (r: Result<
    Vec<TableOp>,
    StoreError,
>)
    ensures
        match r {
            Ok(ops) => forall|t: Tables|
                #![trigger t.after_all(op_views(ops@))]
                rows_read(t, row_views(rows@), pending@) ==> rows_decode(t, pending@)
                    && t.after_all(op_views(ops@)) == committed(t, pending@, now),
            Err(e) => e is BadRow && forall|t: Tables| #[trigger]
                rows_read(t, row_views(rows@), pending@) ==> !rows_decode(t, pending@),
        },
{
    let ghost p = pending@;
    let ghost rv = row_views(rows@);
    let mut ops: Vec<TableOp> = Vec::new();
    let truncations: &Vec<(u64, u64)> = pending.truncations.entries();
    let blocks: &Vec<(BlockKey, StoredBlock)> = pending.blocks.entries();
    let sizes: &Vec<(u64, u64)> = pending.sizes.entries();
    let ghost (ts, bs, ss) = (truncations@, blocks@, sizes@);
    proof {
        assert(op_views(ops@) =~= Seq::empty());
        assert forall|t: Tables| #[trigger] rows_read(t, rv, p) implies t.after_all(op_views(ops@))
            == partly(t, p, now, ts, 0, bs, 0, ss, 0) by {
            wholly(t, p, now, ts, bs, ss);
        }
    }
    let mut i: usize = 0;
    while i < truncations.len()
        invariant
            i <= ts.len(),
            truncations@ == ts,
            p == pending@,
            rv == row_views(rows@),
            ordmap::sorted(ts),
            p.truncations == ordmap::as_map(ts),
            forall|t: Tables| #[trigger]
                rows_read(t, rv, p) ==> t.after_all(op_views(ops@)) == partly(
                    t,
                    p,
                    now,
                    ts,
                    i as int,
                    bs,
                    0,
                    ss,
                    0,
                ),
        decreases ts.len() - i,
    {
        let (ino, keep_from): (u64, u64) = truncations[i];
        let ghost before = ops@;
        let present: bool = rows.contains_key(&ino);
        if present {
            ops.push(TableOp::DelBlocksFrom(ino, keep_from));
        }
        proof {
            ordmap::entry_in_map(ts, i as int);
            assert(touches(p, ino));
            views_push(before, TableOp::DelBlocksFrom(ino, keep_from));
            assert forall|t: Tables| #[trigger] rows_read(t, rv, p) implies t.after_all(
                op_views(ops@),
            ) == partly(t, p, now, ts, i + 1, bs, 0, ss, 0) by {
                assert(rv.contains_key(ino) == t.inodes.contains_key(ino));
                truncation_step(t, p, now, ts, i as int, bs, ss);
                after_push(t, op_views(before), OpView::DelBlocksFrom(ino, keep_from));
            }
        }
        i = i + 1;
    }
    let mut i: usize = 0;
    while i < blocks.len()
        invariant
            i <= bs.len(),
            blocks@ == bs,
            p == pending@,
            rv == row_views(rows@),
            ordmap::sorted(bs),
            p.blocks == super::pending::block_views(ordmap::as_map(bs)),
            forall|t: Tables| #[trigger]
                rows_read(t, rv, p) ==> t.after_all(op_views(ops@)) == partly(
                    t,
                    p,
                    now,
                    ts,
                    ts.len() as int,
                    bs,
                    i as int,
                    ss,
                    0,
                ),
        decreases bs.len() - i,
    {
        let key: BlockKey = blocks[i].0;
        let ghost before = ops@;
        let present: bool = rows.contains_key(&key.ino);
        let ghost bytes = block_bytes(bs[i as int].1@);
        if present {
            let raw: Vec<u8> = encode_block(&blocks[i].1);
            ops.push(TableOp::PutBlock(key, raw));
            proof {
                views_push(before, TableOp::PutBlock(key, raw));
            }
        }
        proof {
            ordmap::entry_in_map(bs, i as int);
            assert(p.blocks.contains_key(BlockKey { ino: key.ino, idx: key.idx }));
            assert(touches(p, key.ino));
            assert forall|t: Tables| #[trigger] rows_read(t, rv, p) implies t.after_all(
                op_views(ops@),
            ) == partly(t, p, now, ts, ts.len() as int, bs, i + 1, ss, 0) by {
                assert(rv.contains_key(key.ino) == t.inodes.contains_key(key.ino));
                block_step(t, p, now, ts, bs, i as int, ss);
                after_push(t, op_views(before), OpView::PutBlock(key, bytes));
            }
        }
        i = i + 1;
    }
    let mut i: usize = 0;
    while i < sizes.len()
        invariant
            i <= ss.len(),
            sizes@ == ss,
            p == pending@,
            rv == row_views(rows@),
            ordmap::sorted(ss),
            p.sizes == ordmap::as_map(ss),
            forall|j: int|
                0 <= j < i && rv.contains_key(#[trigger] ss[j].0) ==> row::row_decoded(
                    rv[ss[j].0],
                ) is Some,
            forall|t: Tables| #[trigger]
                rows_read(t, rv, p) ==> t.after_all(op_views(ops@)) == partly(
                    t,
                    p,
                    now,
                    ts,
                    ts.len() as int,
                    bs,
                    bs.len() as int,
                    ss,
                    i as int,
                ),
        decreases ss.len() - i,
    {
        let (ino, size): (u64, u64) = sizes[i];
        let ghost before = ops@;
        proof {
            ordmap::entry_in_map(ss, i as int);
            assert(touches(p, ino));
        }
        match rows.get(&ino) {
            Some(raw) => {
                let old_row: InodeRow = match InodeRow::decode(raw) {
                    Ok(row) => row,
                    Err(e) => {
                        assert forall|t: Tables| #[trigger] rows_read(t, rv, p) implies
                            !rows_decode(t, p) by {
                            assert(rv.contains_key(ino) == t.inodes.contains_key(ino));
                        }
                        return Err(e);
                    },
                };
                let new_row: InodeRow = InodeRow { size, mtime: now, ctime: now, ..old_row };
                let raw: Vec<u8> = new_row.encode();
                ops.push(TableOp::PutInode(ino, raw));
                proof {
                    views_push(before, TableOp::PutInode(ino, raw));
                    assert forall|t: Tables| #[trigger] rows_read(t, rv, p) implies t.after_all(
                        op_views(ops@),
                    ) == partly(
                        t,
                        p,
                        now,
                        ts,
                        ts.len() as int,
                        bs,
                        bs.len() as int,
                        ss,
                        i + 1,
                    ) by {
                        assert(rv.contains_key(ino) == t.inodes.contains_key(ino));
                        size_step(t, p, now, ts, bs, ss, i as int);
                        after_push(t, op_views(before), OpView::PutInode(ino, raw@));
                    }
                }
            },
            None => {
                proof {
                    assert forall|t: Tables| #[trigger] rows_read(t, rv, p) implies t.after_all(
                        op_views(ops@),
                    ) == partly(
                        t,
                        p,
                        now,
                        ts,
                        ts.len() as int,
                        bs,
                        bs.len() as int,
                        ss,
                        i + 1,
                    ) by {
                        assert(rv.contains_key(ino) == t.inodes.contains_key(ino));
                        size_step(t, p, now, ts, bs, ss, i as int);
                    }
                }
            },
        }
        i = i + 1;
    }
    proof {
        assert forall|t: Tables|
            #![trigger t.after_all(op_views(ops@))]
            rows_read(t, rv, p) implies rows_decode(t, p) && t.after_all(op_views(ops@))
            == committed(t, p, now) by {
            wholly(t, p, now, ts, bs, ss);
            assert forall|ino: u64|
                p.sizes.contains_key(ino) && #[trigger] t.inodes.contains_key(
                    ino,
                ) implies row::row_decoded(t.inodes[ino]) is Some by {
                assert(touches(p, ino));
                assert(rv.contains_key(ino) == t.inodes.contains_key(ino));
                assert(ordmap::has_key(ss, ino));
                let j = ordmap::index_of(ss, ino);
                assert(ss[j].0 == ino);
            }
        }
    }
    Ok(ops)
}

/// A commit changes nothing that a read finds: what the flushing buffer held is in the tables,
/// for every file that has a row.
pub proof fn commit_changes_no_read(
    active: PendingView,
    flushing: PendingView,
    t: Tables,
    now: Time,
    k: BlockKey,
)
    requires
        t.inodes.contains_key(k.ino),
    ensures
        super::pending::read_through(
            active,
            PendingView::empty(),
            decoded_blocks(committed(t, flushing, now).blocks),
            k,
        ) == super::pending::read_through(active, flushing, decoded_blocks(t.blocks), k),
{
    if flushing.blocks.contains_key(k) {
        block_reads_back(flushing.blocks[k]);
    }
}

/// A commit changes no length that a read finds.
pub proof fn commit_changes_no_length(
    active: PendingView,
    flushing: PendingView,
    t: Tables,
    now: Time,
    ino: u64,
)
    requires
        t.inodes.contains_key(ino),
        row::row_decoded(t.inodes[ino]) is Some,
    ensures
        ({
            let after = committed(t, flushing, now);
            &&& row::row_decoded(after.inodes[ino]) is Some
            &&& super::pending::size_through(
                active,
                PendingView::empty(),
                (row::row_decoded(after.inodes[ino])->0).size,
                ino,
            ) == super::pending::size_through(
                active,
                flushing,
                (row::row_decoded(t.inodes[ino])->0).size,
                ino,
            )
        }),
{
    row::row_reads_back(
        InodeRow {
            size: flushing.sizes[ino],
            mtime: now,
            ctime: now,
            ..row::row_decoded(t.inodes[ino])->0
        },
    );
}

/// A commit makes no orphans: the writes of a file that was removed meanwhile do not come back.
pub proof fn commit_makes_no_orphans(t: Tables, p: PendingView, now: Time)
    requires
        t.no_orphans(),
    ensures
        committed(t, p, now).no_orphans(),
{
}

/// The stored form of a block is one byte longer than the block, says in that byte whether the block
/// is raw, and holds the rest as it is; an empty form is an empty block.
pub proof fn stored_form_of_a_block(b: BlockView)
    ensures
        block_bytes(b).len() == b.bytes.len() + 1,
        block_bytes(b)[0] == 1 <==> b.verbatim,
        block_bytes(b)[0] == 0 <==> !b.verbatim,
        block_bytes(b).subrange(1, block_bytes(b).len() as int) == b.bytes,
        block_decoded(Seq::empty()).bytes.len() == 0,
        !block_decoded(Seq::empty()).verbatim,
{
    assert(block_bytes(b).subrange(1, block_bytes(b).len() as int) =~= b.bytes);
}

/// A commit gives a file whose content changed its new length and the time of the commit, and leaves
/// its owner, its permissions, its kind, its chunk size and the time it was read; a file whose content
/// did not change is left as it was, and so is every name.
pub proof fn commit_stamps_changed_files(t: Tables, p: PendingView, now: Time, ino: u64)
    requires
        t.inodes.contains_key(ino),
        row::row_decoded(t.inodes[ino]) is Some,
    ensures
        ({
            let after = committed(t, p, now);
            let before = row::row_decoded(t.inodes[ino])->0;
            &&& after.inodes.contains_key(ino)
            &&& !p.sizes.contains_key(ino) ==> after.inodes[ino] == t.inodes[ino]
            &&& p.sizes.contains_key(ino) ==> (row::row_decoded(after.inodes[ino]) matches Some(r)
                && {
                &&& r.size == p.sizes[ino]
                &&& r.ctime == r.mtime
                &&& now.secs >= 0 ==> r.mtime == now
                &&& now.secs < 0 ==> r.mtime.secs == 0 && r.mtime.nanos == 0
                &&& r.perm == before.perm && r.uid == before.uid && r.gid == before.gid
                &&& r.kind == before.kind && r.chunk_size == before.chunk_size
                &&& before.atime.secs >= 0 ==> r.atime == before.atime
            })
            &&& after.dirents == t.dirents
            &&& after.inodes.dom() =~= t.inodes.dom()
        }),
{
    row::row_reads_back(
        InodeRow {
            size: p.sizes[ino],
            mtime: now,
            ctime: now,
            ..row::row_decoded(t.inodes[ino])->0
        },
    );
}

/// After a commit the tables alone hold what was written: a block that was written, nothing that a
/// truncation cut off, and every other block as it was; a file without a row gets nothing.
pub proof fn committed_blocks_are_in_the_tables(t: Tables, p: PendingView, now: Time, k: BlockKey)
    ensures
        ({
            let after = committed(t, p, now);
            let there = t.inodes.contains_key(k.ino);
            &&& there && p.blocks.contains_key(k) ==> after.blocks.contains_key(k) && block_decoded(
                after.blocks[k],
            ) == p.blocks[k]
            &&& there && !p.blocks.contains_key(k) && p.truncations.contains_key(k.ino)
                && p.truncations[k.ino] <= k.idx ==> !after.blocks.contains_key(k)
            &&& !there || (!p.blocks.contains_key(k) && !(p.truncations.contains_key(k.ino)
                && p.truncations[k.ino] <= k.idx)) ==> after.blocks.contains_key(k)
                == t.blocks.contains_key(k) && (t.blocks.contains_key(k) ==> after.blocks[k]
                == t.blocks[k])
        }),
{
    if p.blocks.contains_key(k) {
        block_reads_back(p.blocks[k]);
    }
}

/// The key of an entry is the directory's number in decimal notation, a slash, and the name.
pub proof fn entry_key_ends_with_the_name(parent: u64, name: Seq<char>)
    ensures
        ({
            let key = dirent(parent, name);
            let n = key.len() - name.len();
            &&& n > 1
            &&& key.subrange(n, key.len() as int) == name
            &&& key[n - 1] == '/'
            &&& text::number(key.subrange(0, n - 1)) == Some(parent)
        }),
{
    let key = dirent(parent, name);
    let d = text::decimal(parent as nat);
    text::decimal_digits(parent as nat);
    text::written_number_reads_back(parent);
    let n = key.len() - name.len();
    assert(key.subrange(n, key.len() as int) =~= name);
    assert(key.subrange(0, n - 1) =~= d);
}

} // verus!
