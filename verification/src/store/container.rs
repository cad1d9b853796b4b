//! A whole tree in one database: what each operation decides.
//!
//! The database is asked first; what it said goes in as an argument, and what it has to change
//! comes out as a list of changes for one transaction.
use vstd::prelude::*;
use vstd::string::*;

use super::pending;
use super::pending::{BlockLookup, Buffers, LookupView, Pending, PendingView};
use super::row;
use super::row::InodeRow;
use super::tables;
use super::tables::{OpView, TableOp, Tables};
use super::types;
use super::types::{Attr, BlockView, DirEntry, DirEntryView, FileKind, StoreError, StoredBlock, Time};
use crate::inode_table::ROOT_INO;
use crate::metrics;
use crate::metrics::Metrics;
use crate::ordmap::{BlockKey, OrdMap};
use crate::text;

verus! {

/// What a container keeps in memory.
pub struct Container {
    /// Number of the next file.
    pub next_ino: u64,
    /// Writes that wait for a commit.
    pub buffers: Buffers,
    /// Number of blocks that the commit under way started with.
    pub flushing_blocks: u64,
    /// Chunk size of a file that is created without one.
    pub default_chunk_size: u32,
}

/// The row of the root directory of a new container.
pub open spec fn root_row(chunk_size: u32, now: Time) -> InodeRow {
    InodeRow {
        kind: 1,
        size: 0,
        perm: 0o755,
        uid: 0,
        gid: 0,
        chunk_size,
        mtime: now,
        atime: now,
        ctime: now,
    }
}

/// The row of a file that is created with `attr`: it is empty, and has the chunk size given or
/// else the default one.
pub open spec fn new_row(attr: Attr, default_chunk_size: u32) -> InodeRow {
    InodeRow {
        kind: row::kind_code(attr.kind),
        size: 0,
        perm: attr.perm,
        uid: attr.uid,
        gid: attr.gid,
        chunk_size: if attr.chunk_size == 0 {
            default_chunk_size
        } else {
            attr.chunk_size
        },
        mtime: attr.mtime,
        atime: attr.atime,
        ctime: attr.ctime,
    }
}

/// A row with new attributes; its kind and its chunk size stay.
pub open spec fn row_with(r: InodeRow, attr: Attr) -> InodeRow {
    InodeRow {
        size: attr.size,
        perm: attr.perm,
        uid: attr.uid,
        gid: attr.gid,
        mtime: attr.mtime,
        atime: attr.atime,
        ctime: attr.ctime,
        ..r
    }
}

/// What creating a file changes.
pub open spec fn create_ops(ino: u64, parent: u64, name: Seq<char>, r: InodeRow) -> Seq<OpView> {
    seq![
        OpView::PutInode(ino, row::row_bytes(r)),
        OpView::PutDirent(tables::dirent(parent, name), ino),
    ]
}

/// What removing a file changes.
pub open spec fn unlink_ops(parent: u64, name: Seq<char>, child: u64) -> Seq<OpView> {
    seq![
        OpView::DelDirent(tables::dirent(parent, name)),
        OpView::DelInode(child),
        OpView::DelBlocksFrom(child, 0),
    ]
}

/// What renaming a file changes: a file `prev` that had the new name is removed.
pub open spec fn rename_ops(
    old_key: Seq<char>,
    new_key: Seq<char>,
    child: u64,
    prev: Option<u64>,
) -> Seq<OpView> {
    let take = seq![OpView::DelDirent(old_key)];
    let put = seq![OpView::PutDirent(new_key, child)];
    if old_key != new_key && prev is Some {
        take + seq![
            OpView::DelDirent(new_key),
            OpView::DelInode(prev->0),
            OpView::DelBlocksFrom(prev->0, 0),
        ] + put
    } else {
        take + put
    }
}

/// What a table of directory entries says of a key.
pub open spec fn entry_of(t: Tables, key: Seq<char>) -> Option<u64> {
    if t.dirents.contains_key(key) {
        Some(t.dirents[key])
    } else {
        None
    }
}

/// The name of the file in directory `dir` that a key stands for.
pub open spec fn child_name(dir: u64, key: Seq<char>) -> Option<Seq<char>> {
    let prefix = text::decimal(dir as nat) + seq!['/'];
    if prefix.is_prefix_of(key) {
        let name = key.subrange(prefix.len() as int, key.len() as int);
        if name.contains('/') {
            None
        } else {
            Some(name)
        }
    } else {
        None
    }
}

/// The entry of directory `dir` that a key and its file stand for; none where it is another
/// directory's, or the file has no row that can be read.
pub open spec fn listed_entry(
    dir: u64,
    key: Seq<char>,
    ino: u64,
    rows: Map<u64, Seq<u8>>,
) -> Option<DirEntryView> {
    match child_name(dir, key) {
        Some(name) => if rows.contains_key(ino) {
            match row::row_decoded(rows[ino]) {
                Some(r) => Some(DirEntryView { ino, name, kind: r.file_kind() }),
                None => None,
            }
        } else {
            None
        },
        None => None,
    }
}

/// The entries of directory `dir` among the first `n`, in their order.
pub open spec fn listed(
    dir: u64,
    entries: Seq<(String, u64)>,
    rows: Map<u64, Seq<u8>>,
    n: int,
) -> Seq<DirEntryView>
    decreases n,
{
    if n <= 0 {
        Seq::empty()
    } else {
        let before = listed(dir, entries, rows, n - 1);
        match listed_entry(dir, entries[n - 1].0@, entries[n - 1].1, rows) {
            Some(e) => before.push(e),
            None => before,
        }
    }
}

/// The entries of a list.
pub open spec fn entry_views(v: Seq<DirEntry>) -> Seq<DirEntryView> {
    Seq::new(v.len(), |i: int| v[i]@)
}

/// The name of the file in directory `dir` that a key stands for.
fn name_under(dir: u64, key: &str) -> (r: Option<String>)
    ensures
        match r {
            Some(name) => child_name(dir, key@) == Some(name@),
            None => child_name(dir, key@) is None,
        },
{
    let mut prefix: String = String::new();
    text::push_decimal(&mut prefix, dir);
    prefix.push('/');
    let ghost wanted = text::decimal(dir as nat) + seq!['/'];
    assert(prefix@ =~= wanted);
    let p: Vec<char> = text::chars_of(prefix.as_str());
    let k: Vec<char> = text::chars_of(key);
    if k.len() < p.len() {
        assert(!wanted.is_prefix_of(key@));
        return None;
    }
    let mut i: usize = 0;
    while i < p.len()
        invariant
            i <= p@.len() <= k@.len(),
            p@ == wanted,
            k@ == key@,
            wanted == text::decimal(dir as nat) + seq!['/'],
            forall|j: int| 0 <= j < i ==> #[trigger] p@[j] == k@[j],
        decreases p@.len() - i,
    {
        if p[i] != k[i] {
            proof {
                if wanted.is_prefix_of(key@) {
                    assert(wanted == key@.subrange(0, wanted.len() as int));
                    assert(wanted[i as int] == key@.subrange(0, wanted.len() as int)[i as int]);
                }
            }
            return None;
        }
        i = i + 1;
    }
    proof {
        assert(wanted =~= key@.subrange(0, wanted.len() as int));
        assert(wanted.is_prefix_of(key@));
    }
    let ghost name = key@.subrange(wanted.len() as int, key@.len() as int);
    let mut j: usize = p.len();
    while j < k.len()
        invariant
            p@.len() <= j <= k@.len(),
            p@ == wanted,
            k@ == key@,
            name == key@.subrange(wanted.len() as int, key@.len() as int),
            wanted == text::decimal(dir as nat) + seq!['/'],
            wanted.is_prefix_of(key@),
            forall|i: int| p@.len() <= i < j ==> #[trigger] k@[i] != '/',
        decreases k@.len() - j,
    {
        if k[j] == '/' {
            proof {
                assert(name[j - wanted.len()] == '/');
                assert(name.contains('/'));
            }
            return None;
        }
        j = j + 1;
    }
    proof {
        if name.contains('/') {
            let i = choose|i: int| 0 <= i < name.len() && name[i] == '/';
            assert(k@[i + wanted.len()] == '/');
        }
    }
    Some(text::text_of(&k, p.len(), k.len()))
}

/// The entries of directory `dir`: `entries` is the whole table of directory entries in its order,
/// and `rows` the rows of the files, taken from the same snapshot.
pub fn readdir(dir: u64, entries: &Vec<(String, u64)>, rows: &OrdMap<u64, Vec<u8>>) -> (out: Vec<
    DirEntry,
>)
    ensures
        entry_views(out@) == listed(
            dir,
            entries@,
            tables::row_views(rows@),
            entries@.len() as int,
        ),
{
    let ghost rv = tables::row_views(rows@);
    let mut out: Vec<DirEntry> = Vec::new();
    let mut i: usize = 0;
    assert(entry_views(out@) =~= Seq::empty());
    while i < entries.len()
        invariant
            i <= entries@.len(),
            rv == tables::row_views(rows@),
            entry_views(out@) == listed(dir, entries@, rv, i as int),
        decreases entries@.len() - i,
    {
        let ino: u64 = entries[i].1;
        let ghost before = out@;
        if let Some(name) = name_under(dir, entries[i].0.as_str()) {
            if let Some(raw) = rows.get(&ino) {
                assert(rv.contains_key(ino) && rv[ino] == raw@);
                if let Ok(r) = InodeRow::decode(raw) {
                    let e: DirEntry = DirEntry { ino, name, kind: r.kind_to_filetype() };
                    out.push(e);
                    assert(entry_views(out@) =~= entry_views(before).push(e@));
                }
            }
        }
        i = i + 1;
    }
    out
}

/// The attributes that the tables and the buffers give a file.
pub open spec fn attr_through(
    active: PendingView,
    flushing: PendingView,
    ino: u64,
    row: Option<Seq<u8>>,
) -> Option<Attr> {
    match row {
        Some(raw) => match row::row_decoded(raw) {
            Some(r) => Some(
                r.attr(ino, pending::size_through(active, flushing, r.size, ino)),
            ),
            None => None,
        },
        None => None,
    }
}

/// The bytes of a row that may be there.
pub open spec fn opt_bytes(row: Option<&Vec<u8>>) -> Option<Seq<u8>> {
    match row {
        Some(raw) => Some(raw@),
        None => None,
    }
}

impl Container {
    /// Opens a container: `inos` are the files that have a row. A database without a root gets
    /// one. New files get numbers above all that are in use.
    pub fn open_with_chunk_size(default_chunk_size: u32, inos: &Vec<u64>, now: Time) -> (r: Result<
        (Container, Vec<TableOp>),
        StoreError,
    >)
        requires
            forall|i: int| 0 <= i < inos@.len() ==> #[trigger] inos@[i] < u64::MAX,
        ensures
            match r {
                Ok((c, ops)) => {
                    &&& default_chunk_size != 0
                    &&& c.default_chunk_size == default_chunk_size
                    &&& c.buffers.active@ == PendingView::empty()
                    &&& c.buffers.flushing@ == PendingView::empty()
                    &&& c.flushing_blocks == 0
                    &&& inos@.contains(ROOT_INO) ==> {
                        &&& op_list(ops) == Seq::<OpView>::empty()
                        &&& inos@.contains((c.next_ino - 1) as u64)
                        &&& forall|i: int| 0 <= i < inos@.len() ==> #[trigger] inos@[i] < c.next_ino
                    }
                    &&& !inos@.contains(ROOT_INO) ==> {
                        &&& op_list(ops) == seq![
                            OpView::PutInode(
                                ROOT_INO,
                                row::row_bytes(root_row(default_chunk_size, now)),
                            ),
                        ]
                        &&& c.next_ino == ROOT_INO + 1
                    }
                },
                Err(e) => default_chunk_size == 0 && e == StoreError::ZeroChunkSize,
            },
    {
        if default_chunk_size == 0 {
            return Err(StoreError::ZeroChunkSize);
        }
        let mut max_ino: u64 = ROOT_INO;
        let mut has_root: bool = false;
        let mut i: usize = 0;
        while i < inos.len()
            invariant
                i <= inos@.len(),
                ROOT_INO <= max_ino < u64::MAX,
                forall|j: int| 0 <= j < inos@.len() ==> #[trigger] inos@[j] < u64::MAX,
                forall|j: int| 0 <= j < i ==> #[trigger] inos@[j] <= max_ino,
                max_ino == ROOT_INO || inos@.contains(max_ino),
                has_root == (exists|j: int| 0 <= j < i && #[trigger] inos@[j] == ROOT_INO),
            decreases inos@.len() - i,
        {
            let ino: u64 = inos[i];
            if ino == ROOT_INO {
                has_root = true;
            }
            if ino > max_ino {
                max_ino = ino;
                assert(inos@[i as int] == max_ino);
            }
            i = i + 1;
        }
        let mut ops: Vec<TableOp> = Vec::new();
        if !has_root {
            max_ino = ROOT_INO;
            let root: InodeRow = InodeRow {
                kind: 1,
                size: 0,
                perm: 0o755,
                uid: 0,
                gid: 0,
                chunk_size: default_chunk_size,
                mtime: now,
                atime: now,
                ctime: now,
            };
            ops.push(TableOp::PutInode(ROOT_INO, root.encode()));
            assert(op_list(ops) =~= seq![
                OpView::PutInode(ROOT_INO, row::row_bytes(root_row(default_chunk_size, now))),
            ]);
        } else {
            assert(op_list(ops) =~= Seq::<OpView>::empty());
        }
        Ok(
            (
                Container {
                    next_ino: max_ino + 1,
                    buffers: Buffers::new(),
                    flushing_blocks: 0,
                    default_chunk_size,
                },
                ops,
            ),
        )
    }

    /// Takes the next number.
    pub fn alloc_ino(&mut self) -> (ino: u64)
        requires
            old(self).next_ino < u64::MAX,
        ensures
            ino == old(self).next_ino,
            *final(self) == (Container { next_ino: (ino + 1) as u64, ..*old(self) }),
    {
        let ino: u64 = self.next_ino;
        self.next_ino = ino + 1;
        ino
    }

    /// Creates a file. `existing` is what the table of directory entries says of that name. A
    /// number is used up even where the name is taken.
    pub fn create(&mut self, parent: u64, name: &str, attr: Attr, existing: Option<u64>) -> (r:
        Result<(u64, Vec<TableOp>), StoreError>)
        requires
            old(self).next_ino < u64::MAX,
        ensures
            *final(self) == (Container { next_ino: final(self).next_ino, ..*old(self) }),
            final(self).next_ino == (if types::valid_name(name@) {
                old(self).next_ino + 1
            } else {
                old(self).next_ino as int
            }),
            match r {
                Ok((ino, ops)) => {
                    &&& types::valid_name(name@)
                    &&& existing is None
                    &&& ino == old(self).next_ino
                    &&& op_list(ops) == create_ops(
                        ino,
                        parent,
                        name@,
                        new_row(attr, old(self).default_chunk_size),
                    )
                },
                Err(e) => if !types::valid_name(name@) {
                    e == StoreError::InvalidName
                } else {
                    existing is Some && e == StoreError::AlreadyExists
                },
            },
    {
        if let Err(e) = types::validate_name(name) {
            return Err(e);
        }
        let ino: u64 = self.alloc_ino();
        if existing.is_some() {
            return Err(StoreError::AlreadyExists);
        }
        let chunk_size: u32 = if attr.chunk_size == 0 {
            self.default_chunk_size
        } else {
            attr.chunk_size
        };
        let new: InodeRow = InodeRow {
            kind: row::filetype_to_kind(attr.kind),
            size: 0,
            perm: attr.perm,
            uid: attr.uid,
            gid: attr.gid,
            chunk_size,
            mtime: attr.mtime,
            atime: attr.atime,
            ctime: attr.ctime,
        };
        let mut ops: Vec<TableOp> = Vec::new();
        ops.push(TableOp::PutInode(ino, new.encode()));
        ops.push(TableOp::PutDirent(tables::dirent_key(parent, name), ino));
        assert(op_list(ops) =~= create_ops(ino, parent, name@, new));
        Ok((ino, ops))
    }

    /// Creates a directory.
    pub fn mkdir(&mut self, parent: u64, name: &str, attr: Attr, existing: Option<u64>) -> (r:
        Result<(u64, Vec<TableOp>), StoreError>)
        requires
            old(self).next_ino < u64::MAX,
        ensures
            *final(self) == (Container { next_ino: final(self).next_ino, ..*old(self) }),
            final(self).next_ino == (if types::valid_name(name@) {
                old(self).next_ino + 1
            } else {
                old(self).next_ino as int
            }),
            match r {
                Ok((ino, ops)) => {
                    &&& types::valid_name(name@)
                    &&& existing is None
                    &&& ino == old(self).next_ino
                    &&& op_list(ops) == create_ops(
                        ino,
                        parent,
                        name@,
                        new_row(
                            Attr { kind: FileKind::Directory, ..attr },
                            old(self).default_chunk_size,
                        ),
                    )
                },
                Err(e) => if !types::valid_name(name@) {
                    e == StoreError::InvalidName
                } else {
                    existing is Some && e == StoreError::AlreadyExists
                },
            },
    {
        let dir: Attr = Attr { kind: FileKind::Directory, ..attr };
        self.create(parent, name, dir, existing)
    }

    /// Removes a file, and the writes of it that wait. `child` is what the table of directory
    /// entries says of that name.
    pub fn unlink(&mut self, parent: u64, name: &str, child: Option<u64>) -> (r: Result<
        Vec<TableOp>,
        StoreError,
    >)
        ensures
            *final(self) == (Container { buffers: final(self).buffers, ..*old(self) }),
            match child {
                Some(ino) => {
                    &&& final(self).buffers.active@ == old(self).buffers.active@.without_file(ino)
                    &&& final(self).buffers.flushing@ == old(self).buffers.flushing@.without_file(
                        ino,
                    )
                    &&& r matches Ok(ops) && op_list(ops) == unlink_ops(parent, name@, ino)
                },
                None => *final(self) == *old(self) && r == Err::<Vec<TableOp>, StoreError>(
                    StoreError::NotFound,
                ),
            },
    {
        match child {
            Some(ino) => {
                self.buffers.forget_file(ino);
                let mut ops: Vec<TableOp> = Vec::new();
                ops.push(TableOp::DelDirent(tables::dirent_key(parent, name)));
                ops.push(TableOp::DelInode(ino));
                ops.push(TableOp::DelBlocksFrom(ino, 0));
                assert(op_list(ops) =~= unlink_ops(parent, name@, ino));
                Ok(ops)
            },
            None => Err(StoreError::NotFound),
        }
    }

    /// Removes a directory that holds nothing. `found` is what a lookup of that name gives, and
    /// `listing` the entries of the directory found.
    pub fn rmdir(&mut self, parent: u64, name: &str, found: Option<Attr>, listing: &Vec<DirEntry>)
        -> (r: Result<Vec<TableOp>, StoreError>)
        ensures
            *final(self) == (Container { buffers: final(self).buffers, ..*old(self) }),
            match found {
                Some(attr) => if attr.kind != FileKind::Directory {
                    *final(self) == *old(self) && r == Err::<Vec<TableOp>, StoreError>(
                        StoreError::NotADirectory,
                    )
                } else if listing@.len() != 0 {
                    *final(self) == *old(self) && r == Err::<Vec<TableOp>, StoreError>(
                        StoreError::NotEmpty,
                    )
                } else {
                    &&& final(self).buffers.active@ == old(self).buffers.active@.without_file(
                        attr.ino,
                    )
                    &&& final(self).buffers.flushing@ == old(self).buffers.flushing@.without_file(
                        attr.ino,
                    )
                    &&& r matches Ok(ops) && op_list(ops) == unlink_ops(parent, name@, attr.ino)
                },
                None => *final(self) == *old(self) && r == Err::<Vec<TableOp>, StoreError>(
                    StoreError::NotFound,
                ),
            },
    {
        match found {
            Some(attr) => {
                if attr.kind != FileKind::Directory {
                    return Err(StoreError::NotADirectory);
                }
                if listing.len() != 0 {
                    return Err(StoreError::NotEmpty);
                }
                self.unlink(parent, name, Some(attr.ino))
            },
            None => Err(StoreError::NotFound),
        }
    }

    /// Renames a file. `child` and `prev` are what the table of directory entries says of the old
    /// and of the new name. A file that had the new name is removed.
    pub fn rename(
        &self,
        old_parent: u64,
        old_name: &str,
        new_parent: u64,
        new_name: &str,
        child: Option<u64>,
        prev: Option<u64>,
    ) -> (r: Result<Vec<TableOp>, StoreError>)
        ensures
            match r {
                Ok(ops) => {
                    &&& types::valid_name(old_name@)
                    &&& types::valid_name(new_name@)
                    &&& child is Some
                    &&& op_list(ops) == rename_ops(
                        tables::dirent(old_parent, old_name@),
                        tables::dirent(new_parent, new_name@),
                        child->0,
                        prev,
                    )
                },
                Err(e) => if !types::valid_name(old_name@) || !types::valid_name(new_name@) {
                    e == StoreError::InvalidName
                } else {
                    child is None && e == StoreError::NotFound
                },
            },
    {
        if let Err(e) = types::validate_name(old_name) {
            return Err(e);
        }
        if let Err(e) = types::validate_name(new_name) {
            return Err(e);
        }
        let ino: u64 = match child {
            Some(ino) => ino,
            None => {
                return Err(StoreError::NotFound);
            },
        };
        let old_key: String = tables::dirent_key(old_parent, old_name);
        let new_key: String = tables::dirent_key(new_parent, new_name);
        let same: bool = text::same_str(old_key.as_str(), new_key.as_str());
        let mut ops: Vec<TableOp> = Vec::new();
        let ghost (k0, k1) = (old_key@, new_key@);
        ops.push(TableOp::DelDirent(old_key));
        if !same {
            if let Some(p) = prev {
                ops.push(TableOp::DelDirent(new_key.clone()));
                ops.push(TableOp::DelInode(p));
                ops.push(TableOp::DelBlocksFrom(p, 0));
            }
        }
        ops.push(TableOp::PutDirent(new_key, ino));
        assert(op_list(ops) =~= rename_ops(k0, k1, ino, prev));
        Ok(ops)
    }

    /// Changes the attributes of a file. `existing` is its row.
    pub fn setattr(&self, ino: u64, attr: Attr, existing: Option<&Vec<u8>>) -> (r: Result<
        Vec<TableOp>,
        StoreError,
    >)
        ensures
            match existing {
                Some(raw) => match row::row_decoded(raw@) {
                    Some(before) => r matches Ok(ops) && op_list(ops) == seq![
                        OpView::PutInode(ino, row::row_bytes(row_with(before, attr))),
                    ],
                    None => r == Err::<Vec<TableOp>, StoreError>(
                        StoreError::BadRow(raw@.len() as usize),
                    ),
                },
                None => r == Err::<Vec<TableOp>, StoreError>(StoreError::NotFound),
            },
    {
        match existing {
            Some(raw) => {
                let before: InodeRow = match InodeRow::decode(raw) {
                    Ok(r) => r,
                    Err(e) => {
                        return Err(e);
                    },
                };
                let after: InodeRow = InodeRow {
                    size: attr.size,
                    perm: attr.perm,
                    uid: attr.uid,
                    gid: attr.gid,
                    mtime: attr.mtime,
                    atime: attr.atime,
                    ctime: attr.ctime,
                    ..before
                };
                let mut ops: Vec<TableOp> = Vec::new();
                ops.push(TableOp::PutInode(ino, after.encode()));
                assert(op_list(ops) =~= seq![
                    OpView::PutInode(ino, row::row_bytes(row_with(before, attr))),
                ]);
                Ok(ops)
            },
            None => Err(StoreError::NotFound),
        }
    }

    /// The attributes that a row and the writes that wait give a file.
    pub fn row_to_attr(&self, ino: u64, r: InodeRow) -> (attr: Attr)
        ensures
            attr == r.attr(
                ino,
                pending::size_through(
                    self.buffers.active@,
                    self.buffers.flushing@,
                    r.size,
                    ino,
                ),
            ),
    {
        Attr {
            ino,
            size: self.buffers.size_of(ino, r.size),
            kind: r.kind_to_filetype(),
            perm: r.perm,
            uid: r.uid,
            gid: r.gid,
            mtime: r.mtime,
            atime: r.atime,
            ctime: r.ctime,
            chunk_size: r.chunk_size,
        }
    }

    /// The attributes of a file, `row` being its row.
    pub fn getattr_ino(&self, ino: u64, row: Option<&Vec<u8>>) -> (attr: Option<Attr>)
        ensures
            attr == attr_through(
                self.buffers.active@,
                self.buffers.flushing@,
                ino,
                opt_bytes(row),
            ),
    {
        match row {
            Some(raw) => match InodeRow::decode(raw) {
                Ok(r) => Some(self.row_to_attr(ino, r)),
                Err(_) => None,
            },
            None => None,
        }
    }

    /// The length and the chunk size of a file; none for anything but a regular one.
    pub fn block_geometry(&self, ino: u64, row: Option<&Vec<u8>>) -> (g: Option<(u64, u32)>)
        ensures
            g == (match opt_bytes(row) {
                Some(raw) => match row::row_decoded(raw) {
                    Some(r) => if r.kind == 2 {
                        Some(
                            (
                                pending::size_through(
                                    self.buffers.active@,
                                    self.buffers.flushing@,
                                    r.size,
                                    ino,
                                ),
                                r.chunk_size,
                            ),
                        )
                    } else {
                        None
                    },
                    None => None,
                },
                None => None,
            }),
    {
        match row {
            Some(raw) => match InodeRow::decode(raw) {
                Ok(r) => if r.kind == 2 {
                    Some((self.buffers.size_of(ino, r.size), r.chunk_size))
                } else {
                    None
                },
                Err(_) => None,
            },
            None => None,
        }
    }

    /// A block; `stored` is what the table of blocks holds of it. The database need not be asked
    /// where the buffers know.
    pub fn get_block(&self, ino: u64, idx: u64, stored: Option<&Vec<u8>>) -> (b: Option<
        StoredBlock,
    >)
        ensures
            forall|t: Tables|
                #![trigger tables::decoded_blocks(t.blocks)]
                opt_bytes(stored) == (if t.blocks.contains_key(BlockKey { ino, idx }) {
                    Some(t.blocks[BlockKey { ino, idx }])
                } else {
                    None
                }) ==> block_view(b) == pending::read_through(
                    self.buffers.active@,
                    self.buffers.flushing@,
                    tables::decoded_blocks(t.blocks),
                    BlockKey { ino, idx },
                ),
            match self.buffers.active@.lookup(BlockKey { ino, idx }) {
                LookupView::Hit(x) => block_view(b) == Some(x),
                LookupView::Truncated => b is None,
                LookupView::Miss => match self.buffers.flushing@.lookup(BlockKey { ino, idx }) {
                    LookupView::Hit(x) => block_view(b) == Some(x),
                    LookupView::Truncated => b is None,
                    LookupView::Miss => match stored {
                        Some(raw) => block_view(b) == Some(tables::block_decoded(raw@)),
                        None => b is None,
                    },
                },
            },
    {
        match self.buffers.get_block(ino, idx) {
            BlockLookup::Hit(b) => Some(b),
            BlockLookup::Truncated => None,
            BlockLookup::Miss => match stored {
                Some(raw) => Some(tables::decode_block(raw)),
                None => None,
            },
        }
    }

    /// Starts a commit: what was active is flushing, its blocks are counted, and new writes go to
    /// an empty buffer. Tells whether there is anything to commit.
    pub fn begin_commit(&mut self, metrics: &mut Metrics) -> (any: bool)
        ensures
            *final(self) == (Container {
                buffers: final(self).buffers,
                flushing_blocks: if any {
                    final(self).buffers.flushing.blocks@.dom().len() as u64
                } else {
                    old(self).flushing_blocks
                },
                ..*old(self)
            }),
            any == (old(self).buffers.active@ != PendingView::empty()),
            any ==> {
                &&& final(self).buffers.active@ == old(self).buffers.flushing@
                &&& final(self).buffers.flushing@ == old(self).buffers.active@
                &&& *final(metrics) == (Metrics {
                    flushing_bytes_peak: final(metrics).flushing_bytes_peak,
                    ..*old(metrics)
                })
                &&& final(metrics).flushing_bytes_peak == peak(
                    old(metrics).flushing_bytes_peak,
                    final(self).buffers.flushing,
                )
            },
            !any ==> {
                &&& final(self).buffers.active@ == old(self).buffers.active@
                &&& final(self).buffers.flushing@ == old(self).buffers.flushing@
                &&& *final(metrics) == *old(metrics)
            },
    {
        if !self.buffers.begin_commit() {
            return false;
        }
        let (blocks, bytes): (u64, u64) = self.buffers.flushing_load();
        self.flushing_blocks = blocks;
        metrics.observe_flushing_bytes(bytes);
        true
    }

    /// Ends a commit: one that succeeded is counted with the blocks that it started with, one that
    /// failed puts its writes back behind those that came since.
    pub fn end_commit(&mut self, ok: bool, metrics: &mut Metrics)
        ensures
            *final(self) == (Container { buffers: final(self).buffers, ..*old(self) }),
            final(self).buffers.flushing@ == PendingView::empty(),
            final(self).buffers.active@ == (if ok {
                old(self).buffers.active@
            } else {
                old(self).buffers.active@.merged(old(self).buffers.flushing@)
            }),
            *final(metrics) == (if ok {
                Metrics {
                    commit_ok: metrics::wrapped(old(metrics).commit_ok, 1),
                    blocks_flushed: metrics::wrapped(
                        old(metrics).blocks_flushed,
                        old(self).flushing_blocks,
                    ),
                    ..*old(metrics)
                }
            } else {
                Metrics {
                    commit_failed: metrics::wrapped(old(metrics).commit_failed, 1),
                    ..*old(metrics)
                }
            }),
    {
        if ok {
            self.buffers.commit_succeeded();
            metrics.record_commit_ok(self.flushing_blocks);
        } else {
            self.buffers.commit_failed();
            metrics.record_commit_failed();
        }
    }
}

/// The larger of a peak and the stored bytes of a buffer, counted in 64 bits.
pub open spec fn peak(before: u64, p: Pending) -> u64 {
    let bytes = (pending::stored_bytes(p.blocks.seq(), p.blocks.seq().len() as int)
        % 0x1_0000_0000_0000_0000) as u64;
    if bytes > before {
        bytes
    } else {
        before
    }
}

/// The changes of a list.
pub open spec fn op_list(ops: Vec<TableOp>) -> Seq<OpView> {
    tables::op_views(ops@)
}

/// A block that may be there.
pub open spec fn block_view(b: Option<StoredBlock>) -> Option<BlockView> {
    match b {
        Some(b) => Some(b@),
        None => None,
    }
}

/// Whether the tables fit each other: no block and no entry without a row, and no two entries for
/// one file.
pub open spec fn sound(t: Tables) -> bool {
    &&& t.no_orphans()
    &&& t.entries_lead_somewhere()
    &&& forall|a: Seq<char>, b: Seq<char>|
        #![trigger t.dirents[a], t.dirents[b]]
        t.dirents.contains_key(a) && t.dirents.contains_key(b) && t.dirents[a] == t.dirents[b]
            ==> a == b
}

/// Different names, and the same name in different directories, have different keys.
pub proof fn names_are_kept_apart(p1: u64, n1: Seq<char>, p2: u64, n2: Seq<char>)
    requires
        tables::dirent(p1, n1) == tables::dirent(p2, n2),
    ensures
        p1 == p2,
        n1 == n2,
{
    let (a, b) = (text::decimal(p1 as nat), text::decimal(p2 as nat));
    let (k1, k2) = (tables::dirent(p1, n1), tables::dirent(p2, n2));
    text::decimal_digits(p1 as nat);
    text::decimal_digits(p2 as nat);
    assert(k1[a.len() as int] == '/');
    assert(k2[b.len() as int] == '/');
    if a.len() < b.len() {
        assert(k2[a.len() as int] == b[a.len() as int]);
    }
    if b.len() < a.len() {
        assert(k1[b.len() as int] == a[b.len() as int]);
    }
    assert(a =~= k1.subrange(0, a.len() as int));
    assert(b =~= k2.subrange(0, b.len() as int));
    text::decimal_injective(p1 as nat, p2 as nat);
    assert(n1 =~= k1.subrange(a.len() as int + 1, k1.len() as int));
    assert(n2 =~= k2.subrange(b.len() as int + 1, k2.len() as int));
}

/// A created file is found under its name, empty and with the attributes given; every other name
/// leads where it led, and the tables still fit each other.
pub proof fn created_file_is_found(t: Tables, ino: u64, parent: u64, name: Seq<char>, r: InodeRow)
    requires
        sound(t),
        entry_of(t, tables::dirent(parent, name)) is None,
        !t.inodes.contains_key(ino),
    ensures
        ({
            let after = t.after_all(create_ops(ino, parent, name, r));
            &&& sound(after)
            &&& entry_of(after, tables::dirent(parent, name)) == Some(ino)
            &&& after.inodes.contains_key(ino)
            &&& row::row_decoded(after.inodes[ino]) == Some(row::kept_row(r))
            &&& forall|idx: u64| !(#[trigger] after.blocks.contains_key(BlockKey { ino, idx }))
            &&& forall|key: Seq<char>| #[trigger]
                entry_of(after, key) == (if key == tables::dirent(parent, name) {
                    Some(ino)
                } else {
                    entry_of(t, key)
                })
            &&& forall|other: u64|
                other != ino ==> (#[trigger] after.inodes.contains_key(other)
                    == t.inodes.contains_key(other)) && (t.inodes.contains_key(other)
                    ==> after.inodes[other] == t.inodes[other])
        }),
{
    reveal_with_fuel(Tables::after_all, 3);
    let ops = create_ops(ino, parent, name, r);
    assert(ops.drop_last() =~= seq![ops[0]]);
    assert(ops.drop_last().drop_last() =~= Seq::empty());
    row::row_reads_back(r);
    let after = t.after_all(ops);
    assert(after.blocks == t.blocks);
    assert forall|a: Seq<char>, b: Seq<char>|
        #![trigger after.dirents[a], after.dirents[b]]
        after.dirents.contains_key(a) && after.dirents.contains_key(b) && after.dirents[a]
            == after.dirents[b] implies a == b by {
        let key = tables::dirent(parent, name);
        if a != key && b != key {
            assert(t.dirents[a] == t.dirents[b]);
        }
    }
}

/// A number above all that are in use stays so when it is given out and the next one is taken.
pub proof fn numbers_stay_ahead(t: Tables, next: u64, parent: u64, name: Seq<char>, r: InodeRow)
    requires
        forall|ino: u64| #[trigger] t.inodes.contains_key(ino) ==> ino < next,
        next < u64::MAX,
    ensures
        !t.inodes.contains_key(next),
        forall|ino: u64| #[trigger]
            t.after_all(create_ops(next, parent, name, r)).inodes.contains_key(ino) ==> ino < next
                + 1,
{
    reveal_with_fuel(Tables::after_all, 3);
    let ops = create_ops(next, parent, name, r);
    assert(ops.drop_last() =~= seq![ops[0]]);
    assert(ops.drop_last().drop_last() =~= Seq::empty());
}

proof fn unlinked(t: Tables, parent: u64, name: Seq<char>, child: u64)
    ensures
        ({
            let after = t.after_all(unlink_ops(parent, name, child));
            &&& after.dirents == t.dirents.remove(tables::dirent(parent, name))
            &&& after.inodes == t.inodes.remove(child)
            &&& after.blocks == crate::ordmap::without_tail(t.blocks, child, 0)
        }),
{
    reveal_with_fuel(Tables::after_all, 4);
    let ops = unlink_ops(parent, name, child);
    assert(ops.drop_last() =~= seq![ops[0], ops[1]]);
    assert(ops.drop_last().drop_last() =~= seq![ops[0]]);
    assert(ops.drop_last().drop_last().drop_last() =~= Seq::empty());
}

/// A removed file is gone: its name, its row and its blocks. Every other file is as it was, and
/// the tables still fit each other.
pub proof fn removed_file_is_gone(t: Tables, parent: u64, name: Seq<char>, child: u64)
    requires
        sound(t),
        entry_of(t, tables::dirent(parent, name)) == Some(child),
    ensures
        ({
            let after = t.after_all(unlink_ops(parent, name, child));
            &&& sound(after)
            &&& entry_of(after, tables::dirent(parent, name)) is None
            &&& !after.inodes.contains_key(child)
            &&& forall|idx: u64| !(#[trigger] after.blocks.contains_key(BlockKey { ino: child, idx }))
            &&& forall|key: Seq<char>|
                key != tables::dirent(parent, name) ==> #[trigger] entry_of(after, key) == entry_of(
                    t,
                    key,
                )
            &&& forall|k: BlockKey|
                k.ino != child ==> (#[trigger] after.blocks.contains_key(k)
                    == t.blocks.contains_key(k)) && (t.blocks.contains_key(k) ==> after.blocks[k]
                    == t.blocks[k])
            &&& forall|other: u64|
                other != child ==> (#[trigger] after.inodes.contains_key(other)
                    == t.inodes.contains_key(other)) && (t.inodes.contains_key(other)
                    ==> after.inodes[other] == t.inodes[other])
        }),
{
    unlinked(t, parent, name, child);
    let after = t.after_all(unlink_ops(parent, name, child));
    let gone = tables::dirent(parent, name);
    assert forall|key: Seq<char>| #[trigger] after.dirents.contains_key(
        key,
    ) implies after.inodes.contains_key(after.dirents[key]) by {
        assert(t.dirents.contains_key(key));
        if t.dirents[key] == child {
            assert(t.dirents[gone] == t.dirents[key]);
        }
    }
}

/// Removing a file that was just created leaves the tables as they were.
pub proof fn removing_undoes_creating(
    t: Tables,
    ino: u64,
    parent: u64,
    name: Seq<char>,
    r: InodeRow,
)
    requires
        sound(t),
        entry_of(t, tables::dirent(parent, name)) is None,
        !t.inodes.contains_key(ino),
    ensures
        t.after_all(create_ops(ino, parent, name, r)).after_all(unlink_ops(parent, name, ino)) == t,
{
    reveal_with_fuel(Tables::after_all, 3);
    let ops = create_ops(ino, parent, name, r);
    assert(ops.drop_last() =~= seq![ops[0]]);
    assert(ops.drop_last().drop_last() =~= Seq::empty());
    let mid = t.after_all(ops);
    unlinked(mid, parent, name, ino);
    let end = mid.after_all(unlink_ops(parent, name, ino));
    assert(end.dirents =~= t.dirents);
    assert(end.inodes =~= t.inodes);
    assert(end.blocks =~= t.blocks);
}

/// A renamed file is found under its new name with its row and its blocks as they were, and no
/// longer under the old one; the tables still fit each other.
pub proof fn renamed_file_is_found(
    t: Tables,
    old_key: Seq<char>,
    new_key: Seq<char>,
    child: u64,
)
    requires
        sound(t),
        entry_of(t, old_key) == Some(child),
    ensures
        ({
            let after = t.after_all(rename_ops(old_key, new_key, child, entry_of(t, new_key)));
            &&& sound(after)
            &&& entry_of(after, new_key) == Some(child)
            &&& old_key != new_key ==> entry_of(after, old_key) is None
            &&& after.inodes.contains_key(child)
            &&& after.inodes[child] == t.inodes[child]
            &&& forall|idx: u64|
                {
                    let k = BlockKey { ino: child, idx };
                    &&& #[trigger] after.blocks.contains_key(BlockKey { ino: child, idx })
                        == t.blocks.contains_key(k)
                    &&& t.blocks.contains_key(k) ==> after.blocks[k] == t.blocks[k]
                }
        }),
{
    reveal_with_fuel(Tables::after_all, 6);
    let prev = entry_of(t, new_key);
    let ops = rename_ops(old_key, new_key, child, prev);
    let after = t.after_all(ops);
    assert(t.dirents.contains_key(old_key) && t.dirents[old_key] == child);
    assert(t.inodes.contains_key(child));
    if old_key != new_key && prev is Some {
        let p = prev->0;
        assert(t.dirents[new_key] == p);
        assert(p != child);
        let o4 = ops.drop_last();
        let o3 = o4.drop_last();
        let o2 = o3.drop_last();
        let o1 = o2.drop_last();
        assert(o1.drop_last() =~= Seq::empty());
        let t1 = t.after(ops[0]);
        let t2 = t1.after(ops[1]);
        let t3 = t2.after(ops[2]);
        let t4 = t3.after(ops[3]);
        assert(t.after_all(o1) == t1);
        assert(t.after_all(o2) == t2);
        assert(t.after_all(o3) == t3);
        assert(t.after_all(o4) == t4);
        assert(after == t4.after(ops[4]));
        assert(after.dirents =~= t.dirents.remove(old_key).insert(new_key, child));
        assert(after.inodes == t.inodes.remove(p));
        assert(after.blocks == crate::ordmap::without_tail(t.blocks, p, 0));
        assert forall|key: Seq<char>| #[trigger] after.dirents.contains_key(
            key,
        ) implies after.inodes.contains_key(after.dirents[key]) by {
            if key != new_key {
                assert(t.dirents.contains_key(key));
                if t.dirents[key] == p {
                    assert(t.dirents[new_key] == t.dirents[key]);
                }
            }
        }
    } else {
        let o1 = ops.drop_last();
        assert(o1.drop_last() =~= Seq::empty());
        assert(t.after_all(o1) == t.after(ops[0]));
        assert(after == t.after(ops[0]).after(ops[1]));
        assert(after.dirents =~= t.dirents.remove(old_key).insert(new_key, child));
        assert(after.inodes == t.inodes);
        assert(after.blocks == t.blocks);
        assert forall|key: Seq<char>| #[trigger] after.dirents.contains_key(
            key,
        ) implies after.inodes.contains_key(after.dirents[key]) by {
            if key != new_key {
                assert(t.dirents.contains_key(key));
            }
        }
    }
    assert forall|a: Seq<char>, b: Seq<char>|
        #![trigger after.dirents[a], after.dirents[b]]
        after.dirents.contains_key(a) && after.dirents.contains_key(b) && after.dirents[a]
            == after.dirents[b] implies a == b by {
        if a != new_key && b != new_key {
            assert(t.dirents[a] == t.dirents[b]);
        } else if a != new_key {
            assert(t.dirents[a] == t.dirents[old_key]);
        } else if b != new_key {
            assert(t.dirents[b] == t.dirents[old_key]);
        }
    }
}

/// A commit leaves every name where it leads, and tables that fit each other go on fitting.
pub proof fn commit_keeps_names(t: Tables, p: PendingView, now: Time)
    requires
        sound(t),
    ensures
        sound(tables::committed(t, p, now)),
        tables::committed(t, p, now).dirents == t.dirents,
{
    let after = tables::committed(t, p, now);
    assert forall|key: Seq<char>| #[trigger] after.dirents.contains_key(
        key,
    ) implies after.inodes.contains_key(after.dirents[key]) by {
        assert(t.dirents.contains_key(key));
    }
    assert forall|a: Seq<char>, b: Seq<char>|
        #![trigger after.dirents[a], after.dirents[b]]
        after.dirents.contains_key(a) && after.dirents.contains_key(b) && after.dirents[a]
            == after.dirents[b] implies a == b by {
        assert(t.dirents[a] == t.dirents[b]);
    }
}

/// Whether `entries` is the table of directory entries, in some order.
pub open spec fn is_table(entries: Seq<(String, u64)>, dirents: Map<Seq<char>, u64>) -> bool {
    &&& forall|i: int|
        0 <= i < entries.len() ==> dirents.contains_key((#[trigger] entries[i]).0@)
            && dirents[entries[i].0@] == entries[i].1
    &&& forall|key: Seq<char>| #[trigger]
        dirents.contains_key(key) ==> exists|i: int|
            0 <= i < entries.len() && (#[trigger] entries[i]).0@ == key
}

proof fn listed_has(
    dir: u64,
    entries: Seq<(String, u64)>,
    rows: Map<u64, Seq<u8>>,
    n: int,
    e: DirEntryView,
)
    requires
        0 <= n <= entries.len(),
    ensures
        listed(dir, entries, rows, n).contains(e) == (exists|i: int|
            0 <= i < n && listed_entry(dir, (#[trigger] entries[i]).0@, entries[i].1, rows) == Some(
                e,
            )),
    decreases n,
{
    if n > 0 {
        listed_has(dir, entries, rows, n - 1, e);
        let before = listed(dir, entries, rows, n - 1);
        let now = listed(dir, entries, rows, n);
        let last = listed_entry(dir, entries[n - 1].0@, entries[n - 1].1, rows);
        if now.contains(e) {
            let j = choose|j: int| 0 <= j < now.len() && now[j] == e;
            if j < before.len() {
                assert(before[j] == e);
                assert(before.contains(e));
            } else {
                assert(last == Some(e));
            }
        }
        if before.contains(e) {
            let j = choose|j: int| 0 <= j < before.len() && before[j] == e;
            assert(now[j] == e);
        }
        if last == Some(e) {
            assert(now[now.len() - 1] == e);
        }
    }
}

/// A directory lists exactly its files: a name is listed where its key leads to a file whose row
/// can be read, with that file's kind.
pub proof fn directory_lists_its_files(
    dir: u64,
    entries: Seq<(String, u64)>,
    t: Tables,
    e: DirEntryView,
)
    requires
        is_table(entries, t.dirents),
        types::valid_name(e.name),
    ensures
        listed(dir, entries, t.inodes, entries.len() as int).contains(e) == {
            &&& entry_of(t, tables::dirent(dir, e.name)) == Some(e.ino)
            &&& t.inodes.contains_key(e.ino)
            &&& row::row_decoded(t.inodes[e.ino]) is Some
            &&& (row::row_decoded(t.inodes[e.ino])->0).file_kind() == e.kind
        },
{
    listed_has(dir, entries, t.inodes, entries.len() as int, e);
    let prefix = text::decimal(dir as nat) + seq!['/'];
    let key = tables::dirent(dir, e.name);
    assert(key =~= prefix + e.name);
    assert(prefix =~= key.subrange(0, prefix.len() as int));
    assert(key.subrange(prefix.len() as int, key.len() as int) =~= e.name);
    assert(child_name(dir, key) == Some(e.name));
    assert forall|i: int|
        0 <= i < entries.len() && listed_entry(
            dir,
            (#[trigger] entries[i]).0@,
            entries[i].1,
            t.inodes,
        ) == Some(e) implies entries[i].0@ == key by {
        let k = entries[i].0@;
        assert(prefix.is_prefix_of(k));
        assert(k =~= prefix + k.subrange(prefix.len() as int, k.len() as int));
    }
    if entry_of(t, key) == Some(e.ino) {
        let i = choose|i: int| 0 <= i < entries.len() && (#[trigger] entries[i]).0@ == key;
        assert(entries[i].1 == e.ino);
    }
}

/// Attributes that were set are those that are told afterwards: permissions, owner, group and times,
/// and the length unless a write of another one waits; the kind and the chunk size stay, and no other
/// file is touched.
pub proof fn set_attributes_are_told(
    t: Tables,
    active: PendingView,
    flushing: PendingView,
    ino: u64,
    attr: Attr,
    other: u64,
)
    requires
        t.inodes.contains_key(ino),
        row::row_decoded(t.inodes[ino]) is Some,
    ensures
        ({
            let before = row::row_decoded(t.inodes[ino])->0;
            let after = t.after_all(
                seq![OpView::PutInode(ino, row::row_bytes(row_with(before, attr)))],
            );
            &&& attr_through(active, flushing, ino, Some(after.inodes[ino])) matches Some(a) && {
                &&& a.ino == ino
                &&& a.perm == attr.perm
                &&& a.uid == attr.uid
                &&& a.gid == attr.gid
                &&& attr.mtime.secs >= 0 ==> a.mtime == attr.mtime
                &&& attr.mtime.secs < 0 ==> a.mtime.secs == 0 && a.mtime.nanos == 0
                &&& attr.atime.secs >= 0 ==> a.atime == attr.atime
                &&& attr.atime.secs < 0 ==> a.atime.secs == 0 && a.atime.nanos == 0
                &&& attr.ctime.secs >= 0 ==> a.ctime == attr.ctime
                &&& attr.ctime.secs < 0 ==> a.ctime.secs == 0 && a.ctime.nanos == 0
                &&& !active.sizes.contains_key(ino) && !flushing.sizes.contains_key(ino) ==> a.size
                    == attr.size
                &&& a.chunk_size == before.chunk_size
                &&& a.kind == FileKind::Directory <==> before.kind == 1
            }
            &&& after.dirents == t.dirents
            &&& after.blocks == t.blocks
            &&& other != ino ==> after.inodes.contains_key(other) == t.inodes.contains_key(other)
                && (t.inodes.contains_key(other) ==> after.inodes[other] == t.inodes[other])
        }),
{
    let before = row::row_decoded(t.inodes[ino])->0;
    let ops = seq![OpView::PutInode(ino, row::row_bytes(row_with(before, attr)))];
    reveal_with_fuel(Tables::after_all, 2);
    assert(ops.drop_last() =~= Seq::empty());
    row::row_reads_back(row_with(before, attr));
}

/// A file is made with the attributes given and is empty; it is a directory where that is asked for
/// and a regular file otherwise, and has the chunk size given or else the default one.
pub proof fn new_file_is_told_as_it_was_made(
    active: PendingView,
    flushing: PendingView,
    ino: u64,
    attr: Attr,
    default_chunk_size: u32,
)
    ensures
        attr_through(
            active,
            flushing,
            ino,
            Some(row::row_bytes(new_row(attr, default_chunk_size))),
        ) matches Some(a) && {
            &&& a.ino == ino
            &&& a.perm == attr.perm
            &&& a.uid == attr.uid
            &&& a.gid == attr.gid
            &&& attr.mtime.secs >= 0 ==> a.mtime == attr.mtime
            &&& attr.mtime.secs < 0 ==> a.mtime.secs == 0 && a.mtime.nanos == 0
            &&& attr.atime.secs >= 0 ==> a.atime == attr.atime
            &&& attr.atime.secs < 0 ==> a.atime.secs == 0 && a.atime.nanos == 0
            &&& attr.ctime.secs >= 0 ==> a.ctime == attr.ctime
            &&& attr.ctime.secs < 0 ==> a.ctime.secs == 0 && a.ctime.nanos == 0
            &&& !active.sizes.contains_key(ino) && !flushing.sizes.contains_key(ino) ==> a.size == 0
            &&& a.kind == FileKind::Directory <==> attr.kind == FileKind::Directory
            &&& a.kind == FileKind::RegularFile <==> attr.kind != FileKind::Directory
            &&& attr.chunk_size != 0 ==> a.chunk_size == attr.chunk_size
            &&& attr.chunk_size == 0 ==> a.chunk_size == default_chunk_size
        },
{
    row::row_reads_back(new_row(attr, default_chunk_size));
}

/// The root of a new container is a directory that all may read and its owner may write.
pub proof fn root_is_a_directory(chunk_size: u32, now: Time)
    ensures
        row::row_decoded(row::row_bytes(root_row(chunk_size, now))) matches Some(r) && {
            &&& r.file_kind() == FileKind::Directory
            &&& r.perm == 0o755
            &&& r.uid == 0 && r.gid == 0 && r.size == 0
            &&& r.chunk_size == chunk_size
            &&& r.atime == r.mtime && r.ctime == r.mtime
            &&& now.secs >= 0 ==> r.mtime == now
            &&& now.secs < 0 ==> r.mtime.secs == 0 && r.mtime.nanos == 0
        },
{
    row::row_reads_back(root_row(chunk_size, now));
}

/// A file without a row, or with one that cannot be read, has no attributes.
pub proof fn no_row_no_attributes(
    active: PendingView,
    flushing: PendingView,
    ino: u64,
    raw: Seq<u8>,
)
    ensures
        attr_through(active, flushing, ino, None) is None,
        attr_through(active, flushing, ino, Some(raw)) is Some <==> raw.len() == 23 || raw.len()
            == 59,
{
}

/// Renaming leaves every other name where it leads, and every file but one that had the new name
/// with its row and its blocks; that one is gone.
pub proof fn renaming_leaves_the_others(
    t: Tables,
    old_key: Seq<char>,
    new_key: Seq<char>,
    child: u64,
    key: Seq<char>,
    ino: u64,
    idx: u64,
)
    requires
        sound(t),
        entry_of(t, old_key) == Some(child),
    ensures
        ({
            let had = entry_of(t, new_key);
            let after = t.after_all(rename_ops(old_key, new_key, child, had));
            let k = BlockKey { ino, idx };
            &&& key != old_key && key != new_key ==> entry_of(after, key) == entry_of(t, key)
            &&& had != Some(ino) || old_key == new_key ==> {
                &&& after.inodes.contains_key(ino) == t.inodes.contains_key(ino)
                &&& t.inodes.contains_key(ino) ==> after.inodes[ino] == t.inodes[ino]
                &&& after.blocks.contains_key(k) == t.blocks.contains_key(k)
                &&& t.blocks.contains_key(k) ==> after.blocks[k] == t.blocks[k]
            }
            &&& had == Some(ino) && old_key != new_key ==> !after.inodes.contains_key(ino)
                && !after.blocks.contains_key(k)
        }),
{
    reveal_with_fuel(Tables::after_all, 6);
    let had = entry_of(t, new_key);
    let ops = rename_ops(old_key, new_key, child, had);
    if old_key != new_key && had is Some {
        let o4 = ops.drop_last();
        let o3 = o4.drop_last();
        let o2 = o3.drop_last();
        let o1 = o2.drop_last();
        assert(o1.drop_last() =~= Seq::empty());
        let t1 = t.after(ops[0]);
        let t2 = t1.after(ops[1]);
        let t3 = t2.after(ops[2]);
        let t4 = t3.after(ops[3]);
        assert(t.after_all(o1) == t1);
        assert(t.after_all(o2) == t2);
        assert(t.after_all(o3) == t3);
        assert(t.after_all(o4) == t4);
        assert(t.after_all(ops) == t4.after(ops[4]));
    } else {
        let o1 = ops.drop_last();
        assert(o1.drop_last() =~= Seq::empty());
        assert(t.after_all(o1) == t.after(ops[0]));
        assert(t.after_all(ops) == t.after(ops[0]).after(ops[1]));
    }
}

/// A peak is never below what it was nor below what is observed, and is one of the two.
pub proof fn peak_is_the_greater(before: u64, p: Pending)
    requires
        pending::stored_bytes(p.blocks.seq(), p.blocks.seq().len() as int) <= u64::MAX,
    ensures
        ({
            let bytes = pending::stored_bytes(p.blocks.seq(), p.blocks.seq().len() as int);
            &&& peak(before, p) >= before
            &&& peak(before, p) >= bytes
            &&& peak(before, p) == before || peak(before, p) == bytes
        }),
{
}

/// A listing has an entry of the table at most once, and in the order of the table: one entry more adds
/// itself at the end, or nothing.
pub proof fn listing_goes_entry_by_entry(
    dir: u64,
    entries: Seq<(String, u64)>,
    rows: Map<u64, Seq<u8>>,
    n: int,
)
    requires
        0 <= n < entries.len(),
    ensures
        ({
            let before = listed(dir, entries, rows, n);
            let after = listed(dir, entries, rows, n + 1);
            &&& listed(dir, entries, rows, 0).len() == 0
            &&& after == before || (after.len() == before.len() + 1 && after.drop_last() == before
                && after.last().ino == entries[n].1 && entries[n].0@ == tables::dirent(
                dir,
                after.last().name,
            ))
        }),
{
    let before = listed(dir, entries, rows, n);
    let after = listed(dir, entries, rows, n + 1);
    match listed_entry(dir, entries[n].0@, entries[n].1, rows) {
        Some(e) => {
            let prefix = text::decimal(dir as nat) + seq!['/'];
            assert(after.drop_last() =~= before);
            assert(entries[n].0@ =~= prefix + e.name);
        },
        None => {},
    }
}

} // verus!
