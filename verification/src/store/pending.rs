//! Writes that a container has taken but not committed yet.
//!
//! New writes go to the active buffer. A commit moves them to the flushing buffer, writes that to
//! the database, and empties it; reads look into both buffers before they ask the database, so
//! nothing is missing while a commit runs. A commit that fails merges its writes back.
use vstd::prelude::*;

use super::types::{BlockView, StoredBlock};
use crate::ordmap;
use crate::ordmap::{BlockKey, Key, OrdMap};

verus! {

/// Writes that wait for a commit.
pub struct Pending {
    /// Blocks.
    pub blocks: OrdMap<BlockKey, StoredBlock>,
    /// Logical lengths, by file.
    pub sizes: OrdMap<u64, u64>,
    /// Truncations: blocks from that chunk on go, by file.
    pub truncations: OrdMap<u64, u64>,
}

/// Writes that wait for a commit, as a mathematical value.
#[verifier::ext_equal]
pub struct PendingView {
    pub blocks: Map<BlockKey, BlockView>,
    pub sizes: Map<u64, u64>,
    pub truncations: Map<u64, u64>,
}

/// The views of some blocks.
pub open spec fn block_views(m: Map<BlockKey, StoredBlock>) -> Map<BlockKey, BlockView> {
    Map::new(|k: BlockKey| m.contains_key(k), |k: BlockKey| m[k]@)
}

impl View for Pending {
    type V = PendingView;

    open spec fn view(&self) -> PendingView {
        PendingView {
            blocks: block_views(self.blocks@),
            sizes: self.sizes@,
            truncations: self.truncations@,
        }
    }
}

/// What a buffer says of a block.
pub enum BlockLookup {
    /// It holds the block.
    Hit(StoredBlock),
    /// It cut the block off.
    Truncated,
    /// It says nothing of the block.
    Miss,
}

/// What a buffer says of a block, as a mathematical value.
#[verifier::ext_equal]
pub enum LookupView {
    Hit(BlockView),
    Truncated,
    Miss,
}

impl View for BlockLookup {
    type V = LookupView;

    open spec fn view(&self) -> LookupView {
        match self {
            BlockLookup::Hit(b) => LookupView::Hit(b@),
            BlockLookup::Truncated => LookupView::Truncated,
            BlockLookup::Miss => LookupView::Miss,
        }
    }
}

impl PendingView {
    /// No writes.
    pub open spec fn empty() -> PendingView {
        PendingView { blocks: Map::empty(), sizes: Map::empty(), truncations: Map::empty() }
    }

    /// Whether a truncation cut the block off.
    pub open spec fn cuts(&self, k: BlockKey) -> bool {
        self.truncations.contains_key(k.ino) && k.idx >= self.truncations[k.ino]
    }

    /// What it says of a block: a block written stands before a truncation.
    pub open spec fn lookup(&self, k: BlockKey) -> LookupView {
        if self.blocks.contains_key(k) {
            LookupView::Hit(self.blocks[k])
        } else if self.cuts(k) {
            LookupView::Truncated
        } else {
            LookupView::Miss
        }
    }

    /// The writes with a block and the length that goes with it.
    pub open spec fn with_block(&self, k: BlockKey, b: BlockView, size: u64) -> PendingView {
        PendingView {
            blocks: self.blocks.insert(k, b),
            sizes: self.sizes.insert(k.ino, size),
            ..*self
        }
    }

    /// The writes with a truncation: the blocks from `keep_from` on go, and so do those of an
    /// earlier truncation that kept less.
    pub open spec fn truncated(&self, ino: u64, keep_from: u64, size: u64) -> PendingView {
        PendingView {
            blocks: ordmap::without_tail(self.blocks, ino, keep_from),
            sizes: self.sizes.insert(ino, size),
            truncations: self.truncations.insert(
                ino,
                if self.truncations.contains_key(ino) && self.truncations[ino] < keep_from {
                    self.truncations[ino]
                } else {
                    keep_from
                },
            ),
        }
    }

    /// The writes without those of a file.
    pub open spec fn without_file(&self, ino: u64) -> PendingView {
        PendingView {
            blocks: ordmap::without_tail(self.blocks, ino, 0),
            sizes: self.sizes.remove(ino),
            truncations: self.truncations.remove(ino),
        }
    }

    /// The writes with those of a commit that failed: newer writes stand, and a block that a newer
    /// truncation cut off does not come back.
    pub open spec fn merged(&self, older: PendingView) -> PendingView {
        PendingView {
            blocks: Map::new(
                |k: BlockKey|
                    self.blocks.contains_key(k) || (older.blocks.contains_key(k) && !self.cuts(k)),
                |k: BlockKey|
                    if self.blocks.contains_key(k) {
                        self.blocks[k]
                    } else {
                        older.blocks[k]
                    },
            ),
            sizes: older.sizes.union_prefer_right(self.sizes),
            truncations: older.truncations.union_prefer_right(self.truncations),
        }
    }
}

/// A block as a read finds it: in the active buffer, in the flushing buffer, in the database.
pub open spec fn read_through(
    active: PendingView,
    flushing: PendingView,
    db: Map<BlockKey, BlockView>,
    k: BlockKey,
) -> Option<BlockView> {
    match active.lookup(k) {
        LookupView::Hit(b) => Some(b),
        LookupView::Truncated => None,
        LookupView::Miss => match flushing.lookup(k) {
            LookupView::Hit(b) => Some(b),
            LookupView::Truncated => None,
            LookupView::Miss => if db.contains_key(k) {
                Some(db[k])
            } else {
                None
            },
        },
    }
}

/// The length of a file as a read finds it; `row_size` is what the database says.
pub open spec fn size_through(
    active: PendingView,
    flushing: PendingView,
    row_size: u64,
    ino: u64,
) -> u64 {
    if active.sizes.contains_key(ino) {
        active.sizes[ino]
    } else if flushing.sizes.contains_key(ino) {
        flushing.sizes[ino]
    } else {
        row_size
    }
}

impl Pending {
    /// No writes.
    pub fn new() -> (p: Pending)
        ensures
            p@ == PendingView::empty(),
    {
        let p: Pending = Pending {
            blocks: OrdMap::new(),
            sizes: OrdMap::new(),
            truncations: OrdMap::new(),
        };
        assert(p@.blocks =~= PendingView::empty().blocks);
        p
    }

    /// Whether there are no writes.
    pub fn is_empty(&self) -> (b: bool)
        ensures
            b == (self@ == PendingView::empty()),
    {
        let b: bool = self.blocks.is_empty() && self.sizes.is_empty()
            && self.truncations.is_empty();
        proof {
            if self.blocks@ == Map::<BlockKey, StoredBlock>::empty() {
                assert(self@.blocks =~= PendingView::empty().blocks);
            } else if self@.blocks == PendingView::empty().blocks {
                assert(self.blocks@ =~= Map::<BlockKey, StoredBlock>::empty()) by {
                    assert forall|k: BlockKey| !self.blocks@.contains_key(k) by {
                        assert(!self@.blocks.contains_key(k));
                    }
                }
            }
        }
        b
    }

    /// What it says of a block.
    pub fn lookup_block(&self, ino: u64, idx: u64) -> (r: BlockLookup)
        ensures
            r@ == self@.lookup(BlockKey { ino, idx }),
    {
        if let Some(b) = self.blocks.get(&BlockKey { ino, idx }) {
            return BlockLookup::Hit(b.clone());
        }
        if let Some(keep_from) = self.truncations.get(&ino) {
            if idx >= *keep_from {
                return BlockLookup::Truncated;
            }
        }
        BlockLookup::Miss
    }

    /// Takes a block and the length that goes with it.
    pub fn put_block(&mut self, ino: u64, idx: u64, blk: StoredBlock, new_size: u64)
        ensures
            final(self)@ == old(self)@.with_block(BlockKey { ino, idx }, blk@, new_size),
    {
        let ghost v = self@;
        self.blocks.insert(BlockKey { ino, idx }, blk);
        self.sizes.insert(ino, new_size);
        assert(self@.blocks =~= v.blocks.insert(BlockKey { ino, idx }, blk@));
    }

    /// Takes a truncation.
    pub fn truncate_blocks(&mut self, ino: u64, keep_from: u64, new_size: u64)
        ensures
            final(self)@ == old(self)@.truncated(ino, keep_from, new_size),
    {
        let ghost v = self@;
        self.blocks.cut_tail(ino, keep_from);
        let least: u64 = match self.truncations.get(&ino) {
            Some(k) => if *k < keep_from {
                *k
            } else {
                keep_from
            },
            None => keep_from,
        };
        self.truncations.insert(ino, least);
        self.sizes.insert(ino, new_size);
        assert(self@.blocks =~= ordmap::without_tail(v.blocks, ino, keep_from));
    }

    /// Drops the writes of a file.
    pub fn forget_file(&mut self, ino: u64)
        ensures
            final(self)@ == old(self)@.without_file(ino),
    {
        let ghost v = self@;
        self.blocks.cut_tail(ino, 0);
        self.sizes.remove(&ino);
        self.truncations.remove(&ino);
        assert(self@.blocks =~= ordmap::without_tail(v.blocks, ino, 0));
    }

    /// Takes back the writes of a commit that failed: newer writes stand.
    pub fn merge_from_flushing(&mut self, flushing: Pending)
        ensures
            final(self)@ == old(self)@.merged(flushing@),
    {
        let ghost v = self@;
        let ghost w = flushing@;
        let ghost older = flushing.blocks@;
        let entries: &Vec<(BlockKey, StoredBlock)> = flushing.blocks.entries();
        let ghost es = entries@;
        let mut i: usize = 0;
        while i < entries.len()
            invariant
                i <= entries@.len(),
                entries@ == es,
                ordmap::sorted(es),
                older == ordmap::as_map(es),
                w.blocks == block_views(older),
                self.sizes@ == v.sizes,
                self.truncations@ == v.truncations,
                forall|k: BlockKey|
                    #![trigger self@.blocks.contains_key(k)]
                    self@.blocks.contains_key(k) == (v.blocks.contains_key(k) || (!v.cuts(k)
                        && exists|j: int| 0 <= j < i && #[trigger] es[j].0.key() == k)),
                forall|k: BlockKey| #[trigger]
                    self@.blocks.contains_key(k) ==> self@.blocks[k] == v.merged(w).blocks[k],
            decreases entries@.len() - i,
        {
            let ghost before = self@;
            let key: BlockKey = entries[i].0;
            let cut: bool = match self.truncations.get(&key.ino) {
                Some(keep_from) => key.idx >= *keep_from,
                None => false,
            };
            if !cut && !self.blocks.contains_key(&key) {
                self.blocks.insert(key, entries[i].1.clone());
            }
            proof {
                assert(es[i as int].0.key() == key);
                ordmap::entry_in_map(es, i as int);
                assert(before.blocks.contains_key(key) == (v.blocks.contains_key(key) || (!v.cuts(
                    key,
                ) && exists|j: int| 0 <= j < i && #[trigger] es[j].0.key() == key)));
                assert forall|k: BlockKey|
                    #![trigger self@.blocks.contains_key(k)]
                    self@.blocks.contains_key(k) == (v.blocks.contains_key(k) || (!v.cuts(k)
                        && exists|j: int| 0 <= j < i + 1 && #[trigger] es[j].0.key() == k)) by {
                    assert(before.blocks.contains_key(k) == (v.blocks.contains_key(k) || (!v.cuts(
                        k,
                    ) && exists|j: int| 0 <= j < i && #[trigger] es[j].0.key() == k)));
                    if k == key {
                        assert(es[i as int].0.key() == k);
                    }
                    if exists|j: int| 0 <= j < i + 1 && #[trigger] es[j].0.key() == k {
                        let j = choose|j: int| 0 <= j < i + 1 && #[trigger] es[j].0.key() == k;
                        if j < i {
                            assert(es[j].0.key() == k);
                        }
                    }
                }
                assert forall|k: BlockKey| #[trigger] self@.blocks.contains_key(k) implies
                    self@.blocks[k] == v.merged(w).blocks[k] by {
                    assert(before.blocks.contains_key(k) || k == key);
                    if k == key && !before.blocks.contains_key(k) {
                        assert(w.blocks.contains_key(k));
                        assert(w.blocks[k] == es[i as int].1@);
                    }
                }
            }
            i = i + 1;
        }
        proof {
            assert forall|k: BlockKey| self@.blocks.contains_key(k) == v.merged(
                w,
            ).blocks.contains_key(k) by {
                if w.blocks.contains_key(k) {
                    assert(ordmap::has_key(es, k));
                }
                if exists|j: int| 0 <= j < i && #[trigger] es[j].0.key() == k {
                    assert(ordmap::has_key(es, k));
                }
            }
            assert(self@.blocks =~= v.merged(w).blocks);
        }
        merge_numbers(&mut self.sizes, &flushing.sizes);
        merge_numbers(&mut self.truncations, &flushing.truncations);
    }
}

/// Takes the numbers of `older` for the keys that have none.
fn merge_numbers(m: &mut OrdMap<u64, u64>, older: &OrdMap<u64, u64>)
    ensures
        final(m)@ == older@.union_prefer_right(old(m)@),
{
    let ghost v = m@;
    let entries: &Vec<(u64, u64)> = older.entries();
    let ghost es = entries@;
    let mut i: usize = 0;
    while i < entries.len()
        invariant
            i <= entries@.len(),
            entries@ == es,
            ordmap::sorted(es),
            older@ == ordmap::as_map(es),
            forall|k: u64|
                #![trigger m@.contains_key(k)]
                m@.contains_key(k) == (v.contains_key(k) || exists|j: int|
                    0 <= j < i && #[trigger] es[j].0.key() == k),
            forall|k: u64| #[trigger]
                m@.contains_key(k) ==> m@[k] == (if v.contains_key(k) {
                    v[k]
                } else {
                    older@[k]
                }),
        decreases entries@.len() - i,
    {
        let ghost before = m@;
        let (k0, n0): (u64, u64) = entries[i];
        if !m.contains_key(&k0) {
            m.insert(k0, n0);
        }
        proof {
            assert(es[i as int].0.key() == k0);
            ordmap::entry_in_map(es, i as int);
            assert forall|k: u64|
                #![trigger m@.contains_key(k)]
                m@.contains_key(k) == (v.contains_key(k) || exists|j: int|
                    0 <= j < i + 1 && #[trigger] es[j].0.key() == k) by {
                assert(before.contains_key(k) == (v.contains_key(k) || exists|j: int|
                    0 <= j < i && #[trigger] es[j].0.key() == k));
                if k == k0 {
                    assert(es[i as int].0.key() == k);
                }
                if exists|j: int| 0 <= j < i + 1 && #[trigger] es[j].0.key() == k {
                    let j = choose|j: int| 0 <= j < i + 1 && #[trigger] es[j].0.key() == k;
                    if j < i {
                        assert(es[j].0.key() == k);
                    }
                }
            }
            assert forall|k: u64| #[trigger] m@.contains_key(k) implies m@[k] == (if v.contains_key(
                k,
            ) {
                v[k]
            } else {
                older@[k]
            }) by {
                assert(before.contains_key(k) || k == k0);
                assert(before.contains_key(k0) == (v.contains_key(k0) || exists|j: int|
                    0 <= j < i && #[trigger] es[j].0.key() == k0));
            }
        }
        i = i + 1;
    }
    proof {
        assert forall|k: u64| m@.contains_key(k) == older@.union_prefer_right(v).contains_key(k) by {
            if older@.contains_key(k) {
                assert(ordmap::has_key(es, k));
            }
            if exists|j: int| 0 <= j < i && #[trigger] es[j].0.key() == k {
                assert(ordmap::has_key(es, k));
            }
        }
        assert(m@ =~= older@.union_prefer_right(v));
    }
}

/// The two buffers of a container.
pub struct Buffers {
    /// Takes new writes.
    pub active: Pending,
    /// Is being written to the database.
    pub flushing: Pending,
}

impl Buffers {
    /// Buffers without writes.
    pub fn new() -> (b: Buffers)
        ensures
            b.active@ == PendingView::empty(),
            b.flushing@ == PendingView::empty(),
    {
        Buffers { active: Pending::new(), flushing: Pending::new() }
    }

    /// What the buffers say of a block: the active one first.
    pub fn get_block(&self, ino: u64, idx: u64) -> (r: BlockLookup)
        ensures
            r@ == (match self.active@.lookup(BlockKey { ino, idx }) {
                LookupView::Miss => self.flushing@.lookup(BlockKey { ino, idx }),
                found => found,
            }),
            forall|db: Map<BlockKey, BlockView>|
                #![trigger read_through(self.active@, self.flushing@, db, (BlockKey { ino, idx }))]
                read_through(self.active@, self.flushing@, db, (BlockKey { ino, idx })) == (match r@ {
                    LookupView::Hit(b) => Some(b),
                    LookupView::Truncated => None,
                    LookupView::Miss => if db.contains_key(BlockKey { ino, idx }) {
                        Some(db[BlockKey { ino, idx }])
                    } else {
                        None
                    },
                }),
    {
        match self.active.lookup_block(ino, idx) {
            BlockLookup::Miss => self.flushing.lookup_block(ino, idx),
            found => found,
        }
    }

    /// The length of a file: `row_size` where neither buffer has one.
    pub fn size_of(&self, ino: u64, row_size: u64) -> (n: u64)
        ensures
            n == size_through(self.active@, self.flushing@, row_size, ino),
    {
        match self.active.sizes.get(&ino) {
            Some(n) => *n,
            None => match self.flushing.sizes.get(&ino) {
                Some(n) => *n,
                None => row_size,
            },
        }
    }

    /// Takes a block.
    pub fn put_block(&mut self, ino: u64, idx: u64, blk: StoredBlock, new_size: u64)
        ensures
            final(self).active@ == old(self).active@.with_block(
                BlockKey { ino, idx },
                blk@,
                new_size,
            ),
            final(self).flushing@ == old(self).flushing@,
    {
        self.active.put_block(ino, idx, blk, new_size);
    }

    /// Takes a truncation.
    pub fn truncate_blocks(&mut self, ino: u64, keep_from: u64, new_size: u64)
        ensures
            final(self).active@ == old(self).active@.truncated(ino, keep_from, new_size),
            final(self).flushing@ == old(self).flushing@,
    {
        self.active.truncate_blocks(ino, keep_from, new_size);
    }

    /// Drops the writes of a file that is removed.
    pub fn forget_file(&mut self, ino: u64)
        ensures
            final(self).active@ == old(self).active@.without_file(ino),
            final(self).flushing@ == old(self).flushing@.without_file(ino),
    {
        self.active.forget_file(ino);
        self.flushing.forget_file(ino);
    }

    /// Starts a commit: what is active is flushing from now on. Tells whether there is anything
    /// to commit.
    pub fn begin_commit(&mut self) -> (any: bool)
        ensures
            any == (old(self).active@ != PendingView::empty()),
            any ==> final(self).active@ == old(self).flushing@ && final(self).flushing@
                == old(self).active@,
            !any ==> final(self).active@ == old(self).active@ && final(self).flushing@
                == old(self).flushing@,
    {
        if self.active.is_empty() {
            return false;
        }
        let mut active: Pending = Pending::new();
        std::mem::swap(&mut active, &mut self.active);
        std::mem::swap(&mut active, &mut self.flushing);
        std::mem::swap(&mut active, &mut self.active);
        true
    }

    /// Ends a commit that succeeded: the database has the writes.
    pub fn commit_succeeded(&mut self)
        ensures
            final(self).active@ == old(self).active@,
            final(self).flushing@ == PendingView::empty(),
    {
        self.flushing = Pending::new();
    }

    /// Ends a commit that failed: its writes wait for the next one.
    pub fn commit_failed(&mut self)
        ensures
            final(self).active@ == old(self).active@.merged(old(self).flushing@),
            final(self).flushing@ == PendingView::empty(),
    {
        let mut flushing: Pending = Pending::new();
        std::mem::swap(&mut flushing, &mut self.flushing);
        self.active.merge_from_flushing(flushing);
    }

    /// Number of blocks and of stored bytes that are being written.
    pub fn flushing_load(&self) -> (r: (u64, u64))
        ensures
            r.0 == self.flushing.blocks@.dom().len(),
            r.1 == stored_bytes(self.flushing.blocks.seq(), self.flushing.blocks.seq().len() as int)
                % 0x1_0000_0000_0000_0000,
    {
        let entries: &Vec<(BlockKey, StoredBlock)> = self.flushing.blocks.entries();
        let mut bytes: u64 = 0;
        let mut i: usize = 0;
        while i < entries.len()
            invariant
                i <= entries@.len(),
                bytes == stored_bytes(entries@, i as int) % 0x1_0000_0000_0000_0000,
            decreases entries@.len() - i,
        {
            bytes = bytes.wrapping_add(entries[i].1.bytes.len() as u64);
            i = i + 1;
        }
        (self.flushing.blocks.len() as u64, bytes)
    }
}

/// Number of stored bytes of the first `n` blocks.
pub open spec fn stored_bytes(s: Seq<(BlockKey, StoredBlock)>, n: int) -> nat
    decreases n,
{
    if n <= 0 {
        0
    } else {
        stored_bytes(s, n - 1) + s[n - 1].1.bytes@.len()
    }
}

/// A read finds the same while a commit starts: moving the writes to the flushing buffer hides
/// nothing.
pub proof fn starting_commit_hides_nothing(
    active: PendingView,
    db: Map<BlockKey, BlockView>,
    k: BlockKey,
    row_size: u64,
)
    ensures
        read_through(PendingView::empty(), active, db, k) == read_through(
            active,
            PendingView::empty(),
            db,
            k,
        ),
        size_through(PendingView::empty(), active, row_size, k.ino) == size_through(
            active,
            PendingView::empty(),
            row_size,
            k.ino,
        ),
{
}

/// A read finds the same after a commit failed: the writes that are merged back are all there,
/// unless the older writes truncated the file further down than the newer ones do.
pub proof fn failed_commit_loses_nothing(
    active: PendingView,
    flushing: PendingView,
    db: Map<BlockKey, BlockView>,
    k: BlockKey,
    row_size: u64,
)
    requires
        active.truncations.contains_key(k.ino) && flushing.truncations.contains_key(k.ino)
            ==> active.truncations[k.ino] <= flushing.truncations[k.ino],
    ensures
        read_through(active.merged(flushing), PendingView::empty(), db, k) == read_through(
            active,
            flushing,
            db,
            k,
        ),
        size_through(active.merged(flushing), PendingView::empty(), row_size, k.ino)
            == size_through(active, flushing, row_size, k.ino),
{
}

/// A newer truncation is not undone by a commit that failed: what it cut off stays cut off,
/// unless it was written again.
pub proof fn newer_truncation_stands(active: PendingView, flushing: PendingView, k: BlockKey)
    requires
        active.cuts(k),
        !active.blocks.contains_key(k),
    ensures
        !active.merged(flushing).blocks.contains_key(k),
        active.merged(flushing).lookup(k) == LookupView::Truncated,
{
}

/// A written block is what a read finds, and only that block changes.
pub proof fn written_block_is_read(
    active: PendingView,
    flushing: PendingView,
    db: Map<BlockKey, BlockView>,
    k: BlockKey,
    b: BlockView,
    size: u64,
    other: BlockKey,
)
    ensures
        read_through(active.with_block(k, b, size), flushing, db, k) == Some(b),
        other != k ==> read_through(active.with_block(k, b, size), flushing, db, other)
            == read_through(active, flushing, db, other),
{
}

/// A truncated file has no block from the cut on, and keeps those before it.
pub proof fn truncated_blocks_are_gone(
    active: PendingView,
    flushing: PendingView,
    db: Map<BlockKey, BlockView>,
    ino: u64,
    keep_from: u64,
    size: u64,
    k: BlockKey,
)
    ensures
        k.ino == ino && k.idx >= keep_from ==> read_through(
            active.truncated(ino, keep_from, size),
            flushing,
            db,
            k,
        ) is None,
        k.ino != ino || k.idx < keep_from ==> read_through(
            active.truncated(ino, keep_from, size),
            flushing,
            db,
            k,
        ) == read_through(active, flushing, db, k),
{
}

/// A file whose writes were dropped is as the database has it.
pub proof fn forgotten_file_is_as_stored(
    active: PendingView,
    flushing: PendingView,
    db: Map<BlockKey, BlockView>,
    k: BlockKey,
    row_size: u64,
)
    ensures
        read_through(active.without_file(k.ino), flushing.without_file(k.ino), db, k) == (
        if db.contains_key(k) {
            Some(db[k])
        } else {
            None
        }),
        size_through(active.without_file(k.ino), flushing.without_file(k.ino), row_size, k.ino)
            == row_size,
{
}

/// The length of a file is the one that was written last, whether with a block or with a truncation;
/// other files keep theirs.
pub proof fn written_length_is_read(
    active: PendingView,
    flushing: PendingView,
    k: BlockKey,
    b: BlockView,
    keep_from: u64,
    size: u64,
    row_size: u64,
    other: u64,
)
    ensures
        size_through(active.with_block(k, b, size), flushing, row_size, k.ino) == size,
        size_through(active.truncated(k.ino, keep_from, size), flushing, row_size, k.ino) == size,
        other != k.ino ==> size_through(active.with_block(k, b, size), flushing, row_size, other)
            == size_through(active, flushing, row_size, other) && size_through(
            active.truncated(k.ino, keep_from, size),
            flushing,
            row_size,
            other,
        ) == size_through(active, flushing, row_size, other),
        size_through(PendingView::empty(), PendingView::empty(), row_size, other) == row_size,
{
}

/// Where nothing waits, a read finds what the database has.
pub proof fn nothing_waiting_is_as_stored(db: Map<BlockKey, BlockView>, k: BlockKey)
    ensures
        read_through(PendingView::empty(), PendingView::empty(), db, k) == (if db.contains_key(k) {
            Some(db[k])
        } else {
            None::<BlockView>
        }),
{
}

/// The newest write is the one that a read finds: of a block that stands in both buffers that of the
/// active one, and of lengths too.
pub proof fn newest_write_is_read(
    active: PendingView,
    flushing: PendingView,
    db: Map<BlockKey, BlockView>,
    k: BlockKey,
    row_size: u64,
)
    ensures
        active.blocks.contains_key(k) ==> read_through(active, flushing, db, k) == Some(
            active.blocks[k],
        ),
        !active.blocks.contains_key(k) && flushing.blocks.contains_key(k) && !(
        active.truncations.contains_key(k.ino) && active.truncations[k.ino] <= k.idx)
            ==> read_through(active, flushing, db, k) == Some(flushing.blocks[k]),
        active.sizes.contains_key(k.ino) ==> size_through(active, flushing, row_size, k.ino)
            == active.sizes[k.ino],
        !active.sizes.contains_key(k.ino) && flushing.sizes.contains_key(k.ino) ==> size_through(
            active,
            flushing,
            row_size,
            k.ino,
        ) == flushing.sizes[k.ino],
{
}

/// What waited longer is kept where nothing newer waits, and gives way where something does: block by
/// block, and for each file its length and where it was cut.
pub proof fn newer_waits_in_place_of_older(
    newer: PendingView,
    older: PendingView,
    k: BlockKey,
    ino: u64,
)
    ensures
        ({
            let both = newer.merged(older);
            let cut = newer.truncations.contains_key(k.ino) && newer.truncations[k.ino] <= k.idx;
            &&& newer.blocks.contains_key(k) ==> both.blocks.contains_key(k) && both.blocks[k]
                == newer.blocks[k]
            &&& !newer.blocks.contains_key(k) && !cut ==> both.blocks.contains_key(k)
                == older.blocks.contains_key(k) && (older.blocks.contains_key(k) ==> both.blocks[k]
                == older.blocks[k])
            &&& !newer.blocks.contains_key(k) && cut ==> !both.blocks.contains_key(k)
            &&& both.sizes.contains_key(ino) <==> newer.sizes.contains_key(ino)
                || older.sizes.contains_key(ino)
            &&& newer.sizes.contains_key(ino) ==> both.sizes[ino] == newer.sizes[ino]
            &&& !newer.sizes.contains_key(ino) && older.sizes.contains_key(ino) ==> both.sizes[ino]
                == older.sizes[ino]
            &&& both.truncations.contains_key(ino) <==> newer.truncations.contains_key(ino)
                || older.truncations.contains_key(ino)
            &&& newer.truncations.contains_key(ino) ==> both.truncations[ino]
                == newer.truncations[ino]
            &&& !newer.truncations.contains_key(ino) && older.truncations.contains_key(ino)
                ==> both.truncations[ino] == older.truncations[ino]
        }),
{
}

/// A file is cut where it was cut lowest, and what waits of other files stays as it is.
pub proof fn lowest_cut_stands(p: PendingView, ino: u64, a: u64, b: u64, size: u64, other: u64)
    ensures
        ({
            let cut = p.truncated(ino, a, size).truncated(ino, b, size);
            &&& cut.truncations[ino] <= a && cut.truncations[ino] <= b
            &&& !p.truncations.contains_key(ino) ==> cut.truncations[ino] == a
                || cut.truncations[ino] == b
            &&& p.truncations.contains_key(ino) ==> cut.truncations[ino] <= p.truncations[ino] && (
            cut.truncations[ino] == a || cut.truncations[ino] == b || cut.truncations[ino]
                == p.truncations[ino])
            &&& other != ino ==> cut.truncations.contains_key(other)
                == p.truncations.contains_key(other) && (p.truncations.contains_key(other)
                ==> cut.truncations[other] == p.truncations[other])
        }),
{
}

/// One block more is counted with its own bytes, whatever stands before it.
pub proof fn waiting_bytes_add_up(s: Seq<(BlockKey, StoredBlock)>, e: (BlockKey, StoredBlock))
    ensures
        stored_bytes(Seq::empty(), 0) == 0,
        stored_bytes(s.push(e), s.len() as int + 1) == stored_bytes(s, s.len() as int)
            + e.1.bytes@.len(),
{
    same_bytes_counted(s, s.push(e), s.len() as int);
}

proof fn same_bytes_counted(
    s: Seq<(BlockKey, StoredBlock)>,
    t: Seq<(BlockKey, StoredBlock)>,
    n: int,
)
    requires
        0 <= n <= s.len() <= t.len(),
        forall|i: int| 0 <= i < n ==> #[trigger] s[i] == t[i],
    ensures
        stored_bytes(s, n) == stored_bytes(t, n),
    decreases n,
{
    if n > 0 {
        same_bytes_counted(s, t, n - 1);
        assert(s[n - 1] == t[n - 1]);
    }
}

} // verus!
