//! A store that keeps everything in memory.
use vstd::prelude::*;

use super::pending;
use super::types::{Attr, BlockView, DirEntry, DirEntryView, FileKind, StoreError, StoredBlock, Time};
use crate::inode::Ino;
use crate::inode_table::ROOT_INO;
use crate::ordmap;
use crate::ordmap::{BlockKey, Key, OrdMap};
use crate::text;

verus! {

/// A file or a directory.
pub struct Node {
    /// Its attributes.
    pub attr: Attr,
    /// Files by name; nothing for a regular file.
    pub children: OrdMap<String, u64>,
}

/// A file or a directory, as a mathematical value.
#[verifier::ext_equal]
pub struct NodeView {
    pub attr: Attr,
    pub children: Map<Seq<char>, u64>,
}

impl View for Node {
    type V = NodeView;

    open spec fn view(&self) -> NodeView {
        NodeView { attr: self.attr, children: self.children@ }
    }
}

/// A store in memory.
pub struct MemStore {
    /// Files and directories by number.
    pub nodes: OrdMap<u64, Node>,
    /// Their blocks.
    pub blocks: OrdMap<BlockKey, StoredBlock>,
    /// Number of the next file.
    pub next_ino: u64,
    /// Chunk size of the files that `new_file` makes.
    pub default_chunk_size: u32,
}

/// A store in memory, as a mathematical value.
#[verifier::ext_equal]
pub struct MemView {
    pub nodes: Map<u64, NodeView>,
    pub blocks: Map<BlockKey, BlockView>,
    pub next_ino: u64,
    pub default_chunk_size: u32,
}

/// The views of some nodes.
pub open spec fn node_views(m: Map<u64, Node>) -> Map<u64, NodeView> {
    Map::new(|i: u64| m.contains_key(i), |i: u64| m[i]@)
}

impl View for MemStore {
    type V = MemView;

    open spec fn view(&self) -> MemView {
        MemView {
            nodes: node_views(self.nodes@),
            blocks: pending::block_views(self.blocks@),
            next_ino: self.next_ino,
            default_chunk_size: self.default_chunk_size,
        }
    }
}

/// The attributes of a new file or directory without content, owned by nobody in particular.
pub open spec fn fresh_attr(ino: u64, kind: FileKind, perm: u16, chunk_size: u32) -> Attr {
    Attr {
        ino,
        size: 0,
        kind,
        perm,
        uid: 0,
        gid: 0,
        mtime: Time::at_epoch(),
        atime: Time::at_epoch(),
        ctime: Time::at_epoch(),
        chunk_size,
    }
}

fn make_attr(ino: u64, kind: FileKind, perm: u16, chunk_size: u32) -> (attr: Attr)
    ensures
        attr == fresh_attr(ino, kind, perm, chunk_size),
{
    Attr {
        ino,
        size: 0,
        kind,
        perm,
        uid: 0,
        gid: 0,
        mtime: Time::epoch(),
        atime: Time::epoch(),
        ctime: Time::epoch(),
        chunk_size,
    }
}

impl MemView {
    /// Numbers are below the next one, and every block is one of a file that there is.
    pub open spec fn wf(&self) -> bool {
        &&& forall|i: u64| #[trigger] self.nodes.contains_key(i) ==> i < self.next_ino
        &&& forall|k: BlockKey| #[trigger]
            self.blocks.contains_key(k) ==> self.nodes.contains_key(k.ino)
    }

    /// The file that a name in a directory leads to.
    pub open spec fn child(&self, parent: u64, name: Seq<char>) -> Option<u64> {
        if self.nodes.contains_key(parent) && self.nodes[parent].children.contains_key(name) {
            Some(self.nodes[parent].children[name])
        } else {
            None
        }
    }

    /// The attributes of a file.
    pub open spec fn attr(&self, ino: u64) -> Option<Attr> {
        if self.nodes.contains_key(ino) {
            Some(self.nodes[ino].attr)
        } else {
            None
        }
    }

    /// The store with other attributes of a file.
    pub open spec fn with_attr(&self, ino: u64, attr: Attr) -> MemView {
        MemView {
            nodes: self.nodes.insert(ino, NodeView { attr, ..self.nodes[ino] }),
            ..*self
        }
    }

    /// The store with one more file, which has no content.
    pub open spec fn with_file(&self, attr: Attr) -> MemView {
        MemView {
            nodes: self.nodes.insert(attr.ino, NodeView { attr, children: Map::empty() }),
            next_ino: (self.next_ino + 1) as u64,
            ..*self
        }
    }

    /// The store with a name in a directory.
    pub open spec fn with_child(&self, parent: u64, name: Seq<char>, ino: u64) -> MemView {
        MemView {
            nodes: self.nodes.insert(
                parent,
                NodeView {
                    children: self.nodes[parent].children.insert(name, ino),
                    ..self.nodes[parent]
                },
            ),
            ..*self
        }
    }

    /// The store without a name in a directory.
    pub open spec fn without_child(&self, parent: u64, name: Seq<char>) -> MemView {
        MemView {
            nodes: self.nodes.insert(
                parent,
                NodeView {
                    children: self.nodes[parent].children.remove(name),
                    ..self.nodes[parent]
                },
            ),
            ..*self
        }
    }

    /// The store without a file and its blocks.
    pub open spec fn without_file(&self, ino: u64) -> MemView {
        MemView {
            nodes: self.nodes.remove(ino),
            blocks: ordmap::without_tail(self.blocks, ino, 0),
            ..*self
        }
    }

    /// The store without a name in a directory and the file that it led to.
    pub open spec fn unlinked(&self, parent: u64, name: Seq<char>) -> MemView {
        self.without_child(parent, name).without_file(self.nodes[parent].children[name])
    }

    /// The store where the old name was taken away and a file that had the new name was removed.
    pub open spec fn cleared(
        &self,
        old_parent: u64,
        old_name: Seq<char>,
        new_parent: u64,
        new_name: Seq<char>,
    ) -> MemView {
        let taken = self.without_child(old_parent, old_name);
        if taken.child(new_parent, new_name) is Some {
            taken.unlinked(new_parent, new_name)
        } else {
            taken
        }
    }
}

impl MemStore {
    /// A store with an empty root directory.
    pub fn new(chunk_size: u32) -> (s: MemStore)
        ensures
            s@.wf(),
            s@.nodes == map![
                ROOT_INO => NodeView {
                    attr: fresh_attr(ROOT_INO, FileKind::Directory, 0o755, chunk_size),
                    children: Map::empty(),
                },
            ],
            s@.blocks == Map::<BlockKey, BlockView>::empty(),
            s@.next_ino == 2,
            s@.default_chunk_size == chunk_size,
    {
        let mut nodes: OrdMap<u64, Node> = OrdMap::new();
        let root: Node = Node {
            attr: make_attr(ROOT_INO, FileKind::Directory, 0o755, chunk_size),
            children: OrdMap::new(),
        };
        let ghost rv = root@;
        nodes.insert(ROOT_INO, root);
        let s: MemStore = MemStore {
            nodes,
            blocks: OrdMap::new(),
            next_ino: 2,
            default_chunk_size: chunk_size,
        };
        assert(s@.nodes =~= map![ROOT_INO => rv]);
        assert(s@.blocks =~= Map::empty());
        s
    }

    /// Puts a node under a number.
    fn put(&mut self, ino: u64, node: Node)
        ensures
            final(self)@ == (MemView { nodes: old(self)@.nodes.insert(ino, node@), ..old(self)@ }),
    {
        let ghost v = self@;
        self.nodes.insert(ino, node);
        assert(self@.nodes =~= v.nodes.insert(ino, node@));
    }

    /// Takes the node out from under a number.
    fn take(&mut self, ino: u64) -> (r: Option<Node>)
        ensures
            final(self)@ == (MemView { nodes: old(self)@.nodes.remove(ino), ..old(self)@ }),
            match r {
                Some(node) => old(self)@.nodes.contains_key(ino) && node@ == old(self)@.nodes[ino],
                None => !old(self)@.nodes.contains_key(ino),
            },
    {
        let ghost v = self@;
        let r: Option<Node> = self.nodes.remove(&ino);
        assert(self@.nodes =~= v.nodes.remove(ino));
        r
    }

    /// Makes a regular file without a name.
    pub fn new_file(&mut self) -> (ino: Ino)
        requires
            old(self)@.wf(),
            old(self)@.next_ino < u64::MAX,
        ensures
            final(self)@.wf(),
            ino == old(self)@.next_ino,
            final(self)@ == old(self)@.with_file(
                fresh_attr(ino, FileKind::RegularFile, 0o644, old(self)@.default_chunk_size),
            ),
    {
        let ghost v = self@;
        let ino: u64 = self.next_ino;
        self.next_ino = ino + 1;
        assert(self@.nodes =~= v.nodes && self@.blocks =~= v.blocks);
        let node: Node = Node {
            attr: make_attr(ino, FileKind::RegularFile, 0o644, self.default_chunk_size),
            children: OrdMap::new(),
        };
        self.put(ino, node);
        ino
    }

    /// The attributes of the file that a name in a directory leads to.
    pub fn lookup(&self, parent: Ino, name: &String) -> (r: Option<Attr>)
        ensures
            r == (match self@.child(parent, name@) {
                Some(ino) => self@.attr(ino),
                None => None,
            }),
    {
        match self.nodes.get(&parent) {
            Some(node) => match node.children.get(name) {
                Some(ino) => self.getattr_ino(*ino),
                None => None,
            },
            None => None,
        }
    }

    /// Makes a file of a name in a directory.
    pub fn create(&mut self, parent: Ino, name: String, attr: Attr) -> (r: Result<Ino, StoreError>)
        requires
            old(self)@.wf(),
            old(self)@.next_ino < u64::MAX,
        ensures
            final(self)@.wf(),
            match r {
                Ok(ino) => {
                    &&& old(self)@.nodes.contains_key(parent)
                    &&& old(self)@.child(parent, name@) is None
                    &&& ino == old(self)@.next_ino
                    &&& final(self)@ == old(self)@.with_child(parent, name@, ino).with_file(
                        Attr { ino, ..attr },
                    )
                },
                Err(e) => {
                    &&& final(self)@ == old(self)@
                    &&& if !old(self)@.nodes.contains_key(parent) {
                        e == StoreError::NotFound
                    } else {
                        old(self)@.child(parent, name@) is Some && e == StoreError::AlreadyExists
                    }
                },
            },
    {
        let ghost v = self@;
        let taken: bool = match self.nodes.get(&parent) {
            Some(node) => node.children.contains_key(&name),
            None => {
                return Err(StoreError::NotFound);
            },
        };
        if taken {
            return Err(StoreError::AlreadyExists);
        }
        let ino: u64 = self.next_ino;
        if let Some(dir) = self.take(parent) {
            let mut dir: Node = dir;
            dir.children.insert(name, ino);
            self.put(parent, dir);
            assert(self@.nodes =~= v.with_child(parent, name@, ino).nodes);
        }
        self.next_ino = ino + 1;
        let node: Node = Node { attr: Attr { ino, ..attr }, children: OrdMap::new() };
        self.put(ino, node);
        Ok(ino)
    }

    /// Makes a directory of a name in a directory.
    pub fn mkdir(&mut self, parent: Ino, name: String, attr: Attr) -> (r: Result<Ino, StoreError>)
        requires
            old(self)@.wf(),
            old(self)@.next_ino < u64::MAX,
        ensures
            final(self)@.wf(),
            match r {
                Ok(ino) => {
                    &&& old(self)@.nodes.contains_key(parent)
                    &&& old(self)@.child(parent, name@) is None
                    &&& ino == old(self)@.next_ino
                    &&& final(self)@ == old(self)@.with_child(parent, name@, ino).with_file(
                        Attr { ino, ..attr },
                    )
                },
                Err(e) => {
                    &&& final(self)@ == old(self)@
                    &&& if !old(self)@.nodes.contains_key(parent) {
                        e == StoreError::NotFound
                    } else {
                        old(self)@.child(parent, name@) is Some && e == StoreError::AlreadyExists
                    }
                },
            },
    {
        self.create(parent, name, attr)
    }

    /// Takes a name out of a directory, and tells which file it led to.
    fn take_child(&mut self, parent: Ino, name: &String) -> (r: Option<u64>)
        requires
            old(self)@.wf(),
        ensures
            final(self)@.wf(),
            r == old(self)@.child(parent, name@),
            final(self)@ == (if r is Some {
                old(self)@.without_child(parent, name@)
            } else {
                old(self)@
            }),
    {
        let ghost v = self@;
        match self.take(parent) {
            Some(dir) => {
                let mut dir: Node = dir;
                let ghost before = dir@;
                let r: Option<u64> = dir.children.remove(name);
                assert(r is None ==> before.children.remove(name@) =~= before.children);
                self.put(parent, dir);
                assert(self@.nodes =~= v.without_child(parent, name@).nodes);
                assert(r is None ==> self@.nodes =~= v.nodes);
                r
            },
            None => {
                assert(self@.nodes =~= v.nodes);
                None
            },
        }
    }

    /// Removes a file and its blocks.
    fn drop_file(&mut self, ino: u64)
        requires
            old(self)@.wf(),
        ensures
            final(self)@.wf(),
            final(self)@ == old(self)@.without_file(ino),
    {
        let ghost v = self@;
        let _ = self.take(ino);
        self.blocks.cut_tail(ino, 0);
        assert(self@.blocks =~= v.without_file(ino).blocks);
    }

    /// Removes a name in a directory and the file that it leads to.
    pub fn unlink(&mut self, parent: Ino, name: &String) -> (r: Result<(), StoreError>)
        requires
            old(self)@.wf(),
        ensures
            final(self)@.wf(),
            if old(self)@.child(parent, name@) is Some {
                r is Ok && final(self)@ == old(self)@.unlinked(parent, name@)
            } else {
                r == Err::<(), StoreError>(StoreError::NotFound) && final(self)@ == old(self)@
            },
    {
        match self.take_child(parent, name) {
            Some(ino) => {
                self.drop_file(ino);
                Ok(())
            },
            None => Err(StoreError::NotFound),
        }
    }

    /// Removes a name in a directory and the directory that it leads to.
    pub fn rmdir(&mut self, parent: Ino, name: &String) -> (r: Result<(), StoreError>)
        requires
            old(self)@.wf(),
        ensures
            final(self)@.wf(),
            if old(self)@.child(parent, name@) is Some {
                r is Ok && final(self)@ == old(self)@.unlinked(parent, name@)
            } else {
                r == Err::<(), StoreError>(StoreError::NotFound) && final(self)@ == old(self)@
            },
    {
        self.unlink(parent, name)
    }

    /// Renames a file; one that has the new name is removed. Where the new directory is missing,
    /// the old name is gone all the same.
    pub fn rename(
        &mut self,
        old_parent: Ino,
        old_name: &String,
        new_parent: Ino,
        new_name: String,
    ) -> (r: Result<(), StoreError>)
        requires
            old(self)@.wf(),
        ensures
            final(self)@.wf(),
            match old(self)@.child(old_parent, old_name@) {
                Some(ino) => {
                    let cleared = old(self)@.cleared(old_parent, old_name@, new_parent, new_name@);
                    if cleared.nodes.contains_key(new_parent) {
                        r is Ok && final(self)@ == cleared.with_child(new_parent, new_name@, ino)
                    } else {
                        r == Err::<(), StoreError>(StoreError::NotFound) && final(self)@ == cleared
                    }
                },
                None => r == Err::<(), StoreError>(StoreError::NotFound) && final(self)@ == old(
                    self,
                )@,
            },
    {
        let child: u64 = match self.take_child(old_parent, old_name) {
            Some(ino) => ino,
            None => {
                return Err(StoreError::NotFound);
            },
        };
        if let Some(prev) = self.take_child(new_parent, &new_name) {
            self.drop_file(prev);
        }
        let ghost v = self@;
        match self.take(new_parent) {
            Some(dir) => {
                let mut dir: Node = dir;
                dir.children.insert(new_name, child);
                self.put(new_parent, dir);
                assert(self@.nodes =~= v.with_child(new_parent, new_name@, child).nodes);
                Ok(())
            },
            None => {
                assert(self@.nodes =~= v.nodes);
                Err(StoreError::NotFound)
            },
        }
    }

    /// The entries of a directory whose files there are, in the order of their names.
    pub fn readdir(&self, dir: Ino) -> (out: Vec<DirEntry>)
        ensures
            forall|i: int, j: int|
                0 <= i < j < out@.len() ==> text::text_lt(
                    #[trigger] out@[i].name@,
                    #[trigger] out@[j].name@,
                ),
            forall|i: int| 0 <= i < out@.len() ==> self@.lists(dir, (#[trigger] out@[i])@),
            forall|e: DirEntryView| #[trigger]
                self@.lists(dir, e) ==> exists|i: int|
                    0 <= i < out@.len() && (#[trigger] out@[i])@ == e,
    {
        let mut out: Vec<DirEntry> = Vec::new();
        let node: &Node = match self.nodes.get(&dir) {
            Some(node) => node,
            None => {
                return out;
            },
        };
        let entries: &Vec<(String, u64)> = node.children.entries();
        let ghost es = entries@;
        let ghost v = self@;
        assert(v.nodes[dir].children == ordmap::as_map(es));
        let mut i: usize = 0;
        while i < entries.len()
            invariant
                i <= es.len(),
                entries@ == es,
                v == self@,
                v.nodes.contains_key(dir),
                v.nodes[dir].children == ordmap::as_map(es),
                ordmap::sorted(es),
                forall|a: int, b: int|
                    0 <= a < b < out@.len() ==> text::text_lt(
                        #[trigger] out@[a].name@,
                        #[trigger] out@[b].name@,
                    ),
                forall|a: int, b: int|
                    0 <= a < out@.len() && i <= b < es.len() ==> text::text_lt(
                        #[trigger] out@[a].name@,
                        #[trigger] es[b].0@,
                    ),
                forall|a: int| 0 <= a < out@.len() ==> v.lists(dir, (#[trigger] out@[a])@),
                forall|b: int|
                    0 <= b < i && v.nodes.contains_key((#[trigger] es[b]).1) ==> in_list(
                        out@,
                        entry_for(v, es[b].0@, es[b].1),
                    ),
            decreases es.len() - i,
        {
            let ino: u64 = entries[i].1;
            let ghost before = out@;
            proof {
                ordmap::entry_in_map(es, i as int);
                assert(es[i as int].0.key() == es[i as int].0@);
                assert forall|b: int| i < b < es.len() implies text::text_lt(
                    es[i as int].0@,
                    #[trigger] es[b].0@,
                ) by {
                    assert(<String as Key>::lt(es[i as int].0.key(), es[b].0.key()));
                }
            }
            if let Some(n) = self.nodes.get(&ino) {
                let e: DirEntry = DirEntry { ino, name: entries[i].0.clone(), kind: n.attr.kind };
                out.push(e);
                proof {
                    assert(e@ == entry_for(v, es[i as int].0@, ino));
                    assert(v.lists(dir, e@));
                    assert(out@[before.len() as int]@ == e@);
                    assert forall|x: DirEntryView| #[trigger] in_list(before, x) implies in_list(
                        out@,
                        x,
                    ) by {
                        let a = choose|a: int| 0 <= a < before.len() && (#[trigger] before[a])@ == x;
                        assert(out@[a]@ == x);
                    }
                }
            }
            i = i + 1;
        }
        proof {
            assert forall|e: DirEntryView| #[trigger] v.lists(dir, e) implies exists|i: int|
                0 <= i < out@.len() && (#[trigger] out@[i])@ == e by {
                let b = ordmap::index_of(es, e.name);
                assert(ordmap::has_key(es, e.name));
                assert(es[b].0@ == e.name);
                assert(in_list(out@, entry_for(v, es[b].0@, es[b].1)));
            }
        }
        out
    }

    /// Changes size, permission bits, owner and group of a file.
    pub fn setattr(&mut self, ino: Ino, attr: Attr) -> (r: Result<(), StoreError>)
        requires
            old(self)@.wf(),
        ensures
            final(self)@.wf(),
            match old(self)@.attr(ino) {
                Some(had) => r is Ok && final(self)@ == old(self)@.with_attr(
                    ino,
                    Attr { size: attr.size, perm: attr.perm, uid: attr.uid, gid: attr.gid, ..had },
                ),
                None => r == Err::<(), StoreError>(StoreError::NotFound) && final(self)@ == old(
                    self,
                )@,
            },
    {
        let ghost v = self@;
        match self.take(ino) {
            Some(node) => {
                let had: Attr = node.attr;
                let node: Node = Node {
                    attr: Attr {
                        size: attr.size,
                        perm: attr.perm,
                        uid: attr.uid,
                        gid: attr.gid,
                        ..had
                    },
                    children: node.children,
                };
                let ghost nv = node@;
                self.put(ino, node);
                assert(self@.nodes =~= v.nodes.insert(ino, nv));
                Ok(())
            },
            None => {
                assert(self@.nodes =~= v.nodes);
                Err(StoreError::NotFound)
            },
        }
    }

    /// The attributes of a file.
    pub fn getattr_ino(&self, ino: Ino) -> (r: Option<Attr>)
        ensures
            r == self@.attr(ino),
    {
        match self.nodes.get(&ino) {
            Some(node) => Some(node.attr),
            None => None,
        }
    }

    /// A block of a file.
    pub fn get_block(&self, ino: Ino, idx: u64) -> (r: Option<StoredBlock>)
        ensures
            match r {
                Some(b) => self@.blocks.contains_key(BlockKey { ino, idx }) && b@ == self@.blocks[(
                BlockKey { ino, idx })],
                None => !self@.blocks.contains_key(BlockKey { ino, idx }),
            },
    {
        match self.blocks.get(&BlockKey { ino, idx }) {
            Some(b) => Some(b.clone()),
            None => None,
        }
    }

    /// The length and the chunk size of a regular file.
    pub fn block_geometry(&self, ino: Ino) -> (r: Option<(u64, u32)>)
        ensures
            r == (match self@.attr(ino) {
                Some(attr) => if attr.kind == FileKind::RegularFile {
                    Some((attr.size, attr.chunk_size))
                } else {
                    None
                },
                None => None,
            }),
    {
        match self.nodes.get(&ino) {
            Some(node) => if node.attr.kind == FileKind::RegularFile {
                Some((node.attr.size, node.attr.chunk_size))
            } else {
                None
            },
            None => None,
        }
    }

    /// Sets the length of a file.
    fn resize(&mut self, ino: Ino, size: u64) -> (r: Result<(), StoreError>)
        requires
            old(self)@.wf(),
        ensures
            final(self)@.wf(),
            match old(self)@.attr(ino) {
                Some(had) => r is Ok && final(self)@ == old(self)@.with_attr(
                    ino,
                    Attr { size, ..had },
                ),
                None => r == Err::<(), StoreError>(StoreError::NotFound) && final(self)@ == old(
                    self,
                )@,
            },
    {
        let ghost v = self@;
        match self.take(ino) {
            Some(node) => {
                let had: Attr = node.attr;
                let node: Node = Node { attr: Attr { size, ..had }, children: node.children };
                let ghost nv = node@;
                self.put(ino, node);
                assert(self@.nodes =~= v.nodes.insert(ino, nv));
                Ok(())
            },
            None => {
                assert(self@.nodes =~= v.nodes);
                Err(StoreError::NotFound)
            },
        }
    }

    /// Writes a block of a file, and sets the file's length.
    pub fn put_block(&mut self, ino: Ino, idx: u64, blk: StoredBlock, new_size: u64) -> (r: Result<
        (),
        StoreError,
    >)
        requires
            old(self)@.wf(),
        ensures
            final(self)@.wf(),
            match old(self)@.attr(ino) {
                Some(had) => r is Ok && final(self)@ == (MemView {
                    blocks: old(self)@.blocks.insert(BlockKey { ino, idx }, blk@),
                    ..old(self)@.with_attr(ino, Attr { size: new_size, ..had })
                }),
                None => r == Err::<(), StoreError>(StoreError::NotFound) && final(self)@ == old(
                    self,
                )@,
            },
    {
        if let Err(e) = self.resize(ino, new_size) {
            return Err(e);
        }
        let ghost v = self@;
        self.blocks.insert(BlockKey { ino, idx }, blk);
        assert(self@.blocks =~= v.blocks.insert(BlockKey { ino, idx }, blk@));
        Ok(())
    }

    /// Drops the blocks of a file from a chunk on, and sets the file's length.
    pub fn truncate_blocks(&mut self, ino: Ino, keep_from: u64, new_size: u64) -> (r: Result<
        (),
        StoreError,
    >)
        requires
            old(self)@.wf(),
        ensures
            final(self)@.wf(),
            match old(self)@.attr(ino) {
                Some(had) => r is Ok && final(self)@ == (MemView {
                    blocks: ordmap::without_tail(old(self)@.blocks, ino, keep_from),
                    ..old(self)@.with_attr(ino, Attr { size: new_size, ..had })
                }),
                None => r == Err::<(), StoreError>(StoreError::NotFound) && final(self)@ == old(
                    self,
                )@,
            },
    {
        if let Err(e) = self.resize(ino, new_size) {
            return Err(e);
        }
        let ghost v = self@;
        self.blocks.cut_tail(ino, keep_from);
        assert(self@.blocks =~= ordmap::without_tail(v.blocks, ino, keep_from));
        Ok(())
    }

    /// Nothing waits to be written.
    pub fn fsync(&self, _ino: Ino) -> (r: Result<(), StoreError>)
        ensures
            r == Ok::<(), StoreError>(()),
    {
        Ok(())
    }

    /// Nothing waits to be written.
    pub fn sync_all(&self) -> (r: Result<(), StoreError>)
        ensures
            r == Ok::<(), StoreError>(()),
    {
        Ok(())
    }
}

impl MemView {
    /// Whether a directory has that entry.
    pub open spec fn lists(&self, dir: u64, e: DirEntryView) -> bool {
        &&& self.child(dir, e.name) == Some(e.ino)
        &&& self.nodes.contains_key(e.ino)
        &&& self.nodes[e.ino].attr.kind == e.kind
    }
}

spec fn entry_for(v: MemView, name: Seq<char>, ino: u64) -> DirEntryView {
    DirEntryView { ino, name, kind: v.nodes[ino].attr.kind }
}

spec fn in_list(s: Seq<DirEntry>, e: DirEntryView) -> bool {
    exists|i: int| 0 <= i < s.len() && (#[trigger] s[i])@ == e
}

/// A made file is found under its name with the attributes given, and every other file is as it was.
pub proof fn made_file_is_found(
    v: MemView,
    parent: u64,
    name: Seq<char>,
    attr: Attr,
    dir: u64,
    other: Seq<char>,
)
    requires
        v.wf(),
        v.next_ino < u64::MAX,
        v.nodes.contains_key(parent),
    ensures
        ({
            let ino = v.next_ino;
            let w = v.with_child(parent, name, ino).with_file(Attr { ino, ..attr });
            &&& w.child(parent, name) == Some(ino)
            &&& w.attr(ino) == Some(Attr { ino, ..attr })
            &&& w.next_ino == ino + 1
            &&& (dir != parent || other != name) && dir != ino ==> w.child(dir, other) == v.child(
                dir,
                other,
            )
            &&& dir != ino ==> w.attr(dir) == v.attr(dir)
            &&& w.child(ino, other) is None
            &&& w.blocks == v.blocks
        }),
{
}

/// A removed file is gone with its name and its blocks, and every other name and file is as it was.
pub proof fn unlinked_file_is_gone(
    v: MemView,
    parent: u64,
    name: Seq<char>,
    dir: u64,
    other: Seq<char>,
    k: BlockKey,
)
    requires
        v.wf(),
        v.child(parent, name) is Some,
        v.child(parent, name) != Some(parent),
    ensures
        ({
            let ino = v.child(parent, name)->0;
            let w = v.unlinked(parent, name);
            &&& w.child(parent, name) is None
            &&& w.attr(ino) is None
            &&& k.ino == ino ==> !w.blocks.contains_key(k)
            &&& k.ino != ino ==> w.blocks.contains_key(k) == v.blocks.contains_key(k) && (
            v.blocks.contains_key(k) ==> w.blocks[k] == v.blocks[k])
            &&& dir != ino && (dir != parent || other != name) ==> w.child(dir, other) == v.child(
                dir,
                other,
            )
            &&& dir != ino ==> w.attr(dir) == v.attr(dir)
        }),
{
}

/// A renamed file is found under its new name as it was, and no longer under the old one.
pub proof fn renamed_file_is_as_it_was(
    v: MemView,
    old_parent: u64,
    old_name: Seq<char>,
    new_parent: u64,
    new_name: Seq<char>,
    idx: u64,
)
    requires
        v.wf(),
        v.child(old_parent, old_name) is Some,
        v.child(new_parent, new_name) != v.child(old_parent, old_name),
        v.nodes.contains_key(new_parent),
        v.child(new_parent, new_name) != Some(new_parent),
        v.child(new_parent, new_name) != Some(old_parent),
    ensures
        ({
            let ino = v.child(old_parent, old_name)->0;
            let w = v.cleared(old_parent, old_name, new_parent, new_name).with_child(
                new_parent,
                new_name,
                ino,
            );
            let k = BlockKey { ino, idx };
            &&& w.child(new_parent, new_name) == Some(ino)
            &&& w.child(old_parent, old_name) is None
            &&& w.attr(ino) == v.attr(ino)
            &&& w.blocks.contains_key(k) == v.blocks.contains_key(k)
            &&& v.blocks.contains_key(k) ==> w.blocks[k] == v.blocks[k]
            &&& v.child(new_parent, new_name) matches Some(had) ==> w.attr(had) is None
        }),
{
}

/// Attributes that were set are told, of that file and of no other, whose names stay too.
pub proof fn changed_attributes_are_told(
    v: MemView,
    ino: u64,
    attr: Attr,
    other: u64,
    name: Seq<char>,
)
    requires
        v.nodes.contains_key(ino),
    ensures
        v.with_attr(ino, attr).attr(ino) == Some(attr),
        other != ino ==> v.with_attr(ino, attr).attr(other) == v.attr(other),
        v.with_attr(ino, attr).child(other, name) == v.child(other, name),
{
}

/// What is made without attributes is empty and owned by the superuser, at the epoch.
pub proof fn fresh_file_is_empty(ino: u64, kind: FileKind, perm: u16, chunk_size: u32)
    ensures
        ({
            let a = fresh_attr(ino, kind, perm, chunk_size);
            &&& a.ino == ino && a.kind == kind && a.perm == perm && a.chunk_size == chunk_size
            &&& a.size == 0 && a.uid == 0 && a.gid == 0
            &&& a.mtime == (Time { secs: 0, nanos: 0 }) && a.atime == a.mtime && a.ctime == a.mtime
        }),
{
}

/// A file that is renamed to the name that it has stays as it is, and so does everything else.
pub proof fn renaming_to_the_same_name_changes_nothing(v: MemView, parent: u64, name: Seq<char>)
    requires
        v.child(parent, name) is Some,
    ensures
        v.cleared(parent, name, parent, name).with_child(parent, name, v.child(parent, name)->0)
            == v,
{
    let w = v.cleared(parent, name, parent, name).with_child(
        parent,
        name,
        v.child(parent, name)->0,
    );
    assert(w.nodes[parent].children =~= v.nodes[parent].children);
    assert(w.nodes =~= v.nodes);
}

/// What a directory lists are its names, each with the file that it leads to and that file's kind.
pub proof fn names_are_listed(v: MemView, dir: u64, e: DirEntryView)
    ensures
        v.lists(dir, e) <==> v.child(dir, e.name) == Some(e.ino) && (v.attr(e.ino) matches Some(a)
            && a.kind == e.kind),
{
}

} // verus!
