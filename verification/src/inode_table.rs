//! The table of a pass-through mount: numbers and paths of the files that the kernel knows.
use vstd::prelude::*;

use crate::archive::wire;
use crate::ordmap::OrdMap;
use crate::path;

verus! {

/// Number of the root directory.
pub const ROOT_INO: u64 = 1;

/// A file that the kernel knows.
#[derive(Debug)]
pub struct InodeRecord {
    /// Path below the root; the root's own is empty.
    pub path: Vec<u8>,
    /// How many times the kernel looked it up and did not forget it.
    pub lookup_count: u64,
}

/// Path and lookup count of a file.
#[verifier::ext_equal]
pub struct RecordView {
    pub path: Seq<u8>,
    pub lookup_count: u64,
}

/// What a table holds.
#[verifier::ext_equal]
pub struct TableView {
    /// The files by number.
    pub by_ino: Map<u64, RecordView>,
    /// The numbers of the files that have a path, by its plain form. The first is the one that
    /// the path leads to; the others had the path before a file was renamed to it.
    pub by_path: Map<Seq<u8>, Seq<u64>>,
    /// The next number.
    pub next_ino: u64,
}

impl View for InodeRecord {
    type V = RecordView;

    open spec fn view(&self) -> RecordView {
        RecordView { path: self.path@, lookup_count: self.lookup_count }
    }
}

/// The views of the records.
pub open spec fn record_views(m: Map<u64, InodeRecord>) -> Map<u64, RecordView> {
    Map::new(|i: u64| m.contains_key(i), |i: u64| m[i]@)
}

/// The numbers of the lists.
pub open spec fn number_lists(m: Map<Seq<u8>, Vec<u64>>) -> Map<Seq<u8>, Seq<u64>> {
    Map::new(|p: Seq<u8>| m.contains_key(p), |p: Seq<u8>| m[p]@)
}

/// The numbers but for `ino`.
pub open spec fn without(s: Seq<u64>, ino: u64) -> Seq<u64>
    decreases s.len(),
{
    if s.len() == 0 {
        Seq::empty()
    } else if s.last() == ino {
        without(s.drop_last(), ino)
    } else {
        without(s.drop_last(), ino).push(s.last())
    }
}

proof fn without_is_exact(s: Seq<u64>, ino: u64)
    ensures
        forall|n: u64| #[trigger] without(s, ino).contains(n) <==> s.contains(n) && n != ino,
        s.len() > 0 && s[0] != ino ==> without(s, ino).len() > 0 && without(s, ino)[0] == s[0],
    decreases s.len(),
{
    if s.len() > 0 {
        let rest = s.drop_last();
        let kept = without(rest, ino);
        without_is_exact(rest, ino);
        assert forall|n: u64| #[trigger] without(s, ino).contains(n) <==> s.contains(n) && n
            != ino by {
            if rest.contains(n) {
                let i = choose|i: int| 0 <= i < rest.len() && rest[i] == n;
                assert(s[i] == n);
            }
            if s.contains(n) && n != s.last() {
                let i = choose|i: int| 0 <= i < s.len() && s[i] == n;
                assert(rest[i] == n);
            }
            if kept.contains(n) {
                let i = choose|i: int| 0 <= i < kept.len() && kept[i] == n;
                assert(kept.push(s.last())[i] == n);
            }
            if s.last() != ino {
                assert(kept.push(s.last())[kept.len() as int] == s.last());
                assert(s[s.len() - 1] == s.last());
            }
        }
    }
}

fn drop_from(list: &Vec<u64>, ino: u64) -> (rest: Vec<u64>)
    ensures
        rest@ == without(list@, ino),
{
    let mut rest: Vec<u64> = Vec::new();
    let mut i: usize = 0;
    assert(list@.subrange(0, 0) =~= Seq::empty());
    while i < list.len()
        invariant
            i <= list@.len(),
            rest@ == without(list@.subrange(0, i as int), ino),
        decreases list@.len() - i,
    {
        assert(list@.subrange(0, i + 1).drop_last() =~= list@.subrange(0, i as int));
        if list[i] != ino {
            rest.push(list[i]);
        }
        i = i + 1;
    }
    assert(list@.subrange(0, i as int) =~= list@);
    rest
}

/// Numbers and paths of the files that the kernel knows.
pub struct InodeTable {
    by_ino: OrdMap<u64, InodeRecord>,
    by_path: OrdMap<Vec<u8>, Vec<u64>>,
    next_ino: u64,
}

impl View for InodeTable {
    type V = TableView;

    closed spec fn view(&self) -> TableView {
        TableView {
            by_ino: record_views(self.by_ino@),
            by_path: number_lists(self.by_path@),
            next_ino: self.next_ino,
        }
    }
}

impl TableView {
    /// Every number is below the next one, the root is there, and a path has the numbers of the
    /// files that have that path and no others.
    pub open spec fn wf(&self) -> bool {
        &&& self.by_ino.contains_key(ROOT_INO)
        &&& forall|i: u64| #[trigger] self.by_ino.contains_key(i) ==> 0 < i < self.next_ino
        &&& forall|p: Seq<u8>| #[trigger]
            self.by_path.contains_key(p) ==> self.by_path[p].len() > 0
        &&& forall|p: Seq<u8>, i: u64| #[trigger]
            self.numbers(p).contains(i) <==> self.by_ino.contains_key(i) && path::plain(
                self.by_ino[i].path,
            ) == p
    }

    /// The numbers of the files that have a path, in its plain form.
    pub open spec fn numbers(&self, p: Seq<u8>) -> Seq<u64> {
        if self.by_path.contains_key(p) {
            self.by_path[p]
        } else {
            Seq::empty()
        }
    }

    /// The numbers by path without that of a file that has the path `p` no more.
    pub open spec fn without_number(&self, p: Seq<u8>, ino: u64) -> Map<Seq<u8>, Seq<u64>> {
        let rest = without(self.numbers(p), ino);
        if rest.len() == 0 {
            self.by_path.remove(p)
        } else {
            self.by_path.insert(p, rest)
        }
    }

    /// The path of `name` below the directory `parent`.
    pub open spec fn child_path(&self, parent: u64, name: Seq<u8>) -> Seq<u8> {
        path::joined(self.by_ino[parent].path, name)
    }

    /// The table with another path or lookup count of a file.
    pub open spec fn with_record(&self, ino: u64, r: RecordView) -> TableView {
        TableView { by_ino: self.by_ino.insert(ino, r), ..*self }
    }

    /// The table after a file was looked up below a directory that it knows.
    pub open spec fn looked_up(&self, parent: u64, name: Seq<u8>) -> TableView {
        let child = self.child_path(parent, name);
        let key = path::plain(child);
        if self.by_path.contains_key(key) {
            let ino = self.by_path[key][0];
            let r = self.by_ino[ino];
            self.with_record(
                ino,
                RecordView { lookup_count: (r.lookup_count + 1) as u64, ..r },
            )
        } else {
            TableView {
                by_ino: self.by_ino.insert(
                    self.next_ino,
                    RecordView { path: child, lookup_count: 1 },
                ),
                by_path: self.by_path.insert(key, seq![self.next_ino]),
                next_ino: (self.next_ino + 1) as u64,
            }
        }
    }

    /// The number that a lookup returns.
    pub open spec fn number(&self, parent: u64, name: Seq<u8>) -> u64 {
        let key = path::plain(self.child_path(parent, name));
        if self.by_path.contains_key(key) {
            self.by_path[key][0]
        } else {
            self.next_ino
        }
    }

    /// Whether a lookup overflows neither the numbers nor a count.
    pub open spec fn has_room(&self, parent: u64, name: Seq<u8>) -> bool {
        &&& self.next_ino < u64::MAX
        &&& self.by_ino.contains_key(parent) ==> {
            let ino = self.number(parent, name);
            self.by_ino.contains_key(ino) ==> self.by_ino[ino].lookup_count < u64::MAX
        }
    }

    /// Whether forgetting `n` lookups of a file takes it out.
    pub open spec fn forgets(&self, ino: u64, n: u64) -> bool {
        ino != ROOT_INO && self.by_ino.contains_key(ino) && self.by_ino[ino].lookup_count <= n
    }

    /// The table after `n` lookups of a file were forgotten: with the last of them its path leads
    /// to it no more, and what else the path leads to stays.
    pub open spec fn forgotten(&self, ino: u64, n: u64) -> TableView {
        if ino == ROOT_INO || !self.by_ino.contains_key(ino) {
            *self
        } else if self.forgets(ino, n) {
            TableView {
                by_ino: self.by_ino.remove(ino),
                by_path: self.without_number(path::plain(self.by_ino[ino].path), ino),
                ..*self
            }
        } else {
            let r = self.by_ino[ino];
            self.with_record(
                ino,
                RecordView { lookup_count: (r.lookup_count - n) as u64, ..r },
            )
        }
    }

    /// The table after a path was renamed: the file that it leads to has the new path, which leads
    /// to that file from now on.
    pub open spec fn renamed(&self, from: Seq<u8>, to: Seq<u8>) -> TableView {
        let key = path::plain(from);
        if self.by_path.contains_key(key) {
            let ino = self.by_path[key][0];
            let left = TableView { by_path: self.without_number(key, ino), ..*self };
            TableView {
                by_ino: self.by_ino.insert(ino, RecordView { path: to, ..self.by_ino[ino] }),
                by_path: left.by_path.insert(
                    path::plain(to),
                    seq![ino] + left.numbers(path::plain(to)),
                ),
                ..*self
            }
        } else {
            *self
        }
    }
}

proof fn lookup_keeps_wf(t: TableView, parent: u64, name: Seq<u8>)
    requires
        t.wf(),
        t.next_ino < u64::MAX,
        t.by_ino.contains_key(parent),
    ensures
        t.looked_up(parent, name).wf(),
{
    let key = path::plain(t.child_path(parent, name));
    let after = t.looked_up(parent, name);
    if t.by_path.contains_key(key) {
        assert(t.numbers(key).contains(t.by_path[key][0]));
    }
    assert forall|p: Seq<u8>, i: u64| #[trigger]
        after.numbers(p).contains(i) <==> after.by_ino.contains_key(i) && path::plain(
            after.by_ino[i].path,
        ) == p by {
        assert(t.numbers(p).contains(i) <==> t.by_ino.contains_key(i) && path::plain(
            t.by_ino[i].path,
        ) == p);
        if !t.by_path.contains_key(key) {
            assert(seq![t.next_ino][0] == t.next_ino);
            assert(t.numbers(key) =~= Seq::empty());
        }
    }
}

/// Dropping a number from a path leaves it to all others.
proof fn drop_is_exact(t: TableView, key: Seq<u8>, ino: u64)
    ensures
        ({
            let left = TableView { by_path: t.without_number(key, ino), ..t };
            forall|p: Seq<u8>, i: u64| #[trigger]
                left.numbers(p).contains(i) <==> t.numbers(p).contains(i) && !(p == key && i == ino)
        }),
{
    let left = TableView { by_path: t.without_number(key, ino), ..t };
    without_is_exact(t.numbers(key), ino);
    assert forall|p: Seq<u8>, i: u64| #[trigger]
        left.numbers(p).contains(i) <==> t.numbers(p).contains(i) && !(p == key && i == ino) by {
        assert(without(t.numbers(key), ino).contains(i) <==> t.numbers(key).contains(i) && i
            != ino);
        if p == key {
            assert(left.numbers(p) =~= without(t.numbers(key), ino));
        }
    }
}

proof fn forget_keeps_wf(t: TableView, ino: u64, n: u64)
    requires
        t.wf(),
    ensures
        t.forgotten(ino, n).wf(),
{
    if ino != ROOT_INO && t.by_ino.contains_key(ino) {
        let key = path::plain(t.by_ino[ino].path);
        let after = t.forgotten(ino, n);
        drop_is_exact(t, key, ino);
        let left = TableView { by_path: t.without_number(key, ino), ..t };
        assert forall|p: Seq<u8>, i: u64| #[trigger]
            after.numbers(p).contains(i) <==> after.by_ino.contains_key(i) && path::plain(
                after.by_ino[i].path,
            ) == p by {
            assert(t.numbers(p).contains(i) <==> t.by_ino.contains_key(i) && path::plain(
                t.by_ino[i].path,
            ) == p);
            if t.forgets(ino, n) {
                assert(after.numbers(p) == left.numbers(p));
                assert(left.numbers(p).contains(i) <==> t.numbers(p).contains(i) && !(p == key && i
                    == ino));
            }
        }
    }
}

proof fn rename_keeps_wf(t: TableView, from: Seq<u8>, to: Seq<u8>)
    requires
        t.wf(),
    ensures
        t.renamed(from, to).wf(),
{
    let key = path::plain(from);
    let dest = path::plain(to);
    if t.by_path.contains_key(key) {
        let ino = t.by_path[key][0];
        let left = TableView { by_path: t.without_number(key, ino), ..t };
        let after = t.renamed(from, to);
        let list = seq![ino] + left.numbers(dest);
        assert(t.numbers(key).contains(ino));
        drop_is_exact(t, key, ino);
        assert forall|p: Seq<u8>, i: u64| #[trigger]
            after.numbers(p).contains(i) <==> after.by_ino.contains_key(i) && path::plain(
                after.by_ino[i].path,
            ) == p by {
            assert(t.numbers(p).contains(i) <==> t.by_ino.contains_key(i) && path::plain(
                t.by_ino[i].path,
            ) == p);
            assert(left.numbers(p).contains(i) <==> t.numbers(p).contains(i) && !(p == key && i
                == ino));
            if p == dest {
                assert(list[0] == ino);
                if left.numbers(p).contains(i) {
                    let k = choose|k: int| 0 <= k < left.numbers(p).len() && left.numbers(p)[k] == i;
                    assert(list[k + 1] == i);
                }
                if list.contains(i) && i != ino {
                    let k = choose|k: int| 0 <= k < list.len() && list[k] == i;
                    assert(left.numbers(p)[k - 1] == i);
                }
            } else {
                assert(after.numbers(p) == left.numbers(p));
            }
        }
    }
}

fn copy_bytes(b: &Vec<u8>) -> (c: Vec<u8>)
    ensures
        c@ == b@,
{
    let c: Vec<u8> = wire::copy_range(b, 0, b.len());
    assert(c@ =~= b@);
    c
}

impl InodeTable {
    /// A table that knows the root alone.
    pub fn new() -> (t: InodeTable)
        ensures
            t@.wf(),
            t@ == (TableView {
                by_ino: map![ROOT_INO => RecordView { path: Seq::empty(), lookup_count: 1 }],
                by_path: map![Seq::<u8>::empty() => seq![ROOT_INO]],
                next_ino: 2,
            }),
    {
        let mut by_ino: OrdMap<u64, InodeRecord> = OrdMap::new();
        let root: Vec<u8> = Vec::new();
        let key: Vec<u8> = path::plain_path(&root);
        by_ino.insert(ROOT_INO, InodeRecord { path: root, lookup_count: 1 });
        let mut by_path: OrdMap<Vec<u8>, Vec<u64>> = OrdMap::new();
        let mut numbers: Vec<u64> = Vec::new();
        numbers.push(ROOT_INO);
        proof {
            assert(root@ =~= Seq::empty());
            reveal_with_fuel(path::counting, 3);
            assert(path::pieces_after(Seq::empty(), Seq::<u8>::empty()) =~= seq![Seq::empty()]);
            assert(path::components(Seq::<u8>::empty()) =~= Seq::empty());
            assert(key@ =~= Seq::empty());
        }
        by_path.insert(key, numbers);
        let t: InodeTable = InodeTable { by_ino, by_path, next_ino: 2 };
        assert(t@.by_ino =~= map![ROOT_INO => RecordView { path: Seq::empty(), lookup_count: 1 }]);
        assert(numbers@ =~= seq![ROOT_INO]);
        assert(t@.by_path =~= map![Seq::<u8>::empty() => seq![ROOT_INO]]);
        proof {
            assert forall|p: Seq<u8>, i: u64| #[trigger]
                t@.numbers(p).contains(i) <==> t@.by_ino.contains_key(i) && path::plain(
                    t@.by_ino[i].path,
                ) == p by {
                assert(seq![ROOT_INO][0] == ROOT_INO);
            }
        }
        t
    }

    /// Path of a file.
    pub fn path_of(&self, ino: u64) -> (r: Option<Vec<u8>>)
        ensures
            match r {
                Some(p) => self@.by_ino.contains_key(ino) && p@ == self@.by_ino[ino].path,
                None => !self@.by_ino.contains_key(ino),
            },
    {
        match self.by_ino.get(&ino) {
            Some(rec) => Some(copy_bytes(&rec.path)),
            None => None,
        }
    }

    fn leading(&self, key: &Vec<u8>) -> (r: Option<u64>)
        requires
            self@.wf(),
        ensures
            match r {
                Some(ino) => self@.by_path.contains_key(key@) && ino == self@.by_path[key@][0],
                None => !self@.by_path.contains_key(key@),
            },
    {
        match self.by_path.get(key) {
            Some(list) => {
                assert(self@.by_path.contains_key(key@));
                Some(list[0])
            },
            None => None,
        }
    }

    fn drop_number(&mut self, key: Vec<u8>, ino: u64)
        ensures
            final(self)@ == (TableView {
                by_path: old(self)@.without_number(key@, ino),
                ..old(self)@
            }),
    {
        let ghost v = self@;
        if let Some(list) = self.by_path.remove(&key) {
            assert(v.numbers(key@) == list@);
            let rest: Vec<u64> = drop_from(&list, ino);
            if rest.len() > 0 {
                self.by_path.insert(key, rest);
            }
        }
        assert(self@.by_path =~= v.without_number(key@, ino));
    }

    /// Whether `name` can be looked up below `parent` without a number or a count overflowing.
    pub fn has_room(&self, parent: u64, name: &[u8]) -> (b: bool)
        requires
            self@.wf(),
        ensures
            b == self@.has_room(parent, name@),
    {
        if self.next_ino == u64::MAX {
            return false;
        }
        let key: Vec<u8> = match self.by_ino.get(&parent) {
            Some(rec) => path::plain_path(&path::join_path(&rec.path, name)),
            None => {
                return true;
            },
        };
        let ino: u64 = match self.leading(&key) {
            Some(ino) => ino,
            None => self.next_ino,
        };
        match self.by_ino.get(&ino) {
            Some(rec) => rec.lookup_count < u64::MAX,
            None => true,
        }
    }

    /// Looks `name` up below `parent`: the number of a path stays the same as long as the kernel
    /// does not forget it. `None` where the table does not know the parent.
    pub fn lookup_or_insert(&mut self, parent: u64, name: &[u8]) -> (r: Option<u64>)
        requires
            old(self)@.wf(),
            old(self)@.has_room(parent, name@),
        ensures
            final(self)@.wf(),
            if old(self)@.by_ino.contains_key(parent) {
                &&& r == Some(old(self)@.number(parent, name@))
                &&& final(self)@ == old(self)@.looked_up(parent, name@)
            } else {
                r is None && final(self)@ == old(self)@
            },
    {
        let ghost v = self@;
        let child: Vec<u8> = match self.by_ino.get(&parent) {
            Some(rec) => path::join_path(&rec.path, name),
            None => {
                return None;
            },
        };
        let key: Vec<u8> = path::plain_path(&child);
        let known: Option<u64> = self.leading(&key);
        proof {
            lookup_keeps_wf(v, parent, name@);
            if known is Some {
                assert(v.numbers(key@).contains(v.by_path[key@][0]));
            }
        }
        if let Some(ino) = known {
            if let Some(rec) = self.by_ino.remove(&ino) {
                self.by_ino.insert(
                    ino,
                    InodeRecord { path: rec.path, lookup_count: rec.lookup_count + 1 },
                );
            }
            assert(self@.by_ino =~= v.looked_up(parent, name@).by_ino);
            return Some(ino);
        }
        let ino: u64 = self.next_ino;
        self.next_ino = ino + 1;
        self.by_ino.insert(ino, InodeRecord { path: child, lookup_count: 1 });
        let mut numbers: Vec<u64> = Vec::new();
        numbers.push(ino);
        self.by_path.insert(key, numbers);
        assert(numbers@ =~= seq![ino]);
        assert(self@.by_ino =~= v.looked_up(parent, name@).by_ino);
        assert(self@.by_path =~= v.looked_up(parent, name@).by_path);
        Some(ino)
    }

    /// Forgets `n` lookups of a file, and the file with the last of them; never the root. Tells
    /// whether the file went.
    pub fn forget(&mut self, ino: u64, n: u64) -> (gone: bool)
        requires
            old(self)@.wf(),
        ensures
            final(self)@.wf(),
            gone == old(self)@.forgets(ino, n),
            final(self)@ == old(self)@.forgotten(ino, n),
    {
        let ghost v = self@;
        if ino == ROOT_INO {
            return false;
        }
        proof {
            forget_keeps_wf(v, ino, n);
        }
        let rec: InodeRecord = match self.by_ino.remove(&ino) {
            Some(rec) => rec,
            None => {
                assert(self@.by_ino =~= v.by_ino);
                return false;
            },
        };
        if rec.lookup_count <= n {
            let key: Vec<u8> = path::plain_path(&rec.path);
            self.drop_number(key, ino);
            assert(self@.by_ino =~= v.forgotten(ino, n).by_ino);
            true
        } else {
            self.by_ino.insert(
                ino,
                InodeRecord { path: rec.path, lookup_count: rec.lookup_count - n },
            );
            assert(self@.by_ino =~= v.forgotten(ino, n).by_ino);
            false
        }
    }

    /// Renames a path: the file keeps its number. Paths below it are left to later lookups.
    pub fn rename_path(&mut self, old_path: &[u8], new_path: &[u8])
        requires
            old(self)@.wf(),
        ensures
            final(self)@.wf(),
            final(self)@ == old(self)@.renamed(old_path@, new_path@),
    {
        let ghost v = self@;
        let from: Vec<u8> = path::plain_path(old_path);
        if let Some(ino) = self.leading(&from) {
            proof {
                rename_keeps_wf(v, old_path@, new_path@);
                assert(v.numbers(from@).contains(v.by_path[from@][0]));
            }
            self.drop_number(from, ino);
            if let Some(rec) = self.by_ino.remove(&ino) {
                let to: Vec<u8> = wire::copy_range(new_path, 0, new_path.len());
                assert(to@ =~= new_path@);
                self.by_ino.insert(ino, InodeRecord { path: to, lookup_count: rec.lookup_count });
            }
            let ghost left = TableView {
                by_path: v.without_number(path::plain(old_path@), ino),
                ..v
            };
            let to: Vec<u8> = path::plain_path(new_path);
            let mut numbers: Vec<u64> = Vec::new();
            numbers.push(ino);
            if let Some(mut others) = self.by_path.remove(&to) {
                assert(left.by_path.contains_key(to@));
                numbers.append(&mut others);
            }
            assert(numbers@ =~= seq![ino] + left.numbers(to@));
            self.by_path.insert(to, numbers);
            assert(self@.by_ino =~= v.renamed(old_path@, new_path@).by_ino);
            assert(self@.by_path =~= v.renamed(old_path@, new_path@).by_path);
        }
    }

    /// Number of files, with the root.
    pub fn len(&self) -> (n: usize)
        ensures
            n == self@.by_ino.dom().len(),
    {
        proof {
            assert(self@.by_ino.dom() =~= self.by_ino@.dom());
        }
        self.by_ino.len()
    }

    /// Whether it knows no file.
    pub fn is_empty(&self) -> (b: bool)
        ensures
            b == (self@.by_ino == Map::<u64, RecordView>::empty()),
    {
        let b: bool = self.by_ino.is_empty();
        proof {
            if b {
                assert(self@.by_ino =~= Map::<u64, RecordView>::empty());
            } else if self@.by_ino == Map::<u64, RecordView>::empty() {
                assert(self.by_ino@ =~= Map::<u64, InodeRecord>::empty()) by {
                    assert forall|i: u64| !self.by_ino@.contains_key(i) by {
                        assert(!self@.by_ino.contains_key(i));
                    }
                }
            }
        }
        b
    }

    /// Lookup count of a file.
    pub fn lookup_count_of(&self, ino: u64) -> (r: Option<u64>)
        ensures
            r == (if self@.by_ino.contains_key(ino) {
                Some(self@.by_ino[ino].lookup_count)
            } else {
                None
            }),
    {
        match self.by_ino.get(&ino) {
            Some(rec) => Some(rec.lookup_count),
            None => None,
        }
    }
}

impl Default for InodeTable {
    fn default() -> (t: InodeTable)
        ensures
            t@.wf(),
            t@ == (TableView {
                by_ino: map![ROOT_INO => RecordView { path: Seq::empty(), lookup_count: 1 }],
                by_path: map![Seq::<u8>::empty() => seq![ROOT_INO]],
                next_ino: 2,
            }),
    {
        InodeTable::new()
    }
}

/// The same path gives the same number, as long as it is not forgotten or renamed: looking it up
/// twice returns one number, counted twice.
pub proof fn repeated_lookup_gives_same_number(t: TableView, parent: u64, name: Seq<u8>)
    requires
        t.wf(),
        t.next_ino < u64::MAX,
        t.by_ino.contains_key(parent),
    ensures
        ({
            let once = t.looked_up(parent, name);
            &&& once.by_ino.contains_key(parent)
            &&& once.number(parent, name) == t.number(parent, name)
        }),
{
}

/// A new number is one that no file has.
pub proof fn new_number_is_fresh(t: TableView, parent: u64, name: Seq<u8>)
    requires
        t.wf(),
        t.by_ino.contains_key(parent),
        !t.by_path.contains_key(path::plain(t.child_path(parent, name))),
    ensures
        !t.by_ino.contains_key(t.number(parent, name)),
{
}

/// Forgetting what a lookup added gives the table back, but for the numbers that are used up.
pub proof fn forget_undoes_lookup(t: TableView, parent: u64, name: Seq<u8>)
    requires
        t.wf(),
        t.next_ino < u64::MAX,
        t.by_ino.contains_key(parent),
        t.number(parent, name) != ROOT_INO,
        t.by_ino.contains_key(t.number(parent, name)) ==> 0 < t.by_ino[t.number(
            parent,
            name,
        )].lookup_count < u64::MAX,
    ensures
        ({
            let back = t.looked_up(parent, name).forgotten(t.number(parent, name), 1);
            back.by_ino == t.by_ino && back.by_path == t.by_path
        }),
{
    let once = t.looked_up(parent, name);
    let ino = t.number(parent, name);
    let back = once.forgotten(ino, 1);
    let key = path::plain(t.child_path(parent, name));
    if t.by_path.contains_key(key) {
        assert(t.numbers(key).contains(ino));
    } else {
        assert(!t.by_ino.contains_key(ino));
        assert(seq![ino].drop_last() =~= Seq::empty());
        reveal_with_fuel(without, 2);
    }
    assert(back.by_ino =~= t.by_ino);
    assert(back.by_path =~= t.by_path);
}

/// The path of a file leads to a file that has that path: a lookup gives the number of one that is
/// there, and the number of the only one where there is but one.
pub proof fn known_path_is_found(t: TableView, parent: u64, name: Seq<u8>, ino: u64)
    requires
        t.wf(),
        t.by_ino.contains_key(parent),
        t.by_ino.contains_key(ino),
        path::plain(t.by_ino[ino].path) == path::plain(t.child_path(parent, name)),
    ensures
        ({
            let n = t.number(parent, name);
            &&& t.by_ino.contains_key(n)
            &&& path::plain(t.by_ino[n].path) == path::plain(t.child_path(parent, name))
        }),
        (forall|i: u64| #[trigger]
            t.by_ino.contains_key(i) && path::plain(t.by_ino[i].path) == path::plain(
                t.by_ino[ino].path,
            ) ==> i == ino) ==> t.number(parent, name) == ino,
{
    let key = path::plain(t.child_path(parent, name));
    assert(t.numbers(key).contains(ino));
    assert(t.numbers(key).contains(t.by_path[key][0]));
}

/// Forgetting a file leaves the others what they were: their paths and counts, and what their paths
/// lead to.
pub proof fn forgetting_leaves_the_others(t: TableView, ino: u64, n: u64, other: u64)
    requires
        t.wf(),
        t.by_ino.contains_key(other),
        other != ino,
    ensures
        ({
            let after = t.forgotten(ino, n);
            let p = path::plain(t.by_ino[other].path);
            &&& after.by_ino.contains_key(other)
            &&& after.by_ino[other] == t.by_ino[other]
            &&& after.numbers(p).contains(other)
            &&& t.numbers(p)[0] == other ==> after.numbers(p)[0] == other
        }),
{
    let after = t.forgotten(ino, n);
    let p = path::plain(t.by_ino[other].path);
    assert(t.numbers(p).contains(other));
    forget_keeps_wf(t, ino, n);
    assert(after.numbers(p).contains(other));
    if t.forgets(ino, n) {
        without_is_exact(t.numbers(path::plain(t.by_ino[ino].path)), ino);
    }
}

/// A renamed file keeps its number and its count: where it is the only one with the old path and
/// none has the new one, the new path leads to it, the old one to nothing, and every other file is
/// left as it was.
pub proof fn renamed_file_keeps_its_number(t: TableView, from: Seq<u8>, to: Seq<u8>, ino: u64)
    requires
        t.wf(),
        t.by_ino.contains_key(ino),
        path::plain(t.by_ino[ino].path) == path::plain(from),
        forall|i: u64| #[trigger]
            t.by_ino.contains_key(i) && path::plain(t.by_ino[i].path) == path::plain(from) ==> i
                == ino,
        forall|i: u64| #[trigger]
            t.by_ino.contains_key(i) ==> path::plain(t.by_ino[i].path) != path::plain(to),
    ensures
        ({
            let after = t.renamed(from, to);
            &&& after.by_ino.dom() == t.by_ino.dom()
            &&& after.by_ino[ino] == (RecordView { path: to, ..t.by_ino[ino] })
            &&& after.by_path.contains_key(path::plain(to))
            &&& after.by_path[path::plain(to)] == seq![ino]
            &&& !after.by_path.contains_key(path::plain(from))
            &&& forall|i: u64| #[trigger]
                t.by_ino.contains_key(i) && i != ino ==> after.by_ino[i] == t.by_ino[i]
        }),
{
    let after = t.renamed(from, to);
    let key = path::plain(from);
    let dest = path::plain(to);
    assert(t.numbers(key).contains(ino));
    assert(t.numbers(key).contains(t.by_path[key][0]));
    rename_keeps_wf(t, from, to);
    if t.by_path.contains_key(dest) {
        assert(t.numbers(dest).contains(t.by_path[dest][0]));
    }
    assert(key != dest);
    if after.by_path.contains_key(key) {
        let other = after.by_path[key][0];
        assert(after.numbers(key).contains(other));
    }
    assert(after.by_path[dest] =~= seq![ino]);
    assert(after.by_ino.dom() =~= t.by_ino.dom());
}

/// Renaming a path that no file has changes nothing.
pub proof fn unknown_path_is_not_renamed(t: TableView, from: Seq<u8>, to: Seq<u8>)
    requires
        t.wf(),
        forall|i: u64| #[trigger]
            t.by_ino.contains_key(i) ==> path::plain(t.by_ino[i].path) != path::plain(from),
    ensures
        t.renamed(from, to) == t,
{
    let key = path::plain(from);
    if t.by_path.contains_key(key) {
        assert(t.numbers(key).contains(t.by_path[key][0]));
    }
}

/// A lookup counts one more for the file that it finds and for no other, and a file that is found for
/// the first time counts one, stands below its directory, and takes the next number.
pub proof fn lookup_counts_one_more(t: TableView, parent: u64, name: Seq<u8>, other: u64)
    requires
        t.wf(),
        t.by_ino.contains_key(parent),
        t.has_room(parent, name),
    ensures
        ({
            let n = t.number(parent, name);
            let after = t.looked_up(parent, name);
            &&& after.by_ino.contains_key(n)
            &&& t.by_ino.contains_key(n) ==> {
                &&& after.by_ino[n].lookup_count == t.by_ino[n].lookup_count + 1
                &&& after.by_ino[n].path == t.by_ino[n].path
                &&& after.next_ino == t.next_ino
            }
            &&& !t.by_ino.contains_key(n) ==> {
                &&& after.by_ino[n].lookup_count == 1
                &&& after.by_ino[n].path == path::joined(t.by_ino[parent].path, name)
                &&& n == t.next_ino
                &&& after.next_ino == n + 1
            }
            &&& other != n ==> after.by_ino.contains_key(other) == t.by_ino.contains_key(other) && (
            t.by_ino.contains_key(other) ==> after.by_ino[other] == t.by_ino[other])
        }),
{
    let key = path::plain(t.child_path(parent, name));
    if t.by_path.contains_key(key) {
        assert(t.numbers(key).contains(t.by_path[key][0]));
    }
}

/// Forgetting takes as many lookups away as it is told to, and the file with the last of them; the
/// root never goes, nor does a file that was looked up more often.
pub proof fn file_goes_with_its_last_lookup(t: TableView, ino: u64, n: u64)
    requires
        t.wf(),
    ensures
        ({
            let after = t.forgotten(ino, n);
            &&& t.forgets(ino, n) <==> ino != 1 && t.by_ino.contains_key(ino)
                && t.by_ino[ino].lookup_count <= n
            &&& t.forgets(ino, n) ==> !after.by_ino.contains_key(ino)
            &&& ino != 1 && t.by_ino.contains_key(ino) && t.by_ino[ino].lookup_count > n ==> {
                &&& after.by_ino.contains_key(ino)
                &&& after.by_ino[ino].lookup_count == t.by_ino[ino].lookup_count - n
                &&& after.by_ino[ino].path == t.by_ino[ino].path
                &&& after.by_path == t.by_path
            }
            &&& ino == 1 || !t.by_ino.contains_key(ino) ==> after == t
            &&& after.next_ino == t.next_ino
        }),
{
}

/// There is room for a lookup exactly where neither the next number nor the count of the file that it
/// finds is at its end.
pub proof fn room_is_what_a_lookup_takes(t: TableView, parent: u64, name: Seq<u8>)
    requires
        t.wf(),
        t.by_ino.contains_key(parent),
    ensures
        t.has_room(parent, name) <==> t.next_ino < u64::MAX && (t.by_ino.contains_key(
            t.number(parent, name),
        ) ==> t.by_ino[t.number(parent, name)].lookup_count < u64::MAX),
{
}

/// A path that is renamed leads to its file under the new path from then on, also where other files
/// have that path; the file keeps its lookups, and every other file its path and its lookups.
pub proof fn renamed_path_leads_to_its_file(
    t: TableView,
    from: Seq<u8>,
    to: Seq<u8>,
    other: u64,
    parent: u64,
    name: Seq<u8>,
)
    requires
        t.wf(),
        t.by_path.contains_key(path::plain(from)),
    ensures
        ({
            let ino = t.by_path[path::plain(from)][0];
            let after = t.renamed(from, to);
            &&& after.next_ino == t.next_ino
            &&& after.by_ino.dom() =~= t.by_ino.dom()
            &&& after.by_ino[ino].path == to
            &&& after.by_ino[ino].lookup_count == t.by_ino[ino].lookup_count
            &&& other != ino && t.by_ino.contains_key(other) ==> after.by_ino[other]
                == t.by_ino[other]
            &&& path::plain(after.child_path(parent, name)) == path::plain(to) ==> after.number(
                parent,
                name,
            ) == ino
        }),
{
    let ino = t.by_path[path::plain(from)][0];
    assert(t.numbers(path::plain(from)).contains(ino));
}

} // verus!
