//! A map kept as a sorted vector: keys in order, lookups by halving.
use vstd::prelude::*;

use crate::text;

verus! {

/// A key: a value with a total order.
pub trait Key: Sized {
    /// What the key stands for.
    type K;

    /// What this key stands for.
    spec fn key(&self) -> Self::K;

    /// The order of keys.
    spec fn lt(a: Self::K, b: Self::K) -> bool;

    /// Two keys are equal, or exactly one comes first.
    proof fn total(a: Self::K, b: Self::K)
        ensures
            !(Self::lt(a, b) && Self::lt(b, a)),
            !Self::lt(a, a),
            a != b ==> Self::lt(a, b) || Self::lt(b, a),
    ;

    /// The order is transitive.
    proof fn transitive(a: Self::K, b: Self::K, c: Self::K)
        requires
            Self::lt(a, b),
            Self::lt(b, c),
        ensures
            Self::lt(a, c),
    ;

    /// Whether this key comes before the other.
    fn less(&self, other: &Self) -> (r: bool)
        ensures
            r == Self::lt(self.key(), other.key()),
    ;
}

impl Key for u64 {
    type K = u64;

    open spec fn key(&self) -> u64 {
        *self
    }

    open spec fn lt(a: u64, b: u64) -> bool {
        a < b
    }

    proof fn total(a: u64, b: u64) {
    }

    proof fn transitive(a: u64, b: u64, c: u64) {
    }

    fn less(&self, other: &u64) -> (r: bool) {
        *self < *other
    }
}

/// The place of a block: the file and the chunk.
#[derive(Debug, Clone, Copy, PartialEq, Eq, Structural)]
pub struct BlockKey {
    /// The file.
    pub ino: u64,
    /// The chunk.
    pub idx: u64,
}

impl Key for BlockKey {
    type K = BlockKey;

    open spec fn key(&self) -> BlockKey {
        *self
    }

    open spec fn lt(a: BlockKey, b: BlockKey) -> bool {
        a.ino < b.ino || (a.ino == b.ino && a.idx < b.idx)
    }

    proof fn total(a: BlockKey, b: BlockKey) {
    }

    proof fn transitive(a: BlockKey, b: BlockKey, c: BlockKey) {
    }

    fn less(&self, other: &BlockKey) -> (r: bool) {
        self.ino < other.ino || (self.ino == other.ino && self.idx < other.idx)
    }
}

impl Key for Vec<u8> {
    type K = Seq<u8>;

    open spec fn key(&self) -> Seq<u8> {
        self@
    }

    open spec fn lt(a: Seq<u8>, b: Seq<u8>) -> bool {
        text::bytes_lt(a, b)
    }

    proof fn total(a: Seq<u8>, b: Seq<u8>) {
        text::bytes_lt_total(a, b);
        text::bytes_lt_total(a, a);
    }

    proof fn transitive(a: Seq<u8>, b: Seq<u8>, c: Seq<u8>) {
        text::bytes_lt_transitive(a, b, c);
    }

    fn less(&self, other: &Vec<u8>) -> (r: bool) {
        text::bytes_less(self, other)
    }
}

impl Key for String {
    type K = Seq<char>;

    open spec fn key(&self) -> Seq<char> {
        self@
    }

    open spec fn lt(a: Seq<char>, b: Seq<char>) -> bool {
        text::text_lt(a, b)
    }

    proof fn total(a: Seq<char>, b: Seq<char>) {
        text::bytes_lt_total(text::utf8(a), text::utf8(b));
        text::bytes_lt_total(text::utf8(a), text::utf8(a));
        if text::utf8(a) == text::utf8(b) {
            text::utf8_injective(a, b);
        }
    }

    proof fn transitive(a: Seq<char>, b: Seq<char>, c: Seq<char>) {
        text::bytes_lt_transitive(text::utf8(a), text::utf8(b), text::utf8(c));
    }

    fn less(&self, other: &String) -> (r: bool) {
        text::str_less(self.as_str(), other.as_str())
    }
}

/// The keys stand in order, each once.
pub open spec fn sorted<K: Key, V>(s: Seq<(K, V)>) -> bool {
    forall|i: int, j: int|
        0 <= i < j < s.len() ==> K::lt(#[trigger] s[i].0.key(), #[trigger] s[j].0.key())
}

/// Whether the key stands somewhere.
pub open spec fn has_key<K: Key, V>(s: Seq<(K, V)>, k: K::K) -> bool {
    exists|i: int| 0 <= i < s.len() && #[trigger] s[i].0.key() == k
}

/// Where the key stands.
pub open spec fn index_of<K: Key, V>(s: Seq<(K, V)>, k: K::K) -> int {
    choose|i: int| 0 <= i < s.len() && #[trigger] s[i].0.key() == k
}

/// The map that some entries stand for.
pub open spec fn as_map<K: Key, V>(s: Seq<(K, V)>) -> Map<K::K, V> {
    Map::new(|k: K::K| has_key(s, k), |k: K::K| s[index_of(s, k)].1)
}

/// In a sorted vector a key stands in one place.
pub proof fn one_place<K: Key, V>(s: Seq<(K, V)>, i: int, j: int)
    requires
        sorted(s),
        0 <= i < s.len(),
        0 <= j < s.len(),
        s[i].0.key() == s[j].0.key(),
    ensures
        i == j,
{
    K::total(s[i].0.key(), s[j].0.key());
}

/// An entry is what the map holds at its key.
pub proof fn entry_in_map<K: Key, V>(s: Seq<(K, V)>, i: int)
    requires
        sorted(s),
        0 <= i < s.len(),
    ensures
        as_map(s).contains_key(s[i].0.key()),
        as_map(s)[s[i].0.key()] == s[i].1,
{
    let k = s[i].0.key();
    assert(has_key(s, k));
    one_place(s, i, index_of(s, k));
}

/// A map kept as a sorted vector.
#[verifier::reject_recursive_types(K)]
#[verifier::reject_recursive_types(V)]
pub struct OrdMap<K: Key, V> {
    entries: Vec<(K, V)>,
}

impl<K: Key, V> View for OrdMap<K, V> {
    type V = Map<K::K, V>;

    closed spec fn view(&self) -> Map<K::K, V> {
        as_map(self.entries@)
    }
}

impl<K: Key, V> OrdMap<K, V> {
    #[verifier::type_invariant]
    closed spec fn inv(&self) -> bool {
        sorted(self.entries@)
    }

    /// The entries in the order of their keys.
    pub closed spec fn seq(&self) -> Seq<(K, V)> {
        self.entries@
    }

    /// A map without entries.
    pub fn new() -> (m: Self)
        ensures
            m@ == Map::<K::K, V>::empty(),
            m.seq() == Seq::<(K, V)>::empty(),
    {
        let m: OrdMap<K, V> = OrdMap { entries: Vec::new() };
        assert(m@ =~= Map::<K::K, V>::empty());
        m
    }

    /// The entries in the order of their keys: they are the map's.
    pub fn entries(&self) -> (s: &Vec<(K, V)>)
        ensures
            s@ == self.seq(),
            sorted(s@),
            self@ == as_map(s@),
    {
        proof {
            use_type_invariant(self);
        }
        &self.entries
    }

    /// Number of entries.
    pub fn len(&self) -> (n: usize)
        ensures
            n == self.seq().len(),
            n == self@.dom().len(),
    {
        proof {
            use_type_invariant(self);
            map_size(*self);
        }
        self.entries.len()
    }

    /// Whether there is no entry.
    pub fn is_empty(&self) -> (b: bool)
        ensures
            b == (self@ == Map::<K::K, V>::empty()),
            b == (self.seq().len() == 0),
    {
        proof {
            use_type_invariant(self);
            if self.entries@.len() > 0 {
                entry_in_map(self.entries@, 0);
            } else {
                assert(self@ =~= Map::<K::K, V>::empty());
            }
        }
        self.entries.len() == 0
    }

    /// The first place whose key is not before `k`.
    fn place(&self, k: &K) -> (at: usize)
        ensures
            at <= self.entries@.len(),
            forall|i: int| 0 <= i < at ==> K::lt(#[trigger] self.entries@[i].0.key(), k.key()),
            forall|i: int|
                at <= i < self.entries@.len() ==> !K::lt(
                    #[trigger] self.entries@[i].0.key(),
                    k.key(),
                ),
    {
        proof {
            use_type_invariant(self);
        }
        let mut lo: usize = 0;
        let mut hi: usize = self.entries.len();
        while lo < hi
            invariant
                lo <= hi <= self.entries@.len(),
                sorted(self.entries@),
                forall|i: int| 0 <= i < lo ==> K::lt(#[trigger] self.entries@[i].0.key(), k.key()),
                forall|i: int|
                    hi <= i < self.entries@.len() ==> !K::lt(
                        #[trigger] self.entries@[i].0.key(),
                        k.key(),
                    ),
            decreases hi - lo,
        {
            let mid: usize = lo + (hi - lo) / 2;
            let before: bool = self.entries[mid].0.less(k);
            proof {
                let m = mid as int;
                assert forall|i: int| before && 0 <= i < mid + 1 implies K::lt(
                    #[trigger] self.entries@[i].0.key(),
                    k.key(),
                ) by {
                    if i < m {
                        K::transitive(
                            self.entries@[i].0.key(),
                            self.entries@[m].0.key(),
                            k.key(),
                        );
                    }
                }
                assert forall|i: int| !before && mid <= i < self.entries@.len() implies !K::lt(
                    #[trigger] self.entries@[i].0.key(),
                    k.key(),
                ) by {
                    if i > m && K::lt(self.entries@[i].0.key(), k.key()) {
                        K::transitive(
                            self.entries@[m].0.key(),
                            self.entries@[i].0.key(),
                            k.key(),
                        );
                    }
                }
            }
            if before {
                lo = mid + 1;
            } else {
                hi = mid;
            }
        }
        lo
    }

    /// Where the key stands.
    fn find(&self, k: &K) -> (r: Option<usize>)
        ensures
            match r {
                Some(i) => i < self.entries@.len() && self.entries@[i as int].0.key() == k.key()
                    && self@.contains_key(k.key()) && self@[k.key()] == self.entries@[i as int].1,
                None => !self@.contains_key(k.key()),
            },
    {
        proof {
            use_type_invariant(self);
        }
        let at: usize = self.place(k);
        if at < self.entries.len() && !k.less(&self.entries[at].0) {
            proof {
                K::total(k.key(), self.entries@[at as int].0.key());
                entry_in_map(self.entries@, at as int);
            }
            Some(at)
        } else {
            proof {
                if has_key(self.entries@, k.key()) {
                    let i = index_of(self.entries@, k.key());
                    K::total(k.key(), k.key());
                    if at < self.entries@.len() && i > at {
                        assert(K::lt(self.entries@[at as int].0.key(), self.entries@[i].0.key()));
                        K::total(self.entries@[at as int].0.key(), k.key());
                    }
                }
            }
            None
        }
    }

    /// Whether there is an entry for the key.
    pub fn contains_key(&self, k: &K) -> (b: bool)
        ensures
            b == self@.contains_key(k.key()),
    {
        self.find(k).is_some()
    }

    /// The entry for the key.
    pub fn get(&self, k: &K) -> (r: Option<&V>)
        ensures
            match r {
                Some(v) => self@.contains_key(k.key()) && *v == self@[k.key()],
                None => !self@.contains_key(k.key()),
            },
    {
        match self.find(k) {
            Some(i) => Some(&self.entries[i].1),
            None => None,
        }
    }

    /// Sets the entry for the key.
    pub fn insert(&mut self, k: K, v: V)
        ensures
            final(self)@ == old(self)@.insert(k.key(), v),
    {
        proof {
            use_type_invariant(&*self);
        }
        let found: Option<usize> = self.find(&k);
        let at: usize = self.place(&k);
        let mut entries: Vec<(K, V)> = Vec::new();
        std::mem::swap(&mut entries, &mut self.entries);
        let ghost before = entries@;
        let ghost key = k.key();
        match found {
            Some(i) => {
                entries.set(i, (k, v));
                proof {
                    update_keeps_sorted(before, i as int, (k, v));
                }
            },
            None => {
                proof {
                    assert forall|i: int| at <= i < before.len() implies K::lt(
                        key,
                        #[trigger] before[i].0.key(),
                    ) by {
                        K::total(key, before[i].0.key());
                        entry_in_map(before, i);
                    }
                    insert_keeps_sorted(before, at as int, (k, v));
                }
                entries.insert(at, (k, v));
            },
        }
        self.entries = entries;
    }

    /// Takes the entry for the key out.
    pub fn remove(&mut self, k: &K) -> (r: Option<V>)
        ensures
            final(self)@ == old(self)@.remove(k.key()),
            match r {
                Some(v) => old(self)@.contains_key(k.key()) && v == old(self)@[k.key()],
                None => !old(self)@.contains_key(k.key()),
            },
    {
        proof {
            use_type_invariant(&*self);
        }
        match self.find(k) {
            Some(i) => {
                let mut entries: Vec<(K, V)> = Vec::new();
                std::mem::swap(&mut entries, &mut self.entries);
                proof {
                    remove_keeps_sorted(entries@, i as int);
                }
                let (_, v) = entries.remove(i);
                self.entries = entries;
                Some(v)
            },
            None => {
                assert(self@.remove(k.key()) =~= self@);
                None
            },
        }
    }
}

/// A map has as many keys as entries.
pub proof fn map_size<K: Key, V>(m: OrdMap<K, V>)
    requires
        sorted(m.seq()),
    ensures
        m@.dom().finite(),
        m@.dom().len() == m.seq().len(),
{
    keys_counted(m.seq());
}

proof fn keys_counted<K: Key, V>(s: Seq<(K, V)>)
    requires
        sorted(s),
    ensures
        as_map(s).dom().finite(),
        as_map(s).dom().len() == s.len(),
    decreases s.len(),
{
    if s.len() == 0 {
        assert(as_map(s).dom() =~= Set::empty());
    } else {
        let rest = s.drop_last();
        let k = s.last().0.key();
        assert forall|i: int, j: int| 0 <= i < j < rest.len() implies K::lt(
            #[trigger] rest[i].0.key(),
            #[trigger] rest[j].0.key(),
        ) by {
            assert(K::lt(s[i].0.key(), s[j].0.key()));
        }
        keys_counted(rest);
        assert(!has_key(rest, k)) by {
            if has_key(rest, k) {
                let i = index_of(rest, k);
                assert(s[i].0.key() == k);
                one_place(s, i, s.len() - 1);
            }
        }
        assert(as_map(s).dom() =~= as_map(rest).dom().insert(k)) by {
            assert forall|x: K::K| as_map(s).contains_key(x) == as_map(rest).dom().insert(
                k,
            ).contains(x) by {
                if has_key(s, x) {
                    let i = index_of(s, x);
                    if i < s.len() - 1 {
                        assert(rest[i].0.key() == x);
                    }
                }
                if has_key(rest, x) {
                    let i = index_of(rest, x);
                    assert(s[i].0.key() == x);
                }
                if x == k {
                    assert(s[s.len() - 1].0.key() == x);
                }
            }
        }
    }
}

/// Whether the key is that of a block of the file from chunk `from` on.
pub open spec fn in_tail(k: BlockKey, ino: u64, from: u64) -> bool {
    k.ino == ino && k.idx >= from
}

/// The blocks but for those of the file from chunk `from` on.
pub open spec fn without_tail<V>(m: Map<BlockKey, V>, ino: u64, from: u64) -> Map<BlockKey, V> {
    Map::new(|k: BlockKey| m.contains_key(k) && !in_tail(k, ino, from), |k: BlockKey| m[k])
}

impl<V> OrdMap<BlockKey, V> {
    /// Takes out the blocks of a file from chunk `from` on.
    pub fn cut_tail(&mut self, ino: u64, from: u64)
        ensures
            final(self)@ == without_tail(old(self)@, ino, from),
    {
        proof {
            use_type_invariant(&*self);
        }
        let at: usize = self.place(&BlockKey { ino, idx: from });
        let mut entries: Vec<(BlockKey, V)> = Vec::new();
        std::mem::swap(&mut entries, &mut self.entries);
        let ghost before = entries@;
        let mut end: usize = at;
        while end < entries.len() && entries[end].0.ino == ino
            invariant
                at <= end <= entries@.len(),
                entries@ == before,
                sorted(before),
                forall|i: int|
                    at <= i < before.len() ==> !BlockKey::lt(
                        #[trigger] before[i].0.key(),
                        (BlockKey { ino, idx: from }),
                    ),
                forall|i: int|
                    at <= i < end ==> in_tail(#[trigger] before[i].0.key(), ino, from),
            decreases entries@.len() - end,
        {
            assert(!BlockKey::lt(before[end as int].0.key(), (BlockKey { ino, idx: from })));
            end = end + 1;
        }
        proof {
            assert forall|i: int| end <= i < before.len() implies !in_tail(
                #[trigger] before[i].0.key(),
                ino,
                from,
            ) by {
                if end < before.len() && i > end {
                    assert(BlockKey::lt(before[end as int].0.key(), before[i].0.key()));
                }
                assert(!BlockKey::lt(before[end as int].0.key(), (BlockKey { ino, idx: from })));
            }
            cut_keeps_sorted(before, at as int, end as int, ino, from);
        }
        let mut rest: Vec<(BlockKey, V)> = entries.split_off(end);
        entries.truncate(at);
        entries.append(&mut rest);
        assert(entries@ =~= before.subrange(0, at as int) + before.subrange(
            end as int,
            before.len() as int,
        ));
        self.entries = entries;
    }
}

proof fn cut_keeps_sorted<V>(s: Seq<(BlockKey, V)>, at: int, end: int, ino: u64, from: u64)
    requires
        sorted(s),
        0 <= at <= end <= s.len(),
        forall|i: int|
            0 <= i < at ==> BlockKey::lt(
                #[trigger] s[i].0.key(),
                (BlockKey { ino, idx: from }),
            ),
        forall|i: int| at <= i < end ==> in_tail(#[trigger] s[i].0.key(), ino, from),
        forall|i: int| end <= i < s.len() ==> !in_tail(#[trigger] s[i].0.key(), ino, from),
    ensures
        ({
            let t = s.subrange(0, at) + s.subrange(end, s.len() as int);
            sorted(t) && as_map(t) == without_tail(as_map(s), ino, from)
        }),
{
    let t = s.subrange(0, at) + s.subrange(end, s.len() as int);
    let gap = end - at;
    assert forall|i: int| 0 <= i < t.len() implies #[trigger] t[i] == s[if i < at {
        i
    } else {
        i + gap
    }] by {}
    assert forall|i: int, j: int| 0 <= i < j < t.len() implies BlockKey::lt(
        #[trigger] t[i].0.key(),
        #[trigger] t[j].0.key(),
    ) by {
        let si = if i < at {
            i
        } else {
            i + gap
        };
        let sj = if j < at {
            j
        } else {
            j + gap
        };
        assert(t[i] == s[si] && t[j] == s[sj]);
    }
    let want = without_tail(as_map(s), ino, from);
    assert forall|k: BlockKey| as_map(t).contains_key(k) == want.contains_key(k) by {
        if has_key(t, k) {
            let i = index_of(t, k);
            let si = if i < at {
                i
            } else {
                i + gap
            };
            assert(t[i] == s[si]);
            assert(s[si].0.key() == k);
        }
        if has_key(s, k) && !in_tail(k, ino, from) {
            let i = index_of(s, k);
            let ti = if i < at {
                i
            } else {
                i - gap
            };
            assert(t[ti] == s[i]);
            assert(t[ti].0.key() == k);
        }
    }
    assert forall|k: BlockKey| as_map(t).contains_key(k) implies as_map(t)[k] == want[k] by {
        assert(has_key(t, k));
        let i = index_of(t, k);
        let si = if i < at {
            i
        } else {
            i + gap
        };
        assert(t[i] == s[si]);
        entry_in_map(t, i);
        entry_in_map(s, si);
    }
    assert(as_map(t) =~= want);
}

proof fn update_keeps_sorted<K: Key, V>(s: Seq<(K, V)>, at: int, e: (K, V))
    requires
        sorted(s),
        0 <= at < s.len(),
        s[at].0.key() == e.0.key(),
    ensures
        sorted(s.update(at, e)),
        as_map(s.update(at, e)) == as_map(s).insert(e.0.key(), e.1),
{
    let t = s.update(at, e);
    assert forall|i: int, j: int| 0 <= i < j < t.len() implies K::lt(
        #[trigger] t[i].0.key(),
        #[trigger] t[j].0.key(),
    ) by {
        assert(t[i].0.key() == s[i].0.key() && t[j].0.key() == s[j].0.key());
    }
    same_entries(s, t, at, e, 0);
}

proof fn insert_keeps_sorted<K: Key, V>(s: Seq<(K, V)>, at: int, e: (K, V))
    requires
        sorted(s),
        0 <= at <= s.len(),
        forall|i: int| 0 <= i < at ==> K::lt(#[trigger] s[i].0.key(), e.0.key()),
        forall|i: int| at <= i < s.len() ==> K::lt(e.0.key(), #[trigger] s[i].0.key()),
    ensures
        sorted(s.insert(at, e)),
        as_map(s.insert(at, e)) == as_map(s).insert(e.0.key(), e.1),
{
    let t = s.insert(at, e);
    assert forall|i: int, j: int| 0 <= i < j < t.len() implies K::lt(
        #[trigger] t[i].0.key(),
        #[trigger] t[j].0.key(),
    ) by {
        if i < at {
            assert(t[i] == s[i]);
        } else if i > at {
            assert(t[i] == s[i - 1]);
        }
        if j < at {
            assert(t[j] == s[j]);
        } else if j > at {
            assert(t[j] == s[j - 1]);
        }
    }
    same_entries(s, t, at, e, 1);
}

/// Where `t` holds `e` at `at` and the entries of `s` around it, it stands for the map of `s`
/// with that entry.
proof fn same_entries<K: Key, V>(s: Seq<(K, V)>, t: Seq<(K, V)>, at: int, e: (K, V), shift: int)
    requires
        sorted(s),
        sorted(t),
        shift == 0 || shift == 1,
        t.len() == s.len() + shift,
        0 <= at < t.len(),
        t[at] == e,
        shift == 0 ==> s[at].0.key() == e.0.key(),
        forall|i: int| 0 <= i < at ==> t[i] == #[trigger] s[i],
        forall|i: int|
            at < i < t.len() ==> #[trigger] t[i] == s[i - shift],
    ensures
        as_map(t) == as_map(s).insert(e.0.key(), e.1),
{
    let want = as_map(s).insert(e.0.key(), e.1);
    assert forall|k: K::K| as_map(t).contains_key(k) == want.contains_key(k) by {
        if has_key(t, k) {
            let i = index_of(t, k);
            if i < at {
                assert(s[i].0.key() == k);
            } else if i > at {
                assert(s[i - shift].0.key() == k);
            }
        }
        if has_key(s, k) {
            let i = index_of(s, k);
            if i < at {
                assert(t[i].0.key() == k);
            } else if shift == 0 && i == at {
                assert(t[at].0.key() == k);
            } else {
                assert(t[i + shift].0.key() == k);
            }
        }
        if k == e.0.key() {
            assert(t[at].0.key() == k);
        }
    }
    assert forall|k: K::K| as_map(t).contains_key(k) implies as_map(t)[k] == want[k] by {
        let i = index_of(t, k);
        entry_in_map(t, i);
        if i < at {
            assert(s[i].0.key() == k);
            entry_in_map(s, i);
            if k == e.0.key() {
                one_place(t, i, at);
            }
        } else if i > at {
            assert(s[i - shift].0.key() == k);
            entry_in_map(s, i - shift);
            if k == e.0.key() {
                one_place(t, i, at);
            }
        }
    }
    assert(as_map(t) =~= want);
}

proof fn remove_keeps_sorted<K: Key, V>(s: Seq<(K, V)>, at: int)
    requires
        sorted(s),
        0 <= at < s.len(),
    ensures
        sorted(s.remove(at)),
        as_map(s.remove(at)) == as_map(s).remove(s[at].0.key()),
{
    let t = s.remove(at);
    let key = s[at].0.key();
    assert forall|i: int, j: int| 0 <= i < j < t.len() implies K::lt(
        #[trigger] t[i].0.key(),
        #[trigger] t[j].0.key(),
    ) by {
        let si = if i < at {
            i
        } else {
            i + 1
        };
        let sj = if j < at {
            j
        } else {
            j + 1
        };
        assert(t[i] == s[si] && t[j] == s[sj]);
    }
    let want = as_map(s).remove(key);
    assert forall|k: K::K| as_map(t).contains_key(k) == want.contains_key(k) by {
        if has_key(t, k) {
            let i = index_of(t, k);
            let si = if i < at {
                i
            } else {
                i + 1
            };
            assert(s[si].0.key() == k);
            if k == key {
                one_place(s, si, at);
            }
        }
        if has_key(s, k) && k != key {
            let i = index_of(s, k);
            let ti = if i < at {
                i
            } else {
                i - 1
            };
            assert(t[ti].0.key() == k);
        }
    }
    assert forall|k: K::K| as_map(t).contains_key(k) implies as_map(t)[k] == want[k] by {
        assert(has_key(t, k));
        let i = index_of(t, k);
        let si = if i < at {
            i
        } else {
            i + 1
        };
        entry_in_map(t, i);
        assert(s[si] == t[i]);
        entry_in_map(s, si);
        if k == key {
            one_place(s, si, at);
        }
    }
    assert(as_map(t) =~= want);
}

/// What is taken out are the blocks of that file from that chunk on, the chunk itself among them; every
/// other block stays as it was.
pub proof fn only_the_tail_is_taken_out<V>(m: Map<BlockKey, V>, ino: u64, from: u64, k: BlockKey)
    ensures
        k.ino == ino && k.idx >= from ==> !without_tail(m, ino, from).contains_key(k),
        k.ino != ino || k.idx < from ==> (without_tail(m, ino, from).contains_key(k)
            <==> m.contains_key(k)) && (m.contains_key(k) ==> without_tail(m, ino, from)[k]
            == m[k]),
        without_tail(without_tail(m, ino, from), ino, from) == without_tail(m, ino, from),
{
    assert(without_tail(without_tail(m, ino, from), ino, from) =~= without_tail(m, ino, from));
}

/// Blocks stand by their file first and by their chunk then.
pub proof fn blocks_stand_file_by_file(a: BlockKey, b: BlockKey)
    ensures
        a.ino < b.ino ==> BlockKey::lt(a, b),
        a.ino == b.ino ==> (BlockKey::lt(a, b) <==> a.idx < b.idx),
{
}

} // verus!
