//! Lossless union of two versions of a session file.
//!
//! Records with an identity are united by identity, and of two with the same identity the longer
//! one stays. Other lines are united as whole lines. What is dropped is told in the result. The
//! classification drives a recommendation and nothing else.
use vstd::hash_map::StringHashMap;
use vstd::hash_set::StringHashSet;
use vstd::prelude::*;
use vstd::string::*;

use super::order;
use super::record;
use super::record::{KindView, RawRecord, RecordKind, RecordView};
use crate::text;

verus! {

/// How two versions of a file relate.
#[derive(Debug, Clone, Copy, PartialEq, Eq, Structural)]
pub enum Decision {
    /// The incoming version holds no record of the conversation.
    LogOnly,
    /// It goes on where the other stands.
    Incremental,
    /// It goes on from a summary of the other.
    CompactionBridge,
    /// It shares nothing with the other, whose name it bears.
    SuspectReuse,
}

/// What a decision rests on.
#[derive(Debug, Clone)]
pub struct Evidence {
    /// Number of identities in the base.
    pub base_uuids: usize,
    /// Number of identities in the incoming version.
    pub incoming_uuids: usize,
    /// Number of identities in both.
    pub uuid_overlap: usize,
    /// Number of identities in the incoming version alone.
    pub incoming_only_transcript: usize,
    /// Whether the incoming version holds a summary whose parent is in the base.
    pub has_compaction_bridge: bool,
    /// First and last time in the base.
    pub base_ts_range: Option<(String, String)>,
    /// First and last time in the incoming version.
    pub incoming_ts_range: Option<(String, String)>,
    /// Number of lines that end too early to be JSON.
    pub truncated_lines: usize,
}

/// A merged file and how it came about.
#[derive(Debug, Clone)]
pub struct MergeResult {
    /// How the two versions relate.
    pub decision: Decision,
    /// What the decision rests on.
    pub evidence: Evidence,
    /// The merged lines.
    pub merged_lines: Vec<String>,
    /// What was dropped because of a longer record with the same identity.
    pub conflicts: Vec<String>,
}

/// The identity of a record.
pub open spec fn uuid_of(r: RecordView) -> Option<Seq<char>> {
    match r.kind {
        KindView::Transcript(uuid) => Some(uuid),
        _ => None,
    }
}

/// The identities in some records.
pub open spec fn uuids(recs: Seq<RecordView>) -> Set<Seq<char>>
    decreases recs.len(),
{
    if recs.len() == 0 {
        Set::empty()
    } else {
        match uuid_of(recs.last()) {
            Some(uuid) => uuids(recs.drop_last()).insert(uuid),
            None => uuids(recs.drop_last()),
        }
    }
}

/// The time that record `i` is filed under: its own, or that of the nearest record before it
/// that has one.
pub open spec fn filed_under(all: Seq<RecordView>, i: int) -> Option<Seq<char>>
    decreases i,
{
    if all[i].timestamp is Some || i <= 0 {
        all[i].timestamp
    } else {
        filed_under(all, i - 1)
    }
}

/// The times that the records are filed under.
pub open spec fn times_of(all: Seq<RecordView>) -> Seq<Option<Seq<char>>> {
    Seq::new(all.len(), |i: int| filed_under(all, i))
}

/// Length of a record's line in bytes.
pub open spec fn size_of(r: RecordView) -> nat {
    text::utf8(r.line).len()
}

/// Whether record `i` is preferred over record `j`, which has the same identity: it is longer, or
/// as long and earlier.
pub open spec fn preferred(all: Seq<RecordView>, i: int, j: int) -> bool {
    size_of(all[j]) < size_of(all[i]) || (size_of(all[j]) == size_of(all[i]) && i < j)
}

/// Whether record `i` is preferred over every other one with its identity among the first `n`.
pub open spec fn wins(all: Seq<RecordView>, n: int, i: int) -> bool {
    forall|j: int|
        0 <= j < n && j != i && uuid_of(#[trigger] all[j]) == uuid_of(all[i]) ==> preferred(
            all,
            i,
            j,
        )
}

/// Whether the line of record `i` does not occur before it among the records without an identity.
pub open spec fn first_of_its_line(all: Seq<RecordView>, i: int) -> bool {
    forall|j: int|
        0 <= j < i && uuid_of(#[trigger] all[j]) is None ==> all[j].line != all[i].line
}

/// Whether record `i` stays among the first `n`.
pub open spec fn kept(all: Seq<RecordView>, n: int, i: int) -> bool {
    if uuid_of(all[i]) is Some {
        wins(all, n, i)
    } else {
        first_of_its_line(all, i)
    }
}

/// The places of the records that stay, in the order of the merged file.
pub open spec fn is_merge_order(all: Seq<RecordView>, places: Seq<int>) -> bool {
    &&& forall|k: int|
        0 <= k < places.len() ==> 0 <= #[trigger] places[k] < all.len() && kept(
            all,
            all.len() as int,
            places[k],
        )
    &&& forall|i: int|
        0 <= i < all.len() && #[trigger] kept(all, all.len() as int, i) ==> places.contains(i)
    &&& forall|k: int, l: int|
        0 <= k < l < places.len() ==> order::item_lt(
            times_of(all),
            #[trigger] places[k],
            #[trigger] places[l],
        )
}

/// The records at some places.
pub open spec fn at_places(all: Seq<RecordView>, places: Seq<int>) -> Seq<RecordView> {
    Seq::new(places.len(), |k: int| all[places[k]])
}

/// The lines of some records.
pub open spec fn lines_of(recs: Seq<RecordView>) -> Seq<Seq<char>> {
    Seq::new(recs.len(), |k: int| recs[k].line)
}

/// Of the first `n` records with that identity, the one that stays.
pub open spec fn best(all: Seq<RecordView>, n: int, uuid: Seq<char>) -> Option<int>
    decreases n,
{
    if n <= 0 {
        None
    } else {
        let before = best(all, n - 1, uuid);
        if uuid_of(all[n - 1]) == Some(uuid) {
            match before {
                Some(p) if size_of(all[p]) >= size_of(all[n - 1]) => before,
                _ => Some(n - 1),
            }
        } else {
            before
        }
    }
}

/// How a dropped record is told.
pub open spec fn dropped(uuid: Seq<char>, line: Seq<char>) -> Seq<char> {
    "uuid="@ + uuid + " dropped="@ + line
}

/// What is told as dropped when the first `n` records are united one after the other: the
/// shorter of two records with the same identity, unless they are the same line.
pub open spec fn conflicts_of(all: Seq<RecordView>, n: int) -> Seq<Seq<char>>
    decreases n,
{
    if n <= 0 {
        Seq::empty()
    } else {
        let before = conflicts_of(all, n - 1);
        let r = all[n - 1];
        match uuid_of(r) {
            None => before,
            Some(uuid) => match best(all, n - 1, uuid) {
                None => before,
                Some(p) => if size_of(all[p]) >= size_of(r) {
                    if all[p].line != r.line {
                        before.push(dropped(uuid, r.line))
                    } else {
                        before
                    }
                } else {
                    before.push(dropped(uuid, all[p].line))
                },
            },
        }
    }
}

/// Number of lines among the first `n` that end too early to be JSON.
pub open spec fn truncated_of(all: Seq<RecordView>, n: int) -> nat
    decreases n,
{
    if n <= 0 {
        0
    } else {
        truncated_of(all, n - 1) + if all[n - 1].kind == KindView::Unparsable(true) {
            1nat
        } else {
            0nat
        }
    }
}

/// Whether the incoming version holds a summary whose parent is in the base.
pub open spec fn bridged(base: Seq<RecordView>, incoming: Seq<RecordView>) -> bool {
    exists|i: int|
        0 <= i < incoming.len() && (#[trigger] incoming[i]).compact_summary
            && incoming[i].parent_uuid is Some && uuids(base).contains(
            incoming[i].parent_uuid->0,
        )
}

/// First and last time among the first `n` records.
pub open spec fn range_of(recs: Seq<RecordView>, n: int) -> Option<(Seq<char>, Seq<char>)>
    decreases n,
{
    if n <= 0 {
        None
    } else {
        let before = range_of(recs, n - 1);
        match (recs[n - 1].timestamp, before) {
            (None, _) => before,
            (Some(t), None) => Some((t, t)),
            (Some(t), Some((lo, hi))) => Some(
                (
                    if text::text_lt(t, lo) {
                        t
                    } else {
                        lo
                    },
                    if text::text_lt(hi, t) {
                        t
                    } else {
                        hi
                    },
                ),
            ),
        }
    }
}

/// How the two versions relate.
pub open spec fn decided(base: Seq<RecordView>, incoming: Seq<RecordView>) -> Decision {
    if bridged(base, incoming) {
        Decision::CompactionBridge
    } else if uuids(incoming).is_empty() {
        Decision::LogOnly
    } else if !uuids(base).disjoint(uuids(incoming)) {
        Decision::Incremental
    } else if !uuids(base).is_empty() {
        Decision::SuspectReuse
    } else {
        Decision::Incremental
    }
}

/// The texts of a pair of strings.
pub open spec fn pair_text(p: Option<(String, String)>) -> Option<(Seq<char>, Seq<char>)> {
    match p {
        Some((a, b)) => Some((a@, b@)),
        None => None,
    }
}

impl Evidence {
    /// Whether it says what holds of the two versions.
    pub open spec fn holds(&self, base: Seq<RecordView>, incoming: Seq<RecordView>) -> bool {
        &&& self.base_uuids == uuids(base).len()
        &&& self.incoming_uuids == uuids(incoming).len()
        &&& self.uuid_overlap == uuids(base).intersect(uuids(incoming)).len()
        &&& self.incoming_only_transcript == uuids(incoming).difference(uuids(base)).len()
        &&& self.has_compaction_bridge == bridged(base, incoming)
        &&& pair_text(self.base_ts_range) == range_of(base, base.len() as int)
        &&& pair_text(self.incoming_ts_range) == range_of(incoming, incoming.len() as int)
        &&& self.truncated_lines == truncated_of(base + incoming, (base + incoming).len() as int)
    }
}

impl MergeResult {
    /// Whether it is the merge of the two versions.
    pub open spec fn merges(&self, base: Seq<RecordView>, incoming: Seq<RecordView>) -> bool {
        let all = base + incoming;
        &&& self.decision == decided(base, incoming)
        &&& self.evidence.holds(base, incoming)
        &&& exists|places: Seq<int>|
            #[trigger] is_merge_order(all, places) && text::texts(self.merged_lines@) == lines_of(
                at_places(all, places),
            )
        &&& text::texts(self.conflicts@) == conflicts_of(all, all.len() as int)
    }
}

/// The record that stays for an identity is the longest, and the first of the longest.
proof fn best_wins(all: Seq<RecordView>, n: int, uuid: Seq<char>)
    requires
        0 <= n <= all.len(),
    ensures
        match best(all, n, uuid) {
            Some(p) => 0 <= p < n && uuid_of(all[p]) == Some(uuid) && wins(all, n, p),
            None => forall|i: int| 0 <= i < n ==> uuid_of(#[trigger] all[i]) != Some(uuid),
        },
    decreases n,
{
    if n > 0 {
        best_wins(all, n - 1, uuid);
    }
}

/// Of two records with the same identity at most one stays.
proof fn one_wins(all: Seq<RecordView>, n: int, i: int, j: int)
    requires
        0 <= i < n,
        0 <= j < n,
        i != j,
        uuid_of(all[i]) == uuid_of(all[j]),
        wins(all, n, i),
    ensures
        !wins(all, n, j),
{
    assert(preferred(all, i, j));
}

/// A record with an identity stays exactly where it is the best of that identity.
proof fn kept_is_best(all: Seq<RecordView>, n: int, i: int)
    requires
        0 <= i < n <= all.len(),
        uuid_of(all[i]) is Some,
    ensures
        kept(all, n, i) <==> best(all, n, uuid_of(all[i])->0) == Some(i),
{
    let uuid = uuid_of(all[i])->0;
    best_wins(all, n, uuid);
    let p = best(all, n, uuid)->0;
    if p != i {
        one_wins(all, n, p, i);
    }
}

/// How a dropped record is told.
fn dropped_text(uuid: &str, line: &str) -> (s: String)
    ensures
        s@ == dropped(uuid@, line@),
{
    let mut s: String = String::new();
    s.append("uuid=");
    s.append(uuid);
    s.append(" dropped=");
    s.append(line);
    assert(s@ =~= dropped(uuid@, line@));
    s
}

fn clone_opt(s: &Option<String>) -> (r: Option<String>)
    ensures
        record::opt_text(r) == record::opt_text(*s),
{
    match s {
        Some(s) => Some(s.clone()),
        None => None,
    }
}

/// Whether the line occurs among the first `n` records that have no identity.
spec fn line_seen(all: Seq<RecordView>, n: int, line: Seq<char>) -> bool {
    exists|j: int| 0 <= j < n && uuid_of(#[trigger] all[j]) is None && all[j].line == line
}

/// Whether the map leads to the record that stays for the identity, of the first `n` records.
spec fn points_to_best(
    m: Map<Seq<char>, usize>,
    all: Seq<RecordView>,
    n: int,
    uuid: Seq<char>,
) -> bool {
    &&& m.contains_key(uuid) == (best(all, n, uuid) is Some)
    &&& best(all, n, uuid) is Some ==> m[uuid] == best(all, n, uuid)->0
}

/// What uniting records one after the other has led to.
struct Union {
    keep: Vec<bool>,
    times: Vec<Option<String>>,
    by_uuid: StringHashMap<usize>,
    seen: StringHashSet,
    conflicts: Vec<String>,
    truncated: usize,
}

impl Union {
    /// Whether it is where uniting the first `n` records leads.
    spec fn after(&self, all: Seq<RecordView>, n: int) -> bool {
        &&& self.keep@.len() == n
        &&& forall|j: int| 0 <= j < n ==> #[trigger] self.keep@[j] == kept(all, n, j)
        &&& self.times@.len() == n
        &&& forall|j: int|
            0 <= j < n ==> record::opt_text(#[trigger] self.times@[j]) == filed_under(all, j)
        &&& forall|u: Seq<char>|
            #![trigger self.by_uuid@.contains_key(u)]
            points_to_best(self.by_uuid@, all, n, u)
        &&& forall|l: Seq<char>|
            #![trigger self.seen@.contains(l)]
            self.seen@.contains(l) == line_seen(all, n, l)
        &&& text::texts(self.conflicts@) == conflicts_of(all, n)
        &&& self.truncated == truncated_of(all, n)
        &&& self.truncated <= n
    }

    fn new() -> (u: Union)
        ensures
            forall|all: Seq<RecordView>| u.after(all, 0),
    {
        let u: Union = Union {
            keep: Vec::new(),
            times: Vec::new(),
            by_uuid: StringHashMap::new(),
            seen: StringHashSet::new(),
            conflicts: Vec::new(),
            truncated: 0,
        };
        assert(text::texts(u.conflicts@) =~= Seq::empty());
        u
    }

    /// Unites a record without an identity.
    fn add_line(&mut self, r: &RawRecord, all: &Vec<RawRecord>, n: usize)
        requires
            old(self).after(record::views(all@), n as int),
            n < all@.len(),
            all@[n as int] == *r,
            uuid_of(r@) is None,
            old(self).truncated < usize::MAX,
        ensures
            final(self).keep@.len() == n + 1,
            forall|j: int|
                0 <= j <= n ==> #[trigger] final(self).keep@[j] == kept(
                    record::views(all@),
                    n + 1,
                    j,
                ),
            forall|l: Seq<char>|
                #![trigger final(self).seen@.contains(l)]
                final(self).seen@.contains(l) == line_seen(record::views(all@), n + 1, l),
            final(self).truncated == truncated_of(record::views(all@), n + 1),
            final(self).truncated <= n + 1,
            final(self).times == old(self).times,
            final(self).by_uuid == old(self).by_uuid,
            final(self).conflicts == old(self).conflicts,
    {
        let ghost rv = record::views(all@);
        let ghost before = *self;
        if let RecordKind::Unparsable { truncated } = &r.kind {
            if *truncated {
                self.truncated = self.truncated + 1;
            }
        }
        let fresh: bool = self.seen.insert(r.line.clone());
        self.keep.push(fresh);
        proof {
            assert(rv[n as int] == r@);
            assert forall|l: Seq<char>|
                #![trigger self.seen@.contains(l)]
                self.seen@.contains(l) == line_seen(rv, n + 1, l) by {
                assert(before.seen@.contains(l) || !before.seen@.contains(l));
                if l == r.line@ {
                    assert(uuid_of(rv[n as int]) is None && rv[n as int].line == l);
                }
                if exists|j: int|
                    0 <= j < n + 1 && uuid_of(#[trigger] rv[j]) is None && rv[j].line == l {
                    let j = choose|j: int|
                        0 <= j < n + 1 && uuid_of(#[trigger] rv[j]) is None && rv[j].line == l;
                    if j < n {
                        assert(before.seen@.contains(l));
                    }
                }
            }
            assert forall|j: int| 0 <= j <= n implies #[trigger] self.keep@[j] == kept(
                rv,
                n + 1,
                j,
            ) by {
                if j < n {
                    assert(before.keep@[j] == kept(rv, n as int, j));
                    if uuid_of(rv[j]) is Some {
                        kept_is_best(rv, n as int, j);
                        kept_is_best(rv, n + 1, j);
                    }
                } else {
                    assert(before.seen@.contains(r.line@) == line_seen(rv, n as int, r.line@));
                }
            }
        }
    }

    /// Unites a record with an identity.
    fn add_transcript(&mut self, r: &RawRecord, uuid: &String, all: &Vec<RawRecord>, n: usize)
        requires
            old(self).after(record::views(all@), n as int),
            n < all@.len(),
            all@[n as int] == *r,
            uuid_of(r@) == Some(uuid@),
        ensures
            final(self).keep@.len() == n + 1,
            forall|j: int|
                0 <= j <= n ==> #[trigger] final(self).keep@[j] == kept(
                    record::views(all@),
                    n + 1,
                    j,
                ),
            forall|u: Seq<char>|
                #![trigger final(self).by_uuid@.contains_key(u)]
                points_to_best(final(self).by_uuid@, record::views(all@), n + 1, u),
            text::texts(final(self).conflicts@) == conflicts_of(record::views(all@), n + 1),
            final(self).times == old(self).times,
            final(self).seen == old(self).seen,
            final(self).truncated == old(self).truncated,
    {
        let ghost rv = record::views(all@);
        let ghost before = *self;
        let ghost told = text::texts(self.conflicts@);
        let known: Option<usize> = match self.by_uuid.get(uuid) {
            Some(p) => Some(*p),
            None => None,
        };
        proof {
            assert(rv[n as int] == r@);
            assert(before.by_uuid@.contains_key(uuid@) || !before.by_uuid@.contains_key(uuid@));
            best_wins(rv, n as int, uuid@);
        }
        match known {
            Some(p) => {
                assert(rv[p as int] == all@[p as int]@);
                if text::byte_len(&all[p].line) >= text::byte_len(&r.line) {
                    if !text::same_str(&all[p].line, &r.line) {
                        self.conflicts.push(dropped_text(uuid, &r.line));
                        assert(text::texts(self.conflicts@) =~= told.push(
                            dropped(uuid@, r.line@),
                        ));
                    }
                    self.keep.push(false);
                    assert(best(rv, n + 1, uuid@) == Some(p as int));
                } else {
                    self.conflicts.push(dropped_text(uuid, &all[p].line));
                    assert(text::texts(self.conflicts@) =~= told.push(
                        dropped(uuid@, all@[p as int].line@),
                    ));
                    self.keep.set(p, false);
                    self.keep.push(true);
                    self.by_uuid.insert(uuid.clone(), n);
                    assert(best(rv, n + 1, uuid@) == Some(n as int));
                }
            },
            None => {
                self.keep.push(true);
                self.by_uuid.insert(uuid.clone(), n);
                assert(best(rv, n + 1, uuid@) == Some(n as int));
            },
        }
        proof {
            assert forall|u: Seq<char>|
                #![trigger self.by_uuid@.contains_key(u)]
                points_to_best(self.by_uuid@, rv, n + 1, u) by {
                assert(points_to_best(before.by_uuid@, rv, n as int, u)) by {
                    assert(before.by_uuid@.contains_key(u) || !before.by_uuid@.contains_key(u));
                }
                if u != uuid@ {
                    assert(best(rv, n + 1, u) == best(rv, n as int, u));
                }
            }
            assert forall|j: int| 0 <= j <= n implies #[trigger] self.keep@[j] == kept(
                rv,
                n + 1,
                j,
            ) by {
                if j < n {
                    assert(before.keep@[j] == kept(rv, n as int, j));
                    if uuid_of(rv[j]) is Some {
                        kept_is_best(rv, n as int, j);
                        kept_is_best(rv, n + 1, j);
                    }
                } else {
                    kept_is_best(rv, n + 1, j);
                }
            }
        }
    }

    /// Unites record `n`.
    fn add_record(&mut self, all: &Vec<RawRecord>, n: usize)
        requires
            old(self).after(record::views(all@), n as int),
            n < all@.len(),
        ensures
            final(self).after(record::views(all@), n + 1),
    {
        let ghost rv = record::views(all@);
        let ghost before = *self;
        let total: usize = all.len();
        let r: &RawRecord = &all[n];
        assert(rv[n as int] == r@);
        match &r.kind {
            RecordKind::Transcript { uuid } => {
                self.add_transcript(r, uuid, all, n);
                assert(truncated_of(rv, n + 1) == truncated_of(rv, n as int));
                assert forall|l: Seq<char>|
                    #![trigger self.seen@.contains(l)]
                    self.seen@.contains(l) == line_seen(rv, n + 1, l) by {
                    assert(before.seen@.contains(l) == line_seen(rv, n as int, l));
                }
            },
            _ => {
                self.add_line(r, all, n);
                assert forall|u: Seq<char>|
                    #![trigger self.by_uuid@.contains_key(u)]
                    points_to_best(self.by_uuid@, rv, n + 1, u) by {
                    assert(points_to_best(before.by_uuid@, rv, n as int, u)) by {
                        assert(before.by_uuid@.contains_key(u) || !before.by_uuid@.contains_key(
                            u,
                        ));
                    }
                    assert(best(rv, n + 1, u) == best(rv, n as int, u));
                }
                assert(conflicts_of(rv, n + 1) == conflicts_of(rv, n as int));
            },
        }
        let time: Option<String> = match &r.timestamp {
            Some(t) => Some(t.clone()),
            None => if n == 0 {
                None
            } else {
                clone_opt(&self.times[n - 1])
            },
        };
        self.times.push(time);
        assert forall|j: int| 0 <= j < n + 1 implies record::opt_text(#[trigger] self.times@[j])
            == filed_under(rv, j) by {
            if j < n {
                assert(self.times@[j] == before.times@[j]);
            } else if n > 0 {
                assert(record::opt_text(before.times@[n - 1]) == filed_under(rv, n - 1));
            }
        }
        assert(text::texts(self.conflicts@) == conflicts_of(rv, n + 1));
        assert(self.truncated == truncated_of(rv, n + 1));
    }
}

proof fn uuids_finite(recs: Seq<RecordView>)
    ensures
        uuids(recs).finite(),
    decreases recs.len(),
{
    if recs.len() > 0 {
        uuids_finite(recs.drop_last());
    }
}

/// The identities are those of the records.
proof fn uuids_are_those_of_records(recs: Seq<RecordView>, uuid: Seq<char>)
    ensures
        uuids(recs).contains(uuid) <==> exists|i: int|
            0 <= i < recs.len() && uuid_of(#[trigger] recs[i]) == Some(uuid),
    decreases recs.len(),
{
    if recs.len() > 0 {
        let head = recs.drop_last();
        uuids_are_those_of_records(head, uuid);
        if exists|i: int| 0 <= i < recs.len() && uuid_of(#[trigger] recs[i]) == Some(uuid) {
            let i = choose|i: int| 0 <= i < recs.len() && uuid_of(#[trigger] recs[i]) == Some(uuid);
            if i < recs.len() - 1 {
                assert(uuid_of(head[i]) == Some(uuid));
            }
        }
        if exists|i: int| 0 <= i < head.len() && uuid_of(#[trigger] head[i]) == Some(uuid) {
            let i = choose|i: int| 0 <= i < head.len() && uuid_of(#[trigger] head[i]) == Some(uuid);
            assert(uuid_of(recs[i]) == Some(uuid));
        }
        if uuids(recs).contains(uuid) && uuid_of(recs.last()) == Some(uuid) {
            assert(uuid_of(recs[recs.len() - 1]) == Some(uuid));
        }
    }
}

/// The identities in some records, with how many of them are and are not in `known`.
fn collect_uuids(recs: &Vec<RawRecord>, known: &StringHashSet) -> (r: (StringHashSet, usize, usize))
    requires
        known@.finite(),
    ensures
        r.0@ == uuids(record::views(recs@)),
        r.1 == known@.intersect(r.0@).len(),
        r.2 == r.0@.difference(known@).len(),
{
    let ghost rv = record::views(recs@);
    let mut found: StringHashSet = StringHashSet::new();
    let mut inside: usize = 0;
    let mut outside: usize = 0;
    let mut i: usize = 0;
    let total: usize = recs.len();
    assert(rv.subrange(0, 0) =~= Seq::empty());
    assert(known@.intersect(found@) =~= Set::empty());
    assert(found@.difference(known@) =~= Set::empty());
    while i < recs.len()
        invariant
            i <= recs@.len(),
            total == recs@.len(),
            rv == record::views(recs@),
            known@.finite(),
            found@.finite(),
            found@ == uuids(rv.subrange(0, i as int)),
            inside == known@.intersect(found@).len(),
            outside == found@.difference(known@).len(),
            inside <= i,
            outside <= i,
        decreases recs@.len() - i,
    {
        let ghost before = found@;
        let ghost next = rv.subrange(0, i + 1);
        assert(next.drop_last() =~= rv.subrange(0, i as int));
        assert(next.last() == recs@[i as int]@);
        if let RecordKind::Transcript { uuid } = &recs[i].kind {
            let fresh: bool = found.insert(uuid.clone());
            if fresh {
                if known.contains(uuid) {
                    inside = inside + 1;
                    assert(known@.intersect(found@) =~= known@.intersect(before).insert(uuid@));
                    assert(found@.difference(known@) =~= before.difference(known@));
                } else {
                    outside = outside + 1;
                    assert(known@.intersect(found@) =~= known@.intersect(before));
                    assert(found@.difference(known@) =~= before.difference(known@).insert(uuid@));
                }
            } else {
                assert(found@ =~= before);
            }
        }
        i = i + 1;
    }
    assert(rv.subrange(0, i as int) =~= rv);
    (found, inside, outside)
}

/// Whether a record is a summary whose parent is known.
fn has_bridge(recs: &Vec<RawRecord>, known: &StringHashSet) -> (b: bool)
    ensures
        b == exists|i: int|
            0 <= i < recs@.len() && (#[trigger] record::views(recs@)[i]).compact_summary
                && record::views(recs@)[i].parent_uuid is Some && known@.contains(
                record::views(recs@)[i].parent_uuid->0,
            ),
{
    let ghost rv = record::views(recs@);
    let mut i: usize = 0;
    while i < recs.len()
        invariant
            i <= recs@.len(),
            rv == record::views(recs@),
            forall|j: int|
                0 <= j < i ==> !((#[trigger] rv[j]).compact_summary && rv[j].parent_uuid is Some
                    && known@.contains(rv[j].parent_uuid->0)),
        decreases recs@.len() - i,
    {
        assert(rv[i as int] == recs@[i as int]@);
        if recs[i].compact_summary {
            if let Some(parent) = &recs[i].parent_uuid {
                if known.contains(parent) {
                    return true;
                }
            }
        }
        i = i + 1;
    }
    false
}

/// First and last time in some records.
fn ts_range(recs: &Vec<RawRecord>) -> (r: Option<(String, String)>)
    ensures
        pair_text(r) == range_of(record::views(recs@), recs@.len() as int),
{
    let ghost rv = record::views(recs@);
    let mut range: Option<(String, String)> = None;
    let mut i: usize = 0;
    while i < recs.len()
        invariant
            i <= recs@.len(),
            rv == record::views(recs@),
            pair_text(range) == range_of(rv, i as int),
        decreases recs@.len() - i,
    {
        assert(rv[i as int] == recs@[i as int]@);
        if let Some(t) = &recs[i].timestamp {
            range = match range {
                None => Some((t.clone(), t.clone())),
                Some((lo, hi)) => {
                    let lo: String = if text::str_less(t, &lo) { t.clone() } else { lo };
                    let hi: String = if text::str_less(&hi, t) { t.clone() } else { hi };
                    Some((lo, hi))
                },
            };
        }
        i = i + 1;
    }
    range
}

/// The places whose mark is set.
fn marked(keep: &Vec<bool>) -> (v: Vec<usize>)
    ensures
        v@.no_duplicates(),
        forall|k: int| 0 <= k < v@.len() ==> #[trigger] v@[k] < keep@.len(),
        forall|x: usize| v@.contains(x) <==> x < keep@.len() && keep@[x as int],
{
    let mut v: Vec<usize> = Vec::new();
    let mut i: usize = 0;
    while i < keep.len()
        invariant
            i <= keep@.len(),
            v@.no_duplicates(),
            forall|k: int| 0 <= k < v@.len() ==> #[trigger] v@[k] < i,
            forall|x: usize| v@.contains(x) <==> x < i && keep@[x as int],
        decreases keep@.len() - i,
    {
        let ghost before = v@;
        if keep[i] {
            v.push(i);
            assert(v@.last() == i);
            assert forall|x: usize| v@.contains(x) <==> x < i + 1 && keep@[x as int] by {
                if x == i {
                    assert(v@[before.len() as int] == x);
                }
                if before.contains(x) {
                    let k = choose|k: int| 0 <= k < before.len() && before[k] == x;
                    assert(v@[k] == x);
                }
                if v@.contains(x) {
                    let k = choose|k: int| 0 <= k < v@.len() && v@[k] == x;
                    if k < before.len() {
                        assert(before[k] == x);
                    }
                }
            }
        }
        i = i + 1;
    }
    v
}

/// Merges the records of two versions: see `MergeResult::merges`.
pub fn merge_records(base: Vec<RawRecord>, incoming: Vec<RawRecord>) -> (r: MergeResult)
    ensures
        r.merges(record::views(base@), record::views(incoming@)),
{
    let ghost (bv, iv) = (record::views(base@), record::views(incoming@));
    let none: StringHashSet = StringHashSet::new();
    let (base_uuids, _, _) = collect_uuids(&base, &none);
    proof {
        uuids_finite(bv);
    }
    let (inc_uuids, overlap, inc_only) = collect_uuids(&incoming, &base_uuids);
    let has_bridge: bool = has_bridge(&incoming, &base_uuids);
    let base_ts_range: Option<(String, String)> = ts_range(&base);
    let incoming_ts_range: Option<(String, String)> = ts_range(&incoming);
    let decision: Decision = if has_bridge {
        Decision::CompactionBridge
    } else if inc_uuids.is_empty() {
        Decision::LogOnly
    } else if overlap > 0 {
        Decision::Incremental
    } else if !base_uuids.is_empty() {
        Decision::SuspectReuse
    } else {
        Decision::Incremental
    };
    proof {
        uuids_finite(iv);
        let both = uuids(bv).intersect(uuids(iv));
        if both.len() == 0 {
            assert(both =~= Set::empty());
            assert forall|u: Seq<char>| uuids(bv).contains(u) implies !uuids(iv).contains(u) by {
                assert(!both.contains(u));
            }
        } else if uuids(bv).disjoint(uuids(iv)) {
            assert(both =~= Set::empty());
        }
        assert(iv.len() == incoming@.len());
        assert(has_bridge == bridged(bv, iv));
    }
    let mut all: Vec<RawRecord> = base;
    let mut incoming: Vec<RawRecord> = incoming;
    all.append(&mut incoming);
    let ghost av = bv + iv;
    assert(record::views(all@) =~= av);
    let mut union: Union = Union::new();
    let mut i: usize = 0;
    while i < all.len()
        invariant
            i <= all@.len(),
            av == record::views(all@),
            union.after(av, i as int),
        decreases all@.len() - i,
    {
        union.add_record(&all, i);
        i = i + 1;
    }
    let places: Vec<usize> = order::sort_items(&union.times, marked(&union.keep));
    let ghost times = order::opt_texts(union.times@);
    assert(times =~= times_of(av));
    proof {
        assert forall|k: int| 0 <= k < places@.len() implies #[trigger] places@[k] < av.len()
            && kept(av, av.len() as int, places@[k] as int) by {
            assert(places@.contains(places@[k]));
            assert(union.keep@[places@[k] as int] == kept(
                av,
                av.len() as int,
                places@[k] as int,
            ));
        }
    }
    let ghost order = Seq::new(places@.len(), |k: int| places@[k] as int);
    proof {
        assert forall|p: int|
            0 <= p < av.len() && #[trigger] kept(av, av.len() as int, p) implies order.contains(
            p,
        ) by {
            assert(union.keep@[p] == kept(av, av.len() as int, p));
            assert(places@.contains(p as usize));
            let k = choose|k: int| 0 <= k < places@.len() && places@[k] == p as usize;
            assert(order[k] == p);
        }
        assert(is_merge_order(av, order));
    }
    let mut merged_lines: Vec<String> = Vec::new();
    let mut k: usize = 0;
    while k < places.len()
        invariant
            k <= places@.len(),
            av == record::views(all@),
            order.len() == places@.len(),
            forall|j: int| 0 <= j < places@.len() ==> #[trigger] order[j] == places@[j] as int,
            forall|j: int| 0 <= j < places@.len() ==> #[trigger] places@[j] < all@.len(),
            merged_lines@.len() == k,
            forall|j: int|
                0 <= j < k ==> (#[trigger] merged_lines@[j])@ == av[order[j]].line,
        decreases places@.len() - k,
    {
        let p: usize = places[k];
        assert(av[order[k as int]] == all@[p as int]@);
        merged_lines.push(all[p].line.clone());
        k = k + 1;
    }
    assert(text::texts(merged_lines@) =~= lines_of(at_places(av, order)));
    let evidence: Evidence = Evidence {
        base_uuids: base_uuids.len(),
        incoming_uuids: inc_uuids.len(),
        uuid_overlap: overlap,
        incoming_only_transcript: inc_only,
        has_compaction_bridge: has_bridge,
        base_ts_range,
        incoming_ts_range,
        truncated_lines: union.truncated,
    };
    MergeResult { decision, evidence, merged_lines, conflicts: union.conflicts }
}

/// Merges two versions of a session file.
pub fn session_merge(base: &str, incoming: &str) -> (r: MergeResult)
    ensures
        r.merges(record::records_of(base@), record::records_of(incoming@)),
{
    merge_records(record::read_records(base), record::read_records(incoming))
}

/// Whether every record of `recs` is in `merged`: by identity where it has one, as a whole line
/// where it has none.
pub open spec fn covers(merged: Seq<RecordView>, recs: Seq<RecordView>) -> bool {
    forall|i: int|
        0 <= i < recs.len() ==> match uuid_of(#[trigger] recs[i]) {
            Some(uuid) => uuids(merged).contains(uuid),
            None => line_in(merged, recs[i].line),
        }
}

/// Whether the line is one of a record without an identity.
pub open spec fn line_in(recs: Seq<RecordView>, line: Seq<char>) -> bool {
    exists|i: int|
        0 <= i < recs.len() && uuid_of(#[trigger] recs[i]) is None && recs[i].line == line
}

/// Whether every record is covered by the merged ones.
pub fn records_covered(base: &Vec<RawRecord>, merged: &Vec<RawRecord>) -> (b: bool)
    ensures
        b == covers(record::views(merged@), record::views(base@)),
{
    let ghost (bv, mv) = (record::views(base@), record::views(merged@));
    let none: StringHashSet = StringHashSet::new();
    let (merged_uuids, _, _) = collect_uuids(merged, &none);
    let mut merged_lines: StringHashSet = StringHashSet::new();
    let mut i: usize = 0;
    while i < merged.len()
        invariant
            i <= merged@.len(),
            mv == record::views(merged@),
            forall|l: Seq<char>|
                #![trigger merged_lines@.contains(l)]
                merged_lines@.contains(l) == line_seen(mv, i as int, l),
        decreases merged@.len() - i,
    {
        let ghost before = merged_lines@;
        assert(mv[i as int] == merged@[i as int]@);
        let plain: bool = match &merged[i].kind {
            RecordKind::Transcript { .. } => false,
            _ => true,
        };
        if plain {
            merged_lines.insert(merged[i].line.clone());
        }
        proof {
            assert forall|l: Seq<char>|
                #![trigger merged_lines@.contains(l)]
                merged_lines@.contains(l) == line_seen(mv, i + 1, l) by {
                assert(before.contains(l) == line_seen(mv, i as int, l));
                if plain && l == mv[i as int].line {
                    assert(uuid_of(mv[i as int]) is None);
                }
                if line_seen(mv, i as int, l) {
                    let j = choose|j: int|
                        0 <= j < i && uuid_of(#[trigger] mv[j]) is None && mv[j].line == l;
                    assert(uuid_of(mv[j]) is None && mv[j].line == l);
                }
            }
        }
        i = i + 1;
    }
    let mut k: usize = 0;
    while k < base.len()
        invariant
            k <= base@.len(),
            bv == record::views(base@),
            mv == record::views(merged@),
            merged_uuids@ == uuids(mv),
            forall|l: Seq<char>|
                #![trigger merged_lines@.contains(l)]
                merged_lines@.contains(l) == line_seen(mv, mv.len() as int, l),
            forall|j: int|
                0 <= j < k ==> match uuid_of(#[trigger] bv[j]) {
                    Some(uuid) => uuids(mv).contains(uuid),
                    None => line_in(mv, bv[j].line),
                },
        decreases base@.len() - k,
    {
        assert(bv[k as int] == base@[k as int]@);
        let present: bool = match &base[k].kind {
            RecordKind::Transcript { uuid } => merged_uuids.contains(uuid),
            _ => merged_lines.contains(&base[k].line),
        };
        assert(line_seen(mv, mv.len() as int, bv[k as int].line) == line_in(
            mv,
            bv[k as int].line,
        ));
        if !present {
            return false;
        }
        k = k + 1;
    }
    true
}

/// Whether a merged file covers the base: the half of the superset rule that is not checked before
/// a deletion.
pub fn base_covered_by_merged(base: &str, merged: &str) -> (b: bool)
    ensures
        b == covers(record::records_of(merged@), record::records_of(base@)),
{
    records_covered(&record::read_records(base), &record::read_records(merged))
}

/// The first of the records without an identity that have this line.
proof fn first_line(all: Seq<RecordView>, i: int) -> (f: int)
    requires
        0 <= i < all.len(),
        uuid_of(all[i]) is None,
    ensures
        0 <= f <= i,
        uuid_of(all[f]) is None,
        all[f].line == all[i].line,
        first_of_its_line(all, f),
    decreases i,
{
    if first_of_its_line(all, i) {
        i
    } else {
        let j = choose|j: int|
            0 <= j < i && uuid_of(#[trigger] all[j]) is None && all[j].line == all[i].line;
        first_line(all, j)
    }
}

/// Where a record's identity or line stands in the merged file.
proof fn place_of(all: Seq<RecordView>, places: Seq<int>, i: int) -> (k: int)
    requires
        is_merge_order(all, places),
        0 <= i < all.len(),
    ensures
        0 <= k < places.len(),
        uuid_of(all[places[k]]) == uuid_of(all[i]),
        uuid_of(all[i]) is Some ==> size_of(all[places[k]]) >= size_of(all[i]),
        uuid_of(all[i]) is None ==> all[places[k]].line == all[i].line,
{
    let n = all.len() as int;
    match uuid_of(all[i]) {
        Some(uuid) => {
            best_wins(all, n, uuid);
            let p = best(all, n, uuid)->0;
            assert(kept(all, n, p));
            assert(places.contains(p));
            if p != i {
                assert(preferred(all, p, i));
            }
            choose|k: int| 0 <= k < places.len() && places[k] == p
        },
        None => {
            let f = first_line(all, i);
            assert(kept(all, n, f));
            assert(places.contains(f));
            choose|k: int| 0 <= k < places.len() && places[k] == f
        },
    }
}

/// Nothing is lost: the merged file covers the base and the incoming version alike.
pub proof fn merge_covers_both(
    base: Seq<RecordView>,
    incoming: Seq<RecordView>,
    places: Seq<int>,
)
    requires
        is_merge_order(base + incoming, places),
    ensures
        covers(at_places(base + incoming, places), base),
        covers(at_places(base + incoming, places), incoming),
{
    let all = base + incoming;
    let merged = at_places(all, places);
    assert forall|i: int| 0 <= i < all.len() implies match uuid_of(#[trigger] all[i]) {
        Some(uuid) => uuids(merged).contains(uuid),
        None => line_in(merged, all[i].line),
    } by {
        let k = place_of(all, places, i);
        assert(merged[k] == all[places[k]]);
        if let Some(uuid) = uuid_of(all[i]) {
            uuids_are_those_of_records(merged, uuid);
        }
    }
    assert forall|i: int| 0 <= i < base.len() implies match uuid_of(#[trigger] base[i]) {
        Some(uuid) => uuids(merged).contains(uuid),
        None => line_in(merged, base[i].line),
    } by {
        assert(all[i] == base[i]);
    }
    assert forall|i: int| 0 <= i < incoming.len() implies match uuid_of(#[trigger] incoming[i]) {
        Some(uuid) => uuids(merged).contains(uuid),
        None => line_in(merged, incoming[i].line),
    } by {
        assert(all[base.len() + i] == incoming[i]);
    }
}

/// Two records that stay, one before the other in the merged file, are not the same record.
proof fn places_differ(all: Seq<RecordView>, places: Seq<int>, k: int, l: int)
    requires
        is_merge_order(all, places),
        0 <= k < places.len(),
        0 <= l < places.len(),
        k != l,
    ensures
        places[k] != places[l],
{
    if k < l {
        order::item_lt_total(times_of(all), places[k], places[l]);
        assert(order::item_lt(times_of(all), places[k], places[l]));
    } else {
        order::item_lt_total(times_of(all), places[l], places[k]);
        assert(order::item_lt(times_of(all), places[l], places[k]));
    }
}

/// There is one merged order and no other.
pub proof fn merge_order_is_unique(all: Seq<RecordView>, p: Seq<int>, q: Seq<int>)
    requires
        is_merge_order(all, p),
        is_merge_order(all, q),
    ensures
        p == q,
{
    same_prefix(all, p, q, p.len() as int);
    same_prefix(all, q, p, q.len() as int);
    assert(p =~= q);
}

proof fn same_prefix(all: Seq<RecordView>, p: Seq<int>, q: Seq<int>, n: int)
    requires
        is_merge_order(all, p),
        is_merge_order(all, q),
        0 <= n <= p.len(),
    ensures
        n <= q.len(),
        forall|k: int| 0 <= k < n ==> p[k] == q[k],
    decreases n,
{
    if n > 0 {
        let k = n - 1;
        same_prefix(all, p, q, k);
        assert(kept(all, all.len() as int, p[k]));
        assert(q.contains(p[k]));
        let m = choose|m: int| 0 <= m < q.len() && q[m] == p[k];
        if m < k {
            places_differ(all, p, m, k);
        }
        if m > k {
            assert(order::item_lt(times_of(all), q[k], q[m]));
            assert(kept(all, all.len() as int, q[k]));
            assert(p.contains(q[k]));
            let l = choose|l: int| 0 <= l < p.len() && p[l] == q[k];
            if l < k {
                places_differ(all, q, l, k);
            } else if l == k {
                places_differ(all, q, k, m);
            } else {
                assert(order::item_lt(times_of(all), p[k], p[l]));
                order::item_lt_total(times_of(all), p[k], p[l]);
            }
        }
    }
}

/// A merged record without a time of its own is filed under no later time when the merged file is
/// read again, and one with a time under that time.
proof fn refiled(
    base: Seq<RecordView>,
    incoming: Seq<RecordView>,
    places: Seq<int>,
    k: int,
)
    requires
        is_merge_order(base + incoming, places),
        0 <= k < places.len(),
    ensures
        ({
            let all = base + incoming;
            let again = at_places(all, places) + incoming;
            filed_under(again, k) is None || exists|t: int|
                0 <= t <= k && filed_under(again, k) == #[trigger] all[places[t]].timestamp
                    && all[places[t]].timestamp is Some
        }),
    decreases k,
{
    let all = base + incoming;
    let again = at_places(all, places) + incoming;
    assert(again[k] == all[places[k]]);
    if again[k].timestamp is None && k > 0 {
        refiled(base, incoming, places, k - 1);
    }
}

/// Reading the merged file again files its records in the order that they stand in.
proof fn refiled_in_order(
    base: Seq<RecordView>,
    incoming: Seq<RecordView>,
    places: Seq<int>,
    k: int,
    l: int,
)
    requires
        is_merge_order(base + incoming, places),
        0 <= k < l < places.len(),
    ensures
        order::item_lt(times_of(at_places(base + incoming, places) + incoming), k, l),
    decreases l - k,
{
    let all = base + incoming;
    let again = at_places(all, places) + incoming;
    let times = times_of(again);
    assert(again[l] == all[places[l]]);
    if k < l - 1 {
        refiled_in_order(base, incoming, places, k, l - 1);
    }
    assert(order::item_lt(times, l - 1, l)) by {
        if again[l].timestamp is Some {
            refiled(base, incoming, places, l - 1);
            if filed_under(again, l - 1) is Some {
                let t = choose|t: int|
                    0 <= t <= l - 1 && filed_under(again, l - 1)
                        == #[trigger] all[places[t]].timestamp && all[places[t]].timestamp is Some;
                assert(order::item_lt(times_of(all), places[t], places[l]));
                assert(times_of(all)[places[t]] == all[places[t]].timestamp);
                assert(times_of(all)[places[l]] == all[places[l]].timestamp);
            }
        } else {
            assert(filed_under(again, l) == filed_under(again, l - 1));
        }
    }
    if k < l - 1 {
        order::item_lt_transitive(times, k, l - 1, l);
    }
}

/// Merging again changes nothing: where the merged file takes the place of the base, all of its
/// records stay, in the order that they stand in, and the incoming version adds none.
pub proof fn merge_is_idempotent(
    base: Seq<RecordView>,
    incoming: Seq<RecordView>,
    places: Seq<int>,
)
    requires
        is_merge_order(base + incoming, places),
    ensures
        is_merge_order(
            at_places(base + incoming, places) + incoming,
            Seq::new(places.len(), |k: int| k),
        ),
{
    let all = base + incoming;
    let merged = at_places(all, places);
    let again = merged + incoming;
    let n = again.len() as int;
    let same = Seq::new(places.len(), |k: int| k);
    assert forall|k: int| 0 <= k < places.len() implies kept(again, n, k) by {
        stays_merged(base, incoming, places, k);
    }
    assert forall|i: int| 0 <= i < n && #[trigger] kept(again, n, i) implies same.contains(i) by {
        if i >= places.len() {
            let q = base.len() + i - places.len();
            assert(again[i] == all[q]);
            let t = place_of(all, places, q);
            assert(again[t] == all[places[t]]);
            if uuid_of(again[i]) is Some {
                assert(preferred(again, i, t));
            } else {
                assert(uuid_of(again[t]) is None && again[t].line == again[i].line);
            }
        } else {
            assert(same[i] == i);
        }
    }
    assert forall|k: int, l: int| 0 <= k < l < same.len() implies order::item_lt(
        times_of(again),
        #[trigger] same[k],
        #[trigger] same[l],
    ) by {
        refiled_in_order(base, incoming, places, k, l);
    }
}

proof fn stays_merged(
    base: Seq<RecordView>,
    incoming: Seq<RecordView>,
    places: Seq<int>,
    k: int,
)
    requires
        is_merge_order(base + incoming, places),
        0 <= k < places.len(),
    ensures
        ({
            let again = at_places(base + incoming, places) + incoming;
            kept(again, again.len() as int, k)
        }),
{
    let all = base + incoming;
    let again = at_places(all, places) + incoming;
    let p = places[k];
    assert(again[k] == all[p]);
    assert(kept(all, all.len() as int, p));
    if uuid_of(all[p]) is Some {
        assert forall|j: int|
            0 <= j < again.len() && j != k && uuid_of(#[trigger] again[j]) == uuid_of(
                again[k],
            ) implies preferred(again, k, j) by {
            if j < places.len() {
                places_differ(all, places, j, k);
                assert(again[j] == all[places[j]]);
                assert(kept(all, all.len() as int, places[j]));
                one_wins(all, all.len() as int, p, places[j]);
            } else {
                let q = base.len() + j - places.len();
                assert(again[j] == all[q]);
                if q != p {
                    assert(preferred(all, p, q));
                }
            }
        }
    } else {
        assert forall|j: int| 0 <= j < k && uuid_of(#[trigger] again[j]) is None implies again[j].line
            != again[k].line by {
            places_differ(all, places, j, k);
            assert(again[j] == all[places[j]]);
            assert(kept(all, all.len() as int, places[j]));
        }
    }
}

/// Whatever is dropped is told: the line of a record with an identity is that of the record that
/// stays for it, or stands in the report.
pub proof fn dropped_lines_are_told(all: Seq<RecordView>, n: int, i: int)
    requires
        0 <= i < n <= all.len(),
        uuid_of(all[i]) is Some,
    ensures
        ({
            let uuid = uuid_of(all[i])->0;
            ||| (best(all, n, uuid) is Some && all[best(all, n, uuid)->0].line == all[i].line)
            ||| conflicts_of(all, n).contains(dropped(uuid, all[i].line))
        }),
    decreases n,
{
    let uuid = uuid_of(all[i])->0;
    let before = conflicts_of(all, n - 1);
    let after = conflicts_of(all, n);
    best_wins(all, n - 1, uuid);
    assert(forall|c: Seq<char>| before.contains(c) ==> after.contains(c)) by {
        assert forall|c: Seq<char>| before.contains(c) implies after.contains(c) by {
            let k = choose|k: int| 0 <= k < before.len() && before[k] == c;
            assert(after[k] == c);
        }
    }
    if i < n - 1 {
        dropped_lines_are_told(all, n - 1, i);
        let p = best(all, n - 1, uuid)->0;
        if uuid_of(all[n - 1]) == Some(uuid) && best(all, n, uuid) != Some(p) {
            assert(after[before.len() as int] == dropped(uuid, all[p].line));
        }
    } else {
        match best(all, n - 1, uuid) {
            None => {},
            Some(p) => {
                if size_of(all[p]) >= size_of(all[i]) && all[p].line != all[i].line {
                    assert(after[before.len() as int] == dropped(uuid, all[i].line));
                }
            },
        }
    }
}

/// Nothing stands twice in the merged file: neither an identity, nor a line without one.
pub proof fn nothing_stands_twice(all: Seq<RecordView>, places: Seq<int>, k: int, l: int)
    requires
        is_merge_order(all, places),
        0 <= k < places.len(),
        0 <= l < places.len(),
        k != l,
    ensures
        match uuid_of(all[places[k]]) {
            Some(uuid) => uuid_of(all[places[l]]) != Some(uuid),
            None => uuid_of(all[places[l]]) is Some || all[places[l]].line
                != all[places[k]].line,
        },
{
    places_differ(all, places, k, l);
    let (i, j) = (places[k], places[l]);
    let n = all.len() as int;
    assert(kept(all, n, i) && kept(all, n, j));
    if uuid_of(all[i]) is Some && uuid_of(all[j]) == uuid_of(all[i]) {
        assert(preferred(all, i, j) && preferred(all, j, i));
    }
}

proof fn filed_under_the_same(all: Seq<RecordView>, i: int, j: int)
    requires
        0 <= i <= j < all.len(),
        forall|m: int| i < m <= j ==> (#[trigger] all[m]).timestamp is None,
    ensures
        filed_under(all, j) == filed_under(all, i),
    decreases j,
{
    if i < j {
        filed_under_the_same(all, i, j - 1);
    }
}

/// A record without a time keeps its place behind those that it follows, back to the last one that
/// has a time; it is not moved to the front.
pub proof fn record_without_time_stays_behind(
    all: Seq<RecordView>,
    places: Seq<int>,
    k: int,
    l: int,
)
    requires
        is_merge_order(all, places),
        0 <= k < places.len(),
        0 <= l < places.len(),
        places[k] < places[l],
        forall|m: int| places[k] < m <= places[l] ==> (#[trigger] all[m]).timestamp is None,
    ensures
        k < l,
{
    filed_under_the_same(all, places[k], places[l]);
    if l < k {
        assert(order::item_lt(times_of(all), places[l], places[k]));
        order::item_lt_total(times_of(all), places[k], places[l]);
    }
}

/// Whether one of the records has that identity.
pub open spec fn names(recs: Seq<RecordView>, uuid: Seq<char>) -> bool {
    exists|i: int| 0 <= i < recs.len() && (#[trigger] recs[i]).kind == KindView::Transcript(uuid)
}

/// Whether one of the records has an identity.
pub open spec fn speaks(recs: Seq<RecordView>) -> bool {
    exists|i: int| 0 <= i < recs.len() && (#[trigger] recs[i]).kind is Transcript
}

/// Whether an identity stands in both.
pub open spec fn share(a: Seq<RecordView>, b: Seq<RecordView>) -> bool {
    exists|i: int, j: int|
        0 <= i < a.len() && 0 <= j < b.len() && (#[trigger] a[i]).kind is Transcript && a[i].kind
            == (#[trigger] b[j]).kind
}

/// Whether a summary among the records goes on from a record of the base.
pub open spec fn goes_on_from(base: Seq<RecordView>, incoming: Seq<RecordView>) -> bool {
    exists|i: int, j: int|
        {
            &&& 0 <= i < base.len()
            &&& 0 <= j < incoming.len()
            &&& (#[trigger] incoming[j]).compact_summary
            &&& incoming[j].parent_uuid is Some
            &&& (#[trigger] base[i]).kind == KindView::Transcript(incoming[j].parent_uuid->0)
        }
}

/// The identities counted are those that records have.
pub proof fn identities_are_counted(recs: Seq<RecordView>, uuid: Seq<char>)
    ensures
        uuids(recs).contains(uuid) <==> names(recs, uuid),
        uuids(recs).finite(),
    decreases recs.len(),
{
    uuids_are_those_of_records(recs, uuid);
    if names(recs, uuid) {
        let i = choose|i: int|
            0 <= i < recs.len() && (#[trigger] recs[i]).kind == KindView::Transcript(uuid);
        assert(uuid_of(recs[i]) == Some(uuid));
    }
    if recs.len() > 0 {
        identities_are_counted(recs.drop_last(), uuid);
    }
}

proof fn sets_tell_what_records_say(base: Seq<RecordView>, incoming: Seq<RecordView>)
    ensures
        uuids(incoming).is_empty() <==> !speaks(incoming),
        uuids(base).is_empty() <==> !speaks(base),
        uuids(base).disjoint(uuids(incoming)) <==> !share(base, incoming),
        bridged(base, incoming) <==> goes_on_from(base, incoming),
{
    let (bs, is) = (uuids(base), uuids(incoming));
    assert forall|u: Seq<char>| bs.contains(u) <==> names(base, u) by {
        identities_are_counted(base, u);
    }
    assert forall|u: Seq<char>| is.contains(u) <==> names(incoming, u) by {
        identities_are_counted(incoming, u);
    }
    speaking(base);
    speaking(incoming);
    if share(base, incoming) {
        let (i, j) = choose|i: int, j: int|
            0 <= i < base.len() && 0 <= j < incoming.len() && (#[trigger] base[i]).kind
                is Transcript && base[i].kind == (#[trigger] incoming[j]).kind;
        let u = base[i].kind->Transcript_0;
        assert(names(base, u));
        assert(incoming[j].kind == KindView::Transcript(u));
        assert(names(incoming, u));
        assert(bs.contains(u) && is.contains(u));
    }
    if !bs.disjoint(is) {
        let u = choose|u: Seq<char>| bs.contains(u) && is.contains(u);
        let i = choose|i: int|
            0 <= i < base.len() && (#[trigger] base[i]).kind == KindView::Transcript(u);
        let j = choose|j: int|
            0 <= j < incoming.len() && (#[trigger] incoming[j]).kind == KindView::Transcript(u);
        assert(base[i].kind == incoming[j].kind);
    }
    if bridged(base, incoming) {
        let j = choose|j: int|
            0 <= j < incoming.len() && (#[trigger] incoming[j]).compact_summary
                && incoming[j].parent_uuid is Some && bs.contains(incoming[j].parent_uuid->0);
        let u = incoming[j].parent_uuid->0;
        assert(names(base, u));
        let i = choose|i: int|
            0 <= i < base.len() && (#[trigger] base[i]).kind == KindView::Transcript(u);
        assert(base[i].kind == KindView::Transcript(incoming[j].parent_uuid->0));
    }
    if goes_on_from(base, incoming) {
        let (i, j) = choose|i: int, j: int|
            {
                &&& 0 <= i < base.len()
                &&& 0 <= j < incoming.len()
                &&& (#[trigger] incoming[j]).compact_summary
                &&& incoming[j].parent_uuid is Some
                &&& (#[trigger] base[i]).kind == KindView::Transcript(incoming[j].parent_uuid->0)
            };
        assert(names(base, incoming[j].parent_uuid->0));
        assert(bs.contains(incoming[j].parent_uuid->0));
    }
}

proof fn speaking(recs: Seq<RecordView>)
    ensures
        uuids(recs).is_empty() <==> !speaks(recs),
{
    assert forall|u: Seq<char>| uuids(recs).contains(u) <==> names(recs, u) by {
        identities_are_counted(recs, u);
    }
    if speaks(recs) {
        let i = choose|i: int| 0 <= i < recs.len() && (#[trigger] recs[i]).kind is Transcript;
        let u = recs[i].kind->Transcript_0;
        assert(recs[i].kind == KindView::Transcript(u));
        assert(names(recs, u));
        assert(uuids(recs).contains(u));
    } else {
        assert forall|u: Seq<char>| !uuids(recs).contains(u) by {
            if names(recs, u) {
                let i = choose|i: int|
                    0 <= i < recs.len() && (#[trigger] recs[i]).kind == KindView::Transcript(u);
                assert(recs[i].kind is Transcript);
            }
        }
        assert(uuids(recs) =~= Set::empty());
    }
}

/// The decision says how the records relate: a summary that goes on from the base is a bridge; else a
/// version without a record of the conversation is only a log; else two versions of the conversation
/// that share no record are suspected to be different conversations; and everything else goes on
/// where the base stands, a base without any record of the conversation among it.
pub proof fn decision_says_how_the_records_relate(
    base: Seq<RecordView>,
    incoming: Seq<RecordView>,
)
    ensures
        ({
            let d = decided(base, incoming);
            let bridge = goes_on_from(base, incoming);
            &&& d == Decision::CompactionBridge <==> bridge
            &&& d == Decision::LogOnly <==> !bridge && !speaks(incoming)
            &&& d == Decision::SuspectReuse <==> !bridge && speaks(base) && speaks(incoming)
                && !share(base, incoming)
            &&& d == Decision::Incremental <==> !bridge && speaks(incoming) && (share(
                base,
                incoming,
            ) || !speaks(base))
        }),
{
    sets_tell_what_records_say(base, incoming);
    if share(base, incoming) {
        let (i, j) = choose|i: int, j: int|
            0 <= i < base.len() && 0 <= j < incoming.len() && (#[trigger] base[i]).kind
                is Transcript && base[i].kind == (#[trigger] incoming[j]).kind;
        assert(base[i].kind is Transcript);
        assert(incoming[j].kind is Transcript);
    }
}

/// What a decision rests on adds up: the identities of the incoming version are those in both and
/// those in it alone, none is in both exactly where the versions share none, and the bridge is there
/// where a summary goes on from the base.
pub proof fn evidence_adds_up(e: Evidence, base: Seq<RecordView>, incoming: Seq<RecordView>)
    requires
        e.holds(base, incoming),
    ensures
        e.incoming_uuids == e.uuid_overlap + e.incoming_only_transcript,
        e.uuid_overlap <= e.base_uuids,
        e.uuid_overlap == 0 <==> !share(base, incoming),
        e.base_uuids == 0 <==> !speaks(base),
        e.incoming_uuids == 0 <==> !speaks(incoming),
        e.has_compaction_bridge <==> goes_on_from(base, incoming),
{
    let (bs, is) = (uuids(base), uuids(incoming));
    identities_are_counted(base, Seq::empty());
    identities_are_counted(incoming, Seq::empty());
    sets_tell_what_records_say(base, incoming);
    let both = bs.intersect(is);
    let alone = is.difference(bs);
    assert(both + alone =~= is);
    assert(both.disjoint(alone));
    vstd::set_lib::lemma_set_disjoint_lens(both, alone);
    vstd::set_lib::lemma_len_subset(both, bs);
    if both.len() == 0 {
        assert(both =~= Set::empty());
        assert forall|u: Seq<char>| !(bs.contains(u) && is.contains(u)) by {
            assert(!both.contains(u));
        }
        assert(bs.disjoint(is));
    } else if bs.disjoint(is) {
        assert(both =~= Set::empty());
    }
    if bs.len() == 0 {
        assert(bs =~= Set::empty());
    } else if bs.is_empty() {
        assert(bs =~= Set::empty());
    }
    if is.len() == 0 {
        assert(is =~= Set::empty());
    } else if is.is_empty() {
        assert(is =~= Set::empty());
    }
}

/// The first and the last time are times of records, and no time lies before the one or behind the
/// other; there are none only where no record has a time.
pub proof fn range_spans_all_times(recs: Seq<RecordView>, n: int)
    requires
        0 <= n <= recs.len(),
    ensures
        match range_of(recs, n) {
            Some((lo, hi)) => {
                &&& exists|i: int| 0 <= i < n && (#[trigger] recs[i]).timestamp == Some(lo)
                &&& exists|i: int| 0 <= i < n && (#[trigger] recs[i]).timestamp == Some(hi)
                &&& forall|i: int|
                    0 <= i < n && (#[trigger] recs[i]).timestamp is Some ==> !text::text_lt(
                        recs[i].timestamp->0,
                        lo,
                    ) && !text::text_lt(hi, recs[i].timestamp->0)
            },
            None => forall|i: int| 0 <= i < n ==> (#[trigger] recs[i]).timestamp is None,
        },
    decreases n,
{
    if n > 0 {
        range_spans_all_times(recs, n - 1);
        if let Some(t) = recs[n - 1].timestamp {
            text::bytes_lt_total(text::utf8(t), text::utf8(t));
            let (lo, hi) = range_of(recs, n)->0;
            if let Some((a, b)) = range_of(recs, n - 1) {
                text::bytes_lt_total(text::utf8(t), text::utf8(a));
                text::bytes_lt_total(text::utf8(t), text::utf8(b));
                assert(lo == t || lo == a);
                assert(hi == t || hi == b);
                assert(recs[n - 1].timestamp == Some(t));
                assert forall|i: int|
                    0 <= i < n && (#[trigger] recs[i]).timestamp is Some implies !text::text_lt(
                    recs[i].timestamp->0,
                    lo,
                ) && !text::text_lt(hi, recs[i].timestamp->0) by {
                    let x = recs[i].timestamp->0;
                    if i < n - 1 {
                        if text::text_lt(x, lo) && lo == t && text::text_lt(t, a) {
                            text::bytes_lt_transitive(text::utf8(x), text::utf8(t), text::utf8(a));
                        }
                        if text::text_lt(hi, x) && hi == t && text::text_lt(b, t) {
                            text::bytes_lt_transitive(text::utf8(b), text::utf8(t), text::utf8(x));
                        }
                    } else {
                        if text::text_lt(t, lo) {
                            assert(lo == a);
                        }
                    }
                }
            } else {
                assert(recs[n - 1].timestamp == Some(lo));
            }
        }
    }
}

/// The lines that end too early are counted one by one.
pub proof fn cut_lines_are_counted(all: Seq<RecordView>, n: int)
    requires
        0 <= n <= all.len(),
    ensures
        truncated_of(all, n) == all.subrange(0, n).filter(
            |r: RecordView| r.kind == KindView::Unparsable(true),
        ).len(),
    decreases n,
{
    let cut = |r: RecordView| r.kind == KindView::Unparsable(true);
    reveal(Seq::filter);
    if n > 0 {
        cut_lines_are_counted(all, n - 1);
        assert(all.subrange(0, n).drop_last() =~= all.subrange(0, n - 1));
    } else {
        assert(all.subrange(0, 0) =~= Seq::empty());
    }
}

/// Of the records with one identity the longest stays, and of those that are as long the first.
pub proof fn longest_record_stays(all: Seq<RecordView>, places: Seq<int>, k: int, j: int)
    requires
        is_merge_order(all, places),
        0 <= k < places.len(),
        0 <= j < all.len(),
        all[places[k]].kind is Transcript,
        all[j].kind == all[places[k]].kind,
    ensures
        text::utf8(all[j].line).len() <= text::utf8(all[places[k]].line).len(),
        text::utf8(all[j].line).len() == text::utf8(all[places[k]].line).len() ==> places[k] <= j,
{
    let p = places[k];
    assert(kept(all, all.len() as int, p));
    if j != p {
        assert(uuid_of(all[j]) == uuid_of(all[p]));
        assert(preferred(all, p, j));
    }
}

/// Every record stands in the merged file by its identity, or as its line where it has none, and
/// nothing else stands there.
pub proof fn merged_file_holds_what_was_there(all: Seq<RecordView>, places: Seq<int>, i: int)
    requires
        is_merge_order(all, places),
        0 <= i < all.len(),
    ensures
        all[i].kind is Transcript ==> exists|k: int|
            0 <= k < places.len() && all[#[trigger] places[k]].kind == all[i].kind,
        !(all[i].kind is Transcript) ==> exists|k: int|
            0 <= k < places.len() && all[#[trigger] places[k]].line == all[i].line,
        forall|k: int| 0 <= k < places.len() ==> 0 <= #[trigger] places[k] < all.len(),
{
    let k = place_of(all, places, i);
    assert(all[places[k]].kind is Transcript == all[i].kind is Transcript);
}

/// The merged file is in the order of time: of two records that have a time the one with the earlier
/// time stands first.
pub proof fn merged_file_is_in_order_of_time(
    all: Seq<RecordView>,
    places: Seq<int>,
    k: int,
    l: int,
)
    requires
        is_merge_order(all, places),
        0 <= k < places.len(),
        0 <= l < places.len(),
        all[places[k]].timestamp is Some,
        all[places[l]].timestamp is Some,
        text::text_lt(all[places[k]].timestamp->0, all[places[l]].timestamp->0),
    ensures
        k < l,
{
    let (i, j) = (places[k], places[l]);
    let times = times_of(all);
    assert(times[i] == all[i].timestamp && times[j] == all[j].timestamp);
    order::item_lt_total(times, i, j);
    if l < k {
        assert(order::item_lt(times, j, i));
    } else if l == k {
        text::bytes_lt_total(text::utf8(times[i]->0), text::utf8(times[i]->0));
    }
}

/// What is told as dropped was dropped: it is the line of a record with that identity, which is not
/// the line that stays for it.
pub proof fn only_dropped_lines_are_told(all: Seq<RecordView>, n: int, c: Seq<char>)
    requires
        0 <= n <= all.len(),
        conflicts_of(all, n).contains(c),
    ensures
        exists|i: int|
            {
                &&& 0 <= i < n
                &&& (#[trigger] all[i]).kind is Transcript
                &&& c == "uuid="@ + all[i].kind->Transcript_0 + " dropped="@ + all[i].line
                &&& best(all, n, all[i].kind->Transcript_0) matches Some(p) && all[p].line
                    != all[i].line
            },
    decreases n,
{
    if n > 0 {
        let before = conflicts_of(all, n - 1);
        let now = conflicts_of(all, n);
        let r = all[n - 1];
        let at = choose|k: int| 0 <= k < now.len() && now[k] == c;
        if at < before.len() {
            assert(before[at] == c);
            only_dropped_lines_are_told(all, n - 1, c);
            let i = choose|i: int|
                {
                    &&& 0 <= i < n - 1
                    &&& (#[trigger] all[i]).kind is Transcript
                    &&& c == "uuid="@ + all[i].kind->Transcript_0 + " dropped="@ + all[i].line
                    &&& best(all, n - 1, all[i].kind->Transcript_0) matches Some(p) && all[p].line
                        != all[i].line
                };
            let uuid = all[i].kind->Transcript_0;
            best_wins(all, n - 1, uuid);
            let p = best(all, n - 1, uuid)->0;
            if best(all, n, uuid) != Some(p) {
                assert(best(all, n, uuid) == Some(n - 1));
                if i != p {
                    assert(uuid_of(all[i]) == uuid_of(all[p]));
                    assert(preferred(all, p, i));
                }
                assert(size_of(all[i]) < size_of(r));
            }
            assert(all[i].kind is Transcript);
        } else {
            let uuid = uuid_of(r)->0;
            best_wins(all, n - 1, uuid);
            let p = best(all, n - 1, uuid)->0;
            if size_of(all[p]) >= size_of(r) {
                assert(all[n - 1].kind is Transcript);
            } else {
                assert(all[p].kind is Transcript);
                assert(size_of(all[p]) != size_of(r));
            }
        }
    }
}

/// What a decision rests on counts identities, each once however often it stands there, and tells the
/// first and the last time of each version and how many lines were cut short.
pub proof fn evidence_counts_identities(
    e: Evidence,
    base: Seq<RecordView>,
    incoming: Seq<RecordView>,
    s: Set<Seq<char>>,
    t: Set<Seq<char>>,
)
    requires
        e.holds(base, incoming),
        forall|u: Seq<char>| #[trigger] s.contains(u) <==> names(base, u),
        forall|u: Seq<char>| #[trigger] t.contains(u) <==> names(incoming, u),
    ensures
        e.base_uuids == s.len(),
        e.incoming_uuids == t.len(),
        e.uuid_overlap == s.intersect(t).len(),
        e.incoming_only_transcript == t.difference(s).len(),
        pair_text(e.base_ts_range) == range_of(base, base.len() as int),
        pair_text(e.incoming_ts_range) == range_of(incoming, incoming.len() as int),
        e.truncated_lines == (base + incoming).filter(
            |r: RecordView| r.kind == KindView::Unparsable(true),
        ).len(),
{
    let all = base + incoming;
    assert forall|u: Seq<char>| s.contains(u) <==> uuids(base).contains(u) by {
        identities_are_counted(base, u);
    }
    assert forall|u: Seq<char>| t.contains(u) <==> uuids(incoming).contains(u) by {
        identities_are_counted(incoming, u);
    }
    assert(s =~= uuids(base));
    assert(t =~= uuids(incoming));
    cut_lines_are_counted(all, all.len() as int);
    assert(all.subrange(0, all.len() as int) =~= all);
}

/// Records are covered where each that belongs to the conversation has one of the same identity, and
/// every other one stands there line for line; and in no other case.
pub proof fn covered_records_are_there(merged: Seq<RecordView>, recs: Seq<RecordView>)
    ensures
        covers(merged, recs) <==> forall|i: int|
            0 <= i < recs.len() ==> match (#[trigger] recs[i]).kind {
                KindView::Transcript(uuid) => names(merged, uuid),
                _ => exists|j: int|
                    0 <= j < merged.len() && !((#[trigger] merged[j]).kind is Transcript)
                        && merged[j].line == recs[i].line,
            },
{
    assert forall|i: int| 0 <= i < recs.len() implies ((match uuid_of(#[trigger] recs[i]) {
        Some(uuid) => uuids(merged).contains(uuid),
        None => line_in(merged, recs[i].line),
    }) == (match recs[i].kind {
        KindView::Transcript(uuid) => names(merged, uuid),
        _ => exists|j: int|
            0 <= j < merged.len() && !((#[trigger] merged[j]).kind is Transcript)
                && merged[j].line == recs[i].line,
    })) by {
        match recs[i].kind {
            KindView::Transcript(uuid) => {
                identities_are_counted(merged, uuid);
            },
            _ => {
                if line_in(merged, recs[i].line) {
                    let j = choose|j: int|
                        0 <= j < merged.len() && uuid_of(#[trigger] merged[j]) is None
                            && merged[j].line == recs[i].line;
                    assert(!(merged[j].kind is Transcript));
                }
                if exists|j: int|
                    0 <= j < merged.len() && !((#[trigger] merged[j]).kind is Transcript)
                        && merged[j].line == recs[i].line {
                    let j = choose|j: int|
                        0 <= j < merged.len() && !((#[trigger] merged[j]).kind is Transcript)
                            && merged[j].line == recs[i].line;
                    assert(uuid_of(merged[j]) is None);
                }
            },
        }
    }
}

/// Records of one time keep their order, and a record that no time stands at or before comes before
/// every one that has a time.
pub proof fn order_is_kept_within_a_time(
    all: Seq<RecordView>,
    places: Seq<int>,
    k: int,
    l: int,
)
    requires
        is_merge_order(all, places),
        0 <= k < places.len(),
        0 <= l < places.len(),
    ensures
        all[places[k]].timestamp is Some && all[places[k]].timestamp == all[places[l]].timestamp
            && places[k] < places[l] ==> k < l,
        all[places[l]].timestamp is Some && (forall|m: int|
            0 <= m <= places[k] ==> (#[trigger] all[m]).timestamp is None) ==> k < l,
{
    let times = times_of(all);
    let (i, j) = (places[k], places[l]);
    if all[i].timestamp is Some && all[i].timestamp == all[j].timestamp && i < j {
        assert(times[i] == times[j]);
        assert(order::item_lt(times, i, j));
        order::item_lt_total(times, i, j);
    }
    if all[j].timestamp is Some && (forall|m: int|
        0 <= m <= i ==> (#[trigger] all[m]).timestamp is None) {
        nothing_to_file_under(all, i);
        assert(times[i] is None && times[j] is Some);
        assert(order::item_lt(times, i, j));
        order::item_lt_total(times, i, j);
    }
    if l < k {
        assert(order::item_lt(times, places[l], places[k]));
    }
}

proof fn nothing_to_file_under(all: Seq<RecordView>, i: int)
    requires
        0 <= i < all.len(),
        forall|m: int| 0 <= m <= i ==> (#[trigger] all[m]).timestamp is None,
    ensures
        filed_under(all, i) is None,
    decreases i,
{
    assert(all[i].timestamp is None);
    if i > 0 {
        nothing_to_file_under(all, i - 1);
    }
}

/// Of the records of one identity the best is the longest, and the first of those that are equally
/// long; there is one where there is a record of that identity at all.
pub proof fn best_record_is_the_longest(all: Seq<RecordView>, n: int, uuid: Seq<char>, i: int)
    requires
        0 <= i < n <= all.len(),
        all[i].kind == KindView::Transcript(uuid),
    ensures
        best(all, n, uuid) matches Some(p) && {
            &&& 0 <= p < n
            &&& all[p].kind == KindView::Transcript(uuid)
            &&& text::utf8(all[i].line).len() <= text::utf8(all[p].line).len()
            &&& text::utf8(all[i].line).len() == text::utf8(all[p].line).len() ==> p <= i
        },
    decreases n,
{
    assert(uuid_of(all[i]) == Some(uuid));
    if i < n - 1 {
        best_record_is_the_longest(all, n - 1, uuid, i);
    } else if best(all, n - 1, uuid) is Some {
        best_is_one_of_them(all, n - 1, uuid);
    }
}

proof fn best_is_one_of_them(all: Seq<RecordView>, n: int, uuid: Seq<char>)
    requires
        0 <= n <= all.len(),
    ensures
        best(all, n, uuid) matches Some(p) ==> 0 <= p < n && all[p].kind == KindView::Transcript(
            uuid,
        ),
    decreases n,
{
    if n > 0 {
        best_is_one_of_them(all, n - 1, uuid);
    }
}

/// A merge tells the decision that the records call for and what it rests on, and its lines are those
/// of the records that stay, in their order; the conflicts are the lines that gave way.
pub proof fn merge_tells_what_it_did(
    r: MergeResult,
    base: Seq<RecordView>,
    incoming: Seq<RecordView>,
    places: Seq<int>,
)
    requires
        r.merges(base, incoming),
        is_merge_order(base + incoming, places),
    ensures
        ({
            let bridge = goes_on_from(base, incoming);
            &&& r.decision == Decision::CompactionBridge <==> bridge
            &&& r.decision == Decision::LogOnly <==> !bridge && !speaks(incoming)
            &&& r.decision == Decision::SuspectReuse <==> !bridge && speaks(base) && speaks(
                incoming,
            ) && !share(base, incoming)
        }),
        r.evidence.holds(base, incoming),
        r.merged_lines@.len() == places.len(),
        forall|k: int|
            0 <= k < places.len() ==> (#[trigger] r.merged_lines@[k])@ == (base
                + incoming)[places[k]].line,
        text::texts(r.conflicts@) == conflicts_of(
            base + incoming,
            (base + incoming).len() as int,
        ),
{
    let all = base + incoming;
    decision_says_how_the_records_relate(base, incoming);
    let p = choose|p: Seq<int>|
        #[trigger] is_merge_order(all, p) && text::texts(r.merged_lines@) == lines_of(
            at_places(all, p),
        );
    merge_order_is_unique(all, p, places);
    let told = text::texts(r.merged_lines@);
    assert(told.len() == places.len());
    assert forall|k: int| 0 <= k < places.len() implies (#[trigger] r.merged_lines@[k])@
        == all[places[k]].line by {
        assert(told[k] == r.merged_lines@[k]@);
        assert(told[k] == lines_of(at_places(all, places))[k]);
    }
}

} // verus!
