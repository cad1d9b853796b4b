//! The condition of every deletion: what is deleted must be in its receiver, and must not have
//! changed since the snapshot.
use vstd::prelude::*;
use vstd::string::*;
use vstd::hash_set::StringHashSet;

use super::types::{EntrySnapshot, LiveStat, SnapView, SupersetMode};
use crate::archive::wire;

verus! {

/// The byte that ends a line.
pub const LINE_FEED: u8 = 10;

/// The pieces between line feeds, where `current` was read of the first one already.
pub open spec fn pieces_after(current: Seq<u8>, s: Seq<u8>) -> Seq<Seq<u8>>
    decreases s.len(),
{
    if s.len() == 0 {
        seq![current]
    } else if s[0] == LINE_FEED {
        seq![current] + pieces_after(Seq::empty(), s.drop_first())
    } else {
        pieces_after(current.push(s[0]), s.drop_first())
    }
}

/// The pieces between line feeds; what stands behind the last one counts too.
pub open spec fn byte_lines(s: Seq<u8>) -> Seq<Seq<u8>> {
    pieces_after(Seq::empty(), s)
}

/// Whether every line of `source` is a line of `receiver`.
pub open spec fn lines_covered(receiver: Seq<u8>, source: Seq<u8>) -> bool {
    forall|i: int|
        0 <= i < byte_lines(source).len() ==> byte_lines(receiver).contains(
            #[trigger] byte_lines(source)[i],
        )
}

/// Whether `receiver` holds what `source` holds.
pub open spec fn holds(receiver: Seq<u8>, source: Seq<u8>, mode: SupersetMode) -> bool {
    match mode {
        SupersetMode::ByteEqual => receiver == source,
        SupersetMode::LinesSuperset => lines_covered(receiver, source),
    }
}

/// Whether the file is the one of the snapshot; a file that is gone is not.
pub open spec fn unchanged(live: Option<LiveStat>, snap: SnapView) -> bool {
    match live {
        Some(stat) => stat.mtime == Some(snap.mtime) && stat.size == snap.size && stat.ino
            == snap.ino,
        None => false,
    }
}

/// Whether what was read back is what was written.
pub fn readback_eq(found: &[u8], bytes: &[u8]) -> (b: bool)
    ensures
        b == (found@ == bytes@),
{
    wire::same_bytes(found, bytes)
}

/// A text with one character for each byte.
spec fn letters(s: Seq<u8>) -> Seq<char> {
    Seq::new(s.len(), |i: int| s[i] as char)
}

proof fn letters_injective(a: Seq<u8>, b: Seq<u8>)
    ensures
        (letters(a) == letters(b)) == (a == b),
{
    if letters(a) == letters(b) {
        assert(letters(a).len() == letters(b).len());
        assert forall|i: int| 0 <= i < a.len() implies a[i] == b[i] by {
            assert(letters(a)[i] == letters(b)[i]);
            assert(a[i] as char as int == a[i] as int);
            assert(b[i] as char as int == b[i] as int);
        }
        assert(a =~= b);
    }
}

/// The pieces between line feeds, each with one character for each byte.
fn lettered_lines(s: &[u8]) -> (v: Vec<String>)
    ensures
        v@.len() == byte_lines(s@).len(),
        forall|i: int| 0 <= i < v@.len() ==> (#[trigger] v@[i])@ == letters(byte_lines(s@)[i]),
{
    let mut v: Vec<String> = Vec::new();
    let mut current: String = String::new();
    let ghost mut done: Seq<Seq<u8>> = Seq::empty();
    let ghost mut so_far: Seq<u8> = Seq::empty();
    let mut i: usize = 0;
    proof {
        assert(s@.subrange(0, s@.len() as int) =~= s@);
        assert(done + pieces_after(so_far, s@) =~= byte_lines(s@));
        assert(current@ =~= letters(so_far));
    }
    while i < s.len()
        invariant
            i <= s@.len(),
            byte_lines(s@) == done + pieces_after(so_far, s@.subrange(i as int, s@.len() as int)),
            current@ == letters(so_far),
            v@.len() == done.len(),
            forall|j: int| 0 <= j < v@.len() ==> (#[trigger] v@[j])@ == letters(done[j]),
        decreases s@.len() - i,
    {
        let ghost rest = s@.subrange(i as int, s@.len() as int);
        assert(rest.drop_first() =~= s@.subrange(i + 1, s@.len() as int));
        if s[i] == LINE_FEED {
            v.push(current);
            current = String::new();
            proof {
                assert(done + (seq![so_far] + pieces_after(Seq::empty(), rest.drop_first()))
                    =~= done.push(so_far) + pieces_after(Seq::empty(), rest.drop_first()));
                done = done.push(so_far);
                so_far = Seq::empty();
                assert(current@ =~= letters(so_far));
            }
        } else {
            current.push(s[i] as char);
            proof {
                let next = so_far.push(s@[i as int]);
                assert(current@ =~= letters(next));
                so_far = next;
            }
        }
        i = i + 1;
    }
    v.push(current);
    assert(done + seq![so_far] =~= byte_lines(s@));
    v
}

/// Whether what a receiver holds, read back from where it was written, covers the source.
pub fn durable_superset_ok(receiver: &[u8], source_bytes: &[u8], mode: SupersetMode) -> (b: bool)
    ensures
        b == holds(receiver@, source_bytes@, mode),
{
    if mode == SupersetMode::ByteEqual {
        return wire::same_bytes(receiver, source_bytes);
    }
    let have: Vec<String> = lettered_lines(receiver);
    let want: Vec<String> = lettered_lines(source_bytes);
    let ghost (hs, ws) = (byte_lines(receiver@), byte_lines(source_bytes@));
    let mut set: StringHashSet = StringHashSet::new();
    let mut i: usize = 0;
    while i < have.len()
        invariant
            i <= have@.len(),
            have@.len() == hs.len(),
            forall|j: int| 0 <= j < have@.len() ==> (#[trigger] have@[j])@ == letters(hs[j]),
            forall|t: Seq<char>| #[trigger]
                set@.contains(t) == (exists|j: int| 0 <= j < i && letters(#[trigger] hs[j]) == t),
        decreases have@.len() - i,
    {
        let ghost before = set@;
        let line: String = have[i].clone();
        set.insert(line);
        proof {
            assert forall|t: Seq<char>| #[trigger] set@.contains(t) == (exists|j: int|
                0 <= j < i + 1 && letters(#[trigger] hs[j]) == t) by {
                if before.contains(t) {
                    let j = choose|j: int| 0 <= j < i && letters(#[trigger] hs[j]) == t;
                    assert(letters(hs[j]) == t);
                }
                if t == letters(hs[i as int]) {
                    assert(letters(hs[i as int]) == t);
                }
            }
        }
        i = i + 1;
    }
    let mut i: usize = 0;
    while i < want.len()
        invariant
            i <= want@.len(),
            want@.len() == ws.len(),
            ws == byte_lines(source_bytes@),
            hs == byte_lines(receiver@),
            mode == SupersetMode::LinesSuperset,
            forall|j: int| 0 <= j < want@.len() ==> (#[trigger] want@[j])@ == letters(ws[j]),
            forall|t: Seq<char>| #[trigger]
                set@.contains(t) == (exists|j: int|
                    0 <= j < hs.len() && letters(#[trigger] hs[j]) == t),
            forall|j: int| 0 <= j < i ==> hs.contains(#[trigger] ws[j]),
        decreases want@.len() - i,
    {
        let found: bool = set.contains(want[i].as_str());
        proof {
            let t = letters(ws[i as int]);
            if found {
                let j = choose|j: int| 0 <= j < hs.len() && letters(#[trigger] hs[j]) == t;
                letters_injective(hs[j], ws[i as int]);
                assert(hs[j] == ws[i as int]);
            } else if hs.contains(ws[i as int]) {
                let j = choose|j: int| 0 <= j < hs.len() && hs[j] == ws[i as int];
                assert(letters(hs[j]) == t);
            }
        }
        if !found {
            return false;
        }
        i = i + 1;
    }
    true
}

/// Whether the file is still the one of the snapshot.
pub fn live_entry_unchanged(live: Option<LiveStat>, snap: &EntrySnapshot) -> (b: bool)
    ensures
        b == unchanged(live, snap@),
        b == (live == Some(
            LiveStat { mtime: Some(snap.mtime), size: snap.size, ino: snap.ino },
        )),
{
    match live {
        Some(stat) => match stat.mtime {
            Some(mtime) => mtime == snap.mtime && stat.size == snap.size && stat.ino == snap.ino,
            None => false,
        },
        None => false,
    }
}

/// Whether an entry may be deleted: its receiver covers it, and it is still the one of the
/// snapshot. Nothing is deleted without this.
pub fn delete_permitted(
    receiver: &[u8],
    src: &EntrySnapshot,
    mode: SupersetMode,
    live: Option<LiveStat>,
) -> (b: bool)
    ensures
        b == (holds(receiver@, src@.bytes, mode) && unchanged(live, src@)),
        b ==> live == Some(LiveStat { mtime: Some(src.mtime), size: src.size, ino: src.ino }),
        b && mode == SupersetMode::ByteEqual ==> receiver@ == src.bytes@,
{
    durable_superset_ok(receiver, &src.bytes, mode) && live_entry_unchanged(live, src)
}

/// A receiver that is the source holds it line by line too.
pub proof fn equal_bytes_cover(receiver: Seq<u8>, source: Seq<u8>)
    requires
        holds(receiver, source, SupersetMode::ByteEqual),
    ensures
        holds(receiver, source, SupersetMode::LinesSuperset),
{
}

/// A receiver that holds a receiver of the source holds the source.
pub proof fn covering_is_transitive(a: Seq<u8>, b: Seq<u8>, c: Seq<u8>)
    requires
        lines_covered(a, b),
        lines_covered(b, c),
    ensures
        lines_covered(a, c),
{
    assert forall|i: int| 0 <= i < byte_lines(c).len() implies byte_lines(a).contains(
        #[trigger] byte_lines(c)[i],
    ) by {
        let j = choose|j: int| 0 <= j < byte_lines(b).len() && byte_lines(b)[j] == byte_lines(c)[i];
        assert(byte_lines(a).contains(byte_lines(b)[j]));
    }
}

/// The file is the one of the snapshot where time, length and number are all known and all the same,
/// and in no other case: one written to since, however briefly, is not.
pub proof fn only_the_same_file_is_unchanged(live: Option<LiveStat>, snap: SnapView)
    ensures
        unchanged(live, snap) <==> live == Some(
            LiveStat { mtime: Some(snap.mtime), size: snap.size, ino: snap.ino },
        ),
{
}

/// Whether `s[i..j]` is a line: it starts at the start or behind a line feed, ends at the end or
/// before one, and holds none.
pub open spec fn line_at(s: Seq<u8>, i: int, j: int) -> bool {
    &&& 0 <= i <= j <= s.len()
    &&& i == 0 || s[i - 1] == 10
    &&& j == s.len() || s[j] == 10
    &&& forall|k: int| i <= k < j ==> #[trigger] s[k] != 10
}

proof fn piece_is_begun(current: Seq<u8>, s: Seq<u8>)
    requires
        forall|k: int| 0 <= k < current.len() ==> #[trigger] current[k] != 10,
    ensures
        pieces_after(current, s) == byte_lines(current + s),
    decreases current.len(),
{
    if current.len() == 0 {
        assert(current =~= Seq::empty());
        assert(current + s =~= s);
    } else {
        let shorter = current.drop_last();
        let longer = seq![current.last()] + s;
        assert(longer.drop_first() =~= s);
        assert(longer[0] == current[current.len() - 1]);
        assert(shorter.push(longer[0]) =~= current);
        piece_is_begun(shorter, longer);
        assert(shorter + longer =~= current + s);
    }
}

proof fn first_piece(s: Seq<u8>, p: int)
    requires
        0 <= p < s.len(),
        s[p] == 10,
        forall|k: int| 0 <= k < p ==> #[trigger] s[k] != 10,
    ensures
        byte_lines(s) == seq![s.subrange(0, p)] + byte_lines(s.subrange(p + 1, s.len() as int)),
{
    let head = s.subrange(0, p);
    let tail = s.subrange(p, s.len() as int);
    piece_is_begun(head, tail);
    assert(head + tail =~= s);
    assert(tail.drop_first() =~= s.subrange(p + 1, s.len() as int));
}

proof fn only_piece(s: Seq<u8>)
    requires
        forall|k: int| 0 <= k < s.len() ==> #[trigger] s[k] != 10,
    ensures
        byte_lines(s) == seq![s],
{
    piece_is_begun(s, Seq::empty());
    assert(s + Seq::<u8>::empty() =~= s);
}

proof fn feed_of(s: Seq<u8>, n: int) -> (p: int)
    requires
        0 <= n <= s.len(),
    ensures
        -1 <= p < n,
        p >= 0 ==> s[p] == 10 && forall|k: int| 0 <= k < p ==> #[trigger] s[k] != 10,
        p < 0 ==> forall|k: int| 0 <= k < n ==> #[trigger] s[k] != 10,
    decreases n,
{
    if n == 0 {
        -1
    } else {
        let q = feed_of(s, n - 1);
        if q < 0 && s[n - 1] == 10 {
            n - 1
        } else {
            q
        }
    }
}

/// What stands between line feeds is a line, and every line is found.
pub proof fn lines_are_the_stretches_between_feeds(s: Seq<u8>, x: Seq<u8>)
    ensures
        byte_lines(s).contains(x) <==> exists|i: int, j: int| #[trigger]
            line_at(s, i, j) && s.subrange(i, j) == x,
    decreases s.len(),
{
    let n = s.len() as int;
    let p = feed_of(s, n);
    if p < 0 {
        only_piece(s);
        assert(line_at(s, 0, n));
        assert(s.subrange(0, n) =~= s);
        assert(seq![s][0] == s);
        assert forall|i: int, j: int| #[trigger] line_at(s, i, j) implies i == 0 && j == n by {
            if i > 0 {
                assert(s[i - 1] == 10);
            }
            if j < n {
                assert(s[j] == 10);
            }
        }
    } else {
        let rest = s.subrange(p + 1, n);
        first_piece(s, p);
        lines_are_the_stretches_between_feeds(rest, x);
        let all = byte_lines(s);
        assert(all[0] == s.subrange(0, p));
        if all.contains(x) {
            let k = choose|k: int| 0 <= k < all.len() && all[k] == x;
            if k == 0 {
                assert(line_at(s, 0, p));
            } else {
                assert(byte_lines(rest)[k - 1] == x);
                assert(byte_lines(rest).contains(x));
                let (i, j) = choose|i: int, j: int| #[trigger]
                    line_at(rest, i, j) && rest.subrange(i, j) == x;
                assert(i > 0 ==> rest[i - 1] == s[i + p]);
                assert(j < rest.len() ==> rest[j] == s[j + p + 1]);
                assert forall|m: int| i + p + 1 <= m < j + p + 1 implies #[trigger] s[m] != 10 by {
                    assert(rest[m - p - 1] != 10);
                }
                assert(line_at(s, i + p + 1, j + p + 1));
                assert(s.subrange(i + p + 1, j + p + 1) =~= x);
            }
        }
        if exists|i: int, j: int| #[trigger] line_at(s, i, j) && s.subrange(i, j) == x {
            let (i, j) = choose|i: int, j: int| #[trigger]
                line_at(s, i, j) && s.subrange(i, j) == x;
            if i <= p {
                if i > 0 {
                    assert(s[i - 1] == 10);
                }
                if j > p {
                    assert(s[p] != 10);
                }
                if j < p {
                    assert(s[j] == 10);
                }
                assert(all[0] == x);
            } else {
                let (a, b) = (i - p - 1, j - p - 1);
                assert(a > 0 ==> rest[a - 1] == s[i - 1]);
                assert(b < rest.len() ==> rest[b] == s[j]);
                assert forall|m: int| a <= m < b implies #[trigger] rest[m] != 10 by {
                    assert(s[m + p + 1] != 10);
                }
                assert(line_at(rest, a, b));
                assert(rest.subrange(a, b) =~= x);
                assert(byte_lines(rest).contains(x));
                let k = choose|k: int| 0 <= k < byte_lines(rest).len() && byte_lines(rest)[k] == x;
                assert(all[k + 1] == x);
            }
        }
    }
}

/// A receiver holds a source byte for byte where it is the same, and line by line where each line of
/// the source stands somewhere in it as a whole line; a shorter or a longer line is not enough.
pub proof fn receiver_has_every_line(receiver: Seq<u8>, source: Seq<u8>)
    ensures
        holds(receiver, source, SupersetMode::ByteEqual) <==> receiver == source,
        holds(receiver, source, SupersetMode::LinesSuperset) <==> forall|i: int, j: int| #[trigger]
            line_at(source, i, j) ==> exists|a: int, b: int| #[trigger]
                line_at(receiver, a, b) && receiver.subrange(a, b) == source.subrange(i, j),
{
    let (rs, ss) = (byte_lines(receiver), byte_lines(source));
    if lines_covered(receiver, source) {
        assert forall|i: int, j: int| #[trigger] line_at(source, i, j) implies exists|
            a: int,
            b: int,
        | #[trigger] line_at(receiver, a, b) && receiver.subrange(a, b) == source.subrange(i, j) by {
            let x = source.subrange(i, j);
            lines_are_the_stretches_between_feeds(source, x);
            lines_are_the_stretches_between_feeds(receiver, x);
            let k = choose|k: int| 0 <= k < ss.len() && ss[k] == x;
            assert(rs.contains(ss[k]));
        }
    }
    if forall|i: int, j: int| #[trigger]
        line_at(source, i, j) ==> exists|a: int, b: int| #[trigger]
            line_at(receiver, a, b) && receiver.subrange(a, b) == source.subrange(i, j) {
        assert forall|k: int| 0 <= k < ss.len() implies rs.contains(#[trigger] ss[k]) by {
            let x = ss[k];
            lines_are_the_stretches_between_feeds(source, x);
            assert(ss.contains(x));
            let (i, j) = choose|i: int, j: int| #[trigger]
                line_at(source, i, j) && source.subrange(i, j) == x;
            lines_are_the_stretches_between_feeds(receiver, x);
        }
    }
}

} // verus!
