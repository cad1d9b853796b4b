//! The shared directory behind a link: what was written below the mount point goes back to it.
use vstd::prelude::*;
use vstd::string::*;

use super::types::{EntryReport, ReportView, ReversalClass};
use crate::text;

verus! {

/// Whether a text holds another one.
pub open spec fn holds_text(s: Seq<char>, part: Seq<char>) -> bool {
    exists|i: int| text_at(s, part, i)
}

/// Whether `part` stands in `s` at `i`.
pub open spec fn text_at(s: Seq<char>, part: Seq<char>, i: int) -> bool {
    0 <= i && i + part.len() <= s.len() && s.subrange(i, i + part.len()) == part
}

/// Whether one of the remarks holds that text.
pub open spec fn any_holds(notes: Seq<Seq<char>>, part: Seq<char>) -> bool {
    exists|k: int| 0 <= k < notes.len() && holds_text(#[trigger] notes[k], part)
}

/// What was done, by the remarks.
pub open spec fn action_of(notes: Seq<Seq<char>>) -> Seq<char> {
    if any_holds(notes, "从 underlay 移除"@) {
        "memory-restored"@
    } else if any_holds(notes, "幂等跳过"@) || any_holds(notes, "已恢复"@) || any_holds(
        notes,
        "不存在"@,
    ) {
        "memory-noop"@
    } else {
        "memory-deferred"@
    }
}

/// The report of an entry whose directory was dealt with.
pub open spec fn report_of(rel: Seq<char>, notes: Seq<Seq<char>>) -> ReportView {
    ReportView {
        name: rel,
        decision: "passthrough"@,
        action: action_of(notes),
        notes,
        reversal: if any_holds(notes, "从 underlay 移除"@) {
            ReversalClass::ReportMemory
        } else {
            ReversalClass::Noop
        },
    }
}

fn contains_text(s: &str, part: &str) -> (b: bool)
    ensures
        b == holds_text(s@, part@),
{
    let v: Vec<char> = text::chars_of(s);
    let p: Vec<char> = text::chars_of(part);
    if p.len() > v.len() {
        return false;
    }
    let mut i: usize = 0;
    while i <= v.len() - p.len()
        invariant
            p@.len() <= v@.len(),
            v@ == s@,
            p@ == part@,
            i <= v@.len() - p@.len() + 1,
            forall|j: int| 0 <= j < i ==> !text_at(s@, part@, j),
        decreases v@.len() + 1 - i,
    {
        let mut k: usize = 0;
        let n: usize = v.len();
        while k < p.len() && v[i + k] == p[k]
            invariant
                k <= p@.len(),
                n == v@.len(),
                i + p@.len() <= v@.len(),
                forall|j: int| 0 <= j < k ==> v@[i + j] == #[trigger] p@[j],
            decreases p@.len() - k,
        {
            k = k + 1;
        }
        if k == p.len() {
            assert(s@.subrange(i as int, i + part@.len()) =~= part@);
            assert(text_at(s@, part@, i as int));
            return true;
        }
        assert(s@.subrange(i as int, i + part@.len())[k as int] != part@[k as int]);
        i = i + 1;
    }
    false
}

fn any_contains(notes: &Vec<String>, part: &str) -> (b: bool)
    ensures
        b == any_holds(text::texts(notes@), part@),
{
    let ghost ns = text::texts(notes@);
    let mut i: usize = 0;
    while i < notes.len()
        invariant
            i <= notes@.len(),
            ns == text::texts(notes@),
            forall|k: int| 0 <= k < i ==> !holds_text(#[trigger] ns[k], part@),
        decreases notes@.len() - i,
    {
        assert(ns[i as int] == notes@[i as int]@);
        if contains_text(notes[i].as_str(), part) {
            return true;
        }
        i = i + 1;
    }
    false
}

/// What was done, by the remarks: the directory was moved away, there was nothing to do, or a
/// person has to look.
pub fn passthrough_action(notes: &Vec<String>) -> (a: &'static str)
    ensures
        a@ == action_of(text::texts(notes@)),
{
    if any_contains(notes, "从 underlay 移除") {
        "memory-restored"
    } else if any_contains(notes, "幂等跳过") || any_contains(notes, "已恢复")
        || any_contains(notes, "不存在") {
        "memory-noop"
    } else {
        "memory-deferred"
    }
}

/// The report of an entry whose directory was dealt with.
pub fn report(rel: String, notes: Vec<String>) -> (r: EntryReport)
    ensures
        r@ == report_of(rel@, text::texts(notes@)),
{
    let action: String = text::copy_str(passthrough_action(&notes));
    let reversal: ReversalClass = if any_contains(&notes, "从 underlay 移除") {
        ReversalClass::ReportMemory
    } else {
        ReversalClass::Noop
    };
    EntryReport { name: rel, decision: text::copy_str("passthrough"), action, notes, reversal }
}

/// Whether `c` is none of the first `n` characters.
pub open spec fn lacks(s: Seq<char>, c: char, n: int) -> bool
    decreases n,
{
    n <= 0 || (s[n - 1] != c && lacks(s, c, n - 1))
}

/// A character that is none of the characters is none of them.
pub proof fn lacking(s: Seq<char>, c: char, n: int)
    requires
        lacks(s, c, n),
    ensures
        forall|i: int| 0 <= i < n ==> s[i] != c,
    decreases n,
{
    if n > 0 {
        lacking(s, c, n - 1);
    }
}

/// A text that starts with none of the characters before `x` and ends with none of those behind it
/// stands in the whole only where it stands in `x`.
pub proof fn stands_within(before: Seq<char>, x: Seq<char>, behind: Seq<char>, part: Seq<char>)
    requires
        part.len() > 0,
        lacks(before, part[0], before.len() as int),
        lacks(behind, part.last(), behind.len() as int),
        !holds_text(x, part),
    ensures
        !holds_text(before + x + behind, part),
{
    let whole = before + x + behind;
    lacking(before, part[0], before.len() as int);
    lacking(behind, part.last(), behind.len() as int);
    assert forall|i: int| !text_at(whole, part, i) by {
        if text_at(whole, part, i) {
            let n = part.len() as int;
            let s = whole.subrange(i, i + n);
            assert(s[0] == whole[i]);
            assert(s[n - 1] == whole[i + n - 1]);
            let at = i - before.len();
            assert(i >= before.len());
            assert(i + n - 1 < before.len() + x.len());
            assert(x.subrange(at, at + n) =~= s);
            assert(text_at(x, part, at));
        }
    }
}

/// As `stands_within`, with two texts and `between` them a character that the text lacks.
pub proof fn stands_within_either(
    before: Seq<char>,
    x: Seq<char>,
    between: Seq<char>,
    y: Seq<char>,
    behind: Seq<char>,
    part: Seq<char>,
    k: int,
)
    requires
        part.len() > 0,
        lacks(before, part[0], before.len() as int),
        lacks(between, part[0], between.len() as int),
        lacks(between, part.last(), between.len() as int),
        lacks(behind, part.last(), behind.len() as int),
        0 <= k < between.len(),
        lacks(part, between[k], part.len() as int),
        !holds_text(x, part),
        !holds_text(y, part),
    ensures
        !holds_text(before + x + between + y + behind, part),
{
    let whole = before + x + between + y + behind;
    let n = part.len() as int;
    let p1 = before.len() as int;
    let p2 = p1 + x.len();
    let p3 = p2 + between.len();
    let p4 = p3 + y.len();
    lacking(before, part[0], before.len() as int);
    lacking(between, part[0], between.len() as int);
    lacking(between, part.last(), between.len() as int);
    lacking(behind, part.last(), behind.len() as int);
    lacking(part, between[k], n);
    assert forall|i: int| !text_at(whole, part, i) by {
        if text_at(whole, part, i) {
            let s = whole.subrange(i, i + n);
            assert(s[0] == whole[i]);
            assert(s[n - 1] == whole[i + n - 1]);
            assert(i >= p1);
            assert(i + n - 1 < p4);
            if i < p2 {
                if i + n - 1 < p2 {
                    assert(x.subrange(i - p1, i - p1 + n) =~= s);
                    assert(text_at(x, part, i - p1));
                } else {
                    assert(whole[i + n - 1] == between[i + n - 1 - p2] || i + n - 1 >= p3);
                    assert(s[p2 + k - i] == between[k]);
                }
            } else {
                assert(i >= p3);
                assert(y.subrange(i - p3, i - p3 + n) =~= s);
                assert(text_at(y, part, i - p3));
            }
        }
    }
}

/// What was done is read off the remarks: that the directory was moved away goes before everything
/// else, then that there was nothing to do; else a person has to look. Only a directory that was
/// moved away is reported when the run is undone.
pub proof fn remarks_say_what_was_done(rel: Seq<char>, notes: Seq<Seq<char>>)
    ensures
        ({
            let r = report_of(rel, notes);
            let moved = any_holds(notes, "从 underlay 移除"@);
            let idle = any_holds(notes, "幂等跳过"@) || any_holds(notes, "已恢复"@) || any_holds(
                notes,
                "不存在"@,
            );
            &&& r.name == rel
            &&& r.notes == notes
            &&& r.decision == "passthrough"@
            &&& moved ==> r.action == "memory-restored"@ && r.reversal
                == ReversalClass::ReportMemory
            &&& !moved ==> r.reversal == ReversalClass::Noop
            &&& !moved && idle ==> r.action == "memory-noop"@
            &&& !moved && !idle ==> r.action == "memory-deferred"@
        }),
{
}

/// Remarks hold a text where one of them does, and a remark holds a text that stands in it.
pub proof fn text_is_found_where_it_stands(
    a: Seq<Seq<char>>,
    b: Seq<Seq<char>>,
    s: Seq<char>,
    part: Seq<char>,
)
    ensures
        holds_text(s, part) <==> text::stands_in(s, part),
        any_holds(seq![s], part) <==> text::stands_in(s, part),
        any_holds(a + b, part) <==> any_holds(a, part) || any_holds(b, part),
{
    if holds_text(s, part) {
        let i = choose|i: int| text_at(s, part, i);
        assert(s.subrange(i, i + part.len()) == part);
    }
    if text::stands_in(s, part) {
        let i = choose|i: int|
            0 <= i && i + part.len() <= s.len() && #[trigger] s.subrange(i, i + part.len()) == part;
        assert(text_at(s, part, i));
    }
    assert(seq![s][0] == s);
    if any_holds(a + b, part) {
        let k = choose|k: int| 0 <= k < (a + b).len() && holds_text(#[trigger] (a + b)[k], part);
        if k < a.len() {
            assert(holds_text(a[k], part));
        } else {
            assert(holds_text(b[k - a.len()], part));
        }
    }
    if any_holds(a, part) {
        let k = choose|k: int| 0 <= k < a.len() && holds_text(#[trigger] a[k], part);
        assert((a + b)[k] == a[k]);
    }
    if any_holds(b, part) {
        let k = choose|k: int| 0 <= k < b.len() && holds_text(#[trigger] b[k], part);
        assert((a + b)[k + a.len()] == b[k]);
    }
}

} // verus!
