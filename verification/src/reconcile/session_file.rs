//! A merged session as a file: one line for each record.
use vstd::prelude::*;
use vstd::string::*;

use super::merge;
use super::record;
use super::record::RecordView;
use crate::text;

verus! {

/// The file of some lines: each with a line feed behind it.
pub open spec fn file_text(lines: Seq<Seq<char>>) -> Seq<char>
    decreases lines.len(),
{
    if lines.len() == 0 {
        Seq::empty()
    } else {
        file_text(lines.drop_last()) + lines.last() + seq!['\n']
    }
}

/// The file of some lines.
pub fn lines_to_text(lines: &Vec<String>) -> (s: String)
    ensures
        s@ == file_text(text::texts(lines@)),
{
    let ghost ls = text::texts(lines@);
    let mut s: String = String::new();
    let mut i: usize = 0;
    assert(ls.subrange(0, 0) =~= Seq::empty());
    while i < lines.len()
        invariant
            i <= lines@.len(),
            ls == text::texts(lines@),
            s@ == file_text(ls.subrange(0, i as int)),
        decreases lines@.len() - i,
    {
        let ghost next = ls.subrange(0, i + 1);
        assert(next.drop_last() =~= ls.subrange(0, i as int));
        assert(next.last() == lines@[i as int]@);
        s.append(lines[i].as_str());
        s.push('\n');
        assert(s@ =~= file_text(next));
        i = i + 1;
    }
    assert(ls.subrange(0, i as int) =~= ls);
    s
}

/// The merged file of two versions of a session.
pub open spec fn merged_text(base: Seq<char>, incoming: Seq<char>) -> Seq<char> {
    let all = record::records_of(base) + record::records_of(incoming);
    let places = choose|places: Seq<int>| merge::is_merge_order(all, places);
    file_text(merge::lines_of(merge::at_places(all, places)))
}

/// The merged file of two versions of a session.
pub fn merge_texts(base: &str, incoming: &str) -> (s: String)
    ensures
        s@ == merged_text(base@, incoming@),
{
    let r: merge::MergeResult = merge::session_merge(base, incoming);
    proof {
        let all = record::records_of(base@) + record::records_of(incoming@);
        let p = choose|places: Seq<int>|
            #[trigger] merge::is_merge_order(all, places) && text::texts(r.merged_lines@)
                == merge::lines_of(merge::at_places(all, places));
        let q = choose|places: Seq<int>| merge::is_merge_order(all, places);
        merge::merge_order_is_unique(all, p, q);
    }
    lines_to_text(&r.merged_lines)
}

proof fn file_ends(lines: Seq<Seq<char>>)
    requires
        lines.len() > 0,
    ensures
        file_text(lines).len() > 0,
        file_text(lines).last() == '\n',
{
}

/// Whether each is a line that is read as it was written: it holds no line feed, and no carriage
/// return stands at its end.
pub open spec fn plain_lines(lines: Seq<Seq<char>>) -> bool {
    forall|i: int|
        0 <= i < lines.len() ==> !(#[trigger] lines[i]).contains('\n') && text::without_cr(lines[i])
            == lines[i]
}

/// Whether no line of a text ends with a carriage return, but for the one that belongs to its line
/// feed.
pub open spec fn no_stray_returns(s: Seq<char>) -> bool {
    forall|i: int|
        0 <= i < text::lines(s).len() ==> text::without_cr(#[trigger] text::lines(s)[i])
            == text::lines(s)[i]
}

/// The lines of a file are the lines that it was made of.
pub proof fn file_reads_back(lines: Seq<Seq<char>>)
    requires
        plain_lines(lines),
    ensures
        text::lines(file_text(lines)) == lines,
    decreases lines.len(),
{
    if lines.len() == 0 {
        assert(text::lines(file_text(lines)) =~= lines);
    } else {
        let before = lines.drop_last();
        let line = lines.last();
        assert(plain_lines(before)) by {
            assert forall|i: int| 0 <= i < before.len() implies !(#[trigger] before[i]).contains(
                '\n',
            ) && text::without_cr(before[i]) == before[i] by {
                assert(before[i] == lines[i]);
            }
        }
        file_reads_back(before);
        assert(!lines[lines.len() - 1].contains('\n'));
        if before.len() == 0 {
            assert(file_text(before) =~= Seq::empty());
            text::line_is_read(Seq::empty(), line, Seq::empty());
            assert(file_text(lines) =~= line + seq!['\n'] + Seq::empty());
            assert(Seq::<char>::empty() + line =~= line);
            assert(seq![line] + Seq::<Seq<char>>::empty() =~= lines);
        } else {
            file_ends(before);
            text::ended_lines_append(file_text(before), line);
            assert(before.push(line) =~= lines);
        }
    }
}

/// The records of some lines are those lines, each classified, where none is blank.
proof fn records_are_lines(recs: Seq<RecordView>)
    requires
        forall|i: int|
            0 <= i < recs.len() ==> #[trigger] recs[i] == record::classified(recs[i].line)
                && !text::blank(recs[i].line),
    ensures
        record::records_of_lines(merge::lines_of(recs)) == recs,
    decreases recs.len(),
{
    let ls = merge::lines_of(recs);
    if recs.len() == 0 {
        assert(record::records_of_lines(ls) =~= recs);
    } else {
        assert(ls.drop_last() =~= merge::lines_of(recs.drop_last()));
        records_are_lines(recs.drop_last());
        let last = recs[recs.len() - 1];
        assert(last == record::classified(last.line));
        assert(recs.drop_last().push(last) =~= recs);
    }
}

proof fn records_have_lines(lines: Seq<Seq<char>>)
    requires
        plain_lines(lines),
    ensures
        forall|i: int|
            0 <= i < record::records_of_lines(lines).len() ==> {
                let r = #[trigger] record::records_of_lines(lines)[i];
                &&& r == record::classified(r.line)
                &&& !text::blank(r.line)
                &&& !r.line.contains('\n')
                &&& text::without_cr(r.line) == r.line
            },
    decreases lines.len(),
{
    if lines.len() > 0 {
        let before = lines.drop_last();
        assert forall|i: int| 0 <= i < before.len() implies !(#[trigger] before[i]).contains('\n')
            && text::without_cr(before[i]) == before[i] by {
            assert(before[i] == lines[i]);
        }
        records_have_lines(before);
        assert(!lines[lines.len() - 1].contains('\n'));
        let recs = record::records_of_lines(lines);
        let rest = record::records_of_lines(before);
        assert forall|i: int| 0 <= i < recs.len() implies {
            let r = #[trigger] recs[i];
            &&& r == record::classified(r.line)
            &&& !text::blank(r.line)
            &&& !r.line.contains('\n')
            &&& text::without_cr(r.line) == r.line
        } by {
            if i < rest.len() {
                assert(recs[i] == rest[i]);
            } else {
                assert(recs[i] == record::classified(lines.last()));
            }
        }
    }
}

/// The merged file holds the merged records, each on its line.
pub proof fn merged_file_holds_merged_records(base: Seq<char>, incoming: Seq<char>, places: Seq<int>)
    requires
        merge::is_merge_order(record::records_of(base) + record::records_of(incoming), places),
        no_stray_returns(base),
        no_stray_returns(incoming),
    ensures
        record::records_of(merged_text(base, incoming)) == merge::at_places(
            record::records_of(base) + record::records_of(incoming),
            places,
        ),
{
    let all = record::records_of(base) + record::records_of(incoming);
    let chosen = choose|p: Seq<int>| merge::is_merge_order(all, p);
    merge::merge_order_is_unique(all, places, chosen);
    let merged = merge::at_places(all, places);
    let ls = merge::lines_of(merged);
    text::lines_are_lines(base);
    text::lines_are_lines(incoming);
    records_have_lines(text::lines(base));
    records_have_lines(text::lines(incoming));
    assert forall|i: int| 0 <= i < merged.len() implies {
        let r = #[trigger] merged[i];
        &&& r == record::classified(r.line)
        &&& !text::blank(r.line)
        &&& !r.line.contains('\n')
        &&& text::without_cr(r.line) == r.line
    } by {
        let p = places[i];
        assert(0 <= p < all.len());
        if p < record::records_of(base).len() {
            assert(all[p] == record::records_of(base)[p]);
        } else {
            assert(all[p] == record::records_of(incoming)[p - record::records_of(base).len()]);
        }
    }
    assert(plain_lines(ls)) by {
        assert forall|i: int| 0 <= i < ls.len() implies !(#[trigger] ls[i]).contains('\n')
            && text::without_cr(ls[i]) == ls[i] by {
            assert(ls[i] == merged[i].line);
        }
    }
    file_reads_back(ls);
    records_are_lines(merged);
}

/// The merged file covers both versions, by what it holds when it is read again.
pub proof fn merged_file_covers_both(base: Seq<char>, incoming: Seq<char>, places: Seq<int>)
    requires
        merge::is_merge_order(record::records_of(base) + record::records_of(incoming), places),
        no_stray_returns(base),
        no_stray_returns(incoming),
    ensures
        merge::covers(
            record::records_of(merged_text(base, incoming)),
            record::records_of(base),
        ),
        merge::covers(
            record::records_of(merged_text(base, incoming)),
            record::records_of(incoming),
        ),
{
    merged_file_holds_merged_records(base, incoming, places);
    merge::merge_covers_both(record::records_of(base), record::records_of(incoming), places);
}

/// Merging the same version into the merged file again gives the merged file.
pub proof fn merging_again_gives_the_same_file(
    base: Seq<char>,
    incoming: Seq<char>,
    places: Seq<int>,
)
    requires
        merge::is_merge_order(record::records_of(base) + record::records_of(incoming), places),
        no_stray_returns(base),
        no_stray_returns(incoming),
    ensures
        merged_text(merged_text(base, incoming), incoming) == merged_text(base, incoming),
{
    let (b, i) = (record::records_of(base), record::records_of(incoming));
    let once = merged_text(base, incoming);
    let merged = merge::at_places(b + i, places);
    let chosen = choose|p: Seq<int>| merge::is_merge_order(b + i, p);
    merge::merge_order_is_unique(b + i, places, chosen);
    merged_file_holds_merged_records(base, incoming, places);
    merge::merge_is_idempotent(b, i, places);
    let same = Seq::new(places.len(), |k: int| k);
    let again = choose|p: Seq<int>| merge::is_merge_order(merged + i, p);
    merge::merge_order_is_unique(merged + i, same, again);
    assert(merge::at_places(merged + i, same) =~= merged);
}

/// The file of two lists of lines is the file of the first with the file of the second behind it, and
/// a line makes a file of itself and a line feed.
pub proof fn files_follow_each_other(a: Seq<Seq<char>>, b: Seq<Seq<char>>, line: Seq<char>)
    ensures
        file_text(a + b) == file_text(a) + file_text(b),
        file_text(seq![line]) == line + seq!['\n'],
        file_text(Seq::empty()).len() == 0,
    decreases b.len(),
{
    assert(seq![line].drop_last() =~= Seq::<Seq<char>>::empty());
    assert(file_text(seq![line].drop_last()).len() == 0);
    assert(file_text(seq![line]) =~= line + seq!['\n']);
    if b.len() == 0 {
        assert(a + b =~= a);
        assert(file_text(a) + file_text(b) =~= file_text(a));
    } else {
        files_follow_each_other(a, b.drop_last(), line);
        assert((a + b).drop_last() =~= a + b.drop_last());
        assert(file_text(a + b) =~= file_text(a) + file_text(b));
    }
}

} // verus!
