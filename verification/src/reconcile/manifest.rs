//! The manifest of a run: which entries it changed, and how each is undone.
use vstd::prelude::*;
use vstd::string::*;

use super::types;
use super::types::{EntryReport, ReportView, ReversalClass};
use crate::path;
use crate::text;

verus! {

/// Whether a report is of a step of the whole run and not of an entry.
pub open spec fn synthetic(name: Seq<char>) -> bool {
    name.len() > 0 && name[0] == '<' && name.last() == '>'
}

/// Whether a report is of a step of the whole run and not of an entry.
pub fn is_synthetic_rel(name: &str) -> (b: bool)
    ensures
        b == synthetic(name@),
{
    let v: Vec<char> = text::chars_of(name);
    v.len() > 0 && v[0] == '<' && v[v.len() - 1] == '>'
}

/// Whether a report goes into the manifest: it is one of an entry, and there is something to undo.
pub open spec fn recorded(r: ReportView) -> bool {
    !synthetic(r.name) && r.reversal != ReversalClass::Noop
}

/// The line of a report.
pub open spec fn line_of(r: ReportView) -> Seq<char> {
    r.name + seq!['\t'] + r.reversal.name()
}

/// The lines of the first `n` reports.
pub open spec fn lines_of(reports: Seq<ReportView>, n: int) -> Seq<char>
    decreases n,
{
    if n <= 0 {
        Seq::empty()
    } else {
        let before = lines_of(reports, n - 1);
        if recorded(reports[n - 1]) {
            before + line_of(reports[n - 1]) + seq!['\n']
        } else {
            before
        }
    }
}

/// The manifest of a run.
pub open spec fn manifest_of(ts: Seq<char>, reports: Seq<ReportView>) -> Seq<char> {
    ts + seq!['\n'] + lines_of(reports, reports.len() as int)
}

/// The manifest of a run.
pub fn manifest_body(ts: &str, entries: &Vec<EntryReport>) -> (body: String)
    ensures
        body@ == manifest_of(ts@, types::reports(entries@)),
{
    let ghost rs = types::reports(entries@);
    let mut body: String = text::copy_str(ts);
    body.push('\n');
    let ghost head = body@;
    let mut i: usize = 0;
    assert(head + lines_of(rs, 0) =~= head);
    while i < entries.len()
        invariant
            i <= entries@.len(),
            rs == types::reports(entries@),
            body@ == head + lines_of(rs, i as int),
        decreases entries@.len() - i,
    {
        let ghost before = body@;
        let e: &EntryReport = &entries[i];
        assert(rs[i as int] == e@);
        if !is_synthetic_rel(e.name.as_str()) && e.reversal != ReversalClass::Noop {
            body.append(e.name.as_str());
            body.push('\t');
            body.append(e.reversal.as_str());
            body.push('\n');
            assert(body@ =~= head + lines_of(rs, i + 1));
        }
        i = i + 1;
    }
    assert(body@ =~= manifest_of(ts@, rs));
    body
}

/// Why a manifest cannot be read.
#[derive(Debug)]
pub enum ManifestError {
    /// This line has no tab.
    MissingTab(String),
    /// This is no class.
    UnknownClass(String),
}

/// Why a manifest cannot be read, as a mathematical value.
pub enum ErrorView {
    MissingTab(Seq<char>),
    UnknownClass(Seq<char>),
}

impl View for ManifestError {
    type V = ErrorView;

    open spec fn view(&self) -> ErrorView {
        match self {
            ManifestError::MissingTab(s) => ErrorView::MissingTab(s@),
            ManifestError::UnknownClass(s) => ErrorView::UnknownClass(s@),
        }
    }
}

/// Whether the first tab of a line is at `i`.
pub open spec fn tab_at(line: Seq<char>, i: int) -> bool {
    &&& 0 <= i < line.len()
    &&& line[i] == '\t'
    &&& forall|j: int| 0 <= j < i ==> #[trigger] line[j] != '\t'
}

/// What a line says: nothing where it is empty or its path is not a safe one.
pub open spec fn read_line(line: Seq<char>) -> Result<
    Option<(Seq<char>, ReversalClass)>,
    ErrorView,
> {
    if line.len() == 0 {
        Ok(None)
    } else if !(exists|i: int| tab_at(line, i)) {
        Err(ErrorView::MissingTab(line))
    } else {
        let i = choose|i: int| tab_at(line, i);
        let rel = line.subrange(0, i);
        let class = line.subrange(i + 1, line.len() as int);
        match ReversalClass::named(class) {
            Some(c) => if path::safe_rel(text::utf8(rel)) {
                Ok(Some((rel, c)))
            } else {
                Ok(None)
            },
            None => Err(ErrorView::UnknownClass(class)),
        }
    }
}

/// What the first `n` lines say but for the first one, which is the head; the first line that
/// cannot be read stops it.
pub open spec fn read_lines(lines: Seq<Seq<char>>, n: int) -> Result<
    Seq<(Seq<char>, ReversalClass)>,
    ErrorView,
>
    decreases n,
{
    if n <= 1 {
        Ok(Seq::empty())
    } else {
        match read_lines(lines, n - 1) {
            Ok(before) => match read_line(lines[n - 1]) {
                Ok(Some(e)) => Ok(before.push(e)),
                Ok(None) => Ok(before),
                Err(e) => Err(e),
            },
            Err(e) => Err(e),
        }
    }
}

/// What a manifest says.
pub open spec fn manifest_read(s: Seq<char>) -> Result<Seq<(Seq<char>, ReversalClass)>, ErrorView> {
    read_lines(text::lines(s), text::lines(s).len() as int)
}

/// The entries of a list.
pub open spec fn entry_views(v: Seq<(String, ReversalClass)>) -> Seq<(Seq<char>, ReversalClass)> {
    Seq::new(v.len(), |i: int| (v[i].0@, v[i].1))
}

proof fn one_first_tab(line: Seq<char>, i: int, j: int)
    requires
        tab_at(line, i),
        tab_at(line, j),
    ensures
        i == j,
{
}

fn parse_line(line: &str) -> (r: Result<Option<(String, ReversalClass)>, ManifestError>)
    ensures
        match r {
            Ok(Some(e)) => read_line(line@) == Ok::<_, ErrorView>(Some((e.0@, e.1))),
            Ok(None) => read_line(line@) == Ok::<_, ErrorView>(
                None::<(Seq<char>, ReversalClass)>,
            ),
            Err(e) => read_line(line@) == Err::<Option<(Seq<char>, ReversalClass)>, _>(e@),
        },
{
    let v: Vec<char> = text::chars_of(line);
    if v.len() == 0 {
        return Ok(None);
    }
    let mut i: usize = 0;
    while i < v.len() && v[i] != '\t'
        invariant
            i <= v@.len(),
            forall|j: int| 0 <= j < i ==> #[trigger] v@[j] != '\t',
        decreases v@.len() - i,
    {
        i = i + 1;
    }
    if i == v.len() {
        assert(!(exists|i: int| tab_at(line@, i)));
        return Err(ManifestError::MissingTab(text::copy_str(line)));
    }
    proof {
        assert(tab_at(line@, i as int));
        one_first_tab(line@, i as int, choose|i: int| tab_at(line@, i));
    }
    let rel: String = text::text_of(&v, 0, i);
    let class: String = text::text_of(&v, i + 1, v.len());
    match ReversalClass::parse(class.as_str()) {
        Some(c) => if path::is_safe_rel(rel.as_str()) {
            Ok(Some((rel, c)))
        } else {
            Ok(None)
        },
        None => Err(ManifestError::UnknownClass(class)),
    }
}

/// Reads a manifest: the entries in their order. Empty lines are skipped, and so are paths that
/// would lead out of their directory; a line that cannot be read refuses the whole manifest.
pub fn parse_manifest(content: &str) -> (r: Result<Vec<(String, ReversalClass)>, ManifestError>)
    ensures
        match r {
            Ok(v) => manifest_read(content@) == Ok::<_, ErrorView>(entry_views(v@)),
            Err(e) => manifest_read(content@) == Err::<Seq<(Seq<char>, ReversalClass)>, _>(e@),
        },
{
    let lines: Vec<String> = text::split_lines(content);
    let ghost ls = text::texts(lines@);
    let mut out: Vec<(String, ReversalClass)> = Vec::new();
    assert(entry_views(out@) =~= Seq::empty());
    if lines.len() == 0 {
        return Ok(out);
    }
    let mut i: usize = 1;
    while i < lines.len()
        invariant
            1 <= i <= lines@.len(),
            ls == text::texts(lines@),
            ls == text::lines(content@),
            read_lines(ls, i as int) == Ok::<_, ErrorView>(entry_views(out@)),
        decreases lines@.len() - i,
    {
        let ghost before = entry_views(out@);
        assert(ls[i as int] == lines@[i as int]@);
        match parse_line(lines[i].as_str()) {
            Ok(Some(e)) => {
                let ghost ev = (e.0@, e.1);
                out.push(e);
                assert(entry_views(out@) =~= before.push(ev));
            },
            Ok(None) => {},
            Err(e) => {
                proof {
                    stopped(ls, i + 1, ls.len() as int);
                }
                return Err(e);
            },
        }
        i = i + 1;
    }
    Ok(out)
}

proof fn stopped(lines: Seq<Seq<char>>, n: int, m: int)
    requires
        n <= m,
        read_lines(lines, n) is Err,
    ensures
        read_lines(lines, m) == read_lines(lines, n),
    decreases m - n,
{
    if n < m {
        stopped(lines, n, m - 1);
    }
}

/// The recorded entries of the first `n` reports that have a safe path.
pub open spec fn entries_of(reports: Seq<ReportView>, n: int) -> Seq<(Seq<char>, ReversalClass)>
    decreases n,
{
    if n <= 0 {
        Seq::empty()
    } else {
        let before = entries_of(reports, n - 1);
        let r = reports[n - 1];
        if recorded(r) && path::safe_rel(text::utf8(r.name)) {
            before.push((r.name, r.reversal))
        } else {
            before
        }
    }
}

proof fn class_names_are_plain(c: ReversalClass)
    ensures
        c.name().len() > 0,
        forall|i: int| 0 <= i < c.name().len() ==> c.name()[i] != '\n' && c.name()[i] != '\r',
{
    reveal_strlit("RestoreOrig");
    reveal_strlit("RemoveOrig");
    reveal_strlit("RemoveQuarantine");
    reveal_strlit("ReportMemory");
    reveal_strlit("Noop");
}

proof fn written_line_is_read(r: ReportView)
    requires
        forall|i: int| 0 <= i < r.name.len() ==> #[trigger] r.name[i] != '\t',
    ensures
        read_line(line_of(r)) == Ok::<_, ErrorView>(
            if path::safe_rel(text::utf8(r.name)) {
                Some((r.name, r.reversal))
            } else {
                None
            },
        ),
{
    let line = line_of(r);
    let at = r.name.len() as int;
    assert(line[at] == '\t');
    assert forall|j: int| 0 <= j < at implies #[trigger] line[j] != '\t' by {
        assert(line[j] == r.name[j]);
    }
    assert(tab_at(line, at));
    one_first_tab(line, at, choose|i: int| tab_at(line, i));
    assert(line.subrange(0, at) =~= r.name);
    assert(line.subrange(at + 1, line.len() as int) =~= r.reversal.name());
    types::class_reads_back(r.reversal);
}

/// The recorded reports of the first `n`, as lines.
spec fn record_lines(reports: Seq<ReportView>, n: int) -> Seq<Seq<char>>
    decreases n,
{
    if n <= 0 {
        Seq::empty()
    } else if recorded(reports[n - 1]) {
        record_lines(reports, n - 1).push(line_of(reports[n - 1]))
    } else {
        record_lines(reports, n - 1)
    }
}

proof fn lines_are_records(ts: Seq<char>, reports: Seq<ReportView>, n: int)
    requires
        0 <= n <= reports.len(),
        !ts.contains('\n'),
        forall|i: int|
            0 <= i < reports.len() && recorded(#[trigger] reports[i]) ==> !reports[i].name.contains(
                '\n',
            ),
    ensures
        text::lines(ts + seq!['\n'] + lines_of(reports, n)) == seq![text::without_cr(ts)]
            + record_lines(reports, n),
    decreases n,
{
    if n <= 0 {
        text::line_is_read(Seq::empty(), ts, Seq::empty());
        assert(ts + seq!['\n'] + lines_of(reports, n) =~= ts + seq!['\n'] + Seq::empty());
        assert(Seq::<char>::empty() + ts =~= ts);
        assert(seq![text::without_cr(ts)] + Seq::<Seq<char>>::empty() =~= seq![
            text::without_cr(ts),
        ]);
    } else {
        lines_are_records(ts, reports, n - 1);
        let before = ts + seq!['\n'] + lines_of(reports, n - 1);
        let r = reports[n - 1];
        if recorded(r) {
            let line = line_of(r);
            class_names_are_plain(r.reversal);
            assert forall|j: int| 0 <= j < line.len() implies line[j] != '\n' by {
                if j < r.name.len() {
                    assert(line[j] == r.name[j]);
                    assert(r.name.contains(line[j]));
                } else if j > r.name.len() {
                    assert(line[j] == r.reversal.name()[j - r.name.len() - 1]);
                }
            }
            assert(!line.contains('\n'));
            assert(line.last() == r.reversal.name().last());
            assert(text::without_cr(line) == line);
            ends_with_line_feed(ts, reports, n - 1);
            text::ended_lines_append(before, line);
            assert(ts + seq!['\n'] + lines_of(reports, n) =~= before + line + seq!['\n']);
            assert(seq![text::without_cr(ts)] + record_lines(reports, n - 1).push(line) =~= (seq![
                text::without_cr(ts),
            ] + record_lines(reports, n - 1)).push(line));
        }
    }
}

proof fn ends_with_line_feed(ts: Seq<char>, reports: Seq<ReportView>, n: int)
    ensures
        (ts + seq!['\n'] + lines_of(reports, n)).len() > 0,
        (ts + seq!['\n'] + lines_of(reports, n)).last() == '\n',
    decreases n,
{
    if n > 0 {
        ends_with_line_feed(ts, reports, n - 1);
    }
}

proof fn records_are_read(ts: Seq<char>, reports: Seq<ReportView>, n: int)
    requires
        0 <= n <= reports.len(),
        forall|i: int|
            0 <= i < reports.len() && recorded(#[trigger] reports[i]) ==> !reports[i].name.contains(
                '\t',
            ),
    ensures
        ({
            let ls = seq![text::without_cr(ts)] + record_lines(reports, n);
            read_lines(ls, ls.len() as int) == Ok::<_, ErrorView>(entries_of(reports, n))
        }),
    decreases n,
{
    if n > 0 {
        records_are_read(ts, reports, n - 1);
        let r = reports[n - 1];
        if recorded(r) {
            let before = seq![text::without_cr(ts)] + record_lines(reports, n - 1);
            let ls = seq![text::without_cr(ts)] + record_lines(reports, n);
            assert(ls =~= before.push(line_of(r)));
            assert forall|i: int| 0 <= i < r.name.len() implies #[trigger] r.name[i] != '\t' by {
                if r.name[i] == '\t' {
                    assert(r.name.contains('\t'));
                }
            }
            written_line_is_read(r);
            same_prefix(before, ls, before.len() as int);
        }
    }
}

proof fn same_prefix(a: Seq<Seq<char>>, b: Seq<Seq<char>>, n: int)
    requires
        0 <= n <= a.len() <= b.len(),
        forall|i: int| 0 <= i < n ==> #[trigger] a[i] == b[i],
    ensures
        read_lines(a, n) == read_lines(b, n),
    decreases n,
{
    if n > 1 {
        same_prefix(a, b, n - 1);
    }
}

/// A manifest gives back the entries that were recorded, in their order, but for paths that would
/// lead out of their directory. It takes names without tabs and line feeds.
pub proof fn manifest_reads_back(ts: Seq<char>, reports: Seq<ReportView>)
    requires
        !ts.contains('\n'),
        forall|i: int|
            0 <= i < reports.len() && recorded(#[trigger] reports[i]) ==> !reports[i].name.contains(
                '\t',
            ) && !reports[i].name.contains('\n'),
    ensures
        manifest_read(manifest_of(ts, reports)) == Ok::<_, ErrorView>(
            entries_of(reports, reports.len() as int),
        ),
{
    lines_are_records(ts, reports, reports.len() as int);
    records_are_read(ts, reports, reports.len() as int);
}

/// A report is recorded where there is something to undo and its name is not that of a step of the
/// whole run, which stands in angle brackets; the line holds the name, a tab and the class, and the
/// manifest starts with the time of the run.
pub proof fn what_can_be_undone_is_recorded(ts: Seq<char>, reports: Seq<ReportView>, r: ReportView)
    ensures
        recorded(r) <==> r.reversal != ReversalClass::Noop && !(r.name.len() > 0 && r.name[0] == '<'
            && r.name[r.name.len() - 1] == '>'),
        line_of(r).len() == r.name.len() + 1 + r.reversal.name().len(),
        line_of(r).subrange(0, r.name.len() as int) == r.name,
        line_of(r)[r.name.len() as int] == '\t',
        manifest_of(ts, reports).len() > ts.len(),
        manifest_of(ts, reports).subrange(0, ts.len() as int) == ts,
        manifest_of(ts, reports)[ts.len() as int] == '\n',
        manifest_of(ts, Seq::empty()) == ts.push('\n'),
{
    assert(line_of(r).subrange(0, r.name.len() as int) =~= r.name);
    assert(manifest_of(ts, reports).subrange(0, ts.len() as int) =~= ts);
    assert(manifest_of(ts, Seq::empty()) =~= ts.push('\n'));
}

/// One report more adds its line where it can be undone, and nothing otherwise.
pub proof fn report_adds_its_line(ts: Seq<char>, reports: Seq<ReportView>, r: ReportView)
    ensures
        recorded(r) ==> manifest_of(ts, reports.push(r)) == manifest_of(ts, reports) + line_of(r)
            + seq!['\n'],
        !recorded(r) ==> manifest_of(ts, reports.push(r)) == manifest_of(ts, reports),
{
    let more = reports.push(r);
    same_lines(reports, more, reports.len() as int);
    if recorded(r) {
        assert(manifest_of(ts, more) =~= manifest_of(ts, reports) + line_of(r) + seq!['\n']);
    }
}

proof fn same_lines(a: Seq<ReportView>, b: Seq<ReportView>, n: int)
    requires
        0 <= n <= a.len() <= b.len(),
        forall|i: int| 0 <= i < n ==> #[trigger] a[i] == b[i],
    ensures
        lines_of(a, n) == lines_of(b, n),
    decreases n,
{
    if n > 0 {
        same_lines(a, b, n - 1);
        assert(a[n - 1] == b[n - 1]);
    }
}

/// A line is a path and a class with a tab between them: one without a tab or with an unknown class is
/// refused with what is wrong, and one whose path could lead out of its directory is passed over.
pub proof fn line_is_a_path_and_a_class(rel: Seq<char>, class: Seq<char>)
    requires
        !rel.contains('\t'),
    ensures
        ({
            let line = rel + seq!['\t'] + class;
            &&& ReversalClass::named(class) is None ==> read_line(line) == Err::<
                Option<(Seq<char>, ReversalClass)>,
                _,
            >(ErrorView::UnknownClass(class))
            &&& ReversalClass::named(class) matches Some(c) ==> read_line(line) == Ok::<
                _,
                ErrorView,
            >(
                if path::safe_rel(text::utf8(rel)) {
                    Some((rel, c))
                } else {
                    None
                },
            )
            &&& rel.len() > 0 ==> read_line(rel) == Err::<Option<(Seq<char>, ReversalClass)>, _>(
                ErrorView::MissingTab(rel),
            )
            &&& read_line(Seq::empty()) == Ok::<_, ErrorView>(
                None::<(Seq<char>, ReversalClass)>,
            )
        }),
{
    let line = rel + seq!['\t'] + class;
    let n = rel.len() as int;
    assert forall|j: int| 0 <= j < n implies #[trigger] line[j] != '\t' by {
        assert(rel.contains(rel[j]));
    }
    assert(tab_at(line, n));
    let i = choose|i: int| tab_at(line, i);
    assert(tab_at(line, i));
    assert(i == n) by {
        if i < n {
            assert(line[i] != '\t');
        } else if n < i {
            assert(line[n] != '\t');
        }
    }
    assert(line.subrange(0, i) =~= rel);
    assert(line.subrange(i + 1, line.len() as int) =~= class);
    if exists|k: int| tab_at(rel, k) {
        let k = choose|k: int| tab_at(rel, k);
        assert(rel.contains(rel[k]));
    }
}

/// The first line behind the time that is refused refuses the manifest, whatever stands behind it; the
/// line of the time itself is not looked at.
pub proof fn first_bad_line_is_told(lines: Seq<Seq<char>>, n: int, k: int, e: ErrorView)
    requires
        1 <= k < n <= lines.len(),
        forall|j: int| 1 <= j < k ==> read_line(#[trigger] lines[j]) is Ok,
        read_line(lines[k]) == Err::<Option<(Seq<char>, ReversalClass)>, _>(e),
    ensures
        read_lines(lines, n) == Err::<Seq<(Seq<char>, ReversalClass)>, _>(e),
        read_lines(lines, k) is Ok,
        read_lines(lines, 1) == Ok::<_, ErrorView>(Seq::<(Seq<char>, ReversalClass)>::empty()),
    decreases n,
{
    good_lines_are_read(lines, k);
    if n - 1 > k {
        first_bad_line_is_told(lines, n - 1, k, e);
    }
}

proof fn good_lines_are_read(lines: Seq<Seq<char>>, n: int)
    requires
        0 <= n <= lines.len(),
        forall|j: int| 1 <= j < n ==> read_line(#[trigger] lines[j]) is Ok,
    ensures
        read_lines(lines, n) is Ok,
    decreases n,
{
    if n > 1 {
        good_lines_are_read(lines, n - 1);
        assert(read_line(lines[n - 1]) is Ok);
    }
}

} // verus!
