//! One line of a session file: a JSON record, or what a crash left of one.
use vstd::prelude::*;
use vstd::string::*;

use crate::text;

verus! {

/// A JSON value of `serde_json`.
#[verifier::external_type_specification]
#[verifier::external_body]
pub struct ExValue(serde_json::Value);

/// The members of a JSON object whose values are strings.
pub uninterp spec fn json_texts(v: serde_json::Value) -> Map<Seq<char>, Seq<char>>;

/// The members of a JSON object whose values are `true` or `false`.
pub uninterp spec fn json_flags(v: serde_json::Value) -> Map<Seq<char>, bool>;

/// The string members and the boolean members of the JSON value that a text is; none where the
/// text is no JSON value.
pub uninterp spec fn json_document(text: Seq<char>) -> Option<
    (Map<Seq<char>, Seq<char>>, Map<Seq<char>, bool>),
>;

/// Whether a text that is no JSON value only ends too early to be one.
pub uninterp spec fn json_cut_short(text: Seq<char>) -> bool;

/// Parses a text with `serde_json::from_str`; on failure tells what `serde_json::Error::is_eof`
/// says of it.
///
/// Trusted: whether the text parses, what the members of the value are, and whether the text
/// ended too early depend on the text alone.
#[verifier::external_body]
fn parse_json(text: &str) -> (r: Result<serde_json::Value, bool>)
    ensures
        match r {
            Ok(v) => json_document(text@) == Some((json_texts(v), json_flags(v))),
            Err(cut_short) => json_document(text@) is None && cut_short == json_cut_short(text@),
        },
{
    serde_json::from_str::<serde_json::Value>(text).map_err(|e| e.is_eof())
}

/// Looks a member up with `serde_json::Value::get` and reads it with `serde_json::Value::as_str`.
///
/// Trusted: the answer is the member's text where the value is an object that has it as a string,
/// and nothing otherwise.
#[verifier::external_body]
fn text_member(v: &serde_json::Value, key: &str) -> (r: Option<String>)
    ensures
        match r {
            Some(s) => json_texts(*v).contains_key(key@) && s@ == json_texts(*v)[key@],
            None => !json_texts(*v).contains_key(key@),
        },
{
    v.get(key).and_then(|m| m.as_str()).map(|s| s.to_string())
}

/// Looks a member up with `serde_json::Value::get` and reads it with `serde_json::Value::as_bool`.
///
/// Trusted: the answer is the member's value where the value is an object that has it as a
/// boolean, and nothing otherwise.
#[verifier::external_body]
fn flag_member(v: &serde_json::Value, key: &str) -> (r: Option<bool>)
    ensures
        match r {
            Some(b) => json_flags(*v).contains_key(key@) && b == json_flags(*v)[key@],
            None => !json_flags(*v).contains_key(key@),
        },
{
    v.get(key).and_then(|m| m.as_bool())
}

/// What a line is.
#[derive(Debug, Clone)]
pub enum RecordKind {
    /// A record of the conversation, with its identity.
    Transcript { uuid: String },
    /// A record without an identity of its own.
    NoUuid,
    /// No JSON; `truncated` where it only ends too early.
    Unparsable { truncated: bool },
}

/// What a line is, as a mathematical value.
#[verifier::ext_equal]
pub enum KindView {
    Transcript(Seq<char>),
    NoUuid,
    Unparsable(bool),
}

impl View for RecordKind {
    type V = KindView;

    open spec fn view(&self) -> KindView {
        match self {
            RecordKind::Transcript { uuid } => KindView::Transcript(uuid@),
            RecordKind::NoUuid => KindView::NoUuid,
            RecordKind::Unparsable { truncated } => KindView::Unparsable(*truncated),
        }
    }
}

/// A line with all that merging reads of it.
#[derive(Debug, Clone)]
pub struct RawRecord {
    /// The line as it stands in the file.
    pub line: String,
    /// What it is.
    pub kind: RecordKind,
    /// Its `timestamp` member.
    pub timestamp: Option<String>,
    /// Its `parentUuid` member.
    pub parent_uuid: Option<String>,
    /// Whether its `isCompactSummary` member is `true`.
    pub compact_summary: bool,
}

/// A line with all that merging reads of it, as a mathematical value.
#[verifier::ext_equal]
pub struct RecordView {
    pub line: Seq<char>,
    pub kind: KindView,
    pub timestamp: Option<Seq<char>>,
    pub parent_uuid: Option<Seq<char>>,
    pub compact_summary: bool,
}

/// The text of an optional string.
pub open spec fn opt_text(s: Option<String>) -> Option<Seq<char>> {
    match s {
        Some(s) => Some(s@),
        None => None,
    }
}

impl View for RawRecord {
    type V = RecordView;

    open spec fn view(&self) -> RecordView {
        RecordView {
            line: self.line@,
            kind: self.kind@,
            timestamp: opt_text(self.timestamp),
            parent_uuid: opt_text(self.parent_uuid),
            compact_summary: self.compact_summary,
        }
    }
}

/// The member of that name.
pub open spec fn member<T>(m: Map<Seq<char>, T>, key: Seq<char>) -> Option<T> {
    if m.contains_key(key) {
        Some(m[key])
    } else {
        None
    }
}

/// What a line is and says, given what `json_document` and `json_cut_short` say of it. An
/// identity is a `uuid` member that is a string and not empty.
pub open spec fn record_of(
    line: Seq<char>,
    document: Option<(Map<Seq<char>, Seq<char>>, Map<Seq<char>, bool>)>,
    cut_short: bool,
) -> RecordView {
    match document {
        None => RecordView {
            line,
            kind: KindView::Unparsable(cut_short),
            timestamp: None,
            parent_uuid: None,
            compact_summary: false,
        },
        Some((strings, flags)) => RecordView {
            line,
            kind: match member(strings, "uuid"@) {
                Some(uuid) => if uuid.len() > 0 {
                    KindView::Transcript(uuid)
                } else {
                    KindView::NoUuid
                },
                None => KindView::NoUuid,
            },
            timestamp: member(strings, "timestamp"@),
            parent_uuid: member(strings, "parentUuid"@),
            compact_summary: member(flags, "isCompactSummary"@) == Some(true),
        },
    }
}

/// What a line is and says.
pub open spec fn classified(line: Seq<char>) -> RecordView {
    record_of(line, json_document(line), json_cut_short(line))
}

/// Classifies a line: a record with an identity, a record without, or no JSON.
pub fn classify_record(line: &str) -> (r: RawRecord)
    ensures
        r@ == classified(line@),
{
    match parse_json(line) {
        Ok(v) => {
            let kind: RecordKind = match text_member(&v, "uuid") {
                Some(uuid) => if uuid.as_str().is_empty() {
                    RecordKind::NoUuid
                } else {
                    RecordKind::Transcript { uuid }
                },
                None => RecordKind::NoUuid,
            };
            let timestamp: Option<String> = text_member(&v, "timestamp");
            let parent_uuid: Option<String> = text_member(&v, "parentUuid");
            let compact_summary: bool = match flag_member(&v, "isCompactSummary") {
                Some(b) => b,
                None => false,
            };
            RawRecord { line: line.to_owned(), kind, timestamp, parent_uuid, compact_summary }
        },
        Err(truncated) => RawRecord {
            line: line.to_owned(),
            kind: RecordKind::Unparsable { truncated },
            timestamp: None,
            parent_uuid: None,
            compact_summary: false,
        },
    }
}

/// The records of some lines, without the blank ones.
pub open spec fn records_of_lines(lines: Seq<Seq<char>>) -> Seq<RecordView>
    decreases lines.len(),
{
    if lines.len() == 0 {
        Seq::empty()
    } else {
        let rest = records_of_lines(lines.drop_last());
        if text::blank(lines.last()) {
            rest
        } else {
            rest.push(classified(lines.last()))
        }
    }
}

/// The records of a text: its lines that are not blank.
pub open spec fn records_of(s: Seq<char>) -> Seq<RecordView> {
    records_of_lines(text::lines(s))
}

/// The views of some records.
pub open spec fn views(v: Seq<RawRecord>) -> Seq<RecordView> {
    Seq::new(v.len(), |i: int| v[i]@)
}

/// The records of a text.
pub fn read_records(s: &str) -> (v: Vec<RawRecord>)
    ensures
        views(v@) == records_of(s@),
{
    let lines: Vec<String> = text::split_lines(s);
    let ghost all = text::texts(lines@);
    let mut v: Vec<RawRecord> = Vec::new();
    let mut i: usize = 0;
    assert(all.subrange(0, 0) =~= Seq::empty());
    assert(views(v@) =~= Seq::empty());
    while i < lines.len()
        invariant
            i <= lines@.len(),
            all == text::texts(lines@),
            views(v@) == records_of_lines(all.subrange(0, i as int)),
        decreases lines@.len() - i,
    {
        let ghost before = views(v@);
        let ghost next = all.subrange(0, i + 1);
        assert(next.drop_last() =~= all.subrange(0, i as int));
        assert(next.last() == lines@[i as int]@);
        if !text::is_blank(&lines[i]) {
            v.push(classify_record(&lines[i]));
            assert(views(v@) =~= before.push(classified(next.last())));
        }
        i = i + 1;
    }
    assert(all.subrange(0, i as int) =~= all);
    v
}

/// A record has an identity exactly where its document has one that holds something; its time, its
/// parent and whether it is a summary are those of the document, and a line that is no document has
/// none of them.
pub proof fn record_says_what_its_document_says(
    line: Seq<char>,
    document: Option<(Map<Seq<char>, Seq<char>>, Map<Seq<char>, bool>)>,
    cut_short: bool,
    uuid: Seq<char>,
)
    ensures
        ({
            let r = record_of(line, document, cut_short);
            &&& r.line == line
            &&& document is None ==> r.kind == KindView::Unparsable(cut_short) && r.timestamp is None
                && r.parent_uuid is None && !r.compact_summary
            &&& document matches Some((texts, flags)) ==> {
                &&& r.kind == KindView::Transcript(uuid) <==> texts.contains_key("uuid"@)
                    && texts["uuid"@] == uuid && uuid.len() > 0
                &&& !(r.kind is Unparsable)
                &&& r.timestamp is Some <==> texts.contains_key("timestamp"@)
                &&& r.timestamp matches Some(t) ==> t == texts["timestamp"@]
                &&& r.parent_uuid is Some <==> texts.contains_key("parentUuid"@)
                &&& r.parent_uuid matches Some(p) ==> p == texts["parentUuid"@]
                &&& r.compact_summary <==> flags.contains_key("isCompactSummary"@)
                    && flags["isCompactSummary"@]
            }
        }),
{
}

/// Every line that is not blank is one record, in the order of the lines, whatever stands before and
/// behind it.
pub proof fn records_stand_in_the_order_of_lines(a: Seq<Seq<char>>, b: Seq<Seq<char>>)
    ensures
        records_of_lines(a + b) == records_of_lines(a) + records_of_lines(b),
        forall|line: Seq<char>| #[trigger]
            records_of_lines(seq![line]) == (if text::blank(line) {
                Seq::<RecordView>::empty()
            } else {
                seq![classified(line)]
            }),
    decreases b.len(),
{
    assert forall|line: Seq<char>| #[trigger] records_of_lines(seq![line]) == (if text::blank(
        line,
    ) {
        Seq::<RecordView>::empty()
    } else {
        seq![classified(line)]
    }) by {
        assert(seq![line].drop_last() =~= Seq::empty());
        assert(records_of_lines(Seq::empty()) =~= Seq::empty());
        assert(records_of_lines(seq![line]) =~= (if text::blank(line) {
            Seq::<RecordView>::empty()
        } else {
            seq![classified(line)]
        }));
    }
    if b.len() == 0 {
        assert(a + b =~= a);
        assert(records_of_lines(a) + records_of_lines(b) =~= records_of_lines(a));
    } else {
        records_stand_in_the_order_of_lines(a, b.drop_last());
        assert((a + b).drop_last() =~= a + b.drop_last());
        assert((a + b).last() == b.last());
        assert(records_of_lines(a + b) =~= records_of_lines(a) + records_of_lines(b));
    }
}

} // verus!
