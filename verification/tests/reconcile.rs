use scrollz::path::is_safe_rel;
use scrollz::reconcile::advisor::{recommend, Action, Confidence, Recommendation};
use scrollz::reconcile::delete_gate::{
    delete_permitted, durable_superset_ok, live_entry_unchanged, readback_eq,
};
use scrollz::reconcile::generation::{latest_generation, ts_greater};
use scrollz::reconcile::guard::{ensure_mountable, ensure_underlay_empty, is_harmless};
use scrollz::reconcile::manifest::{
    is_synthetic_rel, manifest_body, parse_manifest, ManifestError,
};
use scrollz::reconcile::merge::{base_covered_by_merged, session_merge, Decision};
use scrollz::reconcile::record::{classify_record, read_records, RecordKind};
use scrollz::reconcile::session_file::{lines_to_text, merge_texts};
use scrollz::reconcile::types::{
    reversal_for_preimage, EntryReport, EntrySnapshot, LiveStat, ReversalClass, SupersetMode,
};
use scrollz::store::types::Time;

fn ts(u: &str, t: &str) -> String {
    format!(r#"{{"type":"assistant","uuid":"{u}","parentUuid":null,"timestamp":"{t}"}}"#)
}

#[test]
fn base_covered_gate_uuid_aware() {
    let base = format!("{}\n", ts("u1", "2026-06-27T00:00:00.000Z"));
    let merged_missing = format!("{}\n", ts("u2", "2026-06-27T00:00:00.000Z"));
    assert!(!base_covered_by_merged(&base, &merged_missing));
    let base_log = "{\"type\":\"ai-title\",\"aiTitle\":\"X\"}\n";
    assert!(!base_covered_by_merged(base_log, ""));
    let base_short = "{\"uuid\":\"u1\",\"x\":\"AA\"}\n";
    let merged_long = "{\"uuid\":\"u1\",\"x\":\"BBBBBB\"}\n";
    assert!(base_covered_by_merged(base_short, merged_long));
    let m = format!("{}\n{}\n", ts("u1", "t"), base_log.trim());
    assert!(base_covered_by_merged(&base, &m) && base_covered_by_merged(base_log, &m));
}

#[test]
fn empty_string_uuid_records_are_not_folded() {
    let base = format!(
        "{}\n{}\n",
        r#"{"type":"x","uuid":"","a":"AAAA"}"#, r#"{"type":"x","uuid":"","a":"BBBBBBBB"}"#
    );
    let incoming = String::new();
    let r = session_merge(&base, &incoming);
    assert!(r.merged_lines.iter().any(|l| l.contains("AAAA")));
    assert!(r.merged_lines.iter().any(|l| l.contains("BBBBBBBB")));
}

#[test]
fn log_only_keeps_base_transcript_and_unions_logs() {
    let base = format!(
        "{}\n{}\n",
        ts("u1", "2026-06-27T12:00:00.000Z"),
        r#"{"type":"ai-title","aiTitle":"旧标题","sessionId":"s"}"#
    );
    let incoming = format!(
        "{}\n{}\n",
        r#"{"type":"ai-title","aiTitle":"新标题","sessionId":"s"}"#,
        r#"{"type":"mode","mode":"normal","sessionId":"s"}"#
    );
    let r = session_merge(&base, &incoming);
    assert_eq!(r.decision, Decision::LogOnly);
    assert!(r.merged_lines.iter().any(|l| l.contains("旧标题")));
    assert!(r.merged_lines.iter().any(|l| l.contains("新标题")));
    assert!(r.merged_lines.iter().any(|l| l.contains("u1")));
}

#[test]
fn many_last_prompt_all_preserved_not_folded() {
    let base = format!(
        "{}\n{}\n",
        r#"{"type":"last-prompt","lastPrompt":"p1","leafUuid":"a"}"#,
        r#"{"type":"last-prompt","lastPrompt":"p2","leafUuid":"b"}"#
    );
    let incoming = format!(
        "{}\n",
        r#"{"type":"last-prompt","lastPrompt":"p3","leafUuid":"c"}"#
    );
    let r = session_merge(&base, &incoming);
    let n = r
        .merged_lines
        .iter()
        .filter(|l| l.contains("last-prompt"))
        .count();
    assert_eq!(n, 3);
}

#[test]
fn suspect_reuse_when_disjoint_uuids_no_bridge() {
    let base = format!("{}\n", ts("a1", "2026-06-24T16:55:00.000Z"));
    let incoming = format!("{}\n", ts("b1", "2026-06-30T10:42:00.000Z"));
    let r = session_merge(&base, &incoming);
    assert_eq!(r.decision, Decision::SuspectReuse);
    assert_eq!(r.evidence.uuid_overlap, 0);
}

#[test]
fn compaction_bridge_is_incremental_not_reuse() {
    let base = format!("{}\n", ts("a1", "2026-06-24T16:55:00.000Z"));
    let incoming = format!(
        "{}\n{}\n",
        r#"{"type":"user","isCompactSummary":true,"uuid":"b1","parentUuid":"a1","timestamp":"2026-06-30T10:00:00.000Z"}"#,
        ts("b2", "2026-06-30T10:01:00.000Z")
    );
    let r = session_merge(&base, &incoming);
    assert_eq!(r.decision, Decision::CompactionBridge);
}

#[test]
fn incremental_unions_by_uuid_no_dup() {
    let base = format!(
        "{}\n{}\n",
        ts("u1", "2026-06-30T10:00:00.000Z"),
        ts("u2", "2026-06-30T10:01:00.000Z")
    );
    let incoming = format!(
        "{}\n{}\n",
        ts("u2", "2026-06-30T10:01:00.000Z"),
        ts("u3", "2026-06-30T10:02:00.000Z")
    );
    let r = session_merge(&base, &incoming);
    assert_eq!(r.decision, Decision::Incremental);
    let uu: Vec<_> = r
        .merged_lines
        .iter()
        .filter(|l| l.contains(r#""uuid""#))
        .collect();
    assert_eq!(uu.len(), 3);
}

#[test]
fn merge_is_idempotent() {
    let base = format!("{}\n", ts("u1", "2026-06-30T10:00:00.000Z"));
    let incoming = format!("{}\n", ts("u2", "2026-06-30T10:01:00.000Z"));
    let once = session_merge(&base, &incoming).merged_lines.join("\n");
    let twice = session_merge(&once, &incoming).merged_lines.join("\n");
    assert_eq!(once, twice);
}

#[test]
fn no_uuid_record_not_hoisted_to_front() {
    let base = format!(
        "{}\n{}\n{}\n",
        ts("u1", "2026-06-30T10:00:00.000Z"),
        r#"{"type":"mode","mode":"normal"}"#,
        ts("u2", "2026-06-30T10:05:00.000Z")
    );
    let r = session_merge(&base, "");
    let i_u1 = r
        .merged_lines
        .iter()
        .position(|l| l.contains("u1"))
        .unwrap();
    let i_mode = r
        .merged_lines
        .iter()
        .position(|l| l.contains(r#""mode""#))
        .unwrap();
    assert!(i_mode > i_u1);
}

#[test]
fn incoming_leading_no_ts_record_not_hoisted_across_seam() {
    let base = format!(
        "{}\n{}\n",
        ts("u1", "2026-06-30T10:00:00.000Z"),
        ts("u2", "2026-06-30T10:05:00.000Z")
    );
    let incoming = format!("{}\n", r#"{"type":"mode","mode":"normal"}"#);
    let r = session_merge(&base, &incoming);
    let i_u2 = r
        .merged_lines
        .iter()
        .position(|l| l.contains("u2"))
        .unwrap();
    let i_mode = r
        .merged_lines
        .iter()
        .position(|l| l.contains(r#""mode""#))
        .unwrap();
    assert!(i_mode > i_u2);
}

#[test]
fn same_uuid_conflict_takes_longer_complete() {
    let full = r#"{"type":"assistant","uuid":"u1","timestamp":"2026-06-30T10:00:00.000Z","message":"complete"}"#;
    let short = r#"{"type":"assistant","uuid":"u1","timestamp":"2026-06-30T10:00:00.000Z"}"#;
    let r = session_merge(&format!("{short}\n"), &format!("{full}\n"));
    assert!(r.merged_lines.iter().any(|l| l.contains("complete")));
    assert_eq!(
        r.merged_lines
            .iter()
            .filter(|l| l.contains(r#""u1""#))
            .count(),
        1
    );
    assert!(!r.conflicts.is_empty());
    assert!(
        r.conflicts
            .iter()
            .any(|c| c.contains("dropped=") && c.contains("u1")),
        "{:?}",
        r.conflicts
    );
}

#[test]
fn merged_file_is_sorted_by_time_and_covers_both_sides() {
    let late = ts("u9", "2026-06-30T11:00:00.000Z");
    let early = ts("u1", "2026-06-30T09:00:00.000Z");
    let base = format!("{late}\n");
    let incoming = format!("{early}\n");
    let merged = merge_texts(&base, &incoming);
    assert_eq!(merged, format!("{early}\n{late}\n"));
    assert!(base_covered_by_merged(&base, &merged));
    assert!(base_covered_by_merged(&incoming, &merged));
    assert_eq!(merge_texts(&merged, &incoming), merged);
}

#[test]
fn cut_line_is_told_apart_and_kept_beside_the_whole_one() {
    let whole = r#"{"uuid":"u1","timestamp":"2026-06-30T10:00:00.000Z"}"#;
    let cut = &whole[..whole.len() - 1];
    assert!(matches!(
        classify_record(cut).kind,
        RecordKind::Unparsable { truncated: true }
    ));
    assert!(matches!(
        classify_record("not json").kind,
        RecordKind::Unparsable { truncated: false }
    ));
    let r = session_merge(&format!("{whole}\n"), &format!("{cut}\n"));
    assert_eq!(r.evidence.truncated_lines, 1);
    assert_eq!(
        r.merged_lines,
        vec![whole.to_string(), cut.to_string()]
    );
    assert!(r.conflicts.is_empty());
    let r = session_merge(&format!("{whole}\n"), "");
    assert_eq!(r.merged_lines, vec![whole.to_string()]);
    assert_eq!(r.evidence.truncated_lines, 0);
    assert!(r.conflicts.is_empty());
}

#[test]
fn records_read_uuid_time_and_bridge() {
    let v = read_records(
        "{\"uuid\":\"u1\",\"timestamp\":\"t1\"}\n\n{\"uuid\":7,\"isCompactSummary\":true}\r\n",
    );
    assert_eq!(v.len(), 2);
    assert!(matches!(&v[0].kind, RecordKind::Transcript { uuid } if uuid == "u1"));
    assert_eq!(v[0].timestamp.as_deref(), Some("t1"));
    assert!(matches!(v[1].kind, RecordKind::NoUuid));
    assert!(v[1].timestamp.is_none());
    assert!(v[1].compact_summary && !v[0].compact_summary);
}

#[test]
fn text_of_lines_ends_every_line() {
    assert_eq!(lines_to_text(&vec![]), "");
    assert_eq!(
        lines_to_text(&vec!["a".to_string(), "b".to_string()]),
        "a\nb\n"
    );
}

fn rec(base: &str, inc: &str) -> Recommendation {
    recommend(&session_merge(base, inc))
}

#[test]
fn log_only_high_union() {
    let r = rec(
        "{\"type\":\"assistant\",\"uuid\":\"u1\",\"timestamp\":\"2026-06-27T12:00:00.000Z\"}\n",
        "{\"type\":\"ai-title\",\"aiTitle\":\"t\"}\n",
    );
    assert!(matches!(r.action, Action::UnionIntoBase));
    assert!(matches!(r.confidence, Confidence::High));
}

#[test]
fn suspect_reuse_low_keep_separate() {
    let r = rec(
        "{\"type\":\"assistant\",\"uuid\":\"a\",\"timestamp\":\"2026-06-24T00:00:00.000Z\"}\n",
        "{\"type\":\"assistant\",\"uuid\":\"b\",\"timestamp\":\"2026-06-30T00:00:00.000Z\"}\n",
    );
    assert!(matches!(r.action, Action::KeepSeparate));
    assert!(matches!(r.confidence, Confidence::Low));
}

#[test]
fn overlap_is_named_in_the_rationale() {
    let both = ts("u1", "2026-06-30T10:00:00.000Z");
    let r = rec(&format!("{both}\n"), &format!("{both}\n"));
    assert!(matches!(r.action, Action::UnionIntoBase));
    assert!(r.rationale.contains("overlap=1"), "{}", r.rationale);
}

fn names(v: &[&str]) -> Vec<Vec<u8>> {
    v.iter().map(|s| s.as_bytes().to_vec()).collect()
}

#[test]
fn empty_dir_ok() {
    assert!(ensure_underlay_empty("/mp", Some(&names(&[]))).is_ok());
}

#[test]
fn harmless_hidden_ignored() {
    let listing = names(&[".fuse_hidden0001", ".DS_Store"]);
    assert!(ensure_underlay_empty("/mp", Some(&listing)).is_ok());
}

#[test]
fn fallthrough_jsonl_blocks() {
    let listing = names(&["s.jsonl"]);
    let e = ensure_underlay_empty("/mp", Some(&listing)).unwrap_err();
    assert!(e.contains("reconcile"));
    assert!(e.contains("/mp"));
}

#[test]
fn ensure_mountable_blocks_on_reconciling_marker() {
    let none = names(&[]);
    assert!(ensure_mountable(true, "/d/demo.reconciling", "/d/mp", Some(&none)).is_err());
    assert!(ensure_mountable(false, "/d/demo.reconciling", "/d/mp", Some(&none)).is_ok());
    let some = names(&["s.jsonl"]);
    assert!(ensure_mountable(false, "/d/demo.reconciling", "/d/mp", Some(&some)).is_err());
}

#[test]
fn harmless_names() {
    for name in [".fuse_hidden1", ".DS_Store", ".x.swp", ".x.swx", ".x~"] {
        assert!(is_harmless(name.as_bytes()), "{name}");
    }
    for name in ["x.swp", "x~", ".config", "DS_Store", "s.jsonl", ""] {
        assert!(!is_harmless(name.as_bytes()), "{name}");
    }
}

#[test]
fn readback_eq_detects_mismatch() {
    assert!(!readback_eq(b"line1\n", b"line2\n"));
    assert!(readback_eq(b"line1\n", b"line1\n"));
}

#[test]
fn byte_equal_superset_ok() {
    assert!(durable_superset_ok(
        b"a\nb\n",
        b"a\nb\n",
        SupersetMode::ByteEqual
    ));
    assert!(!durable_superset_ok(
        b"a\nb\n",
        b"a\nb\nc\n",
        SupersetMode::ByteEqual
    ));
}

#[test]
fn lines_superset_accepts_when_receiver_covers() {
    assert!(durable_superset_ok(
        b"a\nb\nc\n",
        b"a\nb\n",
        SupersetMode::LinesSuperset
    ));
}

#[test]
fn lines_superset_detects_missing() {
    assert!(!durable_superset_ok(
        b"a\nb\n",
        b"a\nb\nc\n",
        SupersetMode::LinesSuperset
    ));
}

#[test]
fn lines_are_compared_byte_for_byte() {
    assert!(durable_superset_ok(
        b"x\n\xff\n",
        b"\xff\n",
        SupersetMode::LinesSuperset
    ));
    assert!(!durable_superset_ok(
        "\u{fffd}\n".as_bytes(),
        b"\xff\n",
        SupersetMode::LinesSuperset
    ));
    assert!(!durable_superset_ok(
        b"a\nb",
        b"a\nb\n",
        SupersetMode::LinesSuperset
    ));
}

fn snap(bytes: &[u8]) -> EntrySnapshot {
    EntrySnapshot {
        rel: "s.jsonl".into(),
        bytes: bytes.to_vec(),
        mtime: Time {
            secs: 1_750_000_000,
            nanos: 17,
        },
        size: bytes.len() as u64,
        ino: 4711,
    }
}

fn live(s: &EntrySnapshot) -> Option<LiveStat> {
    Some(LiveStat {
        mtime: Some(s.mtime),
        size: s.size,
        ino: s.ino,
    })
}

#[test]
fn delete_permitted_when_superset_and_live_unchanged() {
    let s = snap(b"a\nb\n");
    assert!(delete_permitted(
        b"a\nb\nc\n",
        &s,
        SupersetMode::LinesSuperset,
        live(&s)
    ));
}

#[test]
fn delete_blocked_when_live_underlay_changed() {
    let s = snap(b"a\nb\n");
    let changed = Some(LiveStat {
        mtime: Some(Time {
            secs: 1_750_000_001,
            nanos: 0,
        }),
        size: b"a\nb\nEXTRA\n".len() as u64,
        ino: s.ino,
    });
    assert!(!delete_permitted(
        b"a\nb\nc\n",
        &s,
        SupersetMode::LinesSuperset,
        changed
    ));
}

#[test]
fn delete_blocked_when_receiver_not_superset() {
    let s = snap(b"a\nb\nc\n");
    assert!(!delete_permitted(
        b"a\nb\n",
        &s,
        SupersetMode::LinesSuperset,
        live(&s)
    ));
}

#[test]
fn snapshot_taken_and_live_unchanged_true() {
    let s = snap(b"{\"a\":1}\n");
    assert_eq!(s.size, s.bytes.len() as u64);
    assert!(live_entry_unchanged(live(&s), &s));
}

#[test]
fn live_unchanged_false_after_append() {
    let s = snap(b"{\"a\":1}\n");
    let mut now = live(&s).unwrap();
    now.size += b"{\"b\":2}\n".len() as u64;
    assert!(!live_entry_unchanged(Some(now), &s));
}

#[test]
fn missing_live_entry_is_changed() {
    let s = snap(b"{}\n");
    assert!(!live_entry_unchanged(None, &s));
    let mut now = live(&s).unwrap();
    now.mtime = None;
    assert!(!live_entry_unchanged(Some(now), &s));
    let mut now = live(&s).unwrap();
    now.ino += 1;
    assert!(!live_entry_unchanged(Some(now), &s));
}

#[test]
fn read_manifest_skips_traversal_and_absolute_rel() {
    let content = "7\n\
         ../evil.jsonl\tRestoreOrig\n\
         /etc/passwd\tRemoveOrig\n\
         a/../../b.jsonl\tRestoreOrig\n\
         good/s.jsonl\tRemoveOrig\n";
    let out = match parse_manifest(content) {
        Ok(out) => out,
        Err(e) => panic!("{e:?}"),
    };
    assert_eq!(
        out,
        vec![("good/s.jsonl".to_string(), ReversalClass::RemoveOrig)]
    );
}

#[test]
fn is_safe_rel_accepts_multi_segment_rejects_traversal() {
    assert!(is_safe_rel("uuid/subagents/x.jsonl"));
    assert!(is_safe_rel("s.jsonl"));
    assert!(!is_safe_rel(""));
    assert!(!is_safe_rel("../evil"));
    assert!(!is_safe_rel("a/../b"));
    assert!(!is_safe_rel("/etc/passwd"));
    assert!(!is_safe_rel("."));
}

fn report(name: &str, reversal: ReversalClass) -> EntryReport {
    EntryReport {
        name: name.to_string(),
        decision: String::new(),
        action: String::new(),
        notes: Vec::new(),
        reversal,
    }
}

#[test]
fn manifest_reads_back_what_was_written() {
    let entries = vec![
        report("a.jsonl", ReversalClass::RestoreOrig),
        report("<prune>", ReversalClass::Noop),
        report("b/c.jsonl", ReversalClass::RemoveQuarantine),
        report("../x", ReversalClass::RemoveOrig),
    ];
    let body = manifest_body("42", &entries);
    assert_eq!(
        body,
        "42\na.jsonl\tRestoreOrig\nb/c.jsonl\tRemoveQuarantine\n../x\tRemoveOrig\n"
    );
    let back = match parse_manifest(&body) {
        Ok(v) => v,
        Err(e) => panic!("{e:?}"),
    };
    assert_eq!(
        back,
        vec![
            ("a.jsonl".to_string(), ReversalClass::RestoreOrig),
            ("b/c.jsonl".to_string(), ReversalClass::RemoveQuarantine),
        ]
    );
    assert!(is_synthetic_rel("<prune>"));
    assert!(!is_synthetic_rel("prune>"));
}

#[test]
fn broken_manifest_lines_are_errors() {
    match parse_manifest("7\nno tab here\n") {
        Err(ManifestError::MissingTab(line)) => assert_eq!(line, "no tab here"),
        other => panic!("{other:?}"),
    }
    match parse_manifest("7\na\tWhatever\n") {
        Err(ManifestError::UnknownClass(class)) => assert_eq!(class, "Whatever"),
        other => panic!("{other:?}"),
    }
}

#[test]
fn classes_have_names_that_read_back() {
    for c in [
        ReversalClass::RestoreOrig,
        ReversalClass::RemoveOrig,
        ReversalClass::RemoveQuarantine,
        ReversalClass::ReportMemory,
        ReversalClass::Noop,
    ] {
        assert_eq!(ReversalClass::parse(c.as_str()), Some(c));
    }
    assert_eq!(ReversalClass::parse("noop"), None);
    assert_eq!(reversal_for_preimage(true), ReversalClass::RestoreOrig);
    assert_eq!(reversal_for_preimage(false), ReversalClass::RemoveOrig);
}

#[test]
fn latest_generation_picks_numeric_max_not_lexical() {
    let runs: Vec<String> = ["9", "100", "20"].iter().map(|s| s.to_string()).collect();
    assert_eq!(latest_generation(&runs).as_deref(), Some("100"));
    assert_eq!(latest_generation(&Vec::new()), None);
    assert!(ts_greater("10", "9"));
    assert!(!ts_greater("9", "10"));
    assert!(ts_greater("b", "a"));
}
