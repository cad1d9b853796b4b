use scrollz::archive::crc32;
use scrollz::reconcile::advisor::{recommend, Action};
use scrollz::reconcile::apply::{Apply, ApplyAction, ApplyEvent, Receiver};
use scrollz::reconcile::delete_gate::readback_eq;
use scrollz::reconcile::driver::{PlannedEntry, Run, RunAction, RunEvent};
use scrollz::reconcile::guard::{ensure_underlay_empty, underlay_has_fallthrough};
use scrollz::reconcile::manifest::parse_manifest;
use scrollz::reconcile::merge::session_merge;
use scrollz::reconcile::preconditions::{Check, CheckAction, CheckEvent, Refusal};
use scrollz::reconcile::replace::{Replace, ReplaceAction};
use scrollz::reconcile::restore::{
    resolve_target, target_climbs, variant_suffix, MemoryFile, Restore, RestoreAction,
    RestoreEvent, Underlay,
};
use scrollz::reconcile::tree::{
    copy_step, dir_file_bytes, link_verdict, live_differs, put_back, reads_whole, relocate_step,
    walk_step, CopyStep, LinkVerdict, PruneFrame, PruneStep, PutBack, RelocateStep, Removal,
    WalkStep,
};
use scrollz::reconcile::types::{
    Confirm, EntryPlan, EntryReport, EntrySnapshot, LiveStat, ReversalClass,
};
use scrollz::reconcile::undo::{Undo, UndoAction, UndoEvent, UndoReport};
use scrollz::store::types::{FileKind, Time};
use std::collections::BTreeMap;

const BASE_LOG: &str = "{\"type\":\"assistant\",\"uuid\":\"u1\",\"parentUuid\":null,\"timestamp\":\"2026-06-27T12:00:00.000Z\"}\n{\"type\":\"ai-title\",\"aiTitle\":\"old\"}\n";

const INCOMING_LOG: &str =
    "{\"type\":\"ai-title\",\"aiTitle\":\"new\"}\n{\"type\":\"mode\",\"mode\":\"normal\"}\n";

const KEEP_BASE: &str = "{\"type\":\"assistant\",\"uuid\":\"a1\",\"parentUuid\":null,\"timestamp\":\"2026-06-24T00:00:00.000Z\"}\n";

const KEEP_INCOMING: &str = "{\"type\":\"assistant\",\"uuid\":\"b1\",\"parentUuid\":null,\"timestamp\":\"2026-06-30T00:00:00.000Z\"}\n";

type Files = BTreeMap<String, Vec<u8>>;

#[derive(Clone)]
struct Live {
    bytes: Vec<u8>,
    mtime: i64,
    ino: u64,
}

/// A project with all that lies about it, in memory.
#[derive(Default)]
struct World {
    orig: Files,
    backing: Files,
    mp: BTreeMap<String, Live>,
    dirs: Vec<String>,
    quarantine: Files,
    preimages: Files,
    snapshots: Files,
    manifests: BTreeMap<String, String>,
    generations: Vec<String>,
    undone: Vec<String>,
    marker: bool,
    mounted: bool,
    remounted: bool,
    meta: Option<(bool, String)>,
    active: Option<String>,
    clock: i64,
    memory_link: Option<String>,
    memory: Option<Files>,
    meta_fails: bool,
    mount_after_marker: bool,
}

impl World {
    fn committed() -> World {
        World {
            meta: Some((true, "shadow".to_string())),
            ..World::default()
        }
    }

    fn write_orig(&mut self, rel: &str, bytes: &[u8]) {
        self.orig.insert(rel.to_string(), bytes.to_vec());
    }

    fn reingest(&mut self, rel: &str) {
        let bytes = self.orig[rel].clone();
        self.backing.insert(rel.to_string(), bytes);
    }

    fn write_underlay(&mut self, rel: &str, bytes: &[u8]) {
        self.clock += 1;
        let ino = match self.mp.get(rel) {
            Some(l) => l.ino,
            None => 100 + self.mp.len() as u64,
        };
        self.mp.insert(
            rel.to_string(),
            Live {
                bytes: bytes.to_vec(),
                mtime: self.clock,
                ino,
            },
        );
        if let Some((top, _)) = rel.split_once('/') {
            if !self.dirs.iter().any(|d| d == top) {
                self.dirs.push(top.to_string());
            }
        }
    }

    fn snap(&self, rel: &str) -> EntrySnapshot {
        let l = &self.mp[rel];
        EntrySnapshot {
            rel: rel.to_string(),
            bytes: l.bytes.clone(),
            mtime: Time {
                secs: l.mtime,
                nanos: 0,
            },
            size: l.bytes.len() as u64,
            ino: l.ino,
        }
    }

    fn snapped(&mut self, rel: &str, bytes: &[u8]) -> EntrySnapshot {
        self.write_underlay(rel, bytes);
        self.snap(rel)
    }

    fn stat(&self, rel: &str) -> Option<LiveStat> {
        self.mp.get(rel).map(|l| LiveStat {
            mtime: Some(Time {
                secs: l.mtime,
                nanos: 0,
            }),
            size: l.bytes.len() as u64,
            ino: l.ino,
        })
    }

    /// The names at the top of the mount point.
    fn listing(&self) -> Vec<Vec<u8>> {
        let mut v: Vec<Vec<u8>> = self
            .mp
            .keys()
            .filter(|k| !k.contains('/'))
            .map(|k| k.as_bytes().to_vec())
            .collect();
        v.extend(self.dirs.iter().map(|d| d.as_bytes().to_vec()));
        v
    }

    fn fell_through(&self) -> bool {
        underlay_has_fallthrough(Some(&self.listing()))
    }

    /// Clears away the directories that hold nothing more.
    fn prune_dirs(&mut self) {
        let mp = &self.mp;
        self.dirs.retain(|d| {
            let mut f = PruneFrame::new();
            for rel in mp.keys() {
                if let Some(name) = rel.strip_prefix(&format!("{d}/")) {
                    let _ = f.entry(name.as_bytes(), FileKind::RegularFile);
                }
            }
            !f.drained()
        });
    }
}

fn plan_of(w: &World, s: &EntrySnapshot) -> EntryPlan {
    match w.orig.get(&s.rel) {
        None => EntryPlan::New,
        Some(o) if *o == s.bytes => EntryPlan::Identical,
        Some(o) => {
            let r = session_merge(
                &String::from_utf8_lossy(o),
                &String::from_utf8_lossy(&s.bytes),
            );
            match recommend(&r).action {
                Action::UnionIntoBase => EntryPlan::Union,
                _ => EntryPlan::KeepSeparate,
            }
        }
    }
}

/// Restores what was written to a directory of shared files, and gives the remarks.
fn run_restore(w: &mut World) -> Vec<String> {
    let target = w.memory_link.clone().unwrap();
    let mut r = Restore::new(
        "/mp/memory".to_string(),
        target.as_bytes().to_vec(),
        target.clone(),
        "/q/memory".to_string(),
    );
    let mut files: Vec<String> = Vec::new();
    let mut a = r.step(RestoreEvent::Begin).unwrap();
    loop {
        let e = match a {
            RestoreAction::Resolve => match &w.memory {
                Some(_) => RestoreEvent::Resolved(target.clone()),
                None => RestoreEvent::Dangling("no such file".to_string()),
            },
            RestoreAction::CheckDirectory => RestoreEvent::IsDirectory(true),
            RestoreAction::Probe => RestoreEvent::Writable,
            RestoreAction::Inspect => {
                RestoreEvent::Found(if w.dirs.iter().any(|d| d == "memory") {
                    Underlay::Directory
                } else {
                    Underlay::Missing
                })
            }
            RestoreAction::ListFiles => {
                files = w
                    .mp
                    .keys()
                    .filter_map(|k| k.strip_prefix("memory/"))
                    .map(|k| k.to_string())
                    .collect();
                RestoreEvent::Files(
                    files
                        .iter()
                        .map(|f| MemoryFile {
                            rel: f.clone(),
                            name: f.rsplit('/').next().unwrap().to_string(),
                        })
                        .collect(),
                )
            }
            RestoreAction::ReadSource(i) => {
                RestoreEvent::Bytes(w.mp[&format!("memory/{}", files[i])].bytes.clone())
            }
            RestoreAction::ReadDest(i, suffix) | RestoreAction::ReadBack(i, suffix) => {
                match w.memory.as_ref().unwrap().get(&format!("{}{suffix}", files[i])) {
                    Some(b) => RestoreEvent::Bytes(b.clone()),
                    None => RestoreEvent::Absent,
                }
            }
            RestoreAction::WriteDest(i, suffix, b) => {
                let name = format!("{}{suffix}", files[i]);
                w.memory.as_mut().unwrap().insert(name, b);
                RestoreEvent::Done
            }
            RestoreAction::Relocate => {
                let moved: Vec<String> = w
                    .mp
                    .keys()
                    .filter(|k| k.starts_with("memory/"))
                    .cloned()
                    .collect();
                for rel in moved {
                    let l = w.mp.remove(&rel).unwrap();
                    w.quarantine.insert(rel, l.bytes);
                }
                w.dirs.retain(|d| d != "memory");
                RestoreEvent::Done
            }
            RestoreAction::Finish(notes) => return notes,
            RestoreAction::Fail(m) => panic!("{m}"),
        };
        a = r.step(e).unwrap();
    }
}

/// Applies one entry. The entries of subagents are merged whatever their plan.
fn run_apply(w: &mut World, s: EntrySnapshot, plan: EntryPlan) -> EntryReport {
    let rel = s.rel.clone();
    let mut again = Some(w.snap_copy(&s));
    let mut m = Apply::new(s, plan);
    let in_memory = rel.starts_with("memory/") && w.memory_link.is_some();
    let mut a = m
        .step(ApplyEvent::Routed {
            subagents: rel.contains("/subagents/"),
            passthrough_entry: in_memory,
            top_link: in_memory,
        })
        .unwrap();
    loop {
        let e = match a {
            ApplyAction::Subagents => {
                let mut r = run_merge(w, again.take().unwrap());
                r.decision = format!("subagents-{}", r.decision);
                ApplyEvent::Reported(r)
            }
            ApplyAction::RestoreMemory => ApplyEvent::Restored(run_restore(w)),
            ApplyAction::ReadOrig => ApplyEvent::Bytes(w.orig[&rel].clone()),
            ApplyAction::StashOrig => ApplyEvent::Stashed(match w.orig.get(&rel) {
                Some(b) => {
                    w.preimages.insert(rel.clone(), b.clone());
                    Some(format!("/stash/orig/{rel}"))
                }
                None => None,
            }),
            ApplyAction::WriteOrig(b) => {
                w.orig.insert(rel.clone(), b);
                ApplyEvent::Done
            }
            ApplyAction::Reingest => {
                w.reingest(&rel);
                ApplyEvent::Done
            }
            ApplyAction::CheckBacking => ApplyEvent::Exists(w.backing.contains_key(&rel)),
            ApplyAction::Quarantine => {
                let b = again.as_ref().unwrap().bytes.clone();
                w.quarantine.insert(rel.clone(), b);
                ApplyEvent::Quarantined(format!("/q/{rel}"))
            }
            ApplyAction::ReadReceiver(Receiver::Orig) => ApplyEvent::Bytes(w.orig[&rel].clone()),
            ApplyAction::ReadReceiver(Receiver::Quarantine) => {
                ApplyEvent::Bytes(w.quarantine[&rel].clone())
            }
            ApplyAction::StatLive => ApplyEvent::Live(w.stat(&rel)),
            ApplyAction::RemoveLive => {
                w.mp.remove(&rel);
                ApplyEvent::Done
            }
            ApplyAction::Finish(r) => return r,
        };
        a = m.step(e).unwrap();
    }
}

impl World {
    fn snap_copy(&self, s: &EntrySnapshot) -> EntrySnapshot {
        EntrySnapshot {
            rel: s.rel.clone(),
            bytes: s.bytes.clone(),
            mtime: s.mtime,
            size: s.size,
            ino: s.ino,
        }
    }
}

/// Merges an entry, or takes it over where there is no original.
fn run_merge(w: &mut World, s: EntrySnapshot) -> EntryReport {
    let rel = s.rel.clone();
    let plan = if w.orig.contains_key(&rel) {
        EntryPlan::Union
    } else {
        EntryPlan::New
    };
    let mut m = Apply::new(s, plan);
    let mut a = m
        .step(ApplyEvent::Routed {
            subagents: false,
            passthrough_entry: false,
            top_link: false,
        })
        .unwrap();
    loop {
        let e = match a {
            ApplyAction::ReadOrig | ApplyAction::ReadReceiver(_) => {
                ApplyEvent::Bytes(w.orig[&rel].clone())
            }
            ApplyAction::StashOrig => ApplyEvent::Stashed(match w.orig.get(&rel) {
                Some(b) => {
                    w.preimages.insert(rel.clone(), b.clone());
                    Some(format!("/stash/orig/{rel}"))
                }
                None => None,
            }),
            ApplyAction::WriteOrig(b) => {
                w.orig.insert(rel.clone(), b);
                ApplyEvent::Done
            }
            ApplyAction::Reingest => {
                w.reingest(&rel);
                ApplyEvent::Done
            }
            ApplyAction::StatLive => ApplyEvent::Live(w.stat(&rel)),
            ApplyAction::RemoveLive => {
                w.mp.remove(&rel);
                ApplyEvent::Done
            }
            ApplyAction::Finish(r) => return r,
            _ => panic!("an entry that is merged takes no other step"),
        };
        a = m.step(e).unwrap();
    }
}

fn check(w: &mut World, name: &str, force: bool) -> Result<(), Refusal> {
    let mut c = Check::of_record(name.to_string(), w.meta.clone(), force)?;
    let mut a = c.step(CheckEvent::Begin).unwrap();
    loop {
        let e = match a {
            CheckAction::List => CheckEvent::Listed(Some(w.listing())),
            CheckAction::CheckMarker => CheckEvent::Marker(w.marker),
            CheckAction::ClearMarker => {
                w.marker = false;
                CheckEvent::Cleared
            }
            CheckAction::CheckActivity => CheckEvent::Activity(w.active.clone()),
            CheckAction::Proceed => return Ok(()),
            CheckAction::Refuse(r) => return Err(r),
        };
        a = c.step(e).unwrap();
    }
}

fn reconcile(
    w: &mut World,
    ts: &str,
    dry_run: bool,
    rebuild: bool,
    confirm: &dyn Fn(&str) -> Confirm,
) -> Result<Vec<EntryReport>, String> {
    if let Err(r) = check(w, "demo", true) {
        return Err(r.message("demo", "/mp"));
    }
    let rels: Vec<String> = w.mp.keys().cloned().collect();
    let snaps: Vec<EntrySnapshot> = rels.iter().map(|r| w.snap(r)).collect();
    w.snapshots = snaps
        .iter()
        .map(|s| (s.rel.clone(), s.bytes.clone()))
        .collect();
    w.preimages.clear();
    w.generations.push(ts.to_string());
    let mut run = Run::new(
        "demo".to_string(),
        ts.to_string(),
        dry_run,
        rebuild,
        rels.clone(),
    );
    let mut a = run.step(RunEvent::Begin).unwrap();
    loop {
        let e = match a {
            RunAction::SetMarker => {
                w.marker = true;
                RunEvent::Done
            }
            RunAction::Plan => RunEvent::Planned(
                snaps
                    .iter()
                    .map(|s| PlannedEntry {
                        rel: s.rel.clone(),
                        plan: plan_of(w, s),
                        rationale: "because".to_string(),
                    })
                    .collect(),
            ),
            RunAction::Confirm(i) => RunEvent::Answer(confirm(&rels[i])),
            RunAction::Apply(i, plan) => {
                let s = w.snap_copy(&snaps[i]);
                RunEvent::Applied(run_apply(w, s, plan))
            }
            RunAction::PruneDirs => {
                w.prune_dirs();
                RunEvent::Done
            }
            RunAction::PruneLinks => RunEvent::Links(Vec::new()),
            RunAction::Scan => RunEvent::Scanned(Some(w.fell_through())),
            RunAction::FinalizeMeta => {
                if w.meta_fails {
                    RunEvent::Failed("permission denied".to_string())
                } else {
                    RunEvent::Done
                }
            }
            RunAction::WriteManifest(body) => {
                assert!(w.marker);
                w.manifests.insert(ts.to_string(), body);
                RunEvent::Done
            }
            RunAction::ClearMarker => {
                w.marker = false;
                RunEvent::Done
            }
            RunAction::Rebuild => {
                assert!(!w.marker);
                w.backing = w.orig.clone();
                w.remounted = true;
                RunEvent::Rebuilt("done".to_string())
            }
            RunAction::Finish(entries) => return Ok(entries),
        };
        a = run.step(e).unwrap();
    }
}

fn accept_all(w: &mut World, ts: &str) -> Vec<EntryReport> {
    match reconcile(w, ts, false, false, &|_| Confirm::Accept) {
        Ok(v) => v,
        Err(m) => panic!("{m}"),
    }
}

fn undo(w: &mut World) -> Result<UndoReport, String> {
    let mut u = Undo::new("demo".to_string());
    let mut a = u.step(UndoEvent::Begin).unwrap();
    let mut marked = false;
    loop {
        let rel_at = |i: usize| u.manifest[i].0.clone();
        let e = match a {
            UndoAction::CheckMounted => {
                UndoEvent::Mounted(w.mounted || (marked && w.mount_after_marker))
            }
            UndoAction::ReadMeta => UndoEvent::Meta(w.meta.clone()),
            UndoAction::Lock => UndoEvent::Done,
            UndoAction::ListGenerations => UndoEvent::Generations(w.generations.clone()),
            UndoAction::ReadManifest(ts) => UndoEvent::Manifest(w.manifests.get(&ts).cloned()),
            UndoAction::CheckUndone => UndoEvent::Undone(w.undone.contains(&u.report.ts)),
            UndoAction::CheckActivity => UndoEvent::Activity(w.active.clone()),
            UndoAction::CompareSnapshot => UndoEvent::Changed(changed(w)),
            UndoAction::SetMarker => {
                w.marker = true;
                marked = true;
                UndoEvent::Done
            }
            UndoAction::ClearMarker => {
                w.marker = false;
                UndoEvent::Done
            }
            UndoAction::ReadPreimage(i) => UndoEvent::Bytes(w.preimages.get(&rel_at(i)).cloned()),
            UndoAction::WriteOrig(i, b) => {
                w.orig.insert(rel_at(i), b);
                UndoEvent::Done
            }
            UndoAction::Reingest(i) => {
                w.reingest(&rel_at(i));
                UndoEvent::Done
            }
            UndoAction::RemoveOrig(i) => {
                w.orig.remove(&rel_at(i));
                UndoEvent::Done
            }
            UndoAction::RemoveBacking(i) => {
                w.backing.remove(&rel_at(i));
                UndoEvent::Done
            }
            UndoAction::ReadQuarantine(i) => {
                UndoEvent::Bytes(w.quarantine.get(&rel_at(i)).cloned())
            }
            UndoAction::ReadSnapshot(i) => UndoEvent::Bytes(w.snapshots.get(&rel_at(i)).cloned()),
            UndoAction::RemoveQuarantine(i) => {
                w.quarantine.remove(&rel_at(i));
                UndoEvent::Done
            }
            UndoAction::RestoreUnderlay => UndoEvent::Skipped(restore_underlay(w)),
            UndoAction::WriteUndone => {
                w.undone.push(u.report.ts.clone());
                UndoEvent::Done
            }
            UndoAction::PruneDirs => {
                w.prune_dirs();
                UndoEvent::Done
            }
            UndoAction::Finish(r) => return Ok(r),
            UndoAction::Refuse(r) => return Err(r.message("demo", "/stash/orig/x", "/q/x")),
        };
        a = u.step(e).unwrap();
    }
}

fn changed(w: &World) -> Vec<String> {
    w.snapshots
        .iter()
        .filter(|(rel, b)| live_differs(w.mp.get(*rel).map(|l| &l.bytes), b))
        .map(|(rel, _)| rel.clone())
        .collect()
}

fn restore_underlay(w: &mut World) -> Vec<String> {
    let mut skipped = Vec::new();
    for (rel, b) in w.snapshots.clone() {
        match put_back(w.mp.get(&rel).map(|l| &l.bytes), &b) {
            PutBack::Write => w.write_underlay(&rel, &b),
            PutBack::Leave => {}
            PutBack::Skip => skipped.push(rel),
        }
    }
    skipped
}

#[test]
fn apply_union_log_only_merges_orig_reingests_and_removes_underlay() {
    let mut w = World::committed();
    w.write_orig("s.jsonl", BASE_LOG.as_bytes());
    let s = w.snapped("s.jsonl", INCOMING_LOG.as_bytes());
    assert_eq!(plan_of(&w, &s), EntryPlan::Union);
    let report = run_apply(&mut w, s, EntryPlan::Union);
    let merged = String::from_utf8(w.orig["s.jsonl"].clone()).unwrap();
    for needle in ["u1", "old", "new", "\"mode\""] {
        assert!(merged.contains(needle), "{needle}: {merged}");
    }
    assert!(!w.mp.contains_key("s.jsonl"));
    assert_eq!(w.backing["s.jsonl"], merged.as_bytes());
    assert!(report.action.contains("underlay-removed"));
}

#[test]
fn apply_union_stashes_orig_preimage_before_mutating_and_is_rollbackable() {
    let mut w = World::committed();
    w.write_orig("s.jsonl", BASE_LOG.as_bytes());
    let s = w.snapped("s.jsonl", INCOMING_LOG.as_bytes());
    let report = run_apply(&mut w, s, EntryPlan::Union);
    assert_ne!(w.orig["s.jsonl"], BASE_LOG.as_bytes());
    let stashed = report
        .notes
        .iter()
        .find_map(|n| n.strip_prefix("stash-preimage="))
        .expect("stash-preimage");
    assert_eq!(stashed, "/stash/orig/s.jsonl");
    assert_eq!(w.preimages["s.jsonl"], BASE_LOG.as_bytes());
    assert_eq!(report.reversal, ReversalClass::RestoreOrig);
}

#[test]
fn apply_union_keeps_underlay_when_live_changed_after_snapshot() {
    let mut w = World::committed();
    w.write_orig("s.jsonl", BASE_LOG.as_bytes());
    let s = w.snapped("s.jsonl", INCOMING_LOG.as_bytes());
    let mut longer = INCOMING_LOG.as_bytes().to_vec();
    longer.extend_from_slice(b"{\"type\":\"extra\"}\n");
    w.write_underlay("s.jsonl", &longer);
    let report = run_apply(&mut w, s, EntryPlan::Union);
    assert!(w.mp.contains_key("s.jsonl"));
    assert!(report.action.contains("underlay-kept"));
    assert!(report
        .notes
        .iter()
        .any(|n| n.contains("delete_permitted 未通过")));
}

#[test]
fn apply_new_entry_writes_orig_backing_and_removes_underlay() {
    let mut w = World::committed();
    let incoming = b"{\"type\":\"summary\",\"summary\":\"s\"}\n";
    let s = w.snapped("fresh.jsonl", incoming);
    assert_eq!(plan_of(&w, &s), EntryPlan::New);
    let report = run_apply(&mut w, s, EntryPlan::New);
    assert_eq!(w.orig["fresh.jsonl"], incoming);
    assert!(!w.mp.contains_key("fresh.jsonl"));
    assert_eq!(w.backing["fresh.jsonl"], incoming);
    assert!(report.action.contains("underlay-removed"));
    assert_eq!(report.reversal, ReversalClass::RemoveOrig);
}

#[test]
fn apply_identical_removes_underlay_without_touching_orig_or_backing() {
    let mut w = World::committed();
    let content = b"{\"type\":\"x\",\"uuid\":\"z\"}\n";
    w.write_orig("same.jsonl", content);
    w.reingest("same.jsonl");
    let s = w.snapped("same.jsonl", content);
    assert_eq!(plan_of(&w, &s), EntryPlan::Identical);
    let report = run_apply(&mut w, s, EntryPlan::Identical);
    assert!(!w.mp.contains_key("same.jsonl"));
    assert_eq!(w.orig["same.jsonl"], content);
    assert_eq!(w.backing["same.jsonl"], content);
    assert!(report.action.contains("underlay-removed"));
    assert_eq!(report.reversal, ReversalClass::Noop);
}

#[test]
fn apply_identical_missing_backing_downgrades_to_reingest() {
    let mut w = World::committed();
    let content = b"{\"type\":\"x\",\"uuid\":\"z\"}\n";
    w.write_orig("same.jsonl", content);
    let s = w.snapped("same.jsonl", content);
    let report = run_apply(&mut w, s, EntryPlan::Identical);
    assert_eq!(w.backing["same.jsonl"], content);
    assert!(!w.mp.contains_key("same.jsonl"));
    assert!(report.action.contains("underlay-removed"));
    assert!(report
        .notes
        .iter()
        .any(|n| n.contains("backing") && n.contains("reingest")));
    assert_eq!(w.orig["same.jsonl"], content);
}

#[test]
fn apply_entry_routes_subagents_to_union_not_quarantine() {
    let mut w = World::committed();
    let rel = "s/subagents/a.jsonl";
    let base = KEEP_BASE.replace("a1", "x1");
    let incoming = KEEP_INCOMING.replace("b1", "y1");
    w.write_orig(rel, base.as_bytes());
    let s = w.snapped(rel, incoming.as_bytes());
    let report = run_apply(&mut w, s, EntryPlan::KeepSeparate);
    assert!(report.decision.contains("subagents"));
    let merged = String::from_utf8(w.orig[rel].clone()).unwrap();
    assert!(merged.contains("x1") && merged.contains("y1"));
    assert!(!report.notes.iter().any(|n| n.starts_with("quarantine=")));
}

#[test]
fn subagents_new_entry_falls_to_new_when_orig_missing() {
    let mut w = World::committed();
    let rel = "u/subagents/fresh.jsonl";
    let incoming = b"{\"type\":\"summary\",\"summary\":\"s\"}\n";
    let s = w.snapped(rel, incoming);
    let report = run_apply(&mut w, s, EntryPlan::New);
    assert_eq!(w.orig[rel], incoming);
    assert!(!w.mp.contains_key(rel));
    assert!(report.action.contains("underlay-removed"));
}

#[test]
fn keep_separate_quarantines_reuse_preserving_uuid_and_leaves_base() {
    let mut w = World::committed();
    let rel = "3f2a-b1c2-uuid.jsonl";
    w.write_orig(rel, KEEP_BASE.as_bytes());
    w.reingest(rel);
    let s = w.snapped(rel, KEEP_INCOMING.as_bytes());
    assert_eq!(plan_of(&w, &s), EntryPlan::KeepSeparate);
    let report = run_apply(&mut w, s, EntryPlan::KeepSeparate);
    let q = report
        .notes
        .iter()
        .find_map(|n| n.strip_prefix("quarantine="))
        .expect("quarantine");
    assert_eq!(q, format!("/q/{rel}"));
    assert_eq!(w.quarantine[rel], KEEP_INCOMING.as_bytes());
    assert_eq!(w.orig[rel], KEEP_BASE.as_bytes());
    assert_eq!(w.backing[rel], KEEP_BASE.as_bytes());
    assert!(!w.mp.contains_key(rel));
    assert!(report.action.contains("underlay-removed"));
}

#[test]
fn apply_keep_both_still_deferred_keeps_underlay() {
    let mut w = World::default();
    let s = w.snapped("kb.jsonl", b"{\"a\":1}\n");
    let report = run_apply(&mut w, s, EntryPlan::KeepBoth);
    assert_eq!(report.action, "deferred");
    assert!(w.mp.contains_key("kb.jsonl"));
}

fn with_memory() -> World {
    let mut w = World::committed();
    w.memory_link = Some("/external-memory".to_string());
    w.memory = Some(Files::new());
    w
}

#[test]
fn apply_entry_routes_memory_passthrough_via_backing_symlink() {
    let mut w = with_memory();
    let s = w.snapped("memory/NOTES.md", b"note-body\n");
    let report = run_apply(&mut w, s, EntryPlan::KeepSeparate);
    assert_eq!(report.decision, "passthrough");
    assert_eq!(w.memory.as_ref().unwrap()["NOTES.md"], b"note-body\n");
    assert!(!w.dirs.iter().any(|d| d == "memory"));
}

#[test]
fn apply_entry_second_memory_entry_is_idempotent_noop() {
    let mut w = with_memory();
    let e1 = w.snapped("memory/A.md", b"aaa\n");
    let e2 = w.snapped("memory/B.md", b"bbb\n");
    let r1 = run_apply(&mut w, e1, EntryPlan::KeepSeparate);
    assert_eq!(r1.action, "memory-restored");
    assert_eq!(w.memory.as_ref().unwrap()["A.md"], b"aaa\n");
    assert_eq!(w.memory.as_ref().unwrap()["B.md"], b"bbb\n");
    let r2 = run_apply(&mut w, e2, EntryPlan::KeepSeparate);
    assert_eq!(r2.action, "memory-noop");
    assert!(r2.notes.iter().any(|n| n.contains("不存在")), "{:?}", r2.notes);
    assert!(!w.dirs.iter().any(|d| d == "memory"));
}

#[test]
fn apply_entry_memory_deferred_action_when_target_dangling() {
    let mut w = with_memory();
    w.memory = None;
    let e = w.snapped("memory/N.md", b"n\n");
    let report = run_apply(&mut w, e, EntryPlan::KeepSeparate);
    assert_eq!(report.decision, "passthrough");
    assert_eq!(report.action, "memory-deferred");
    assert!(w.mp.contains_key("memory/N.md"));
}

#[test]
fn passthrough_restores_new_memory_file_into_target_and_removes_underlay() {
    let mut w = with_memory();
    w.write_underlay("memory/NEW.md", b"fresh\n");
    let notes = run_restore(&mut w);
    assert_eq!(w.memory.as_ref().unwrap()["NEW.md"], b"fresh\n");
    assert_eq!(w.quarantine["memory/NEW.md"], b"fresh\n");
    assert!(!w.mp.contains_key("memory/NEW.md"));
    assert!(notes.iter().any(|n| n.contains("从 underlay 移除")));
}

#[test]
fn passthrough_conflict_keeps_underlay_variant_beside_canonical_idempotent() {
    let mut w = with_memory();
    w.memory
        .as_mut()
        .unwrap()
        .insert("MEMORY.md".to_string(), b"CANONICAL\n".to_vec());
    w.write_underlay("memory/MEMORY.md", b"UNDERLAY-VERSION\n");
    run_restore(&mut w);
    let hash = format!("{:08x}", crc32(b"UNDERLAY-VERSION\n"));
    let variant = format!("MEMORY.md.underlay-{hash}");
    assert_eq!(w.memory.as_ref().unwrap()["MEMORY.md"], b"CANONICAL\n");
    assert_eq!(w.memory.as_ref().unwrap()[&variant], b"UNDERLAY-VERSION\n");
    w.write_underlay("memory/MEMORY.md", b"UNDERLAY-VERSION\n");
    run_restore(&mut w);
    let variants = w
        .memory
        .as_ref()
        .unwrap()
        .keys()
        .filter(|k| k.starts_with("MEMORY.md.underlay-"))
        .count();
    assert_eq!(variants, 1);
}

#[test]
fn passthrough_rejects_traversal_target_keeps_underlay() {
    let mut w = with_memory();
    w.memory_link = Some("/t/real/../real".to_string());
    w.write_underlay("memory/x.md", b"data\n");
    let notes = run_restore(&mut w);
    assert!(w.mp.contains_key("memory/x.md"));
    assert!(w.quarantine.is_empty());
    assert!(notes.iter().any(|n| n.contains("穿越")), "{notes:?}");
}

#[test]
fn passthrough_dangling_target_keeps_underlay_for_manual() {
    let mut w = with_memory();
    w.memory = None;
    w.write_underlay("memory/x.md", b"data\n");
    let notes = run_restore(&mut w);
    assert!(w.mp.contains_key("memory/x.md"));
    assert!(notes.iter().any(|n| n.contains("悬空")), "{notes:?}");
}

#[test]
fn passthrough_unwritable_target_keeps_underlay_for_manual() {
    let mut r = Restore::new(
        "/mp/memory".to_string(),
        b"/ro-mem".to_vec(),
        "/ro-mem".to_string(),
        "/q/memory".to_string(),
    );
    assert!(matches!(
        r.step(RestoreEvent::Begin),
        Some(RestoreAction::Resolve)
    ));
    assert!(matches!(
        r.step(RestoreEvent::Resolved("/ro-mem".to_string())),
        Some(RestoreAction::CheckDirectory)
    ));
    assert!(matches!(
        r.step(RestoreEvent::IsDirectory(true)),
        Some(RestoreAction::Probe)
    ));
    match r.step(RestoreEvent::NotWritable("denied".to_string())) {
        Some(RestoreAction::Finish(notes)) => {
            assert!(notes.iter().any(|n| n.contains("不可写")), "{notes:?}")
        }
        _ => panic!("went on without leave to write"),
    }
}

#[test]
fn passthrough_conflict_crc_collision_disambiguates_without_overwrite() {
    let mut w = with_memory();
    let hash = format!("{:08x}", crc32(b"UNDER-A\n"));
    let squatter = format!("M.md.underlay-{hash}");
    {
        let t = w.memory.as_mut().unwrap();
        t.insert("M.md".to_string(), b"CANON\n".to_vec());
        t.insert(squatter.clone(), b"COLLISION-OTHER\n".to_vec());
    }
    w.write_underlay("memory/M.md", b"UNDER-A\n");
    run_restore(&mut w);
    let t = w.memory.as_ref().unwrap();
    assert_eq!(t[&squatter], b"COLLISION-OTHER\n");
    assert_eq!(t[&format!("M.md.underlay-{hash}-1")], b"UNDER-A\n");
    assert_eq!(t["M.md"], b"CANON\n");
}

#[test]
fn targets_and_suffixes() {
    assert!(target_climbs(b"a/../b"));
    assert!(!target_climbs(b"a/..b"));
    assert_eq!(resolve_target(b"/back", b"x"), b"/back/x");
    assert_eq!(resolve_target(b"/back", b"/abs"), b"/abs");
    assert_eq!(variant_suffix(b"123456789", None), "");
    assert_eq!(
        variant_suffix(b"123456789", Some(0)),
        ".underlay-cbf43926"
    );
    assert_eq!(
        variant_suffix(b"123456789", Some(2)),
        ".underlay-cbf43926-2"
    );
}

/// Replaces a file of a directory in memory; the step that `fails` fails.
fn replace(dir: &mut Files, name: &str, bytes: &[u8], fails: Option<ReplaceAction>) -> bool {
    let tmp = format!("{name}.tmp");
    let mut r = Replace::new(true);
    loop {
        let ok = fails != Some(r.doing);
        match r.doing {
            ReplaceAction::Write if ok => {
                dir.insert(tmp.clone(), bytes.to_vec());
            }
            ReplaceAction::Rename if ok => {
                let b = dir.remove(&tmp).unwrap();
                dir.insert(name.to_string(), b);
            }
            ReplaceAction::Finish => return true,
            ReplaceAction::Fail => return false,
            _ => {}
        }
        r.step(ok);
    }
}

#[test]
fn atomic_write_then_readback() {
    let mut dir = Files::new();
    assert!(replace(&mut dir, "a.jsonl", b"line1\nline2\n", None));
    assert!(readback_eq(&dir["a.jsonl"], b"line1\nline2\n"));
    assert!(!dir.contains_key("a.jsonl.tmp"));
}

#[test]
fn failed_replacement_leaves_the_file_as_it_was() {
    for fails in [
        ReplaceAction::Write,
        ReplaceAction::Sync,
        ReplaceAction::Rename,
    ] {
        let mut dir = Files::new();
        dir.insert("f".to_string(), b"old".to_vec());
        assert!(!replace(&mut dir, "f", b"new", Some(fails)));
        assert_eq!(dir["f"], b"old");
    }
    let mut dir = Files::new();
    dir.insert("f".to_string(), b"old".to_vec());
    assert!(!replace(&mut dir, "f", b"new", Some(ReplaceAction::SyncDir)));
    assert_eq!(dir["f"], b"new");
}

#[test]
fn reconcile_dry_run_reports_without_mutating() {
    let mut w = World::committed();
    w.write_orig("s.jsonl", BASE_LOG.as_bytes());
    w.reingest("s.jsonl");
    w.write_underlay("s.jsonl", INCOMING_LOG.as_bytes());
    let report = reconcile(&mut w, "1", true, false, &|_| Confirm::Accept).unwrap();
    assert!(!report.is_empty());
    assert!(report.iter().all(|e| e.action == "dry-run"));
    assert_eq!(w.orig["s.jsonl"], BASE_LOG.as_bytes());
    assert_eq!(w.mp["s.jsonl"].bytes, INCOMING_LOG.as_bytes());
    assert_eq!(w.backing["s.jsonl"], BASE_LOG.as_bytes());
    assert!(!w.marker);
}

#[test]
fn reconcile_full_flow_accept_drains_underlay_and_updates_meta() {
    let mut w = World::committed();
    w.write_orig("s.jsonl", BASE_LOG.as_bytes());
    w.reingest("s.jsonl");
    w.write_underlay("s.jsonl", INCOMING_LOG.as_bytes());
    let report = accept_all(&mut w, "1");
    assert!(!w.fell_through());
    assert!(ensure_underlay_empty("/mp", Some(&w.listing())).is_ok());
    let merged = String::from_utf8(w.orig["s.jsonl"].clone()).unwrap();
    for needle in ["u1", "old", "new", "\"mode\""] {
        assert!(merged.contains(needle), "{needle}: {merged}");
    }
    assert_eq!(w.backing["s.jsonl"], merged.as_bytes());
    assert!(!w.marker);
    assert!(report.iter().any(|e| e.action.contains("underlay-removed")));
}

#[test]
fn reconcile_skip_keeps_that_underlay_entry_and_clears_marker() {
    let mut w = World::committed();
    w.write_underlay("a.jsonl", b"{\"type\":\"summary\",\"summary\":\"a\"}\n");
    w.write_underlay("b.jsonl", b"{\"type\":\"summary\",\"summary\":\"b\"}\n");
    let report = reconcile(&mut w, "1", false, false, &|rel| {
        if rel == "a.jsonl" {
            Confirm::Skip
        } else {
            Confirm::Accept
        }
    })
    .unwrap();
    assert!(w.mp.contains_key("a.jsonl"));
    assert!(!w.orig.contains_key("a.jsonl"));
    assert!(!w.mp.contains_key("b.jsonl"));
    assert!(w.orig.contains_key("b.jsonl"));
    assert!(!w.marker);
    assert!(report.iter().any(|e| e.decision == "skip"));
}

#[test]
fn reconcile_crash_resume_is_idempotent() {
    let mut w = World::committed();
    w.write_orig("s.jsonl", BASE_LOG.as_bytes());
    w.reingest("s.jsonl");
    w.write_underlay("s.jsonl", INCOMING_LOG.as_bytes());
    accept_all(&mut w, "1");
    let merged1 = w.orig["s.jsonl"].clone();
    assert!(!w.mp.contains_key("s.jsonl"));
    w.write_underlay("s.jsonl", INCOMING_LOG.as_bytes());
    accept_all(&mut w, "2");
    assert_eq!(w.orig["s.jsonl"], merged1);
    assert!(!w.mp.contains_key("s.jsonl"));
}

#[test]
fn reconcile_rebuild_delegates_to_reingest_and_remounts() {
    let mut w = World::committed();
    w.write_orig("s.jsonl", BASE_LOG.as_bytes());
    w.reingest("s.jsonl");
    w.write_underlay("s.jsonl", INCOMING_LOG.as_bytes());
    let report = reconcile(&mut w, "1", false, true, &|_| Confirm::Accept).unwrap();
    assert!(!w.mp.contains_key("s.jsonl"));
    assert!(w.remounted);
    assert!(report.iter().any(|e| e.decision == "rebuild"));
    assert!(!w.marker);
    assert_eq!(w.backing["s.jsonl"], w.orig["s.jsonl"]);
}

#[test]
fn reconcile_single_run_ts_all_stash_in_one_generation() {
    let mut w = World::committed();
    for rel in ["a.jsonl", "b.jsonl"] {
        w.write_orig(rel, BASE_LOG.as_bytes());
        w.reingest(rel);
        w.write_underlay(rel, INCOMING_LOG.as_bytes());
    }
    accept_all(&mut w, "7");
    assert_eq!(w.generations, vec!["7".to_string()]);
    assert!(w.manifests["7"].starts_with("7\n"));
    for rel in ["a.jsonl", "b.jsonl"] {
        assert_eq!(w.snapshots[rel], INCOMING_LOG.as_bytes());
        assert_eq!(w.preimages[rel], BASE_LOG.as_bytes());
    }
}

#[test]
fn reconcile_rejects_container_backend() {
    let mut w = World::committed();
    w.meta = Some((false, "container".to_string()));
    w.write_underlay("s.jsonl", b"{}\n");
    let e = reconcile(&mut w, "1", false, false, &|_| Confirm::Accept).unwrap_err();
    assert!(e.contains("shadow"), "{e}");
}

#[test]
fn reconcile_meta_finalize_failure_still_clears_marker_no_wedge() {
    let mut w = World::committed();
    w.write_orig("s.jsonl", BASE_LOG.as_bytes());
    w.reingest("s.jsonl");
    w.write_underlay("s.jsonl", INCOMING_LOG.as_bytes());
    w.meta_fails = true;
    let report = accept_all(&mut w, "1");
    assert!(!w.mp.contains_key("s.jsonl"));
    assert!(!w.marker);
    assert!(report.iter().any(|e| e.action == "warn"));
}

#[test]
fn reconcile_prunes_drained_subdirs_and_removes_memory_symlink_so_remount_unblocked() {
    let mut w = with_memory();
    let sub_rel = "sess-uuid/subagents/agent.jsonl";
    let sub_body = b"{\"type\":\"assistant\",\"uuid\":\"sa1\",\"parentUuid\":null}\n";
    w.write_underlay(sub_rel, sub_body);
    let mem_body = b"# NOTES\nrelocated-body\n";
    w.write_underlay("memory/NOTE.md", mem_body);
    assert!(w.fell_through());
    let report = accept_all(&mut w, "1");
    assert!(!w.fell_through());
    assert!(ensure_underlay_empty("/mp", Some(&w.listing())).is_ok());
    assert!(w.dirs.is_empty());
    assert_eq!(w.orig[sub_rel], sub_body);
    assert_eq!(w.backing[sub_rel], sub_body);
    assert_eq!(w.memory.as_ref().unwrap()["NOTE.md"], mem_body);
    assert!(report
        .iter()
        .any(|e| e.action.contains("underlay-removed") && e.decision.contains("subagents")));
    assert!(report.iter().any(|e| e.action == "memory-restored"));
    assert!(!w.marker);
}

fn three_kinds(w: &mut World) {
    w.write_orig("s.jsonl", BASE_LOG.as_bytes());
    w.reingest("s.jsonl");
    w.write_underlay("s.jsonl", INCOMING_LOG.as_bytes());
    w.write_underlay("new.jsonl", INCOMING_LOG.as_bytes());
    let keep = "3f2a-b1c2-uuid.jsonl";
    w.write_orig(keep, KEEP_BASE.as_bytes());
    w.reingest(keep);
    w.write_underlay(keep, KEEP_INCOMING.as_bytes());
}

#[test]
fn reconcile_writes_manifest_with_per_entry_reversal_class() {
    let mut w = World::committed();
    three_kinds(&mut w);
    w.meta_fails = true;
    accept_all(&mut w, "5");
    let entries = match parse_manifest(&w.manifests["5"]) {
        Ok(v) => v,
        Err(e) => panic!("{e:?}"),
    };
    let map: BTreeMap<String, ReversalClass> = entries.into_iter().collect();
    assert_eq!(map.get("s.jsonl"), Some(&ReversalClass::RestoreOrig));
    assert_eq!(map.get("new.jsonl"), Some(&ReversalClass::RemoveOrig));
    assert_eq!(
        map.get("3f2a-b1c2-uuid.jsonl"),
        Some(&ReversalClass::RemoveQuarantine)
    );
    assert!(map.keys().all(|k| !k.starts_with('<')));
}

#[test]
fn reconcile_dry_run_writes_no_manifest() {
    let mut w = World::committed();
    w.write_orig("s.jsonl", BASE_LOG.as_bytes());
    w.write_underlay("s.jsonl", INCOMING_LOG.as_bytes());
    reconcile(&mut w, "1", true, false, &|_| Confirm::Accept).unwrap();
    assert!(w.manifests.is_empty());
}

#[test]
fn container_backend_rejected() {
    let mut w = World::committed();
    w.meta = Some((false, "container".to_string()));
    w.write_underlay("s.jsonl", b"{}");
    let e = check(&mut w, "demo", false).unwrap_err();
    assert!(e.message("demo", "/mp").contains("shadow"));
}

#[test]
fn empty_underlay_rejected() {
    let mut w = World::committed();
    let e = check(&mut w, "demo", false).unwrap_err();
    let m = e.message("demo", "/mp");
    assert!(m.contains("underlay") || m.contains("无回落"), "{m}");
}

#[test]
fn active_session_rejected_without_force() {
    let mut w = World::committed();
    w.write_underlay("s.jsonl", b"{}");
    w.active = Some("recent write".to_string());
    let e = check(&mut w, "demo", false).unwrap_err();
    assert!(e.message("demo", "/mp").contains("活跃"));
    assert!(check(&mut w, "demo", true).is_ok());
    w.active = None;
    assert!(check(&mut w, "demo", false).is_ok());
}

#[test]
fn traversal_name_rejected() {
    let mut w = World::committed();
    assert!(matches!(
        check(&mut w, "../escape", false),
        Err(Refusal::InvalidName)
    ));
}

#[test]
fn check_preconditions_clears_stale_marker_when_underlay_empty() {
    let mut w = World::committed();
    w.marker = true;
    assert!(check(&mut w, "demo", false).is_err());
    assert!(!w.marker);
}

#[test]
fn prune_redundant_symlink_removes_matching_underlay_link() {
    let v = link_verdict(
        "memory",
        true,
        b"/canonical",
        "\"/canonical\"",
        Some((b"/canonical", "\"/canonical\"")),
    );
    assert!(matches!(v, LinkVerdict::Remove));
}

#[test]
fn prune_redundant_symlink_keeps_mismatched_target() {
    match link_verdict("memory", true, b"/a", "\"/a\"", Some((b"/b", "\"/b\""))) {
        LinkVerdict::Keep(note) => assert!(note.contains("memory") && note.contains("/b")),
        _ => panic!("a link that leads elsewhere must stay"),
    }
    assert!(matches!(
        link_verdict("memory", true, b"/a", "\"/a\"", None),
        LinkVerdict::Keep(_)
    ));
}

#[test]
fn prune_redundant_symlink_ignores_real_dir_memory() {
    let v = link_verdict("memory", false, b"", "", Some((b"/canon", "\"/canon\"")));
    assert!(matches!(v, LinkVerdict::Ignore));
}

#[test]
fn directories_are_cleared_away_from_below() {
    let mut outer = PruneFrame::new();
    assert_eq!(outer.entry(b".DS_Store", FileKind::RegularFile), PruneStep::Ignore);
    assert_eq!(outer.entry(b"sub", FileKind::Directory), PruneStep::Descend);
    assert!(outer.child(true));
    outer.removal(Removal::Removed);
    assert!(outer.drained() && outer.removed_any);
    assert_eq!(outer.entry(b"f", FileKind::RegularFile), PruneStep::Keep);
    assert!(!outer.drained());
    let mut failed = PruneFrame::new();
    assert!(failed.child(true));
    failed.removal(Removal::Failed);
    assert!(!failed.drained());
    let mut kept = PruneFrame::new();
    assert!(!kept.child(false));
    assert!(!kept.drained());
}

#[test]
fn walks_moves_and_copies() {
    assert_eq!(walk_step(b".DS_Store", FileKind::RegularFile), WalkStep::Skip);
    assert_eq!(walk_step(b"d", FileKind::Directory), WalkStep::Descend);
    assert_eq!(walk_step(b"f", FileKind::RegularFile), WalkStep::Capture);
    assert_eq!(walk_step(b"l", FileKind::Symlink), WalkStep::Skip);
    assert!(reads_whole(10, 10));
    assert!(!reads_whole(11, 10));
    assert_eq!(relocate_step(true, None), RelocateStep::Done);
    assert_eq!(
        relocate_step(false, Some(18)),
        RelocateStep::CopyThenRemove
    );
    assert_eq!(relocate_step(false, Some(13)), RelocateStep::Fail);
    assert_eq!(copy_step(FileKind::Directory), CopyStep::Descend);
    assert_eq!(copy_step(FileKind::Symlink), CopyStep::CopyLink);
    assert_eq!(copy_step(FileKind::NamedPipe), CopyStep::Refuse);
    assert_eq!(
        dir_file_bytes(&vec![
            (FileKind::RegularFile, 3),
            (FileKind::Directory, 100),
            (FileKind::Symlink, 50),
            (FileKind::RegularFile, 4)
        ]),
        107
    );
    assert_eq!(
        dir_file_bytes(&vec![
            (FileKind::RegularFile, u64::MAX),
            (FileKind::RegularFile, 1)
        ]),
        u64::MAX
    );
}

#[test]
fn abort_if_mounted_clears_marker_and_errs_when_mounted() {
    let mut w = World::committed();
    three_kinds(&mut w);
    accept_all(&mut w, "5");
    let orig = w.orig.clone();
    w.mount_after_marker = true;
    let e = undo(&mut w).unwrap_err();
    assert!(e.contains("被挂载"), "{e}");
    assert!(!w.marker);
    assert_eq!(w.orig, orig);
}

#[test]
fn abort_if_mounted_is_noop_when_not_mounted() {
    let mut w = World::committed();
    three_kinds(&mut w);
    accept_all(&mut w, "5");
    assert!(undo(&mut w).is_ok());
    w.mounted = true;
    assert!(undo(&mut w).is_err());
}

#[test]
fn reconcile_undo_full_flow_restores_orig_removes_new_and_quarantine() {
    let mut w = World::committed();
    three_kinds(&mut w);
    accept_all(&mut w, "5");
    let keep = "3f2a-b1c2-uuid.jsonl";
    assert!(!w.mp.contains_key("s.jsonl"));
    assert!(w.orig.contains_key("new.jsonl"));
    assert!(w.quarantine.contains_key(keep));
    assert_ne!(w.orig["s.jsonl"], BASE_LOG.as_bytes());
    let report = undo(&mut w).unwrap();
    assert_eq!(report.ts, "5");
    assert_eq!(w.orig["s.jsonl"], BASE_LOG.as_bytes());
    assert_eq!(w.backing["s.jsonl"], BASE_LOG.as_bytes());
    assert!(!w.orig.contains_key("new.jsonl"));
    assert!(!w.backing.contains_key("new.jsonl"));
    assert!(!w.quarantine.contains_key(keep));
    assert_eq!(w.orig[keep], KEEP_BASE.as_bytes());
    assert_eq!(w.mp["s.jsonl"].bytes, INCOMING_LOG.as_bytes());
    assert_eq!(w.mp["new.jsonl"].bytes, INCOMING_LOG.as_bytes());
    assert_eq!(w.mp[keep].bytes, KEEP_INCOMING.as_bytes());
    let rev: BTreeMap<String, String> = report.reversed.into_iter().collect();
    assert_eq!(rev.get("s.jsonl").map(String::as_str), Some("RestoreOrig"));
    assert_eq!(rev.get("new.jsonl").map(String::as_str), Some("RemoveOrig"));
    assert_eq!(rev.get(keep).map(String::as_str), Some("RemoveQuarantine"));
    assert_eq!(w.undone, vec!["5".to_string()]);
    assert!(!w.marker);
    assert!(w.fell_through());
}

#[test]
fn reconcile_undo_stale_gate_rejects_and_zero_change() {
    let mut w = World::committed();
    w.write_orig("s.jsonl", BASE_LOG.as_bytes());
    w.write_underlay("s.jsonl", INCOMING_LOG.as_bytes());
    accept_all(&mut w, "5");
    let merged = w.orig["s.jsonl"].clone();
    w.write_underlay("s.jsonl", b"{\"type\":\"NEW-AFTER-RECONCILE\"}\n");
    let e = undo(&mut w).unwrap_err();
    assert!(e.contains("已有新写") && e.contains("s.jsonl"), "{e}");
    assert_eq!(w.orig["s.jsonl"], merged);
    assert_eq!(
        w.mp["s.jsonl"].bytes,
        b"{\"type\":\"NEW-AFTER-RECONCILE\"}\n"
    );
    assert!(w.undone.is_empty());
    assert!(!w.marker);
}

#[test]
fn stale_gate_helper_reports_only_changed_rels() {
    let mut w = World::default();
    for rel in ["same.jsonl", "diff.jsonl", "gone.jsonl"] {
        w.snapshots.insert(rel.to_string(), b"SNAP\n".to_vec());
    }
    w.write_underlay("same.jsonl", b"SNAP\n");
    w.write_underlay("diff.jsonl", b"CHANGED\n");
    assert_eq!(changed(&w), vec!["diff.jsonl".to_string()]);
}

#[test]
fn restore_underlay_guard_keeps_changed_live() {
    let mut w = World::default();
    w.snapshots
        .insert("a.jsonl".to_string(), b"SNAP-A\n".to_vec());
    w.snapshots
        .insert("b.jsonl".to_string(), b"SNAP-B\n".to_vec());
    w.write_underlay("b.jsonl", b"LIVE-B-CHANGED\n");
    let skipped = restore_underlay(&mut w);
    assert_eq!(w.mp["a.jsonl"].bytes, b"SNAP-A\n");
    assert_eq!(w.mp["b.jsonl"].bytes, b"LIVE-B-CHANGED\n");
    assert_eq!(skipped, vec!["b.jsonl".to_string()]);
}

#[test]
fn reconcile_undo_marker_stays_on_restore_orig_preimage_missing() {
    let mut w = World::committed();
    w.write_orig("s.jsonl", BASE_LOG.as_bytes());
    w.write_underlay("s.jsonl", INCOMING_LOG.as_bytes());
    accept_all(&mut w, "5");
    let preimage = w.preimages.remove("s.jsonl").unwrap();
    let e = undo(&mut w).unwrap_err();
    assert!(e.contains("前镜像") && e.contains("缺失"), "{e}");
    assert!(w.marker);
    assert!(w.undone.is_empty());
    w.preimages.insert("s.jsonl".to_string(), preimage);
    let report = undo(&mut w).unwrap();
    assert_eq!(report.ts, "5");
    assert_eq!(w.orig["s.jsonl"], BASE_LOG.as_bytes());
    assert_eq!(w.undone, vec!["5".to_string()]);
    assert!(!w.marker);
}

#[test]
fn reconcile_undo_rejects_crashed_run_without_manifest_and_keeps_marker() {
    let mut w = World::committed();
    w.generations.push("1000".to_string());
    w.marker = true;
    let e = undo(&mut w).unwrap_err();
    assert!(e.contains("manifest") && e.contains("未完成"), "{e}");
    assert!(w.marker);
}

#[test]
fn reconcile_undo_rejects_when_no_generation() {
    let mut w = World::committed();
    let e = undo(&mut w).unwrap_err();
    assert!(e.contains("无可回退") || e.contains("无任何代次"), "{e}");
}

#[test]
fn reconcile_undo_second_time_is_noop() {
    let mut w = World::committed();
    w.write_orig("s.jsonl", BASE_LOG.as_bytes());
    w.write_underlay("s.jsonl", INCOMING_LOG.as_bytes());
    accept_all(&mut w, "5");
    let r1 = undo(&mut w).unwrap();
    assert_eq!(r1.ts, "5");
    assert!(!r1.reversed.is_empty());
    let r2 = undo(&mut w).unwrap();
    assert_eq!(r2.ts, "5");
    assert!(r2.reversed.is_empty());
}

#[test]
fn reconcile_undo_reports_memory_manual_without_touching_target() {
    let mut w = with_memory();
    let mem_body = b"# NOTES\nrelocated\n";
    w.write_underlay("memory/NOTE.md", mem_body);
    accept_all(&mut w, "5");
    assert_eq!(w.memory.as_ref().unwrap()["NOTE.md"], mem_body);
    let report = undo(&mut w).unwrap();
    assert_eq!(report.ts, "5");
    assert!(report.memory_manual.iter().any(|m| m == "memory/NOTE.md"));
    assert_eq!(w.memory.as_ref().unwrap()["NOTE.md"], mem_body);
    assert_eq!(w.mp["memory/NOTE.md"].bytes, mem_body);
}

#[test]
fn reconcile_undo_rejects_non_shadow_backend() {
    let mut w = World::committed();
    w.meta = Some((false, "container".to_string()));
    let e = undo(&mut w).unwrap_err();
    assert!(e.contains("shadow"), "{e}");
}

#[test]
fn reconcile_undo_rejects_without_meta() {
    let mut w = World::default();
    let e = undo(&mut w).unwrap_err();
    assert!(e.contains("meta"), "{e}");
}

#[test]
fn reconcile_undo_short_circuit_clears_lingering_marker() {
    let mut w = World::committed();
    w.write_orig("s.jsonl", BASE_LOG.as_bytes());
    w.write_underlay("s.jsonl", INCOMING_LOG.as_bytes());
    accept_all(&mut w, "5");
    undo(&mut w).unwrap();
    assert_eq!(w.undone, vec!["5".to_string()]);
    assert!(!w.marker);
    w.marker = true;
    let report = undo(&mut w).unwrap();
    assert_eq!(report.ts, "5");
    assert!(report.reversed.is_empty());
    assert!(!w.marker);
}

#[test]
fn broken_manifest_and_changed_quarantine_stop_the_undo() {
    let mut w = World::committed();
    three_kinds(&mut w);
    accept_all(&mut w, "5");
    let good = w.manifests["5"].clone();
    w.manifests.insert("5".to_string(), "5\nx\tNope\n".to_string());
    assert!(undo(&mut w).unwrap_err().contains("Nope"));
    w.manifests.insert("5".to_string(), good);
    w.quarantine
        .insert("3f2a-b1c2-uuid.jsonl".to_string(), b"edited\n".to_vec());
    assert!(undo(&mut w).is_err());
    assert!(w.marker);
    assert_eq!(w.quarantine["3f2a-b1c2-uuid.jsonl"], b"edited\n");
}

#[test]
fn a_step_out_of_turn_changes_nothing() {
    let mut w = World::committed();
    let s = w.snapped("s.jsonl", b"x\n");
    let mut a = Apply::new(s, EntryPlan::New);
    assert!(a.step(ApplyEvent::Done).is_none());
    assert!(a
        .step(ApplyEvent::Routed {
            subagents: false,
            passthrough_entry: false,
            top_link: false
        })
        .is_some());
    assert!(a.step(ApplyEvent::Exists(true)).is_none());
}

#[test]
fn keeping_both_touches_no_entry_whatever_it_is() {
    let mut w = World::committed();
    let rel = "s/subagents/a.jsonl";
    w.write_orig(rel, BASE_LOG.as_bytes());
    w.write_underlay(rel, INCOMING_LOG.as_bytes());
    let report = reconcile(&mut w, "1", false, false, &|_| Confirm::KeepBoth).unwrap();
    assert_eq!(w.orig[rel], BASE_LOG.as_bytes());
    assert_eq!(w.mp[rel].bytes, INCOMING_LOG.as_bytes());
    assert_eq!(report[0].name, rel);
    assert_eq!(report[0].decision, "KeepBoth");
    assert_eq!(report[0].action, "deferred");
    assert_eq!(report[0].reversal, ReversalClass::Noop);
    assert_eq!(
        report[0].notes,
        vec!["KeepBoth 未在本任务落盘（KeepBoth 待人工/后续），underlay 保留待处理".to_string()]
    );
    assert!(!w.marker);
}

#[test]
fn run_and_its_undoing_leave_what_was_there() {
    let mut w = World::committed();
    three_kinds(&mut w);
    w.write_orig("same.jsonl", b"{\"type\":\"x\"}\n");
    w.reingest("same.jsonl");
    w.write_underlay("same.jsonl", b"{\"type\":\"x\"}\n");
    let orig = w.orig.clone();
    let files = |w: &World| -> Files {
        w.mp.iter()
            .map(|(rel, l)| (rel.clone(), l.bytes.clone()))
            .collect()
    };
    let live = files(&w);
    accept_all(&mut w, "7");
    assert!(files(&w).is_empty());
    let report = undo(&mut w).unwrap();
    assert_eq!(report.reversed.len(), 3);
    assert!(report.skipped_live_changed.is_empty());
    assert_eq!(w.orig, orig);
    assert_eq!(files(&w), live);
    assert!(w.quarantine.is_empty());
    assert!(!w.marker);
    let again = undo(&mut w).unwrap();
    assert!(again.reversed.is_empty());
    assert_eq!(w.orig, orig);
    assert_eq!(files(&w), live);
}

#[test]
fn reconcile_rejects_without_committed_meta() {
    let mut w = World::committed();
    w.meta = None;
    w.write_underlay("s.jsonl", b"{}\n");
    let e = reconcile(&mut w, "1", false, false, &|_| Confirm::Accept).unwrap_err();
    assert!(e.contains("meta"), "{e}");
    assert_eq!(e, "demo 无提交标记 meta，无法 reconcile（未 apply？）");
    assert!(matches!(
        Check::of_record("..".to_string(), None, true),
        Err(Refusal::InvalidName)
    ));
}

#[test]
fn run_over_a_shared_directory_and_its_undoing_leave_what_was_there() {
    let mut w = with_memory();
    w.write_underlay("memory/NEW.md", b"fresh\n");
    w.write_underlay("new.jsonl", INCOMING_LOG.as_bytes());
    let orig = w.orig.clone();
    let live: Vec<String> = w.mp.keys().cloned().collect();
    accept_all(&mut w, "9");
    assert!(w.mp.is_empty());
    let shared = w.memory.clone();
    let report = undo(&mut w).unwrap();
    assert_eq!(report.memory_manual, vec!["memory/NEW.md".to_string()]);
    assert_eq!(w.orig, orig);
    assert_eq!(w.mp.keys().cloned().collect::<Vec<String>>(), live);
    assert_eq!(w.mp["memory/NEW.md"].bytes, b"fresh\n");
    assert_eq!(w.memory, shared);
}
