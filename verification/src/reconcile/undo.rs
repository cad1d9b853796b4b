//! Undoing the last run, step by step.
//!
//! Nothing is changed before the marker is set and it is sure that nothing is mounted; an entry is
//! put back from what its run stashed; and what was written since then is never written over.
use vstd::prelude::*;
use vstd::string::*;

use super::generation;
use super::manifest;
use super::manifest::ManifestError;
use super::types::ReversalClass;
use crate::archive::wire;
use crate::store::types;
use crate::text;

verus! {

/// Why a run is not undone, or not wholly.
#[derive(Debug)]
pub enum UndoRefusal {
    /// The name could lead out of its directory.
    InvalidName,
    /// The project is mounted.
    Mounted,
    /// The project was never set up.
    NoMeta,
    /// The backend, of this name, keeps no files of its own.
    NotShadow(String),
    /// There was no run.
    NoGeneration,
    /// The last run, of this time, was not finished.
    NoManifest(String),
    /// The manifest of the last run cannot be read.
    BadManifest(ManifestError),
    /// Something is being written, for this reason.
    Active(String),
    /// These files were written since.
    Changed(Vec<String>),
    /// The project was mounted meanwhile.
    MountedMeanwhile,
    /// The original of this entry was not stashed.
    PreimageMissing(usize),
    /// The copy of this entry that was set aside is not the one of the snapshot.
    QuarantineDiffers(usize),
}

/// Why a run is not undone, as a mathematical value.
#[verifier::ext_equal]
pub enum RefusalView {
    InvalidName,
    Mounted,
    NoMeta,
    NotShadow(Seq<char>),
    NoGeneration,
    NoManifest(Seq<char>),
    BadManifest(manifest::ErrorView),
    Active(Seq<char>),
    Changed(Seq<Seq<char>>),
    MountedMeanwhile,
    PreimageMissing(int),
    QuarantineDiffers(int),
}

impl View for UndoRefusal {
    type V = RefusalView;

    open spec fn view(&self) -> RefusalView {
        match self {
            UndoRefusal::InvalidName => RefusalView::InvalidName,
            UndoRefusal::Mounted => RefusalView::Mounted,
            UndoRefusal::NoMeta => RefusalView::NoMeta,
            UndoRefusal::NotShadow(flag) => RefusalView::NotShadow(flag@),
            UndoRefusal::NoGeneration => RefusalView::NoGeneration,
            UndoRefusal::NoManifest(ts) => RefusalView::NoManifest(ts@),
            UndoRefusal::BadManifest(e) => RefusalView::BadManifest(e@),
            UndoRefusal::Active(reason) => RefusalView::Active(reason@),
            UndoRefusal::Changed(rels) => RefusalView::Changed(text::texts(rels@)),
            UndoRefusal::MountedMeanwhile => RefusalView::MountedMeanwhile,
            UndoRefusal::PreimageMissing(i) => RefusalView::PreimageMissing(*i as int),
            UndoRefusal::QuarantineDiffers(i) => RefusalView::QuarantineDiffers(*i as int),
        }
    }
}

impl RefusalView {
    /// The message, for a project of that name; the paths are those of the files concerned, where
    /// there are any.
    pub open spec fn message(
        &self,
        name: Seq<char>,
        first: Seq<char>,
        second: Seq<char>,
    ) -> Seq<char> {
        match self {
            RefusalView::InvalidName => text::debug_text(name) + " 非法项目名"@,
            RefusalView::Mounted => name + " 已挂载，拒绝 reconcile-undo；请先卸载后重试"@,
            RefusalView::NoMeta => name
                + " 无提交标记 meta，无法 reconcile-undo（未 apply？）"@,
            RefusalView::NotShadow(flag) => "reconcile-undo 仅支持 shadow 后端；"@
                + text::debug_text(name) + " 为 "@ + *flag + "，不适用"@,
            RefusalView::NoGeneration => name
                + " 无可回退的 reconcile 记录（无任何代次）"@,
            RefusalView::NoManifest(ts) => name + " 最新代次 "@ + *ts
                + " 无 manifest（该 reconcile run 未完成、不可 undo）；请查 stash 手动恢复"@,
            RefusalView::BadManifest(e) => match e {
                manifest::ErrorView::MissingTab(line) => "manifest 行缺 tab 分隔："@
                    + text::debug_text(*line),
                manifest::ErrorView::UnknownClass(class) => "manifest 未知逆转类："@
                    + text::debug_text(*class),
            },
            RefusalView::Active(reason) => name + " 挂载点疑似活跃（"@ + *reason
                + "），拒绝 reconcile-undo；确认空闲后重试"@,
            RefusalView::Changed(rels) => name
                + " reconcile 后 live underlay 已有新写，拒绝整个 undo（零改动）："@
                + text::debug_list(*rels)
                + "；请先 `enable reconcile` 收编新写、或手动处理"@,
            RefusalView::MountedMeanwhile => name
                + " 在 undo 准备期间被挂载，已中止；请卸载后重试"@,
            RefusalView::PreimageMissing(_) => "RestoreOrig 反做中止：前镜像 "@ + first
                + " 缺失（绝不静默半还原）；reconciling 标记保留，修复后可重跑"@,
            RefusalView::QuarantineDiffers(_) => "RemoveQuarantine 反做中止：隔离副本 "@ + first
                + " 与快照 "@ + second + " 不符（绝不误删）"@,
        }
    }
}

impl UndoRefusal {
    /// The message, for a project of that name; the paths are those of the files concerned, where
    /// there are any.
    pub fn message(&self, name: &str, first: &str, second: &str) -> (m: String)
        ensures
            m@ == self@.message(name@, first@, second@),
    {
        let mut m: String = String::new();
        match self {
            UndoRefusal::InvalidName => {
                m.append(text::quoted(name).as_str());
                m.append(" 非法项目名");
            },
            UndoRefusal::Mounted => {
                m.append(name);
                m.append(" 已挂载，拒绝 reconcile-undo；请先卸载后重试");
            },
            UndoRefusal::NoMeta => {
                m.append(name);
                m.append(" 无提交标记 meta，无法 reconcile-undo（未 apply？）");
            },
            UndoRefusal::NotShadow(flag) => {
                m.append("reconcile-undo 仅支持 shadow 后端；");
                m.append(text::quoted(name).as_str());
                m.append(" 为 ");
                m.append(flag.as_str());
                m.append("，不适用");
            },
            UndoRefusal::NoGeneration => {
                m.append(name);
                m.append(" 无可回退的 reconcile 记录（无任何代次）");
            },
            UndoRefusal::NoManifest(ts) => {
                m.append(name);
                m.append(" 最新代次 ");
                m.append(ts.as_str());
                m.append(
                    " 无 manifest（该 reconcile run 未完成、不可 undo）；请查 stash 手动恢复",
                );
            },
            UndoRefusal::BadManifest(e) => match e {
                ManifestError::MissingTab(line) => {
                    m.append("manifest 行缺 tab 分隔：");
                    m.append(text::quoted(line.as_str()).as_str());
                },
                ManifestError::UnknownClass(class) => {
                    m.append("manifest 未知逆转类：");
                    m.append(text::quoted(class.as_str()).as_str());
                },
            },
            UndoRefusal::Active(reason) => {
                m.append(name);
                m.append(" 挂载点疑似活跃（");
                m.append(reason.as_str());
                m.append("），拒绝 reconcile-undo；确认空闲后重试");
            },
            UndoRefusal::Changed(rels) => {
                m.append(name);
                m.append(" reconcile 后 live underlay 已有新写，拒绝整个 undo（零改动）：");
                m.append(text::quoted_list(rels).as_str());
                m.append("；请先 `enable reconcile` 收编新写、或手动处理");
            },
            UndoRefusal::MountedMeanwhile => {
                m.append(name);
                m.append(" 在 undo 准备期间被挂载，已中止；请卸载后重试");
            },
            UndoRefusal::PreimageMissing(_) => {
                m.append("RestoreOrig 反做中止：前镜像 ");
                m.append(first);
                m.append(" 缺失（绝不静默半还原）；reconciling 标记保留，修复后可重跑");
            },
            UndoRefusal::QuarantineDiffers(_) => {
                m.append("RemoveQuarantine 反做中止：隔离副本 ");
                m.append(first);
                m.append(" 与快照 ");
                m.append(second);
                m.append(" 不符（绝不误删）");
            },
        }
        assert(m@ =~= self@.message(name@, first@, second@));
        m
    }
}

/// What was undone.
#[derive(Debug)]
pub struct UndoReport {
    /// The time of the run.
    pub ts: String,
    /// The entries that were undone, and how.
    pub reversed: Vec<(String, String)>,
    /// The entries that went to a shared directory, for a person to look at.
    pub memory_manual: Vec<String>,
    /// The files that were not put back, because others are there.
    pub skipped_live_changed: Vec<String>,
}

/// What was undone, as a mathematical value.
#[verifier::ext_equal]
pub struct UndoView {
    pub ts: Seq<char>,
    pub reversed: Seq<(Seq<char>, Seq<char>)>,
    pub memory_manual: Seq<Seq<char>>,
    pub skipped_live_changed: Seq<Seq<char>>,
}

/// The pairs of a list.
pub open spec fn pair_texts(v: Seq<(String, String)>) -> Seq<(Seq<char>, Seq<char>)> {
    Seq::new(v.len(), |i: int| (v[i].0@, v[i].1@))
}

impl View for UndoReport {
    type V = UndoView;

    open spec fn view(&self) -> UndoView {
        UndoView {
            ts: self.ts@,
            reversed: pair_texts(self.reversed@),
            memory_manual: text::texts(self.memory_manual@),
            skipped_live_changed: text::texts(self.skipped_live_changed@),
        }
    }
}

impl UndoView {
    /// Nothing was undone.
    pub open spec fn nothing(ts: Seq<char>) -> UndoView {
        UndoView {
            ts,
            reversed: Seq::empty(),
            memory_manual: Seq::empty(),
            skipped_live_changed: Seq::empty(),
        }
    }
}

/// What to do next; the numbers are those of the manifest's entries.
pub enum UndoAction {
    /// Ask whether the project is mounted.
    CheckMounted,
    /// Read how the project was set up.
    ReadMeta,
    /// Take the lock of the project.
    Lock,
    /// List the runs.
    ListGenerations,
    /// Read the manifest of this run.
    ReadManifest(String),
    /// Look whether the run was undone already.
    CheckUndone,
    /// Ask whether something is being written.
    CheckActivity,
    /// List the files that are there with another content than the snapshot's.
    CompareSnapshot,
    /// Set the marker.
    SetMarker,
    /// Clear the marker.
    ClearMarker,
    /// Read what was stashed of the original.
    ReadPreimage(usize),
    /// Replace the original by these bytes, at once or not at all.
    WriteOrig(usize, Vec<u8>),
    /// Build the archive of the original anew.
    Reingest(usize),
    /// Remove the original, if it is there.
    RemoveOrig(usize),
    /// Remove the archive, if it is there.
    RemoveBacking(usize),
    /// Read the copy that was set aside.
    ReadQuarantine(usize),
    /// Read the entry of the snapshot.
    ReadSnapshot(usize),
    /// Remove the copy that was set aside.
    RemoveQuarantine(usize),
    /// Put the files of the snapshot back that are missing.
    RestoreUnderlay,
    /// Note that the run was undone.
    WriteUndone,
    /// Remove the directories below the mount point that are empty.
    PruneDirs,
    /// Nothing: this was undone.
    Finish(UndoReport),
    /// Nothing: it is not undone, or not wholly.
    Refuse(UndoRefusal),
}

/// What to do next, as a mathematical value.
#[verifier::ext_equal]
pub enum ActionView {
    CheckMounted,
    ReadMeta,
    Lock,
    ListGenerations,
    ReadManifest(Seq<char>),
    CheckUndone,
    CheckActivity,
    CompareSnapshot,
    SetMarker,
    ClearMarker,
    ReadPreimage(int),
    WriteOrig(int, Seq<u8>),
    Reingest(int),
    RemoveOrig(int),
    RemoveBacking(int),
    ReadQuarantine(int),
    ReadSnapshot(int),
    RemoveQuarantine(int),
    RestoreUnderlay,
    WriteUndone,
    PruneDirs,
    Finish(UndoView),
    Refuse(RefusalView),
}

impl View for UndoAction {
    type V = ActionView;

    open spec fn view(&self) -> ActionView {
        match self {
            UndoAction::CheckMounted => ActionView::CheckMounted,
            UndoAction::ReadMeta => ActionView::ReadMeta,
            UndoAction::Lock => ActionView::Lock,
            UndoAction::ListGenerations => ActionView::ListGenerations,
            UndoAction::ReadManifest(ts) => ActionView::ReadManifest(ts@),
            UndoAction::CheckUndone => ActionView::CheckUndone,
            UndoAction::CheckActivity => ActionView::CheckActivity,
            UndoAction::CompareSnapshot => ActionView::CompareSnapshot,
            UndoAction::SetMarker => ActionView::SetMarker,
            UndoAction::ClearMarker => ActionView::ClearMarker,
            UndoAction::ReadPreimage(i) => ActionView::ReadPreimage(*i as int),
            UndoAction::WriteOrig(i, b) => ActionView::WriteOrig(*i as int, b@),
            UndoAction::Reingest(i) => ActionView::Reingest(*i as int),
            UndoAction::RemoveOrig(i) => ActionView::RemoveOrig(*i as int),
            UndoAction::RemoveBacking(i) => ActionView::RemoveBacking(*i as int),
            UndoAction::ReadQuarantine(i) => ActionView::ReadQuarantine(*i as int),
            UndoAction::ReadSnapshot(i) => ActionView::ReadSnapshot(*i as int),
            UndoAction::RemoveQuarantine(i) => ActionView::RemoveQuarantine(*i as int),
            UndoAction::RestoreUnderlay => ActionView::RestoreUnderlay,
            UndoAction::WriteUndone => ActionView::WriteUndone,
            UndoAction::PruneDirs => ActionView::PruneDirs,
            UndoAction::Finish(r) => ActionView::Finish(r@),
            UndoAction::Refuse(r) => ActionView::Refuse(r@),
        }
    }
}

/// What came of a step.
pub enum UndoEvent {
    /// To start with.
    Begin,
    /// It is done.
    Done,
    /// Whether the project is mounted.
    Mounted(bool),
    /// Whether the backend keeps files of its own, and its name; nothing where the project was
    /// never set up.
    Meta(Option<(bool, String)>),
    /// The runs.
    Generations(Vec<String>),
    /// The manifest; nothing where there is none.
    Manifest(Option<String>),
    /// Whether the run was undone already.
    Undone(bool),
    /// Why something seems to be being written, if so.
    Activity(Option<String>),
    /// The files that are there with another content.
    Changed(Vec<String>),
    /// The bytes that were read; nothing where there is no such file.
    Bytes(Option<Vec<u8>>),
    /// The files that were not put back.
    Skipped(Vec<String>),
}

/// Which step is under way.
#[derive(Debug, Clone, Copy, PartialEq, Eq, Structural)]
pub enum Phase {
    Start,
    Mounted,
    Meta,
    Lock,
    Generations,
    Manifest,
    Undone,
    ClearStale,
    Activity,
    Compare,
    Marking,
    Recheck,
    ClearAbort,
    Preimage,
    WriteOrig,
    Reingest,
    RemoveOrig,
    RemoveBacking,
    Quarantine,
    Snapshot,
    RemoveQuarantine,
    Underlay,
    Clearing,
    WriteUndone,
    Prune,
    End,
}

/// A run that is being undone.
pub struct Undo {
    /// The name of the project.
    pub name: String,
    /// The step that is under way.
    pub phase: Phase,
    /// The manifest of the run.
    pub manifest: Vec<(String, ReversalClass)>,
    /// The entry that is next.
    pub next: usize,
    /// The bytes that are compared.
    pub held: Vec<u8>,
    /// What was undone so far.
    pub report: UndoReport,
}

/// A run that is being undone, as a mathematical value.
#[verifier::ext_equal]
pub struct StateView {
    pub name: Seq<char>,
    pub phase: Phase,
    pub manifest: Seq<(Seq<char>, ReversalClass)>,
    pub next: int,
    pub held: Seq<u8>,
    pub report: UndoView,
}

impl View for Undo {
    type V = StateView;

    open spec fn view(&self) -> StateView {
        StateView {
            name: self.name@,
            phase: self.phase,
            manifest: manifest::entry_views(self.manifest@),
            next: self.next as int,
            held: self.held@,
            report: self.report@,
        }
    }
}

impl StateView {
    /// The step that comes next.
    pub open spec fn at(&self, phase: Phase) -> StateView {
        StateView { phase, ..*self }
    }

    /// The end, for that reason.
    pub open spec fn refused(&self, why: RefusalView) -> (StateView, ActionView) {
        (self.at(Phase::End), ActionView::Refuse(why))
    }

    /// The end.
    pub open spec fn finished(&self) -> (StateView, ActionView) {
        (
            StateView { report: UndoView::nothing(self.report.ts), ..self.at(Phase::End) },
            ActionView::Finish(self.report),
        )
    }

    /// The entry that is next; where there is none, the files of the snapshot are put back.
    pub open spec fn onward(&self) -> (StateView, ActionView)
        decreases self.manifest.len() - self.next,
    {
        if self.next >= self.manifest.len() {
            (self.at(Phase::Underlay), ActionView::RestoreUnderlay)
        } else {
            match self.manifest[self.next].1 {
                ReversalClass::RestoreOrig => (
                    self.at(Phase::Preimage),
                    ActionView::ReadPreimage(self.next),
                ),
                ReversalClass::RemoveOrig => (
                    self.at(Phase::RemoveOrig),
                    ActionView::RemoveOrig(self.next),
                ),
                ReversalClass::RemoveQuarantine => (
                    self.at(Phase::Quarantine),
                    ActionView::ReadQuarantine(self.next),
                ),
                ReversalClass::ReportMemory => StateView {
                    next: self.next + 1,
                    report: UndoView {
                        memory_manual: self.report.memory_manual.push(self.manifest[self.next].0),
                        ..self.report
                    },
                    ..*self
                }.onward(),
                ReversalClass::Noop => StateView { next: self.next + 1, ..*self }.onward(),
            }
        }
    }

    /// The entry that is next when one was undone.
    pub open spec fn past(&self) -> (StateView, ActionView) {
        let (rel, class) = self.manifest[self.next];
        StateView {
            next: self.next + 1,
            held: Seq::empty(),
            report: UndoView {
                reversed: self.report.reversed.push((rel, class.name())),
                ..self.report
            },
            ..*self
        }.onward()
    }

    /// What comes next; nothing where the event is not one of the step under way.
    pub open spec fn stepped(&self, e: UndoEvent) -> Option<(StateView, ActionView)> {
        match (self.phase, e) {
            (Phase::Start, UndoEvent::Begin) => if types::valid_name(self.name) {
                Some((self.at(Phase::Mounted), ActionView::CheckMounted))
            } else {
                Some(self.refused(RefusalView::InvalidName))
            },
            (Phase::Mounted, UndoEvent::Mounted(yes)) => if yes {
                Some(self.refused(RefusalView::Mounted))
            } else {
                Some((self.at(Phase::Meta), ActionView::ReadMeta))
            },
            (Phase::Meta, UndoEvent::Meta(m)) => match m {
                None => Some(self.refused(RefusalView::NoMeta)),
                Some((shadow, flag)) => if shadow {
                    Some((self.at(Phase::Lock), ActionView::Lock))
                } else {
                    Some(self.refused(RefusalView::NotShadow(flag@)))
                },
            },
            (Phase::Lock, UndoEvent::Done) => Some(
                (self.at(Phase::Generations), ActionView::ListGenerations),
            ),
            (Phase::Generations, UndoEvent::Generations(runs)) => match generation::latest_of(
                text::texts(runs@),
                runs@.len() as int,
            ) {
                None => Some(self.refused(RefusalView::NoGeneration)),
                Some(ts) => Some(
                    (
                        StateView {
                            report: UndoView { ts, ..self.report },
                            ..self.at(Phase::Manifest)
                        },
                        ActionView::ReadManifest(ts),
                    ),
                ),
            },
            (Phase::Manifest, UndoEvent::Manifest(m)) => match m {
                None => Some(self.refused(RefusalView::NoManifest(self.report.ts))),
                Some(content) => match manifest::manifest_read(content@) {
                    Ok(entries) => Some(
                        (
                            StateView { manifest: entries, ..self.at(Phase::Undone) },
                            ActionView::CheckUndone,
                        ),
                    ),
                    Err(e) => Some(self.refused(RefusalView::BadManifest(e))),
                },
            },
            (Phase::Undone, UndoEvent::Undone(yes)) => if yes {
                Some((self.at(Phase::ClearStale), ActionView::ClearMarker))
            } else {
                Some((self.at(Phase::Activity), ActionView::CheckActivity))
            },
            (Phase::ClearStale, UndoEvent::Done) => Some(
                StateView { report: UndoView::nothing(self.report.ts), ..*self }.finished(),
            ),
            (Phase::Activity, UndoEvent::Activity(reason)) => match reason {
                Some(r) => Some(self.refused(RefusalView::Active(r@))),
                None => Some((self.at(Phase::Compare), ActionView::CompareSnapshot)),
            },
            (Phase::Compare, UndoEvent::Changed(rels)) => if rels@.len() == 0 {
                Some((self.at(Phase::Marking), ActionView::SetMarker))
            } else {
                Some(self.refused(RefusalView::Changed(text::texts(rels@))))
            },
            (Phase::Marking, UndoEvent::Done) => Some(
                (self.at(Phase::Recheck), ActionView::CheckMounted),
            ),
            (Phase::Recheck, UndoEvent::Mounted(yes)) => if yes {
                Some((self.at(Phase::ClearAbort), ActionView::ClearMarker))
            } else {
                Some(StateView { next: 0, held: Seq::empty(), ..*self }.onward())
            },
            (Phase::ClearAbort, UndoEvent::Done) => Some(
                self.refused(RefusalView::MountedMeanwhile),
            ),
            (Phase::Preimage, UndoEvent::Bytes(b)) => match b {
                None => Some(self.refused(RefusalView::PreimageMissing(self.next))),
                Some(bytes) => Some(
                    (self.at(Phase::WriteOrig), ActionView::WriteOrig(self.next, bytes@)),
                ),
            },
            (Phase::WriteOrig, UndoEvent::Done) => Some(
                (self.at(Phase::Reingest), ActionView::Reingest(self.next)),
            ),
            (Phase::Reingest, UndoEvent::Done) => Some(self.past()),
            (Phase::RemoveOrig, UndoEvent::Done) => Some(
                (self.at(Phase::RemoveBacking), ActionView::RemoveBacking(self.next)),
            ),
            (Phase::RemoveBacking, UndoEvent::Done) => Some(self.past()),
            (Phase::Quarantine, UndoEvent::Bytes(b)) => match b {
                None => Some(self.past()),
                Some(bytes) => Some(
                    (
                        StateView { held: bytes@, ..self.at(Phase::Snapshot) },
                        ActionView::ReadSnapshot(self.next),
                    ),
                ),
            },
            (Phase::Snapshot, UndoEvent::Bytes(b)) => match b {
                Some(bytes) => if bytes@ == self.held {
                    Some(
                        (
                            self.at(Phase::RemoveQuarantine),
                            ActionView::RemoveQuarantine(self.next),
                        ),
                    )
                } else {
                    Some(self.refused(RefusalView::QuarantineDiffers(self.next)))
                },
                None => None,
            },
            (Phase::RemoveQuarantine, UndoEvent::Done) => Some(self.past()),
            (Phase::Underlay, UndoEvent::Skipped(rels)) => Some(
                (
                    StateView {
                        report: UndoView {
                            skipped_live_changed: text::texts(rels@),
                            ..self.report
                        },
                        ..self.at(Phase::Clearing)
                    },
                    ActionView::ClearMarker,
                ),
            ),
            (Phase::Clearing, UndoEvent::Done) => Some(
                (self.at(Phase::WriteUndone), ActionView::WriteUndone),
            ),
            (Phase::WriteUndone, UndoEvent::Done) => Some(
                (self.at(Phase::Prune), ActionView::PruneDirs),
            ),
            (Phase::Prune, UndoEvent::Done) => Some(self.finished()),
            _ => None,
        }
    }

    /// Whether an entry is under way.
    pub open spec fn reversing(&self) -> bool {
        self.phase == Phase::Preimage || self.phase == Phase::WriteOrig || self.phase
            == Phase::Reingest || self.phase == Phase::RemoveOrig || self.phase
            == Phase::RemoveBacking || self.phase == Phase::Quarantine || self.phase
            == Phase::Snapshot || self.phase == Phase::RemoveQuarantine
    }

    /// Whether the entry that is next is one of the manifest's, where one is under way.
    pub open spec fn wf(&self) -> bool {
        self.reversing() ==> 0 <= self.next < self.manifest.len()
    }
}

proof fn onward_wf(v: StateView)
    requires
        0 <= v.next <= v.manifest.len(),
    ensures
        v.onward().0.wf(),
    decreases v.manifest.len() - v.next,
{
    if v.next < v.manifest.len() {
        if v.manifest[v.next].1 == ReversalClass::ReportMemory {
            onward_wf(
                StateView {
                    next: v.next + 1,
                    report: UndoView {
                        memory_manual: v.report.memory_manual.push(v.manifest[v.next].0),
                        ..v.report
                    },
                    ..v
                },
            );
        } else if v.manifest[v.next].1 == ReversalClass::Noop {
            onward_wf(StateView { next: v.next + 1, ..v });
        }
    }
}

fn empty_report(ts: String) -> (r: UndoReport)
    ensures
        r@ == UndoView::nothing(ts@),
{
    let r: UndoReport = UndoReport {
        ts,
        reversed: Vec::new(),
        memory_manual: Vec::new(),
        skipped_live_changed: Vec::new(),
    };
    assert(r@.reversed =~= Seq::empty());
    assert(r@.memory_manual =~= Seq::empty());
    assert(r@.skipped_live_changed =~= Seq::empty());
    r
}

impl Undo {
    /// Undoing the last run of a project.
    pub fn new(name: String) -> (u: Undo)
        ensures
            u@ == (StateView {
                name: name@,
                phase: Phase::Start,
                manifest: Seq::empty(),
                next: 0,
                held: Seq::empty(),
                report: UndoView::nothing(Seq::empty()),
            }),
    {
        let u: Undo = Undo {
            name,
            phase: Phase::Start,
            manifest: Vec::new(),
            next: 0,
            held: Vec::new(),
            report: empty_report(String::new()),
        };
        assert(u@.manifest =~= Seq::empty());
        assert(u.report@.ts =~= Seq::empty());
        u
    }

    fn refuse(&mut self, why: UndoRefusal) -> (r: UndoAction)
        ensures
            final(self)@ == old(self)@.refused(why@).0,
            r@ == old(self)@.refused(why@).1,
    {
        self.phase = Phase::End;
        UndoAction::Refuse(why)
    }

    fn finish(&mut self) -> (r: UndoAction)
        ensures
            final(self)@ == old(self)@.finished().0,
            r@ == old(self)@.finished().1,
    {
        self.phase = Phase::End;
        let mut report: UndoReport = empty_report(self.report.ts.clone());
        std::mem::swap(&mut report, &mut self.report);
        UndoAction::Finish(report)
    }

    fn go_on(&mut self) -> (r: UndoAction)
        requires
            old(self)@.next <= old(self)@.manifest.len(),
        ensures
            final(self)@ == old(self)@.onward().0,
            r@ == old(self)@.onward().1,
    {
        let ghost start = self@;
        while self.next < self.manifest.len()
            invariant
                start == old(self)@,
                start.onward() == self@.onward(),
                self@.next <= self@.manifest.len(),
            decreases self@.manifest.len() - self@.next,
        {
            let at: usize = self.next;
            let len: usize = self.manifest.len();
            assert(at < len);
            assert(self@.manifest[at as int] == (
                self.manifest@[at as int].0@,
                self.manifest@[at as int].1,
            ));
            match self.manifest[at].1 {
                ReversalClass::RestoreOrig => {
                    self.phase = Phase::Preimage;
                    return UndoAction::ReadPreimage(at);
                },
                ReversalClass::RemoveOrig => {
                    self.phase = Phase::RemoveOrig;
                    return UndoAction::RemoveOrig(at);
                },
                ReversalClass::RemoveQuarantine => {
                    self.phase = Phase::Quarantine;
                    return UndoAction::ReadQuarantine(at);
                },
                ReversalClass::ReportMemory => {
                    let rel: String = self.manifest[at].0.clone();
                    let ghost before = self@;
                    self.report.memory_manual.push(rel);
                    assert(self@.report.memory_manual =~= before.report.memory_manual.push(rel@));
                    self.next = at + 1;
                },
                ReversalClass::Noop => {
                    self.next = at + 1;
                },
            }
        }
        self.phase = Phase::Underlay;
        UndoAction::RestoreUnderlay
    }

    fn go_past(&mut self) -> (r: UndoAction)
        requires
            0 <= old(self)@.next < old(self)@.manifest.len(),
        ensures
            final(self)@ == old(self)@.past().0,
            final(self)@.wf(),
            r@ == old(self)@.past().1,
    {
        let ghost before = self@;
        let at: usize = self.next;
        let len: usize = self.manifest.len();
        assert(at < len);
        assert(self@.manifest[at as int] == (
            self.manifest@[at as int].0@,
            self.manifest@[at as int].1,
        ));
        let rel: String = self.manifest[at].0.clone();
        let how: String = text::copy_str(self.manifest[at].1.as_str());
        let ghost pair = (rel@, how@);
        self.report.reversed.push((rel, how));
        assert(self@.report.reversed =~= before.report.reversed.push(pair));
        self.held = Vec::new();
        assert(self@.held =~= Seq::empty());
        self.next = at + 1;
        proof {
            onward_wf(self@);
        }
        self.go_on()
    }

    /// Takes in what came of the step under way, and says what to do next. Nothing comes of an
    /// event that is not one of that step.
    #[verifier::rlimit(60)]
    pub fn step(&mut self, e: UndoEvent) -> (r: Option<UndoAction>)
        requires
            old(self)@.wf(),
        ensures
            final(self)@.wf(),
            match old(self)@.stepped(e) {
                Some((v, a)) => {
                    &&& final(self)@ == v
                    &&& r matches Some(x) && x@ == a
                },
                None => r is None && final(self)@ == old(self)@,
            },
    {
        match (self.phase, e) {
            (Phase::Start, UndoEvent::Begin) => {
                if types::validate_name(self.name.as_str()).is_err() {
                    return Some(self.refuse(UndoRefusal::InvalidName));
                }
                self.phase = Phase::Mounted;
                Some(UndoAction::CheckMounted)
            },
            (Phase::Mounted, UndoEvent::Mounted(yes)) => {
                if yes {
                    return Some(self.refuse(UndoRefusal::Mounted));
                }
                self.phase = Phase::Meta;
                Some(UndoAction::ReadMeta)
            },
            (Phase::Meta, UndoEvent::Meta(m)) => {
                match m {
                    None => Some(self.refuse(UndoRefusal::NoMeta)),
                    Some((shadow, flag)) => {
                        if shadow {
                            self.phase = Phase::Lock;
                            Some(UndoAction::Lock)
                        } else {
                            Some(self.refuse(UndoRefusal::NotShadow(flag)))
                        }
                    },
                }
            },
            (Phase::Lock, UndoEvent::Done) => {
                self.phase = Phase::Generations;
                Some(UndoAction::ListGenerations)
            },
            (Phase::Generations, UndoEvent::Generations(runs)) => {
                match generation::latest_generation(&runs) {
                    None => Some(self.refuse(UndoRefusal::NoGeneration)),
                    Some(ts) => {
                        self.report.ts = ts.clone();
                        self.phase = Phase::Manifest;
                        Some(UndoAction::ReadManifest(ts))
                    },
                }
            },
            (Phase::Manifest, UndoEvent::Manifest(m)) => {
                match m {
                    None => {
                        let ts: String = self.report.ts.clone();
                        Some(self.refuse(UndoRefusal::NoManifest(ts)))
                    },
                    Some(content) => match manifest::parse_manifest(content.as_str()) {
                        Ok(entries) => {
                            self.manifest = entries;
                            self.phase = Phase::Undone;
                            Some(UndoAction::CheckUndone)
                        },
                        Err(e) => Some(self.refuse(UndoRefusal::BadManifest(e))),
                    },
                }
            },
            (Phase::Undone, UndoEvent::Undone(yes)) => {
                if yes {
                    self.phase = Phase::ClearStale;
                    Some(UndoAction::ClearMarker)
                } else {
                    self.phase = Phase::Activity;
                    Some(UndoAction::CheckActivity)
                }
            },
            (Phase::ClearStale, UndoEvent::Done) => {
                let ts: String = self.report.ts.clone();
                self.report = empty_report(ts);
                Some(self.finish())
            },
            (Phase::Activity, UndoEvent::Activity(reason)) => {
                match reason {
                    Some(r) => Some(self.refuse(UndoRefusal::Active(r))),
                    None => {
                        self.phase = Phase::Compare;
                        Some(UndoAction::CompareSnapshot)
                    },
                }
            },
            (Phase::Compare, UndoEvent::Changed(rels)) => {
                if rels.len() == 0 {
                    self.phase = Phase::Marking;
                    Some(UndoAction::SetMarker)
                } else {
                    Some(self.refuse(UndoRefusal::Changed(rels)))
                }
            },
            (Phase::Marking, UndoEvent::Done) => {
                self.phase = Phase::Recheck;
                Some(UndoAction::CheckMounted)
            },
            (Phase::Recheck, UndoEvent::Mounted(yes)) => {
                if yes {
                    self.phase = Phase::ClearAbort;
                    Some(UndoAction::ClearMarker)
                } else {
                    self.next = 0;
                    self.held = Vec::new();
                    assert(self@.held =~= Seq::empty());
                    proof {
                        onward_wf(self@);
                    }
                    Some(self.go_on())
                }
            },
            (Phase::ClearAbort, UndoEvent::Done) => Some(
                self.refuse(UndoRefusal::MountedMeanwhile),
            ),
            (Phase::Preimage, UndoEvent::Bytes(b)) => {
                match b {
                    None => {
                        let at: usize = self.next;
                        Some(self.refuse(UndoRefusal::PreimageMissing(at)))
                    },
                    Some(bytes) => {
                        self.phase = Phase::WriteOrig;
                        Some(UndoAction::WriteOrig(self.next, bytes))
                    },
                }
            },
            (Phase::WriteOrig, UndoEvent::Done) => {
                self.phase = Phase::Reingest;
                Some(UndoAction::Reingest(self.next))
            },
            (Phase::Reingest, UndoEvent::Done) => Some(self.go_past()),
            (Phase::RemoveOrig, UndoEvent::Done) => {
                self.phase = Phase::RemoveBacking;
                Some(UndoAction::RemoveBacking(self.next))
            },
            (Phase::RemoveBacking, UndoEvent::Done) => Some(self.go_past()),
            (Phase::Quarantine, UndoEvent::Bytes(b)) => {
                match b {
                    None => Some(self.go_past()),
                    Some(bytes) => {
                        self.held = bytes;
                        self.phase = Phase::Snapshot;
                        Some(UndoAction::ReadSnapshot(self.next))
                    },
                }
            },
            (Phase::Snapshot, UndoEvent::Bytes(b)) => {
                match b {
                    None => None,
                    Some(bytes) => {
                        if wire::same_bytes(&bytes, &self.held) {
                            self.phase = Phase::RemoveQuarantine;
                            Some(UndoAction::RemoveQuarantine(self.next))
                        } else {
                            let at: usize = self.next;
                            Some(self.refuse(UndoRefusal::QuarantineDiffers(at)))
                        }
                    },
                }
            },
            (Phase::RemoveQuarantine, UndoEvent::Done) => Some(self.go_past()),
            (Phase::Underlay, UndoEvent::Skipped(rels)) => {
                self.report.skipped_live_changed = rels;
                self.phase = Phase::Clearing;
                Some(UndoAction::ClearMarker)
            },
            (Phase::Clearing, UndoEvent::Done) => {
                self.phase = Phase::WriteUndone;
                Some(UndoAction::WriteUndone)
            },
            (Phase::WriteUndone, UndoEvent::Done) => {
                self.phase = Phase::Prune;
                Some(UndoAction::PruneDirs)
            },
            (Phase::Prune, UndoEvent::Done) => Some(self.finish()),
            _ => None,
        }
    }
}

/// What the steps act on, by the paths of entries.
#[verifier::ext_equal]
pub struct World {
    /// What the originals hold.
    pub orig: Map<Seq<char>, Seq<u8>>,
    /// What their archives hold.
    pub backing: Map<Seq<char>, Seq<u8>>,
    /// The files below the mount point.
    pub live: Map<Seq<char>, Seq<u8>>,
    /// The copies that the run set aside.
    pub quarantine: Map<Seq<char>, Seq<u8>>,
    /// What the run stashed of the originals.
    pub preimages: Map<Seq<char>, Seq<u8>>,
    /// The entries of the snapshot.
    pub snapshots: Map<Seq<char>, Seq<u8>>,
    /// What shared directories hold, by full path.
    pub shared: Map<Seq<char>, Seq<u8>>,
    /// The manifest of the run, where it was written.
    pub manifest: Option<Seq<char>>,
    /// Whether it is noted that the run was undone.
    pub undone: bool,
    /// Whether the marker is there.
    pub marker: bool,
}

/// What a map holds at a path.
pub open spec fn held_at(m: Map<Seq<char>, Seq<u8>>, rel: Seq<char>) -> Option<Seq<u8>> {
    if m.contains_key(rel) {
        Some(m[rel])
    } else {
        None
    }
}

/// The bytes that were read, if any.
pub open spec fn read_bytes(b: Option<Vec<u8>>) -> Option<Seq<u8>> {
    match b {
        Some(bytes) => Some(bytes@),
        None => None,
    }
}

/// The text that was read, if any.
pub open spec fn read_text(t: Option<String>) -> Option<Seq<char>> {
    match t {
        Some(content) => Some(content@),
        None => None,
    }
}

impl World {
    /// Whether no file of the snapshot is there with another content.
    pub open spec fn current(&self) -> bool {
        forall|rel: Seq<char>| #[trigger]
            self.snapshots.contains_key(rel) && self.live.contains_key(rel) ==> self.live[rel]
                == self.snapshots[rel]
    }

    /// The files below the mount point with those of the snapshot that are missing.
    pub open spec fn refilled(&self) -> Map<Seq<char>, Seq<u8>> {
        self.snapshots.union_prefer_right(self.live)
    }

    /// What a step makes of it.
    pub open spec fn after(&self, v: StateView, a: ActionView) -> World {
        match a {
            ActionView::SetMarker => World { marker: true, ..*self },
            ActionView::ClearMarker => World { marker: false, ..*self },
            ActionView::WriteOrig(i, b) => World {
                orig: self.orig.insert(v.manifest[i].0, b),
                ..*self
            },
            ActionView::Reingest(i) => World {
                backing: self.backing.insert(v.manifest[i].0, self.orig[v.manifest[i].0]),
                ..*self
            },
            ActionView::RemoveOrig(i) => World { orig: self.orig.remove(v.manifest[i].0), ..*self },
            ActionView::RemoveBacking(i) => World {
                backing: self.backing.remove(v.manifest[i].0),
                ..*self
            },
            ActionView::RemoveQuarantine(i) => World {
                quarantine: self.quarantine.remove(v.manifest[i].0),
                ..*self
            },
            ActionView::RestoreUnderlay => World { live: self.refilled(), ..*self },
            ActionView::WriteUndone => World { undone: true, ..*self },
            _ => *self,
        }
    }

    /// Whether an event is what a step that succeeds tells. A manifest has each entry once.
    pub open spec fn answers(&self, v: StateView, a: ActionView, e: UndoEvent) -> bool {
        match a {
            ActionView::CheckMounted => e is Mounted,
            ActionView::ReadMeta => e is Meta,
            ActionView::ListGenerations => e is Generations,
            ActionView::ReadManifest(_) => e matches UndoEvent::Manifest(m) && read_text(m)
                == self.manifest && (m matches Some(content) ==> (manifest::manifest_read(
                content@,
            ) matches Ok(entries) ==> distinct(entries))),
            ActionView::CheckUndone => e == UndoEvent::Undone(self.undone),
            ActionView::CheckActivity => e is Activity,
            ActionView::CompareSnapshot => e matches UndoEvent::Changed(rels) && (rels@.len() == 0
                <==> self.current()),
            ActionView::ReadPreimage(i) => e matches UndoEvent::Bytes(b) && read_bytes(b)
                == held_at(self.preimages, v.manifest[i].0),
            ActionView::ReadQuarantine(i) => e matches UndoEvent::Bytes(b) && read_bytes(b)
                == held_at(self.quarantine, v.manifest[i].0),
            ActionView::ReadSnapshot(i) => e matches UndoEvent::Bytes(b) && b is Some
                && read_bytes(b) == held_at(self.snapshots, v.manifest[i].0),
            ActionView::RestoreUnderlay => e matches UndoEvent::Skipped(rels) && (rels@.len() == 0
                <==> self.current()),
            ActionView::Finish(_) => false,
            ActionView::Refuse(_) => false,
            _ => e is Done,
        }
    }
}

/// Whether each path stands once.
pub open spec fn distinct(entries: Seq<(Seq<char>, ReversalClass)>) -> bool {
    forall|i: int, j: int|
        0 <= i < j < entries.len() ==> (#[trigger] entries[i]).0 != (#[trigger] entries[j]).0
}

/// Whether the files are as they were, and what is kept of the run.
pub open spec fn untouched(before: World, w: World) -> bool {
    w == (World { marker: w.marker, ..before })
}

/// Whether what is kept of the run is as it was, and the shared directories.
pub open spec fn kept(before: World, w: World) -> bool {
    w.preimages == before.preimages && w.snapshots == before.snapshots && w.shared == before.shared
        && w.manifest == before.manifest
}

/// Whether a path is one of the manifest's.
pub open spec fn listed(v: StateView, rel: Seq<char>) -> bool {
    exists|i: int| 0 <= i < v.manifest.len() && (#[trigger] v.manifest[i]).0 == rel
}

/// Whether everything but the entries of the manifest is as it was.
pub open spec fn others_untouched(v: StateView, before: World, w: World) -> bool {
    forall|rel: Seq<char>|
        !(#[trigger] listed(v, rel)) ==> held_at(w.orig, rel) == held_at(before.orig, rel)
            && held_at(w.backing, rel) == held_at(before.backing, rel) && held_at(
            w.quarantine,
            rel,
        ) == held_at(before.quarantine, rel)
}

/// Whether an entry is as it was before its run: the original holds what was stashed, or is gone,
/// and its archive with it; a copy that was set aside is gone. What the class does not speak of is
/// as it was.
pub open spec fn reverted(v: StateView, before: World, w: World, i: int) -> bool {
    let (rel, class) = v.manifest[i];
    match class {
        ReversalClass::RestoreOrig => {
            &&& w.preimages.contains_key(rel)
            &&& held_at(w.orig, rel) == Some(w.preimages[rel])
            &&& held_at(w.backing, rel) == Some(w.preimages[rel])
            &&& held_at(w.quarantine, rel) == held_at(before.quarantine, rel)
        },
        ReversalClass::RemoveOrig => {
            &&& held_at(w.orig, rel) is None
            &&& held_at(w.backing, rel) is None
            &&& held_at(w.quarantine, rel) == held_at(before.quarantine, rel)
        },
        ReversalClass::RemoveQuarantine => {
            &&& held_at(w.quarantine, rel) is None
            &&& held_at(w.orig, rel) == held_at(before.orig, rel)
            &&& held_at(w.backing, rel) == held_at(before.backing, rel)
        },
        _ => as_before(before, w, rel),
    }
}

/// Whether a path has what it had.
pub open spec fn as_before(before: World, w: World, rel: Seq<char>) -> bool {
    &&& held_at(w.orig, rel) == held_at(before.orig, rel)
    &&& held_at(w.backing, rel) == held_at(before.backing, rel)
    &&& held_at(w.quarantine, rel) == held_at(before.quarantine, rel)
}

/// Whether the first `n` entries are as they were before the run.
pub open spec fn reverted_up_to(v: StateView, before: World, w: World, n: int) -> bool {
    forall|i: int| 0 <= i < n ==> #[trigger] reverted(v, before, w, i)
}

/// Whether the entries from `n` on are untouched.
pub open spec fn untouched_from(v: StateView, before: World, w: World, n: int) -> bool {
    forall|i: int|
        n <= i < v.manifest.len() ==> as_before(before, w, (#[trigger] v.manifest[i]).0)
}

/// The entries among the first `n` that undoing changes something for, and how.
pub open spec fn reversed_of(
    entries: Seq<(Seq<char>, ReversalClass)>,
    n: int,
) -> Seq<(Seq<char>, Seq<char>)>
    decreases n,
{
    if n <= 0 {
        Seq::empty()
    } else {
        let (rel, class) = entries[n - 1];
        match class {
            ReversalClass::ReportMemory => reversed_of(entries, n - 1),
            ReversalClass::Noop => reversed_of(entries, n - 1),
            _ => reversed_of(entries, n - 1).push((rel, class.name())),
        }
    }
}

/// The entries among the first `n` that went to a shared directory.
pub open spec fn manual_of(entries: Seq<(Seq<char>, ReversalClass)>, n: int) -> Seq<Seq<char>>
    decreases n,
{
    if n <= 0 {
        Seq::empty()
    } else if entries[n - 1].1 == ReversalClass::ReportMemory {
        manual_of(entries, n - 1).push(entries[n - 1].0)
    } else {
        manual_of(entries, n - 1)
    }
}

/// Whether a report tells of the first `n` entries.
pub open spec fn tells(v: StateView, r: UndoView, n: int) -> bool {
    &&& r.reversed == reversed_of(v.manifest, n)
    &&& r.memory_manual == manual_of(v.manifest, n)
    &&& r.skipped_live_changed == Seq::<Seq<char>>::empty()
}

/// Whether a step changes files.
pub open spec fn changes(a: ActionView) -> bool {
    a is WriteOrig || a is Reingest || a is RemoveOrig || a is RemoveBacking || a
        is RemoveQuarantine || a is RestoreUnderlay
}

/// Whether the manifest is the one that the run wrote, with each entry once.
pub open spec fn known(v: StateView, before: World) -> bool {
    &&& before.manifest matches Some(t) && manifest::manifest_read(t) == Ok::<
        _,
        manifest::ErrorView,
    >(v.manifest)
    &&& distinct(v.manifest)
}

/// What holds before anything is undone.
pub open spec fn fresh(v: StateView, before: World, w: World) -> bool {
    &&& untouched(before, w)
    &&& v.report == UndoView::nothing(v.report.ts)
}

/// What holds when the manifest was read.
pub open spec fn informed(v: StateView, before: World, w: World) -> bool {
    fresh(v, before, w) && known(v, before)
}

/// What holds while entries are undone.
pub open spec fn under_way(v: StateView, before: World, w: World) -> bool {
    &&& w.marker
    &&& known(v, before)
    &&& before.current()
    &&& !before.undone
    &&& w.live == before.live
    &&& !w.undone
    &&& others_untouched(v, before, w)
    &&& 0 <= v.next <= v.manifest.len()
    &&& reverted_up_to(v, before, w, v.next)
    &&& untouched_from(v, before, w, v.next + 1)
    &&& tells(v, v.report, v.next)
}

/// What holds when all entries are undone and the files of the snapshot are back.
pub open spec fn restored(v: StateView, r: UndoView, before: World, w: World) -> bool {
    &&& known(v, before)
    &&& before.current()
    &&& !before.undone
    &&& w.live == before.refilled()
    &&& others_untouched(v, before, w)
    &&& reverted_up_to(v, before, w, v.manifest.len() as int)
    &&& tells(v, r, v.manifest.len() as int)
}

/// Whether the entry that is next has that class and is untouched yet.
pub open spec fn next_is(v: StateView, before: World, w: World, c: ReversalClass) -> bool {
    &&& 0 <= v.next < v.manifest.len()
    &&& v.manifest[v.next].1 == c
    &&& as_before(before, w, v.manifest[v.next].0)
}

/// Whether the original of the entry that is next holds `orig`, and the copy set aside is as it was.
pub open spec fn next_holds(
    v: StateView,
    before: World,
    w: World,
    c: ReversalClass,
    orig: Option<Seq<u8>>,
) -> bool {
    &&& 0 <= v.next < v.manifest.len()
    &&& v.manifest[v.next].1 == c
    &&& held_at(w.orig, v.manifest[v.next].0) == orig
    &&& held_at(w.quarantine, v.manifest[v.next].0) == held_at(
        before.quarantine,
        v.manifest[v.next].0,
    )
}

/// What holds of an undoing under way: `a` is what it said to do next, `before` how things were at
/// the start, and `w` how they are.
pub open spec fn safe(v: StateView, a: ActionView, before: World, w: World) -> bool {
    &&& kept(before, w)
    &&& changes(a) ==> w.marker
    &&& match v.phase {
        Phase::Start => false,
        Phase::Mounted => a == ActionView::CheckMounted && fresh(v, before, w),
        Phase::Meta => a == ActionView::ReadMeta && fresh(v, before, w),
        Phase::Lock => a == ActionView::Lock && fresh(v, before, w),
        Phase::Generations => a == ActionView::ListGenerations && fresh(v, before, w),
        Phase::Manifest => a is ReadManifest && fresh(v, before, w),
        Phase::Undone => a == ActionView::CheckUndone && informed(v, before, w),
        Phase::ClearStale => a == ActionView::ClearMarker && fresh(v, before, w) && before.undone,
        Phase::Activity => a == ActionView::CheckActivity && informed(v, before, w)
            && !before.undone,
        Phase::Compare => a == ActionView::CompareSnapshot && informed(v, before, w)
            && !before.undone,
        Phase::Marking => a == ActionView::SetMarker && informed(v, before, w) && !before.undone
            && before.current(),
        Phase::Recheck => a == ActionView::CheckMounted && informed(v, before, w)
            && !before.undone && before.current() && w.marker,
        Phase::ClearAbort => a == ActionView::ClearMarker && fresh(v, before, w),
        Phase::Preimage => a == ActionView::ReadPreimage(v.next) && under_way(v, before, w)
            && next_is(v, before, w, ReversalClass::RestoreOrig),
        Phase::WriteOrig => under_way(v, before, w) && next_is(
            v,
            before,
            w,
            ReversalClass::RestoreOrig,
        ) && (a matches ActionView::WriteOrig(i, b) && i == v.next && held_at(
            w.preimages,
            v.manifest[v.next].0,
        ) == Some(b)),
        Phase::Reingest => a == ActionView::Reingest(v.next) && under_way(v, before, w)
            && next_holds(
            v,
            before,
            w,
            ReversalClass::RestoreOrig,
            held_at(w.preimages, v.manifest[v.next].0),
        ) && w.preimages.contains_key(v.manifest[v.next].0),
        Phase::RemoveOrig => a == ActionView::RemoveOrig(v.next) && under_way(v, before, w)
            && next_is(v, before, w, ReversalClass::RemoveOrig),
        Phase::RemoveBacking => a == ActionView::RemoveBacking(v.next) && under_way(v, before, w)
            && next_holds(v, before, w, ReversalClass::RemoveOrig, None),
        Phase::Quarantine => a == ActionView::ReadQuarantine(v.next) && under_way(v, before, w)
            && next_is(v, before, w, ReversalClass::RemoveQuarantine),
        Phase::Snapshot => a == ActionView::ReadSnapshot(v.next) && under_way(v, before, w)
            && next_is(v, before, w, ReversalClass::RemoveQuarantine) && held_at(
            w.quarantine,
            v.manifest[v.next].0,
        ) == Some(v.held),
        Phase::RemoveQuarantine => a == ActionView::RemoveQuarantine(v.next) && under_way(
            v,
            before,
            w,
        ) && next_is(v, before, w, ReversalClass::RemoveQuarantine) && held_at(
            w.quarantine,
            v.manifest[v.next].0,
        ) == held_at(w.snapshots, v.manifest[v.next].0),
        Phase::Underlay => a == ActionView::RestoreUnderlay && under_way(v, before, w) && v.next
            == v.manifest.len(),
        Phase::Clearing => a == ActionView::ClearMarker && restored(v, v.report, before, w)
            && w.marker && !w.undone,
        Phase::WriteUndone => a == ActionView::WriteUndone && restored(v, v.report, before, w)
            && !w.marker && !w.undone,
        Phase::Prune => a == ActionView::PruneDirs && restored(v, v.report, before, w)
            && !w.marker && w.undone,
        Phase::End => {
            ||| a matches ActionView::Finish(r) && !w.marker && untouched(before, w)
                && before.undone && r == UndoView::nothing(r.ts)
            ||| a matches ActionView::Finish(r) && !w.marker && w.undone && restored(
                v,
                r,
                before,
                w,
            )
            ||| a matches ActionView::Refuse(why) && if why is PreimageMissing || why
                is QuarantineDiffers {
                w.marker && w.live == before.live && others_untouched(v, before, w)
            } else {
                untouched(before, w)
            }
        },
    }
}

/// Undoing starts safely.
pub proof fn undoing_starts_safely(v: StateView, w: World)
    requires
        v.phase == Phase::Start,
        v.report == UndoView::nothing(v.report.ts),
    ensures
        v.stepped(UndoEvent::Begin) matches Some(next) && safe(next.0, next.1, w, w),
{
}

proof fn onward_is_safe(v: StateView, before: World, w: World)
    requires
        kept(before, w),
        under_way(v, before, w),
        v.next < v.manifest.len() ==> as_before(before, w, v.manifest[v.next].0),
    ensures
        safe(v.onward().0, v.onward().1, before, w),
    decreases v.manifest.len() - v.next,
{
    if v.next < v.manifest.len() {
        let class = v.manifest[v.next].1;
        if class == ReversalClass::ReportMemory || class == ReversalClass::Noop {
            assert(reverted(v, before, w, v.next));
            let next = if class == ReversalClass::ReportMemory {
                StateView {
                    next: v.next + 1,
                    report: UndoView {
                        memory_manual: v.report.memory_manual.push(v.manifest[v.next].0),
                        ..v.report
                    },
                    ..v
                }
            } else {
                StateView { next: v.next + 1, ..v }
            };
            same_manifest(v, next, before, w);
            assert(tells(next, next.report, next.next));
            onward_is_safe(next, before, w);
        } else {
            let next = v.onward().0;
            same_manifest(v, next, before, w);
        }
    } else {
        same_manifest(v, v.at(Phase::Underlay), before, w);
    }
}

/// What is said of entries depends on the manifest alone.
proof fn same_manifest(v: StateView, u: StateView, before: World, w: World)
    requires
        v.manifest == u.manifest,
    ensures
        others_untouched(v, before, w) == others_untouched(u, before, w),
        forall|i: int| reverted(v, before, w, i) == #[trigger] reverted(u, before, w, i),
        forall|n: int| untouched_from(v, before, w, n) == #[trigger] untouched_from(
            u,
            before,
            w,
            n,
        ),
{
    assert forall|rel: Seq<char>| listed(v, rel) == listed(u, rel) by {}
}

/// A change of one entry leaves the others as they are.
proof fn one_entry_changes(v: StateView, before: World, w: World, after: World)
    requires
        under_way(v, before, w),
        0 <= v.next < v.manifest.len(),
        after.preimages == w.preimages,
        forall|rel: Seq<char>|
            rel != v.manifest[v.next].0 ==> held_at(#[trigger] after.orig, rel) == held_at(
                w.orig,
                rel,
            ) && held_at(after.backing, rel) == held_at(w.backing, rel) && held_at(
                after.quarantine,
                rel,
            ) == held_at(w.quarantine, rel),
    ensures
        others_untouched(v, before, after),
        reverted_up_to(v, before, after, v.next),
        untouched_from(v, before, after, v.next + 1),
{
    let here = v.manifest[v.next].0;
    assert(listed(v, here));
    assert forall|rel: Seq<char>| !(#[trigger] listed(v, rel)) implies held_at(after.orig, rel)
        == held_at(before.orig, rel) && held_at(after.backing, rel) == held_at(before.backing, rel)
        && held_at(after.quarantine, rel) == held_at(before.quarantine, rel) by {
        assert(rel != here);
        assert(held_at(after.orig, rel) == held_at(w.orig, rel));
    }
    assert forall|i: int| 0 <= i < v.next implies #[trigger] reverted(v, before, after, i) by {
        assert(reverted(v, before, w, i));
        let rel = v.manifest[i].0;
        assert(v.manifest[i].0 != v.manifest[v.next].0);
        assert(held_at(after.orig, rel) == held_at(w.orig, rel));
    }
    assert forall|i: int| v.next + 1 <= i < v.manifest.len() implies as_before(
        before,
        after,
        (#[trigger] v.manifest[i]).0,
    ) by {
        let rel = v.manifest[i].0;
        assert(v.manifest[v.next].0 != v.manifest[i].0);
        assert(held_at(after.orig, rel) == held_at(w.orig, rel));
        assert(as_before(before, w, v.manifest[i].0));
    }
}

proof fn past_is_safe(v: StateView, before: World, w: World)
    requires
        kept(before, w),
        under_way(v, before, w),
        0 <= v.next < v.manifest.len(),
        reverted(v, before, w, v.next),
        v.manifest[v.next].1 != ReversalClass::ReportMemory,
        v.manifest[v.next].1 != ReversalClass::Noop,
    ensures
        safe(v.past().0, v.past().1, before, w),
{
    let (rel, class) = v.manifest[v.next];
    let next = StateView {
        next: v.next + 1,
        held: Seq::empty(),
        report: UndoView {
            reversed: v.report.reversed.push((rel, class.name())),
            ..v.report
        },
        ..v
    };
    same_manifest(v, next, before, w);
    assert forall|i: int| 0 <= i < next.next implies #[trigger] reverted(next, before, w, i) by {
        assert(reverted(v, before, w, i));
    }
    assert(tells(next, next.report, next.next));
    onward_is_safe(next, before, w);
}

/// Every step is safe: nothing is changed before the marker is set; an original is put back from
/// what was stashed, or removed, with its archive; a copy that was set aside is removed only where
/// it is the entry of the snapshot; nothing but the entries of the manifest is touched; files of the
/// snapshot that are missing are put back and others left alone; shared directories are not touched; and a run that is noted as undone
/// has all its entries as they were before it, with the marker cleared.
#[verifier::rlimit(80)]
pub proof fn every_step_is_safe(
    v: StateView,
    a: ActionView,
    before: World,
    w: World,
    e: UndoEvent,
)
    requires
        safe(v, a, before, w),
        w.answers(v, a, e),
    ensures
        v.stepped(e) matches Some(next) && safe(next.0, next.1, before, w.after(v, a)),
{
    let after = w.after(v, a);
    match v.phase {
        Phase::Recheck => {
            if let UndoEvent::Mounted(yes) = e {
                if !yes {
                    let u = StateView { next: 0, held: Seq::empty(), ..v };
                    assert(under_way(u, before, w));
                    onward_is_safe(u, before, w);
                }
            }
        },
        Phase::Preimage => {
            same_manifest(v, v.at(Phase::WriteOrig), before, w);
            same_manifest(v, v.at(Phase::End), before, w);
        },
        Phase::WriteOrig => {
            one_entry_changes(v, before, w, after);
            same_manifest(v, v.at(Phase::Reingest), before, after);
        },
        Phase::Reingest => {
            one_entry_changes(v, before, w, after);
            past_is_safe(v, before, after);
        },
        Phase::RemoveOrig => {
            one_entry_changes(v, before, w, after);
            same_manifest(v, v.at(Phase::RemoveBacking), before, after);
        },
        Phase::RemoveBacking => {
            one_entry_changes(v, before, w, after);
            past_is_safe(v, before, after);
        },
        Phase::Quarantine => {
            if let UndoEvent::Bytes(b) = e {
                if b is None {
                    past_is_safe(v, before, after);
                } else {
                    same_manifest(
                        v,
                        StateView { held: b->0@, ..v.at(Phase::Snapshot) },
                        before,
                        after,
                    );
                }
            }
        },
        Phase::Snapshot => {
            same_manifest(v, v.at(Phase::RemoveQuarantine), before, after);
            same_manifest(v, v.at(Phase::End), before, after);
        },
        Phase::RemoveQuarantine => {
            one_entry_changes(v, before, w, after);
            past_is_safe(v, before, after);
        },
        Phase::Underlay => {
            if let UndoEvent::Skipped(rels) = e {
                let u = (v.stepped(e)->0).0;
                same_manifest(v, u, before, after);
                assert(w.current());
                assert(text::texts(rels@) =~= Seq::empty());
                assert forall|i: int| 0 <= i < v.manifest.len() implies #[trigger] reverted(
                    u,
                    before,
                    after,
                    i,
                ) by {
                    assert(reverted(v, before, w, i));
                }
            }
        },
        Phase::Clearing => {
            still_restored(v, v.at(Phase::WriteUndone), v.report, before, w, after);
        },
        Phase::WriteUndone => {
            still_restored(v, v.at(Phase::Prune), v.report, before, w, after);
        },
        Phase::Prune => {
            still_restored(v, v.finished().0, v.report, before, w, after);
        },
        _ => {},
    }
}

proof fn still_restored(
    v: StateView,
    u: StateView,
    r: UndoView,
    before: World,
    w: World,
    after: World,
)
    requires
        restored(v, r, before, w),
        u.manifest == v.manifest,
        after == (World { marker: after.marker, undone: after.undone, ..w }),
    ensures
        restored(u, r, before, after),
{
    same_manifest(v, u, before, after);
    assert forall|i: int| 0 <= i < v.manifest.len() implies #[trigger] reverted(
        u,
        before,
        after,
        i,
    ) by {
        assert(reverted(v, before, w, i));
        assert(reverted(v, before, after, i));
    }
    assert(others_untouched(v, before, after));
}

/// A moment of an undoing: where it is, what it said to do next, and how things are.
pub struct Moment {
    pub state: StateView,
    pub action: ActionView,
    pub world: World,
}

/// Whether `ms` are the moments of an undoing from its first step on, and `es` what came of each
/// step: no step failed, and nothing else changed anything.
pub open spec fn course(name: Seq<char>, start: World, ms: Seq<Moment>, es: Seq<UndoEvent>) -> bool {
    let first = StateView {
        name,
        phase: Phase::Start,
        manifest: Seq::empty(),
        next: 0,
        held: Seq::empty(),
        report: UndoView::nothing(Seq::empty()),
    };
    &&& ms.len() == es.len() + 1
    &&& first.stepped(UndoEvent::Begin) == Some((ms[0].state, ms[0].action))
    &&& ms[0].world == start
    &&& forall|k: int|
        0 <= k < es.len() ==> {
            &&& ms[k].world.answers(ms[k].state, ms[k].action, #[trigger] es[k])
            &&& ms[k].state.stepped(es[k]) == Some((ms[k + 1].state, ms[k + 1].action))
            &&& ms[k + 1].world == ms[k].world.after(ms[k].state, ms[k].action)
        }
}

/// Every moment of an undoing is safe.
pub proof fn every_moment_is_safe(
    name: Seq<char>,
    start: World,
    ms: Seq<Moment>,
    es: Seq<UndoEvent>,
    k: int,
)
    requires
        course(name, start, ms, es),
        0 <= k < ms.len(),
    ensures
        safe(ms[k].state, ms[k].action, start, ms[k].world),
    decreases k,
{
    if k == 0 {
        let first = StateView {
            name,
            phase: Phase::Start,
            manifest: Seq::empty(),
            next: 0,
            held: Seq::empty(),
            report: UndoView::nothing(Seq::empty()),
        };
        undoing_starts_safely(first, start);
    } else {
        every_moment_is_safe(name, start, ms, es, k - 1);
        let m = ms[k - 1];
        assert(m.world.answers(m.state, m.action, es[k - 1]));
        every_step_is_safe(m.state, m.action, start, m.world, es[k - 1]);
        assert(ms[k - 1 + 1] == ms[k]);
    }
}

proof fn only_ends_finish(v: StateView, a: ActionView, before: World, w: World)
    requires
        safe(v, a, before, w),
        a is Finish,
    ensures
        v.phase == Phase::End,
{
}

proof fn onward_refuses_nothing(v: StateView)
    ensures
        !(v.onward().1 is Refuse),
    decreases v.manifest.len() - v.next,
{
    if v.next < v.manifest.len() {
        let class = v.manifest[v.next].1;
        if class == ReversalClass::ReportMemory {
            onward_refuses_nothing(
                StateView {
                    next: v.next + 1,
                    report: UndoView {
                        memory_manual: v.report.memory_manual.push(v.manifest[v.next].0),
                        ..v.report
                    },
                    ..v
                },
            );
        } else if class == ReversalClass::Noop {
            onward_refuses_nothing(StateView { next: v.next + 1, ..v });
        }
    }
}

/// Once entries are being undone, only a stashed original that is missing and a copy that is not the
/// entry of the snapshot stop it.
pub proof fn only_missing_files_stop_it(v: StateView, e: UndoEvent)
    requires
        v.stepped(e) matches Some(next) && next.1 is Refuse,
        v.reversing() || v.phase == Phase::Recheck,
    ensures
        v.phase == Phase::Preimage && e == UndoEvent::Bytes(None) || v.phase == Phase::Snapshot && (
        e matches UndoEvent::Bytes(Some(b)) && b@ != v.held),
{
    let (rel, class) = v.manifest[v.next];
    onward_refuses_nothing(StateView { next: 0, held: Seq::empty(), ..v });
    onward_refuses_nothing(
        StateView {
            next: v.next + 1,
            held: Seq::empty(),
            report: UndoView {
                reversed: v.report.reversed.push((rel, class.name())),
                ..v.report
            },
            ..v
        },
    );
}

/// A run that is noted as undone is not undone again: nothing is reported, no file changes, and a
/// marker that was left over is cleared.
pub proof fn undone_run_stays_undone(
    name: Seq<char>,
    start: World,
    ms: Seq<Moment>,
    es: Seq<UndoEvent>,
)
    requires
        course(name, start, ms, es),
        start.undone,
        ms.last().action is Finish,
    ensures
        ms.last().world == (World { marker: false, ..start }),
        ms.last().action matches ActionView::Finish(r) && r == UndoView::nothing(r.ts),
{
    let k = ms.len() - 1;
    every_moment_is_safe(name, start, ms, es, k);
    only_ends_finish(ms[k].state, ms[k].action, start, ms[k].world);
}

/// The last run is undone only where the name is fit, nothing is mounted, the project was set up with
/// files of its own, there was a run that was finished, nothing seems to be being written and nothing
/// was written since. Each of these is looked at in its turn, and what is wrong is told.
pub proof fn each_check_decides(
    v: StateView,
    flag: String,
    runs: Vec<String>,
    content: String,
    reason: String,
    rels: Vec<String>,
)
    ensures
        v.phase == Phase::Start && !types::valid_name(v.name) ==> (v.stepped(UndoEvent::Begin)
            matches Some(n) && n.1 == ActionView::Refuse(RefusalView::InvalidName)),
        v.phase == Phase::Start && types::valid_name(v.name) ==> (v.stepped(UndoEvent::Begin)
            matches Some(n) && n.1 == ActionView::CheckMounted && n.0.phase == Phase::Mounted),
        v.phase == Phase::Mounted ==> (v.stepped(UndoEvent::Mounted(true)) matches Some(n) && n.1
            == ActionView::Refuse(RefusalView::Mounted)),
        v.phase == Phase::Mounted ==> (v.stepped(UndoEvent::Mounted(false)) matches Some(n) && n.1
            == ActionView::ReadMeta && n.0.phase == Phase::Meta),
        v.phase == Phase::Meta ==> (v.stepped(UndoEvent::Meta(None)) matches Some(n) && n.1
            == ActionView::Refuse(RefusalView::NoMeta)),
        v.phase == Phase::Meta ==> (v.stepped(UndoEvent::Meta(Some((false, flag)))) matches Some(n)
            && n.1 == ActionView::Refuse(RefusalView::NotShadow(flag@))),
        v.phase == Phase::Meta ==> (v.stepped(UndoEvent::Meta(Some((true, flag)))) matches Some(n)
            && n.1 == ActionView::Lock && n.0.phase == Phase::Lock),
        v.phase == Phase::Lock ==> (v.stepped(UndoEvent::Done) matches Some(n) && n.1
            == ActionView::ListGenerations && n.0.phase == Phase::Generations),
        v.phase == Phase::Generations && runs@.len() == 0 ==> (v.stepped(
            UndoEvent::Generations(runs),
        ) matches Some(n) && n.1 == ActionView::Refuse(RefusalView::NoGeneration)),
        v.phase == Phase::Manifest ==> (v.stepped(UndoEvent::Manifest(None)) matches Some(n) && n.1
            == ActionView::Refuse(RefusalView::NoManifest(v.report.ts))),
        v.phase == Phase::Manifest ==> (v.stepped(UndoEvent::Manifest(Some(content)))
            matches Some(n) && match manifest::manifest_read(content@) {
            Ok(entries) => n.1 == ActionView::CheckUndone && n.0.manifest == entries && n.0.phase
                == Phase::Undone && n.0.report == v.report,
            Err(e) => n.1 == ActionView::Refuse(RefusalView::BadManifest(e)),
        }),
        v.phase == Phase::Undone ==> (v.stepped(UndoEvent::Undone(false)) matches Some(n) && n.1
            == ActionView::CheckActivity && n.0 == v.at(Phase::Activity)),
        v.phase == Phase::Activity ==> (v.stepped(UndoEvent::Activity(Some(reason)))
            matches Some(n) && n.1 == ActionView::Refuse(RefusalView::Active(reason@))),
        v.phase == Phase::Activity ==> (v.stepped(UndoEvent::Activity(None)) matches Some(n) && n.1
            == ActionView::CompareSnapshot && n.0 == v.at(Phase::Compare)),
        v.phase == Phase::Compare && rels@.len() > 0 ==> (v.stepped(UndoEvent::Changed(rels))
            matches Some(n) && n.1 == ActionView::Refuse(
            RefusalView::Changed(text::texts(rels@)),
        )),
        v.phase == Phase::Compare && rels@.len() == 0 ==> (v.stepped(UndoEvent::Changed(rels))
            matches Some(n) && n.1 == ActionView::SetMarker && n.0 == v.at(Phase::Marking)),
        v.phase == Phase::Marking ==> (v.stepped(UndoEvent::Done) matches Some(n) && n.1
            == ActionView::CheckMounted && n.0 == v.at(Phase::Recheck)),
        v.phase == Phase::Recheck ==> (v.stepped(UndoEvent::Mounted(true)) matches Some(n) && n.1
            == ActionView::ClearMarker && (n.0.stepped(UndoEvent::Done) matches Some(then)
            && then.1 == ActionView::Refuse(RefusalView::MountedMeanwhile))),
{
}

/// The run that is undone is one of the runs, and where their times are numbers, the one with the
/// greatest number: its manifest is read, and the report will tell its time.
pub proof fn last_run_is_undone(v: StateView, runs: Vec<String>)
    requires
        v.phase == Phase::Generations,
        runs@.len() > 0,
    ensures
        v.stepped(UndoEvent::Generations(runs)) matches Some(n) && (n.1
            matches ActionView::ReadManifest(ts) && {
            &&& text::texts(runs@).contains(ts)
            &&& n.0.report.ts == ts
            &&& n.0.phase == Phase::Manifest
            &&& (forall|i: int| 0 <= i < runs@.len() ==> text::number(#[trigger] runs@[i]@) is Some)
                ==> text::number(ts) is Some && forall|i: int|
                0 <= i < runs@.len() ==> text::number(#[trigger] runs@[i]@)->0 <= text::number(
                    ts,
                )->0
        }),
{
    let all = text::texts(runs@);
    generation::latest_is_one_of_them(all, all.len() as int);
    assert(forall|i: int| 0 <= i < all.len() ==> #[trigger] all[i] == runs@[i]@);
    if forall|i: int| 0 <= i < runs@.len() ==> text::number(#[trigger] runs@[i]@) is Some {
        assert(forall|i: int| 0 <= i < all.len() ==> text::number(#[trigger] all[i]) is Some);
        generation::latest_has_the_greatest_number(all);
        assert forall|i: int| 0 <= i < runs@.len() implies text::number(#[trigger] runs@[i]@)->0
            <= text::number(generation::latest_of(all, all.len() as int)->0)->0 by {
            assert(all[i] == runs@[i]@);
        }
    }
}

/// From an entry on, the first one that can be undone comes next, by what its class says; those before
/// it are left, and the ones that went to a shared directory are told. Where there is none, the files
/// of the snapshot are put back.
pub proof fn next_entry_is_undone_by_its_class(v: StateView, k: int)
    requires
        0 <= v.next <= v.manifest.len(),
    ensures
        ({
            let (u, a) = v.onward();
            &&& v.next <= u.next <= v.manifest.len()
            &&& u.manifest == v.manifest && u.report.reversed == v.report.reversed
            &&& u.next == v.manifest.len() ==> a == ActionView::RestoreUnderlay
            &&& u.next < v.manifest.len() ==> {
                let class = v.manifest[u.next].1;
                ||| class == ReversalClass::RestoreOrig && a == ActionView::ReadPreimage(u.next)
                ||| class == ReversalClass::RemoveOrig && a == ActionView::RemoveOrig(u.next)
                ||| class == ReversalClass::RemoveQuarantine && a == ActionView::ReadQuarantine(
                    u.next,
                )
            }
            &&& v.next <= k < u.next ==> (v.manifest[k].1 == ReversalClass::Noop || (
            v.manifest[k].1 == ReversalClass::ReportMemory && u.report.memory_manual.contains(
                v.manifest[k].0,
            )))
            &&& forall|r: Seq<char>|
                v.report.memory_manual.contains(r) ==> u.report.memory_manual.contains(r)
        }),
    decreases v.manifest.len() - v.next,
{
    if v.next < v.manifest.len() {
        if v.manifest[v.next].1 == ReversalClass::ReportMemory {
            let manual = v.report.memory_manual;
            let rel = v.manifest[v.next].0;
            let w = StateView {
                next: v.next + 1,
                report: UndoView { memory_manual: manual.push(rel), ..v.report },
                ..v
            };
            next_entry_is_undone_by_its_class(w, k);
            assert(w.report.memory_manual[manual.len() as int] == rel);
            assert(w.report.memory_manual.contains(rel));
            assert forall|r: Seq<char>| manual.contains(r) implies #[trigger] v.onward().0
                .report.memory_manual.contains(r) by {
                let i = manual.index_of(r);
                assert(w.report.memory_manual[i] == r);
                assert(w.report.memory_manual.contains(r));
            }
        } else if v.manifest[v.next].1 == ReversalClass::Noop {
            next_entry_is_undone_by_its_class(StateView { next: v.next + 1, ..v }, k);
        }
    }
}

/// An original is put back from its stashed copy and its archive built anew; one that was new is
/// removed with its archive; a copy that was set aside is removed where it is what the snapshot holds.
pub proof fn entry_is_undone_step_by_step(v: StateView, b: Vec<u8>, c: Vec<u8>)
    ensures
        v.phase == Phase::Preimage ==> (v.stepped(UndoEvent::Bytes(Some(b))) matches Some(n) && n.1
            == ActionView::WriteOrig(v.next, b@) && n.0 == v.at(Phase::WriteOrig)),
        v.phase == Phase::Preimage ==> (v.stepped(UndoEvent::Bytes(None)) matches Some(n) && n.1
            == ActionView::Refuse(RefusalView::PreimageMissing(v.next))),
        v.phase == Phase::WriteOrig ==> (v.stepped(UndoEvent::Done) matches Some(n) && n.1
            == ActionView::Reingest(v.next) && n.0 == v.at(Phase::Reingest)),
        v.phase == Phase::RemoveOrig ==> (v.stepped(UndoEvent::Done) matches Some(n) && n.1
            == ActionView::RemoveBacking(v.next) && n.0 == v.at(Phase::RemoveBacking)),
        v.phase == Phase::Quarantine ==> (v.stepped(UndoEvent::Bytes(Some(b))) matches Some(n)
            && n.1 == ActionView::ReadSnapshot(v.next) && (n.0.stepped(
            UndoEvent::Bytes(Some(c)),
        ) matches Some(then) && {
            &&& c@ == b@ ==> then.1 == ActionView::RemoveQuarantine(v.next)
            &&& c@ != b@ ==> then.1 == ActionView::Refuse(
                RefusalView::QuarantineDiffers(v.next),
            )
        })),
{
}

/// An entry that was undone is told with its path and how, and the one behind it is next.
pub proof fn undone_entry_is_told(v: StateView, e: UndoEvent)
    requires
        v.phase == Phase::Reingest || v.phase == Phase::RemoveBacking || v.phase
            == Phase::RemoveQuarantine,
        0 <= v.next < v.manifest.len(),
        e == UndoEvent::Done,
    ensures
        v.stepped(e) matches Some(n) && {
            &&& n.0.report.reversed == v.report.reversed.push(
                (v.manifest[v.next].0, v.manifest[v.next].1.name()),
            )
            &&& v.next < n.0.next
            &&& n.0.manifest == v.manifest
        },
{
    let (rel, class) = v.manifest[v.next];
    let w = StateView {
        next: v.next + 1,
        held: Seq::empty(),
        report: UndoView {
            reversed: v.report.reversed.push((rel, class.name())),
            ..v.report
        },
        ..v
    };
    next_entry_is_undone_by_its_class(w, 0);
}

/// When the files of the snapshot were put back, the marker is cleared, the run is noted as undone,
/// empty directories are removed, and what was undone is given back, with the files that were not put
/// back.
pub proof fn undoing_ends_in_order(v: StateView, rels: Vec<String>)
    requires
        v.phase == Phase::Underlay,
    ensures
        v.stepped(UndoEvent::Skipped(rels)) matches Some(a) && a.1 == ActionView::ClearMarker && (
        a.0.stepped(UndoEvent::Done) matches Some(b) && b.1 == ActionView::WriteUndone && (
        b.0.stepped(UndoEvent::Done) matches Some(c) && c.1 == ActionView::PruneDirs && (
        c.0.stepped(UndoEvent::Done) matches Some(d) && (d.1 matches ActionView::Finish(r) && {
            &&& r.ts == v.report.ts
            &&& r.reversed == v.report.reversed
            &&& r.memory_manual == v.report.memory_manual
            &&& r.skipped_live_changed == text::texts(rels@)
        })))),
{
}

/// A message names the project, and says what it is about.
pub proof fn message_says_what_is_wrong(
    name: Seq<char>,
    first: Seq<char>,
    second: Seq<char>,
    part: Seq<char>,
    i: int,
)
    ensures
        text::stands_in(RefusalView::Mounted.message(name, first, second), name),
        text::stands_in(RefusalView::NoMeta.message(name, first, second), name),
        text::stands_in(RefusalView::NoGeneration.message(name, first, second), name),
        text::stands_in(RefusalView::MountedMeanwhile.message(name, first, second), name),
        text::stands_in(RefusalView::NotShadow(part).message(name, first, second), part),
        text::stands_in(RefusalView::NoManifest(part).message(name, first, second), part),
        text::stands_in(RefusalView::NoManifest(part).message(name, first, second), name),
        text::stands_in(RefusalView::Active(part).message(name, first, second), part),
        text::stands_in(RefusalView::Active(part).message(name, first, second), name),
        text::stands_in(RefusalView::PreimageMissing(i).message(name, first, second), first),
        text::stands_in(RefusalView::QuarantineDiffers(i).message(name, first, second), first),
        text::stands_in(RefusalView::QuarantineDiffers(i).message(name, first, second), second),
{
    let none = Seq::<char>::empty();
    text::part_stands_in(none, name, " 已挂载，拒绝 reconcile-undo；请先卸载后重试"@);
    text::part_stands_in(none, name, " 无提交标记 meta，无法 reconcile-undo（未 apply？）"@);
    text::part_stands_in(none, name, " 无可回退的 reconcile 记录（无任何代次）"@);
    text::part_stands_in(none, name, " 在 undo 准备期间被挂载，已中止；请卸载后重试"@);
    text::part_stands_in(
        "reconcile-undo 仅支持 shadow 后端；"@ + text::debug_text(name) + " 为 "@,
        part,
        "，不适用"@,
    );
    let last = " 无 manifest（该 reconcile run 未完成、不可 undo）；请查 stash 手动恢复"@;
    text::part_stands_in(name + " 最新代次 "@, part, last);
    text::part_stands_in(none, name, " 最新代次 "@ + part + last);
    let idle = "），拒绝 reconcile-undo；确认空闲后重试"@;
    text::part_stands_in(name + " 挂载点疑似活跃（"@, part, idle);
    text::part_stands_in(none, name, " 挂载点疑似活跃（"@ + part + idle);
    text::part_stands_in(
        "RestoreOrig 反做中止：前镜像 "@,
        first,
        " 缺失（绝不静默半还原）；reconciling 标记保留，修复后可重跑"@,
    );
    let lead = "RemoveQuarantine 反做中止：隔离副本 "@;
    let end = " 不符（绝不误删）"@;
    text::part_stands_in(lead, first, " 与快照 "@ + second + end);
    text::part_stands_in(lead + first + " 与快照 "@, second, end);
    assert(none + name + " 已挂载，拒绝 reconcile-undo；请先卸载后重试"@
        =~= RefusalView::Mounted.message(name, first, second));
    assert(none + name + " 无提交标记 meta，无法 reconcile-undo（未 apply？）"@
        =~= RefusalView::NoMeta.message(name, first, second));
    assert(none + name + " 无可回退的 reconcile 记录（无任何代次）"@
        =~= RefusalView::NoGeneration.message(name, first, second));
    assert(none + name + " 在 undo 准备期间被挂载，已中止；请卸载后重试"@
        =~= RefusalView::MountedMeanwhile.message(name, first, second));
    assert(none + name + (" 最新代次 "@ + part + last) =~= RefusalView::NoManifest(part).message(
        name,
        first,
        second,
    ));
    assert(none + name + (" 挂载点疑似活跃（"@ + part + idle) =~= RefusalView::Active(part).message(
        name,
        first,
        second,
    ));
    assert(lead + first + (" 与快照 "@ + second + end) =~= RefusalView::QuarantineDiffers(i).message(
        name,
        first,
        second,
    ));
}

/// After what was undone was told, or why not, nothing more comes.
pub proof fn ended_undoing_goes_no_further(v: StateView, e: UndoEvent)
    ensures
        v.phase == Phase::End ==> v.stepped(e) is None,
{
}

} // verus!
