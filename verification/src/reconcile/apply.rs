//! One entry, step by step: the original is stashed before it is written over, and the entry is
//! removed only once the deletion is permitted.
//!
//! Each step says what to do next; what came of it goes back in. A step that fails ends the entry,
//! and what was done so far stands.
use vstd::prelude::*;
use vstd::string::*;

use super::delete_gate;
use super::memory;
use super::merge;
use super::record;
use super::session_file;
use super::types;
use super::types::{
    EntryPlan, EntryReport, EntrySnapshot, LiveStat, ReportView, ReversalClass, SnapView,
    SupersetMode,
};
use crate::text;

verus! {

/// Where an entry goes to.
#[derive(Debug, Clone, Copy, PartialEq, Eq, Structural)]
pub enum Receiver {
    /// To the original.
    Orig,
    /// To the copy that was set aside.
    Quarantine,
}

/// What to do next.
pub enum ApplyAction {
    /// Merge the entry as one of a subordinate session.
    Subagents,
    /// Send the entry's directory to the shared directory.
    RestoreMemory,
    /// Read the original.
    ReadOrig,
    /// Copy the original to the stash, where there is one.
    StashOrig,
    /// Replace the original by these bytes, at once or not at all.
    WriteOrig(Vec<u8>),
    /// Build the archive of the original anew.
    Reingest,
    /// Look whether there is an archive of the original.
    CheckBacking,
    /// Write the entry's bytes to a copy outside the tree.
    Quarantine,
    /// Read back what the receiver holds.
    ReadReceiver(Receiver),
    /// Ask what the entry is now.
    StatLive,
    /// Remove the entry.
    RemoveLive,
    /// Nothing: this was done.
    Finish(EntryReport),
}

/// What to do next, as a mathematical value.
#[verifier::ext_equal]
pub enum ActionView {
    Subagents,
    RestoreMemory,
    ReadOrig,
    StashOrig,
    WriteOrig(Seq<u8>),
    Reingest,
    CheckBacking,
    Quarantine,
    ReadReceiver(Receiver),
    StatLive,
    RemoveLive,
    Finish(ReportView),
}

impl View for ApplyAction {
    type V = ActionView;

    open spec fn view(&self) -> ActionView {
        match self {
            ApplyAction::Subagents => ActionView::Subagents,
            ApplyAction::RestoreMemory => ActionView::RestoreMemory,
            ApplyAction::ReadOrig => ActionView::ReadOrig,
            ApplyAction::StashOrig => ActionView::StashOrig,
            ApplyAction::WriteOrig(b) => ActionView::WriteOrig(b@),
            ApplyAction::Reingest => ActionView::Reingest,
            ApplyAction::CheckBacking => ActionView::CheckBacking,
            ApplyAction::Quarantine => ActionView::Quarantine,
            ApplyAction::ReadReceiver(r) => ActionView::ReadReceiver(*r),
            ApplyAction::StatLive => ActionView::StatLive,
            ApplyAction::RemoveLive => ActionView::RemoveLive,
            ApplyAction::Finish(r) => ActionView::Finish(r@),
        }
    }
}

/// What came of a step.
pub enum ApplyEvent {
    /// To start with: whether the entry is one of a subordinate session, whether it lies below a
    /// link of the archive, and whether that link is at the top.
    Routed { subagents: bool, passthrough_entry: bool, top_link: bool },
    /// The entry of a subordinate session was merged.
    Reported(EntryReport),
    /// The shared directory was dealt with.
    Restored(Vec<String>),
    /// The bytes that were read.
    Bytes(Vec<u8>),
    /// The path of the stashed copy; none where there was no original.
    Stashed(Option<String>),
    /// It is done.
    Done,
    /// Whether it is there.
    Exists(bool),
    /// The path of the copy that was set aside.
    Quarantined(String),
    /// What the entry is now.
    Live(Option<LiveStat>),
}

/// Which step is under way.
#[derive(Debug, Clone, Copy, PartialEq, Eq, Structural)]
pub enum Phase {
    Start,
    Subagents,
    Memory,
    Base,
    Stash,
    Write,
    Reingest,
    Backing,
    Refill,
    SetAside,
    Receiver,
    Live,
    Remove,
    End,
}

/// An entry on its way.
pub struct Apply {
    /// The entry.
    pub snap: EntrySnapshot,
    /// What is planned for it.
    pub plan: EntryPlan,
    /// The step that is under way.
    pub phase: Phase,
    /// What the original is to hold.
    pub data: Vec<u8>,
    /// Remarks so far.
    pub notes: Vec<String>,
    /// How the entry is undone, as far as is known.
    pub reversal: ReversalClass,
}

/// An entry on its way, as a mathematical value.
#[verifier::ext_equal]
pub struct ApplyView {
    pub snap: SnapView,
    pub plan: EntryPlan,
    pub phase: Phase,
    pub data: Seq<u8>,
    pub notes: Seq<Seq<char>>,
    pub reversal: ReversalClass,
}

impl View for Apply {
    type V = ApplyView;

    open spec fn view(&self) -> ApplyView {
        ApplyView {
            snap: self.snap@,
            plan: self.plan,
            phase: self.phase,
            data: self.data@,
            notes: text::texts(self.notes@),
            reversal: self.reversal,
        }
    }
}

/// The word for a plan in a report.
pub open spec fn kind_of(plan: EntryPlan) -> Seq<char> {
    match plan {
        EntryPlan::Union => "union"@,
        EntryPlan::New => "new"@,
        EntryPlan::Identical => "identical"@,
        EntryPlan::KeepSeparate => "keep-separate"@,
        _ => plan.name(),
    }
}

fn kind_str(plan: EntryPlan) -> (s: &'static str)
    ensures
        s@ == kind_of(plan),
{
    match plan {
        EntryPlan::Union => "union",
        EntryPlan::New => "new",
        EntryPlan::Identical => "identical",
        EntryPlan::KeepSeparate => "keep-separate",
        _ => plan.as_str(),
    }
}

/// When the receiver of a plan holds the entry.
pub open spec fn mode_of(plan: EntryPlan) -> SupersetMode {
    if plan == EntryPlan::Union || plan == EntryPlan::New {
        SupersetMode::LinesSuperset
    } else {
        SupersetMode::ByteEqual
    }
}

/// Where the entry of a plan goes to.
pub open spec fn receiver_of(plan: EntryPlan) -> Receiver {
    if plan == EntryPlan::KeepSeparate {
        Receiver::Quarantine
    } else {
        Receiver::Orig
    }
}

/// The remark on the stashed copy.
pub open spec fn stash_note(rel: Seq<char>, stashed: Option<String>) -> Seq<char> {
    match stashed {
        Some(p) => "stash-preimage="@ + p@,
        None => "orig/"@ + rel + " 不存在，无前镜像可 stash（New 条目）"@,
    }
}

/// The remark on a missing archive.
pub open spec fn refill_note(rel: Seq<char>) -> Seq<char> {
    "backing/"@ + rel + " 缺失（orig 有 backing 缺）→ 降级 reingest 补齐后再删"@
}

/// The remark on a merged file that does not cover the original.
pub open spec fn uncovered_note() -> Seq<char> {
    "合并结果未覆盖 base 全部记录（疑合并核缺陷）→ 中止：不改 orig、不删 underlay，保两份"@
}

/// The remark on an entry that may not be removed.
pub open spec fn kept_note() -> Seq<char> {
    "delete_permitted 未通过（接收方非超集 或 live underlay 自快照已变）：underlay 保留"@
}

/// The remark on a plan that is left to a person.
pub open spec fn deferred_note(plan: EntryPlan) -> Seq<char> {
    plan.name() + " 未在本任务落盘（KeepBoth 待人工/后续），underlay 保留待处理"@
}

impl ApplyView {
    /// The step that comes next.
    pub open spec fn at(&self, phase: Phase) -> ApplyView {
        ApplyView { phase, ..*self }
    }

    /// With one more remark.
    pub open spec fn noting(&self, note: Seq<char>) -> ApplyView {
        ApplyView { notes: self.notes.push(note), ..*self }
    }

    /// What the merged original is to hold, `base` being what it holds.
    pub open spec fn merged(&self, base: Seq<u8>) -> Seq<char> {
        session_file::merged_text(text::lossy_text(base), text::lossy_text(self.snap.bytes))
    }

    /// Whether the merged original covers what it holds now.
    pub open spec fn base_covered(&self, base: Seq<u8>) -> bool {
        merge::covers(
            record::records_of(self.merged(base)),
            record::records_of(text::lossy_text(base)),
        )
    }

    /// The end of an entry that was not removed.
    pub open spec fn kept(&self) -> (ApplyView, ActionView) {
        let v = self.noting(kept_note()).at(Phase::End);
        (v, ActionView::Finish(v.report(kind_of(self.plan) + "-applied+underlay-kept"@)))
    }

    /// The report of a plan that was carried out.
    pub open spec fn report(&self, action: Seq<char>) -> ReportView {
        ReportView {
            name: self.snap.rel,
            decision: kind_of(self.plan),
            action,
            notes: self.notes,
            reversal: self.reversal,
        }
    }

    /// What comes next to start with.
    pub open spec fn routed(&self, subagents: bool, memory: bool) -> (ApplyView, ActionView) {
        if subagents {
            (self.at(Phase::Subagents), ActionView::Subagents)
        } else if memory {
            (self.at(Phase::Memory), ActionView::RestoreMemory)
        } else {
            match self.plan {
                EntryPlan::Union => (self.at(Phase::Base), ActionView::ReadOrig),
                EntryPlan::New => (
                    ApplyView { data: self.snap.bytes, ..self.at(Phase::Stash) },
                    ActionView::StashOrig,
                ),
                EntryPlan::Identical => (self.at(Phase::Backing), ActionView::CheckBacking),
                EntryPlan::KeepSeparate => (self.at(Phase::SetAside), ActionView::Quarantine),
                _ => {
                    let v = ApplyView {
                        reversal: ReversalClass::Noop,
                        ..self.noting(deferred_note(self.plan)).at(Phase::End)
                    };
                    (v, ActionView::Finish(v.report("deferred"@)))
                },
            }
        }
    }

    /// What comes next when the original was read: the merged file where it covers the original,
    /// else nothing.
    pub open spec fn based(&self, base: Seq<u8>) -> (ApplyView, ActionView) {
        if self.base_covered(base) {
            (
                ApplyView { data: text::utf8(self.merged(base)), ..self.at(Phase::Stash) },
                ActionView::StashOrig,
            )
        } else {
            let v = ApplyView {
                reversal: ReversalClass::Noop,
                ..self.noting(uncovered_note()).at(Phase::End)
            };
            (v, ActionView::Finish(v.report("aborted-base-not-covered"@)))
        }
    }

    /// What comes next; nothing where the event is not one of the step under way.
    pub open spec fn stepped(&self, e: ApplyEvent) -> Option<(ApplyView, ActionView)> {
        match (self.phase, e) {
            (
                Phase::Start,
                ApplyEvent::Routed { subagents, passthrough_entry, top_link },
            ) => Some(
                self.routed(
                    subagents,
                    (self.plan == EntryPlan::Passthrough || passthrough_entry) && top_link,
                ),
            ),
            (Phase::Subagents, ApplyEvent::Reported(r)) => Some(
                (self.at(Phase::End), ActionView::Finish(r@)),
            ),
            (Phase::Memory, ApplyEvent::Restored(notes)) => {
                let v = self.at(Phase::End);
                Some((v, ActionView::Finish(memory::report_of(self.snap.rel, text::texts(notes@)))))
            },
            (Phase::Base, ApplyEvent::Bytes(base)) => Some(self.based(base@)),
            (Phase::Stash, ApplyEvent::Stashed(p)) => Some(
                (
                    ApplyView {
                        data: Seq::empty(),
                        reversal: types::preimage_class(p is Some),
                        ..self.noting(stash_note(self.snap.rel, p)).at(Phase::Write)
                    },
                    ActionView::WriteOrig(self.data),
                ),
            ),
            (Phase::Write, ApplyEvent::Done) => Some(
                (self.at(Phase::Reingest), ActionView::Reingest),
            ),
            (Phase::Reingest, ApplyEvent::Done) => Some(
                (self.at(Phase::Receiver), ActionView::ReadReceiver(receiver_of(self.plan))),
            ),
            (Phase::Backing, ApplyEvent::Exists(there)) => if there {
                Some((self.at(Phase::Receiver), ActionView::ReadReceiver(receiver_of(self.plan))))
            } else {
                Some(
                    (
                        self.noting(refill_note(self.snap.rel)).at(Phase::Refill),
                        ActionView::Reingest,
                    ),
                )
            },
            (Phase::Refill, ApplyEvent::Done) => Some(
                (self.at(Phase::Receiver), ActionView::ReadReceiver(receiver_of(self.plan))),
            ),
            (Phase::SetAside, ApplyEvent::Quarantined(p)) => Some(
                (
                    ApplyView {
                        reversal: ReversalClass::RemoveQuarantine,
                        ..self.noting("quarantine="@ + p@).at(Phase::Receiver)
                    },
                    ActionView::ReadReceiver(receiver_of(self.plan)),
                ),
            ),
            (Phase::Receiver, ApplyEvent::Bytes(b)) => if delete_gate::holds(
                b@,
                self.snap.bytes,
                mode_of(self.plan),
            ) {
                Some((self.at(Phase::Live), ActionView::StatLive))
            } else {
                Some(self.kept())
            },
            (Phase::Live, ApplyEvent::Live(stat)) => if delete_gate::unchanged(stat, self.snap) {
                Some((self.at(Phase::Remove), ActionView::RemoveLive))
            } else {
                Some(self.kept())
            },
            (Phase::Remove, ApplyEvent::Done) => {
                let v = self.at(Phase::End);
                Some(
                    (
                        v,
                        ActionView::Finish(
                            v.report(kind_of(self.plan) + "-applied+underlay-removed"@),
                        ),
                    ),
                )
            },
            _ => None,
        }
    }
}

impl Apply {
    /// An entry that was planned for.
    pub fn new(snap: EntrySnapshot, plan: EntryPlan) -> (a: Apply)
        ensures
            a@ == (ApplyView {
                snap: snap@,
                plan,
                phase: Phase::Start,
                data: Seq::empty(),
                notes: Seq::empty(),
                reversal: ReversalClass::Noop,
            }),
    {
        let a: Apply = Apply {
            snap,
            plan,
            phase: Phase::Start,
            data: Vec::new(),
            notes: Vec::new(),
            reversal: ReversalClass::Noop,
        };
        assert(a@.notes =~= Seq::empty());
        a
    }

    fn note(&mut self, note: String)
        ensures
            final(self)@ == old(self)@.noting(note@),
    {
        let ghost before = self@;
        self.notes.push(note);
        assert(self@.notes =~= before.notes.push(note@));
    }

    /// Takes the remarks out and reports.
    fn finish(&mut self, action: String) -> (r: ApplyAction)
        ensures
            final(self)@ == (ApplyView { phase: Phase::End, notes: Seq::empty(), ..old(self)@ }),
            r@ == ActionView::Finish(old(self)@.report(action@)),
    {
        self.phase = Phase::End;
        let mut notes: Vec<String> = Vec::new();
        std::mem::swap(&mut notes, &mut self.notes);
        let name: String = self.snap.rel.clone();
        assert(self@.notes =~= Seq::empty());
        ApplyAction::Finish(
            EntryReport {
                name,
                decision: text::copy_str(kind_str(self.plan)),
                action,
                notes,
                reversal: self.reversal,
            },
        )
    }

    fn keep(&mut self) -> (r: ApplyAction)
        ensures
            final(self)@ == (ApplyView { notes: Seq::empty(), ..old(self)@.kept().0 }),
            r@ == old(self)@.kept().1,
    {
        let mut action: String = text::copy_str(kind_str(self.plan));
        action.append("-applied+underlay-kept");
        self.note(
            text::copy_str(
                "delete_permitted 未通过（接收方非超集 或 live underlay 自快照已变）：underlay 保留",
            ),
        );
        self.finish(action)
    }

    fn route(&mut self, subagents: bool, memory: bool) -> (r: ApplyAction)
        requires
            old(self)@.phase == Phase::Start,
        ensures
            ({
                let (v, a) = old(self)@.routed(subagents, memory);
                &&& final(self)@ == v.spent()
                &&& r@ == a
            }),
    {
        if subagents {
            self.phase = Phase::Subagents;
            return ApplyAction::Subagents;
        }
        if memory {
            self.phase = Phase::Memory;
            return ApplyAction::RestoreMemory;
        }
        match self.plan {
            EntryPlan::Union => {
                self.phase = Phase::Base;
                ApplyAction::ReadOrig
            },
            EntryPlan::New => {
                self.data = crate::archive::wire::copy_range(
                    &self.snap.bytes,
                    0,
                    self.snap.bytes.len(),
                );
                assert(self@.data =~= self@.snap.bytes);
                self.phase = Phase::Stash;
                ApplyAction::StashOrig
            },
            EntryPlan::Identical => {
                self.phase = Phase::Backing;
                ApplyAction::CheckBacking
            },
            EntryPlan::KeepSeparate => {
                self.phase = Phase::SetAside;
                ApplyAction::Quarantine
            },
            _ => {
                let mut note: String = text::copy_str(self.plan.as_str());
                note.append(" 未在本任务落盘（KeepBoth 待人工/后续），underlay 保留待处理");
                self.note(note);
                self.reversal = ReversalClass::Noop;
                self.finish(text::copy_str("deferred"))
            },
        }
    }

    fn base(&mut self, base: Vec<u8>) -> (r: ApplyAction)
        requires
            old(self)@.phase == Phase::Base,
        ensures
            ({
                let (v, a) = old(self)@.based(base@);
                &&& final(self)@ == v.spent()
                &&& r@ == a
            }),
    {
        let ours: String = text::from_lossy(&base);
        let theirs: String = text::from_lossy(&self.snap.bytes);
        let merged: String = session_file::merge_texts(ours.as_str(), theirs.as_str());
        if !merge::base_covered_by_merged(ours.as_str(), merged.as_str()) {
            self.note(
                text::copy_str(
                    "合并结果未覆盖 base 全部记录（疑合并核缺陷）→ 中止：不改 orig、不删 underlay，保两份",
                ),
            );
            self.reversal = ReversalClass::Noop;
            return self.finish(text::copy_str("aborted-base-not-covered"));
        }
        self.data = text::bytes_of(merged.as_str());
        self.phase = Phase::Stash;
        ApplyAction::StashOrig
    }

    fn read_receiver(&mut self) -> (r: ApplyAction)
        ensures
            final(self)@ == old(self)@.at(Phase::Receiver),
            r@ == ActionView::ReadReceiver(receiver_of(old(self)@.plan)),
    {
        self.phase = Phase::Receiver;
        ApplyAction::ReadReceiver(
            if self.plan == EntryPlan::KeepSeparate {
                Receiver::Quarantine
            } else {
                Receiver::Orig
            },
        )
    }

    /// Takes in what came of the step under way, and says what to do next. Nothing comes of an
    /// event that is not one of that step.
    pub fn step(&mut self, e: ApplyEvent) -> (r: Option<ApplyAction>)
        ensures
            match old(self)@.stepped(e) {
                Some((v, a)) => {
                    &&& final(self)@ == v.spent()
                    &&& r matches Some(x) && x@ == a
                },
                None => r is None && final(self)@ == old(self)@,
            },
    {
        match (self.phase, e) {
            (Phase::Start, ApplyEvent::Routed { subagents, passthrough_entry, top_link }) => Some(
                self.route(
                    subagents,
                    (self.plan == EntryPlan::Passthrough || passthrough_entry) && top_link,
                ),
            ),
            (Phase::Subagents, ApplyEvent::Reported(r)) => {
                self.phase = Phase::End;
                self.notes = Vec::new();
                assert(self@.notes =~= Seq::empty());
                Some(ApplyAction::Finish(r))
            },
            (Phase::Memory, ApplyEvent::Restored(notes)) => {
                self.phase = Phase::End;
                self.notes = Vec::new();
                assert(self@.notes =~= Seq::empty());
                let rel: String = self.snap.rel.clone();
                Some(ApplyAction::Finish(memory::report(rel, notes)))
            },
            (Phase::Base, ApplyEvent::Bytes(base)) => Some(self.base(base)),
            (Phase::Stash, ApplyEvent::Stashed(p)) => {
                let mut note: String = String::new();
                match &p {
                    Some(path) => {
                        note.append("stash-preimage=");
                        note.append(path.as_str());
                    },
                    None => {
                        note.append("orig/");
                        note.append(self.snap.rel.as_str());
                        note.append(" 不存在，无前镜像可 stash（New 条目）");
                    },
                }
                assert(note@ =~= stash_note(self@.snap.rel, p));
                self.note(note);
                self.reversal = types::reversal_for_preimage(p.is_some());
                self.phase = Phase::Write;
                let mut data: Vec<u8> = Vec::new();
                std::mem::swap(&mut data, &mut self.data);
                assert(self@.data =~= Seq::empty());
                Some(ApplyAction::WriteOrig(data))
            },
            (Phase::Write, ApplyEvent::Done) => {
                self.phase = Phase::Reingest;
                Some(ApplyAction::Reingest)
            },
            (Phase::Reingest, ApplyEvent::Done) => Some(self.read_receiver()),
            (Phase::Backing, ApplyEvent::Exists(there)) => {
                if there {
                    Some(self.read_receiver())
                } else {
                    let mut note: String = text::copy_str("backing/");
                    note.append(self.snap.rel.as_str());
                    note.append(" 缺失（orig 有 backing 缺）→ 降级 reingest 补齐后再删");
                    assert(note@ =~= refill_note(self@.snap.rel));
                    self.note(note);
                    self.phase = Phase::Refill;
                    Some(ApplyAction::Reingest)
                }
            },
            (Phase::Refill, ApplyEvent::Done) => Some(self.read_receiver()),
            (Phase::SetAside, ApplyEvent::Quarantined(p)) => {
                let mut note: String = text::copy_str("quarantine=");
                note.append(p.as_str());
                self.note(note);
                self.reversal = ReversalClass::RemoveQuarantine;
                Some(self.read_receiver())
            },
            (Phase::Receiver, ApplyEvent::Bytes(b)) => {
                let mode: SupersetMode = if self.plan == EntryPlan::Union || self.plan
                    == EntryPlan::New {
                    SupersetMode::LinesSuperset
                } else {
                    SupersetMode::ByteEqual
                };
                if delete_gate::durable_superset_ok(&b, &self.snap.bytes, mode) {
                    self.phase = Phase::Live;
                    Some(ApplyAction::StatLive)
                } else {
                    Some(self.keep())
                }
            },
            (Phase::Live, ApplyEvent::Live(stat)) => {
                if delete_gate::live_entry_unchanged(stat, &self.snap) {
                    self.phase = Phase::Remove;
                    Some(ApplyAction::RemoveLive)
                } else {
                    Some(self.keep())
                }
            },
            (Phase::Remove, ApplyEvent::Done) => {
                let mut action: String = text::copy_str(kind_str(self.plan));
                action.append("-applied+underlay-removed");
                Some(self.finish(action))
            },
            _ => None,
        }
    }
}

impl ApplyView {
    /// At the end the remarks are in the report.
    pub open spec fn spent(&self) -> ApplyView {
        if self.phase == Phase::End {
            ApplyView { notes: Seq::empty(), ..*self }
        } else {
            *self
        }
    }
}

/// What the steps of an entry act on.
#[verifier::ext_equal]
pub struct World {
    /// What the original holds.
    pub orig: Option<Seq<u8>>,
    /// What was stashed of it.
    pub stash: Option<Seq<u8>>,
    /// What the archive of it holds.
    pub backing: Option<Seq<u8>>,
    /// The copy that was set aside.
    pub quarantine: Option<Seq<u8>>,
    /// What the entry is.
    pub live: Option<LiveStat>,
}

impl World {
    /// What a receiver holds.
    pub open spec fn received(&self, r: Receiver) -> Option<Seq<u8>> {
        match r {
            Receiver::Orig => self.orig,
            Receiver::Quarantine => self.quarantine,
        }
    }

    /// What a step makes of it; the steps that hand the entry on to something else are not
    /// described.
    pub open spec fn after(&self, snap: SnapView, a: ActionView) -> World {
        match a {
            ActionView::StashOrig => World {
                stash: if self.orig is Some {
                    self.orig
                } else {
                    self.stash
                },
                ..*self
            },
            ActionView::WriteOrig(b) => World { orig: Some(b), ..*self },
            ActionView::Reingest => World { backing: self.orig, ..*self },
            ActionView::Quarantine => World { quarantine: Some(snap.bytes), ..*self },
            ActionView::RemoveLive => World { live: None, ..*self },
            _ => *self,
        }
    }

    /// Whether an event is what a step that succeeds tells.
    pub open spec fn answers(&self, a: ActionView, e: ApplyEvent) -> bool {
        match a {
            ActionView::ReadOrig => e matches ApplyEvent::Bytes(b) && self.orig == Some(b@),
            ActionView::StashOrig => e matches ApplyEvent::Stashed(p) && (p is Some
                <==> self.orig is Some),
            ActionView::WriteOrig(_) => e is Done,
            ActionView::Reingest => e is Done && self.orig is Some,
            ActionView::CheckBacking => e == ApplyEvent::Exists(self.backing is Some),
            ActionView::Quarantine => e is Quarantined,
            ActionView::ReadReceiver(r) => e matches ApplyEvent::Bytes(b) && self.received(r)
                == Some(b@),
            ActionView::StatLive => e == ApplyEvent::Live(self.live),
            ActionView::RemoveLive => e is Done,
            _ => false,
        }
    }
}

/// Whether the bytes may take the place of the original: a new one is the entry itself, and a
/// merged one covers what the original held.
pub open spec fn rightful(plan: EntryPlan, snap: SnapView, before: World, b: Seq<u8>) -> bool {
    match plan {
        EntryPlan::New => b == snap.bytes,
        EntryPlan::Union => exists|merged: Seq<char>|
            {
                &&& #[trigger] text::utf8(merged) == b
                &&& before.orig is Some
                &&& merge::covers(
                    record::records_of(merged),
                    record::records_of(text::lossy_text(before.orig->0)),
                )
            },
        _ => false,
    }
}

/// Whether the original is as it was, or was rightly replaced with its former content in the
/// stash.
pub open spec fn orig_kept(v: ApplyView, before: World, w: World) -> bool {
    ||| w.orig == before.orig
    ||| {
        &&& w.orig is Some
        &&& rightful(v.plan, v.snap, before, w.orig->0)
        &&& before.orig is Some ==> w.stash == before.orig
    }
}

/// Whether the receiver holds the entry.
pub open spec fn entry_received(v: ApplyView, w: World) -> bool {
    &&& w.received(receiver_of(v.plan)) is Some
    &&& delete_gate::holds(
        w.received(receiver_of(v.plan))->0,
        v.snap.bytes,
        mode_of(v.plan),
    )
}

/// Whether the entry is as it was, or was removed rightly: its receiver holds it, and it was still
/// the one of the snapshot.
pub open spec fn entry_kept(v: ApplyView, before: World, w: World) -> bool {
    ||| w.live == before.live
    ||| {
        &&& w.live is None
        &&& entry_received(v, w)
        &&& delete_gate::unchanged(before.live, v.snap)
    }
}

/// Whether a class tells how to undo what was done: an original that was written over is in the
/// stash, one that was not there was made, a copy was set aside, or neither of them changed.
pub open spec fn undo_told(snap: SnapView, before: World, w: World, c: ReversalClass) -> bool {
    match c {
        ReversalClass::RestoreOrig => before.orig is Some && w.stash == before.orig && w.quarantine
            == before.quarantine,
        ReversalClass::RemoveOrig => before.orig is None && w.quarantine == before.quarantine,
        ReversalClass::RemoveQuarantine => w.orig == before.orig && w.quarantine == Some(
            snap.bytes,
        ),
        ReversalClass::ReportMemory => false,
        ReversalClass::Noop => w.orig == before.orig && w.quarantine == before.quarantine,
    }
}

/// What holds of an entry under way: `a` is what it said to do next, `before` how things were when
/// it started, and `w` how they are.
pub open spec fn safe(v: ApplyView, a: ActionView, before: World, w: World) -> bool {
    &&& orig_kept(v, before, w)
    &&& entry_kept(v, before, w)
    &&& match v.phase {
        Phase::Start => false,
        Phase::Subagents => false,
        Phase::Memory => false,
        Phase::Base => a == ActionView::ReadOrig && v.plan == EntryPlan::Union && w == before,
        Phase::Stash => a == ActionView::StashOrig && w == before && rightful(
            v.plan,
            v.snap,
            before,
            v.data,
        ),
        Phase::Write => {
            &&& a matches ActionView::WriteOrig(b) && rightful(v.plan, v.snap, before, b)
            &&& w == before.after(v.snap, ActionView::StashOrig)
            &&& v.reversal == types::preimage_class(before.orig is Some)
        },
        Phase::Reingest => {
            &&& a == ActionView::Reingest
            &&& w.live == before.live
            &&& v.plan == EntryPlan::Union || v.plan == EntryPlan::New
            &&& undo_told(v.snap, before, w, v.reversal)
        },
        Phase::Backing => a == ActionView::CheckBacking && v.plan == EntryPlan::Identical && w
            == before && v.reversal == ReversalClass::Noop,
        Phase::Refill => a == ActionView::Reingest && v.plan == EntryPlan::Identical && w == before
            && v.reversal == ReversalClass::Noop,
        Phase::SetAside => a == ActionView::Quarantine && v.plan == EntryPlan::KeepSeparate && w
            == before,
        Phase::Receiver => a == ActionView::ReadReceiver(receiver_of(v.plan)) && w.live
            == before.live && undo_told(v.snap, before, w, v.reversal),
        Phase::Live => a == ActionView::StatLive && w.live == before.live && undo_told(
            v.snap,
            before,
            w,
            v.reversal,
        ) && entry_received(v, w),
        Phase::Remove => a == ActionView::RemoveLive && w.live == before.live && undo_told(
            v.snap,
            before,
            w,
            v.reversal,
        ) && entry_received(v, w) && delete_gate::unchanged(before.live, v.snap),
        Phase::End => a matches ActionView::Finish(r) && r.name == v.snap.rel && undo_told(
            v.snap,
            before,
            w,
            r.reversal,
        ),
    }
}

/// An entry that is not handed on starts safely.
pub proof fn entry_starts_safely(v: ApplyView, e: ApplyEvent, w: World)
    requires
        v.phase == Phase::Start,
        v.reversal == ReversalClass::Noop,
        e is Routed,
        v.stepped(e) matches Some(next) && next.1 != ActionView::Subagents && next.1
            != ActionView::RestoreMemory,
    ensures
        v.stepped(e) matches Some(next) && safe(next.0, next.1, w, w),
{
}

/// Every step keeps an entry safe: the original is as it was, or was replaced by something that
/// covers it with its former content in the stash; the entry is as it was, or was removed with its
/// receiver holding it and no change since the snapshot; and the report tells how to undo it.
pub proof fn every_step_is_safe(
    v: ApplyView,
    a: ActionView,
    before: World,
    w: World,
    e: ApplyEvent,
)
    requires
        safe(v, a, before, w),
        w.answers(a, e),
    ensures
        v.stepped(e) matches Some(next) && safe(next.0, next.1, before, w.after(v.snap, a)),
{
    let after = w.after(v.snap, a);
    if v.phase == Phase::Base {
        if let ApplyEvent::Bytes(b) = e {
            if v.base_covered(b@) {
                let merged = v.merged(b@);
                let data = text::utf8(merged);
                assert(merge::covers(
                    record::records_of(merged),
                    record::records_of(text::lossy_text(before.orig->0)),
                ));
                assert(rightful(v.plan, v.snap, before, data));
            }
        }
    }
}

/// Setting an entry aside, and an entry that is the original, leave the original alone.
pub proof fn only_merging_changes_the_original(
    v: ApplyView,
    a: ActionView,
    before: World,
    w: World,
)
    requires
        safe(v, a, before, w),
        v.plan != EntryPlan::Union,
        v.plan != EntryPlan::New,
    ensures
        w.orig == before.orig,
{
}

/// What a run did to an original can be undone by its report: putting back what was stashed, or
/// removing what was not there, gives the original as it was.
pub proof fn report_undoes_the_original(v: ApplyView, a: ActionView, before: World, w: World)
    requires
        safe(v, a, before, w),
        v.phase == Phase::End,
    ensures
        a matches ActionView::Finish(r) && {
            ||| w.orig == before.orig
            ||| r.reversal == ReversalClass::RestoreOrig && before.orig is Some && w.stash
                == before.orig
            ||| r.reversal == ReversalClass::RemoveOrig && before.orig is None
        },
{
}

/// A moment of an entry: where it is, what it said to do next, and how things are.
pub struct Moment {
    pub state: ApplyView,
    pub action: ActionView,
    pub world: World,
}

/// An entry that was planned for and is not begun.
pub open spec fn planned(snap: SnapView, plan: EntryPlan) -> ApplyView {
    ApplyView {
        snap,
        plan,
        phase: Phase::Start,
        data: Seq::empty(),
        notes: Seq::empty(),
        reversal: ReversalClass::Noop,
    }
}

/// Whether an entry is handed on to something else.
pub open spec fn handed_on(snap: SnapView, plan: EntryPlan, routed: ApplyEvent) -> bool {
    planned(snap, plan).stepped(routed) matches Some(next) && (next.1 == ActionView::Subagents
        || next.1 == ActionView::RestoreMemory)
}

/// Whether `ms` are the moments of an entry from its first step on, and `es` what came of each
/// step: no step failed, and nothing else changed anything.
pub open spec fn course(
    snap: SnapView,
    plan: EntryPlan,
    routed: ApplyEvent,
    ms: Seq<Moment>,
    es: Seq<ApplyEvent>,
) -> bool {
    &&& routed is Routed
    &&& !handed_on(snap, plan, routed)
    &&& ms.len() == es.len() + 1
    &&& planned(snap, plan).stepped(routed) matches Some(next) && ms[0].state == next.0.spent()
        && ms[0].action == next.1
    &&& forall|k: int|
        0 <= k < es.len() ==> {
            &&& ms[k].world.answers(ms[k].action, #[trigger] es[k])
            &&& ms[k].state.stepped(es[k]) matches Some(next) && ms[k + 1].state == next.0.spent()
                && ms[k + 1].action == next.1
            &&& ms[k + 1].world == ms[k].world.after(ms[k].state.snap, ms[k].action)
        }
}

/// Every moment of an entry is safe.
pub proof fn every_moment_is_safe(
    snap: SnapView,
    plan: EntryPlan,
    routed: ApplyEvent,
    ms: Seq<Moment>,
    es: Seq<ApplyEvent>,
    k: int,
)
    requires
        course(snap, plan, routed, ms, es),
        0 <= k < ms.len(),
    ensures
        safe(ms[k].state, ms[k].action, ms[0].world, ms[k].world),
        ms[k].state.snap == snap,
        ms[k].state.plan == plan,
    decreases k,
{
    if k == 0 {
        entry_starts_safely(planned(snap, plan), routed, ms[0].world);
    } else {
        every_moment_is_safe(snap, plan, routed, ms, es, k - 1);
        let m = ms[k - 1];
        assert(m.world.answers(m.action, es[k - 1]));
        every_step_is_safe(m.state, m.action, ms[0].world, m.world, es[k - 1]);
        assert(ms[k - 1 + 1] == ms[k]);
    }
}

/// The word for a plan that is carried out.
pub open spec fn word(plan: EntryPlan) -> Seq<char> {
    match plan {
        EntryPlan::Union => "union"@,
        EntryPlan::New => "new"@,
        EntryPlan::Identical => "identical"@,
        EntryPlan::KeepSeparate => "keep-separate"@,
        EntryPlan::KeepBoth => "KeepBoth"@,
        EntryPlan::Passthrough => "Passthrough"@,
    }
}

/// What is planned for an entry says what is done first: a subordinate session is merged whatever was
/// planned, what lies behind a link at the top goes to the shared directory, and otherwise an entry to
/// merge has its original read, a new one has the place of its original looked at, one that is the
/// original has its archive looked for, one to set aside is set aside, and the others are left.
pub proof fn plan_says_what_is_done_first(
    snap: SnapView,
    plan: EntryPlan,
    behind: bool,
    top: bool,
)
    ensures
        ({
            let v = planned(snap, plan);
            let own = v.stepped(
                ApplyEvent::Routed { subagents: false, passthrough_entry: behind, top_link: top },
            );
            let sub = v.stepped(
                ApplyEvent::Routed { subagents: true, passthrough_entry: behind, top_link: top },
            );
            let shared = (behind || plan == EntryPlan::Passthrough) && top;
            &&& sub matches Some(next) && next.1 == ActionView::Subagents
            &&& own matches Some(next) && {
                &&& shared ==> next.1 == ActionView::RestoreMemory
                &&& !shared ==> {
                    &&& plan == EntryPlan::Union ==> next.1 == ActionView::ReadOrig
                    &&& plan == EntryPlan::New ==> next.1 == ActionView::StashOrig && next.0.data
                        == snap.bytes
                    &&& plan == EntryPlan::Identical ==> next.1 == ActionView::CheckBacking
                    &&& plan == EntryPlan::KeepSeparate ==> next.1 == ActionView::Quarantine
                    &&& plan == EntryPlan::KeepBoth || plan == EntryPlan::Passthrough ==> (next.1
                        matches ActionView::Finish(r) && {
                        &&& r.name == snap.rel
                        &&& r.decision == word(plan)
                        &&& r.action == "deferred"@
                        &&& r.reversal == ReversalClass::Noop
                        &&& r.notes.len() == 1
                    })
                }
            }
        }),
{
}

/// An entry is merged into its original where the merged file covers the original; where it does not,
/// nothing is done and nothing is to be undone.
pub proof fn original_is_merged_where_it_is_covered(v: ApplyView, base: Vec<u8>)
    requires
        v.phase == Phase::Base,
    ensures
        ({
            let merged = session_file::merged_text(
                text::lossy_text(base@),
                text::lossy_text(v.snap.bytes),
            );
            let covered = merge::covers(
                record::records_of(merged),
                record::records_of(text::lossy_text(base@)),
            );
            v.stepped(ApplyEvent::Bytes(base)) matches Some(next) && {
                &&& covered ==> next.1 == ActionView::StashOrig && next.0.data == text::utf8(merged)
                &&& !covered ==> (next.1 matches ActionView::Finish(r) && r.action
                    == "aborted-base-not-covered"@ && r.reversal == ReversalClass::Noop && r.name
                    == v.snap.rel && r.decision == word(v.plan))
            }
        }),
{
}

/// An original is written over only after it was stashed, with what was made ready for it; the report
/// will tell to put it back, or to remove it where there was none, and names the stashed copy.
pub proof fn original_is_stashed_then_written(v: ApplyView, p: Option<String>)
    requires
        v.phase == Phase::Stash,
    ensures
        v.stepped(ApplyEvent::Stashed(p)) matches Some(next) && {
            &&& next.1 == ActionView::WriteOrig(v.data)
            &&& p is Some ==> next.0.reversal == ReversalClass::RestoreOrig
            &&& p is None ==> next.0.reversal == ReversalClass::RemoveOrig
            &&& p matches Some(path) ==> next.0.notes == v.notes.push("stash-preimage="@ + path@)
            &&& next.0.snap == v.snap && next.0.plan == v.plan
            &&& next.0.stepped(ApplyEvent::Done) matches Some(then) && then.1
                == ActionView::Reingest && then.0.reversal == next.0.reversal && (
            then.0.stepped(ApplyEvent::Done) matches Some(last) && last.0.reversal
                == next.0.reversal && last.1 == ActionView::ReadReceiver(
                if v.plan == EntryPlan::KeepSeparate {
                    Receiver::Quarantine
                } else {
                    Receiver::Orig
                },
            ))
        },
{
}

/// An entry that is the original is not written anywhere; a missing archive is made first. One that
/// was set aside is looked for where it was set aside, and the copy is what is to be undone.
pub proof fn receiver_is_looked_at_before_removing(v: ApplyView, p: String)
    ensures
        v.phase == Phase::Backing ==> (v.stepped(ApplyEvent::Exists(true)) matches Some(next)
            && next.1 is ReadReceiver && next.0.reversal == v.reversal && next.0.notes == v.notes),
        v.phase == Phase::Backing ==> (v.stepped(ApplyEvent::Exists(false)) matches Some(next)
            && next.1 == ActionView::Reingest && next.0.reversal == v.reversal && (next.0.stepped(
            ApplyEvent::Done,
        ) matches Some(then) && then.1 is ReadReceiver)),
        v.phase == Phase::SetAside && v.plan == EntryPlan::KeepSeparate ==> (v.stepped(
            ApplyEvent::Quarantined(p),
        ) matches Some(next) && next.1 == ActionView::ReadReceiver(Receiver::Quarantine)
            && next.0.reversal == ReversalClass::RemoveQuarantine && next.0.notes == v.notes.push(
            "quarantine="@ + p@,
        )),
{
}

/// An entry is removed where its receiver holds it and it is the file of the snapshot, and in no other
/// case: a merged or new one must be there line by line, any other byte for byte. What is not removed
/// is kept, and either is told.
pub proof fn entry_is_removed_only_where_it_is_held_and_unchanged(
    v: ApplyView,
    b: Vec<u8>,
    live: Option<LiveStat>,
)
    ensures
        ({
            let by_lines = v.plan == EntryPlan::Union || v.plan == EntryPlan::New;
            let held = if by_lines {
                delete_gate::lines_covered(b@, v.snap.bytes)
            } else {
                b@ == v.snap.bytes
            };
            let same = live == Some(
                LiveStat { mtime: Some(v.snap.mtime), size: v.snap.size, ino: v.snap.ino },
            );
            let kept = word(v.plan) + "-applied+underlay-kept"@;
            let removed = word(v.plan) + "-applied+underlay-removed"@;
            &&& v.phase == Phase::Receiver ==> (v.stepped(ApplyEvent::Bytes(b)) matches Some(next)
                && {
                &&& held ==> next.1 == ActionView::StatLive && next.0.reversal == v.reversal
                &&& !held ==> (next.1 matches ActionView::Finish(r) && r.action == kept
                    && r.reversal == v.reversal && r.name == v.snap.rel)
            })
            &&& v.phase == Phase::Live ==> (v.stepped(ApplyEvent::Live(live)) matches Some(next) && {
                &&& same ==> next.1 == ActionView::RemoveLive && next.0.reversal == v.reversal
                &&& !same ==> (next.1 matches ActionView::Finish(r) && r.action == kept
                    && r.reversal == v.reversal && r.name == v.snap.rel)
            })
            &&& v.phase == Phase::Remove ==> (v.stepped(ApplyEvent::Done) matches Some(next) && (
            next.1 matches ActionView::Finish(r) && r.action == removed && r.reversal == v.reversal
                && r.name == v.snap.rel && r.decision == word(v.plan) && r.notes == v.notes))
        }),
{
    delete_gate::only_the_same_file_is_unchanged(live, v.snap);
    delete_gate::receiver_has_every_line(b@, v.snap.bytes);
}

/// What something else did with an entry is reported as that reported it.
pub proof fn handed_on_entry_is_reported(v: ApplyView, r: EntryReport, notes: Vec<String>)
    ensures
        v.phase == Phase::Subagents ==> (v.stepped(ApplyEvent::Reported(r)) matches Some(next)
            && next.1 == ActionView::Finish(r@)),
        v.phase == Phase::Memory ==> (v.stepped(ApplyEvent::Restored(notes)) matches Some(next)
            && next.1 == ActionView::Finish(
            memory::report_of(v.snap.rel, text::texts(notes@)),
        )),
{
}

/// Remarks name what they are about, and those so far are kept: an original that was not there, an
/// archive that is missing, a plan that is left to a person, an entry that stays.
pub proof fn remarks_name_their_file(v: ApplyView, b: Vec<u8>, live: Option<LiveStat>)
    ensures
        v.phase == Phase::Stash ==> (v.stepped(ApplyEvent::Stashed(None)) matches Some(next)
            && next.0.notes.drop_last() == v.notes && text::stands_in(
            next.0.notes.last(),
            v.snap.rel,
        )),
        v.phase == Phase::Backing ==> (v.stepped(ApplyEvent::Exists(false)) matches Some(next)
            && next.0.notes.drop_last() == v.notes && text::stands_in(
            next.0.notes.last(),
            v.snap.rel,
        )),
        text::stands_in(deferred_note(v.plan), v.plan.name()),
        v.phase == Phase::Receiver ==> (v.stepped(ApplyEvent::Bytes(b)) matches Some(next) && (
        next.1 matches ActionView::Finish(r) ==> r.notes.drop_last() == v.notes && r.decision
            == word(v.plan))),
        v.phase == Phase::Live ==> (v.stepped(ApplyEvent::Live(live)) matches Some(next) && (next.1
            matches ActionView::Finish(r) ==> r.notes.drop_last() == v.notes && r.decision == word(
            v.plan,
        ))),
{
    let rel = v.snap.rel;
    text::part_stands_in("orig/"@, rel, " 不存在，无前镜像可 stash（New 条目）"@);
    text::part_stands_in(
        "backing/"@,
        rel,
        " 缺失（orig 有 backing 缺）→ 降级 reingest 补齐后再删"@,
    );
    let none = Seq::<char>::empty();
    let left = " 未在本任务落盘（KeepBoth 待人工/后续），underlay 保留待处理"@;
    text::part_stands_in(none, v.plan.name(), left);
    assert(none + v.plan.name() + left =~= deferred_note(v.plan));
    assert(v.notes.push(stash_note(rel, None)).drop_last() =~= v.notes);
    assert(v.notes.push(refill_note(rel)).drop_last() =~= v.notes);
    assert(v.notes.push(kept_note()).drop_last() =~= v.notes);
}

/// Nothing is lost between two steps, and after the report nothing more comes.
pub proof fn nothing_is_lost_between_steps(v: ApplyView, e: ApplyEvent)
    ensures
        v.phase != Phase::End ==> v.spent() == v,
        v.phase == Phase::End ==> v.stepped(e) is None && v.spent().stepped(e) is None,
        v.stepped(e) matches Some(next) ==> (next.1 is Finish <==> next.0.phase == Phase::End),
{
}

} // verus!
