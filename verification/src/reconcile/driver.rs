//! A whole run: every entry is confirmed and applied while the marker of the run is there, the
//! manifest is written before the marker is cleared, and a dry run changes nothing.
use vstd::prelude::*;
use vstd::string::*;

use super::apply;
use super::manifest;
use super::types;
use super::types::{Confirm, EntryPlan, EntryReport, ReportView, ReversalClass};
use crate::text;

verus! {

/// An entry and what is planned for it.
#[derive(Debug)]
pub struct PlannedEntry {
    /// Its path below the mount point.
    pub rel: String,
    /// What is planned.
    pub plan: EntryPlan,
    /// Why.
    pub rationale: String,
}

/// An entry and what is planned for it, as a mathematical value.
#[verifier::ext_equal]
pub struct PlannedView {
    pub rel: Seq<char>,
    pub plan: EntryPlan,
    pub rationale: Seq<char>,
}

impl View for PlannedEntry {
    type V = PlannedView;

    open spec fn view(&self) -> PlannedView {
        PlannedView { rel: self.rel@, plan: self.plan, rationale: self.rationale@ }
    }
}

/// The entries of a list.
pub open spec fn planned(v: Seq<PlannedEntry>) -> Seq<PlannedView> {
    Seq::new(v.len(), |i: int| v[i]@)
}

/// What to do next.
pub enum RunAction {
    /// Set the marker of the run.
    SetMarker,
    /// Plan what to do with each entry of the snapshot.
    Plan,
    /// Ask whether to do what is planned for an entry.
    Confirm(usize),
    /// Carry out a plan for an entry of the snapshot.
    Apply(usize, EntryPlan),
    /// Remove the directories below the mount point that are empty.
    PruneDirs,
    /// Remove the links at the top of the mount point that the archive has too.
    PruneLinks,
    /// Look whether the mount point still holds something.
    Scan,
    /// Count the bytes of originals and archives anew.
    FinalizeMeta,
    /// Write the manifest of the run.
    WriteManifest(String),
    /// Clear the marker of the run.
    ClearMarker,
    /// Build all archives anew from the originals.
    Rebuild,
    /// Nothing: this was done.
    Finish(Vec<EntryReport>),
}

/// What to do next, as a mathematical value.
#[verifier::ext_equal]
pub enum ActionView {
    SetMarker,
    Plan,
    Confirm(int),
    Apply(int, EntryPlan),
    PruneDirs,
    PruneLinks,
    Scan,
    FinalizeMeta,
    WriteManifest(Seq<char>),
    ClearMarker,
    Rebuild,
    Finish(Seq<ReportView>),
}

impl View for RunAction {
    type V = ActionView;

    open spec fn view(&self) -> ActionView {
        match self {
            RunAction::SetMarker => ActionView::SetMarker,
            RunAction::Plan => ActionView::Plan,
            RunAction::Confirm(i) => ActionView::Confirm(*i as int),
            RunAction::Apply(i, p) => ActionView::Apply(*i as int, *p),
            RunAction::PruneDirs => ActionView::PruneDirs,
            RunAction::PruneLinks => ActionView::PruneLinks,
            RunAction::Scan => ActionView::Scan,
            RunAction::FinalizeMeta => ActionView::FinalizeMeta,
            RunAction::WriteManifest(s) => ActionView::WriteManifest(s@),
            RunAction::ClearMarker => ActionView::ClearMarker,
            RunAction::Rebuild => ActionView::Rebuild,
            RunAction::Finish(r) => ActionView::Finish(types::reports(r@)),
        }
    }
}

/// What came of a step.
pub enum RunEvent {
    /// To start with.
    Begin,
    /// It is done.
    Done,
    /// It failed, for this reason.
    Failed(String),
    /// What is planned.
    Planned(Vec<PlannedEntry>),
    /// What the user said.
    Answer(Confirm),
    /// What was done with an entry.
    Applied(EntryReport),
    /// The remarks on links that stay.
    Links(Vec<String>),
    /// Whether the mount point still holds something, if that could be seen.
    Scanned(Option<bool>),
    /// What building the archives anew told.
    Rebuilt(String),
}

/// Which step is under way.
#[derive(Debug, Clone, Copy, PartialEq, Eq, Structural)]
pub enum Phase {
    Start,
    Marking,
    Planning,
    Confirming,
    Applying,
    PruningDirs,
    PruningLinks,
    Scanning,
    Finalizing,
    Recording,
    Clearing,
    Rebuilding,
    End,
}

/// A run.
pub struct Run {
    /// The name of the project.
    pub name: String,
    /// The time of the run.
    pub ts: String,
    /// Whether nothing is to be changed.
    pub dry_run: bool,
    /// Whether all archives are to be built anew.
    pub rebuild: bool,
    /// The paths of the snapshot's entries.
    pub rels: Vec<String>,
    /// The step that is under way.
    pub phase: Phase,
    /// What is planned.
    pub plans: Vec<PlannedEntry>,
    /// The planned entry that is next.
    pub next: usize,
    /// What was done so far.
    pub entries: Vec<EntryReport>,
}

/// A run, as a mathematical value.
#[verifier::ext_equal]
pub struct RunView {
    pub name: Seq<char>,
    pub ts: Seq<char>,
    pub dry_run: bool,
    pub rebuild: bool,
    pub rels: Seq<Seq<char>>,
    pub phase: Phase,
    pub plans: Seq<PlannedView>,
    pub next: int,
    pub entries: Seq<ReportView>,
}

impl View for Run {
    type V = RunView;

    open spec fn view(&self) -> RunView {
        RunView {
            name: self.name@,
            ts: self.ts@,
            dry_run: self.dry_run,
            rebuild: self.rebuild,
            rels: text::texts(self.rels@),
            phase: self.phase,
            plans: planned(self.plans@),
            next: self.next as int,
            entries: types::reports(self.entries@),
        }
    }
}

/// A report with one remark and nothing to undo.
pub open spec fn plain_report(
    name: Seq<char>,
    decision: Seq<char>,
    action: Seq<char>,
    note: Seq<char>,
) -> ReportView {
    ReportView { name, decision, action, notes: seq![note], reversal: ReversalClass::Noop }
}

/// The report of a planned entry in a dry run.
pub open spec fn dry_report(p: PlannedView) -> ReportView {
    plain_report(p.rel, p.plan.name(), "dry-run"@, p.rationale)
}

/// The reports of the planned entries in a dry run.
pub open spec fn dry_reports(plans: Seq<PlannedView>) -> Seq<ReportView> {
    Seq::new(plans.len(), |i: int| dry_report(plans[i]))
}

/// The report of a planned entry that the snapshot does not have.
pub open spec fn unmatched_report(rel: Seq<char>) -> ReportView {
    plain_report(
        rel,
        "skip"@,
        "unmatched-snapshot"@,
        "plan 条目在快照中无对应项（不可达），防御跳过、underlay 不动"@,
    )
}

/// The report of an entry that the user left alone.
pub open spec fn skip_report(rel: Seq<char>) -> ReportView {
    plain_report(
        rel,
        "skip"@,
        "skipped+underlay-kept"@,
        "用户跳过此条：underlay 原样保留、orig 不动"@,
    )
}

/// The report of an entry whose two versions the user keeps.
pub open spec fn both_report(rel: Seq<char>) -> ReportView {
    plain_report(
        rel,
        EntryPlan::KeepBoth.name(),
        "deferred"@,
        apply::deferred_note(EntryPlan::KeepBoth),
    )
}

/// The name of a step of the whole run.
pub open spec fn step_name(word: Seq<char>, name: Seq<char>) -> Seq<char> {
    word + name + ">"@
}

/// The report of directories that could not be cleared away.
pub open spec fn prune_report(name: Seq<char>, why: Seq<char>) -> ReportView {
    plain_report(
        step_name("<prune "@, name),
        "prune-empty-dirs"@,
        "warn"@,
        "剪除空 underlay 子目录失败（仅影响重挂门禁，非数据安全）："@ + why,
    )
}

/// The report of links that could not be cleared away.
pub open spec fn links_failed_report(name: Seq<char>, why: Seq<char>) -> ReportView {
    plain_report(
        step_name("<prune-symlinks "@, name),
        "prune-redundant-symlinks"@,
        "warn"@,
        "清除冗余 underlay 软链失败（仅影响重挂门禁，非数据安全）："@ + why,
    )
}

/// The report of links that stay.
pub open spec fn links_kept_report(name: Seq<char>, notes: Seq<Seq<char>>) -> ReportView {
    ReportView {
        name: step_name("<prune-symlinks "@, name),
        decision: "prune-redundant-symlinks"@,
        action: "kept-anomaly"@,
        notes,
        reversal: ReversalClass::Noop,
    }
}

/// The report of bytes that could not be counted.
pub open spec fn meta_report(name: Seq<char>, why: Seq<char>) -> ReportView {
    plain_report(
        step_name("<meta "@, name),
        "meta-finalize"@,
        "warn"@,
        "meta 字节数收尾失败（仅影响 list 显示，非数据安全）："@ + why,
    )
}

/// The report of archives that were built anew.
pub open spec fn rebuild_report(name: Seq<char>, told: Seq<char>) -> ReportView {
    plain_report(step_name("<rebuild "@, name), "rebuild"@, "reingest-delegated"@, told)
}

/// The place of a path in the snapshot: the first one.
pub open spec fn place_of(rels: Seq<Seq<char>>, rel: Seq<char>, n: int) -> Option<int>
    decreases n,
{
    if n <= 0 {
        None
    } else {
        match place_of(rels, rel, n - 1) {
            Some(i) => Some(i),
            None => if rels[n - 1] == rel {
                Some(n - 1)
            } else {
                None
            },
        }
    }
}

impl RunView {
    /// The step that comes next.
    pub open spec fn at(&self, phase: Phase) -> RunView {
        RunView { phase, ..*self }
    }

    /// With one more report.
    pub open spec fn reporting(&self, r: ReportView) -> RunView {
        RunView { entries: self.entries.push(r), ..*self }
    }

    /// Where the planned entry that is next stands in the snapshot.
    pub open spec fn place(&self) -> Option<int> {
        place_of(self.rels, self.plans[self.next].rel, self.rels.len() as int)
    }

    /// The planned entry that is next; where there is none, the directories are cleared away.
    pub open spec fn onward(&self) -> (RunView, ActionView)
        decreases self.plans.len() - self.next,
    {
        if self.next >= self.plans.len() {
            (self.at(Phase::PruningDirs), ActionView::PruneDirs)
        } else if self.place() is Some {
            (self.at(Phase::Confirming), ActionView::Confirm(self.next))
        } else {
            RunView {
                next: self.next + 1,
                ..self.reporting(unmatched_report(self.plans[self.next].rel))
            }.onward()
        }
    }

    /// The planned entry that is next when one is done with.
    pub open spec fn past(&self, r: ReportView) -> (RunView, ActionView) {
        RunView { next: self.next + 1, ..self.reporting(r) }.onward()
    }

    /// The manifest is written.
    pub open spec fn recording(&self) -> (RunView, ActionView) {
        (
            self.at(Phase::Recording),
            ActionView::WriteManifest(manifest::manifest_of(self.ts, self.entries)),
        )
    }

    /// The end.
    pub open spec fn finished(&self) -> (RunView, ActionView) {
        (
            RunView { entries: Seq::empty(), ..self.at(Phase::End) },
            ActionView::Finish(self.entries),
        )
    }

    /// What comes next; nothing where the event is not one of the step under way.
    pub open spec fn stepped(&self, e: RunEvent) -> Option<(RunView, ActionView)> {
        match (self.phase, e) {
            (Phase::Start, RunEvent::Begin) => if self.dry_run {
                Some((self.at(Phase::Planning), ActionView::Plan))
            } else {
                Some((self.at(Phase::Marking), ActionView::SetMarker))
            },
            (Phase::Marking, RunEvent::Done) => Some((self.at(Phase::Planning), ActionView::Plan)),
            (Phase::Planning, RunEvent::Planned(plans)) => if self.dry_run {
                Some(
                    RunView {
                        entries: self.entries + dry_reports(planned(plans@)),
                        ..*self
                    }.finished(),
                )
            } else {
                Some(RunView { plans: planned(plans@), next: 0, ..*self }.onward())
            },
            (Phase::Confirming, RunEvent::Answer(c)) => match (c, self.place()) {
                (Confirm::Accept, Some(i)) => Some(
                    (
                        self.at(Phase::Applying),
                        ActionView::Apply(i, self.plans[self.next].plan),
                    ),
                ),
                (Confirm::KeepBoth, Some(_)) => Some(
                    self.past(both_report(self.plans[self.next].rel)),
                ),
                _ => Some(self.past(skip_report(self.plans[self.next].rel))),
            },
            (Phase::Applying, RunEvent::Applied(r)) => Some(self.past(r@)),
            (Phase::PruningDirs, RunEvent::Done) => Some(
                (self.at(Phase::PruningLinks), ActionView::PruneLinks),
            ),
            (Phase::PruningDirs, RunEvent::Failed(why)) => Some(
                (
                    self.reporting(prune_report(self.name, why@)).at(Phase::PruningLinks),
                    ActionView::PruneLinks,
                ),
            ),
            (Phase::PruningLinks, RunEvent::Links(notes)) => Some(
                (
                    if notes@.len() == 0 {
                        self.at(Phase::Scanning)
                    } else {
                        self.reporting(links_kept_report(self.name, text::texts(notes@))).at(
                            Phase::Scanning,
                        )
                    },
                    ActionView::Scan,
                ),
            ),
            (Phase::PruningLinks, RunEvent::Failed(why)) => Some(
                (
                    self.reporting(links_failed_report(self.name, why@)).at(Phase::Scanning),
                    ActionView::Scan,
                ),
            ),
            (Phase::Scanning, RunEvent::Scanned(holds)) => if !self.rebuild && holds == Some(
                false,
            ) {
                Some((self.at(Phase::Finalizing), ActionView::FinalizeMeta))
            } else {
                Some(self.recording())
            },
            (Phase::Finalizing, RunEvent::Done) => Some(self.recording()),
            (Phase::Finalizing, RunEvent::Failed(why)) => Some(
                self.reporting(meta_report(self.name, why@)).recording(),
            ),
            (Phase::Recording, RunEvent::Done) => Some(
                (self.at(Phase::Clearing), ActionView::ClearMarker),
            ),
            (Phase::Recording, RunEvent::Failed(_)) => Some(
                (self.at(Phase::Clearing), ActionView::ClearMarker),
            ),
            (Phase::Clearing, RunEvent::Done) => if self.rebuild {
                Some((self.at(Phase::Rebuilding), ActionView::Rebuild))
            } else {
                Some(self.finished())
            },
            (Phase::Rebuilding, RunEvent::Rebuilt(told)) => Some(
                self.reporting(rebuild_report(self.name, told@)).finished(),
            ),
            _ => None,
        }
    }

    /// Whether the planned entry that is next is one of those, where one is under way.
    pub open spec fn wf(&self) -> bool {
        self.phase == Phase::Confirming || self.phase == Phase::Applying ==> {
            &&& 0 <= self.next < self.plans.len()
            &&& self.place() is Some
        }
    }
}

proof fn onward_wf(v: RunView)
    requires
        0 <= v.next <= v.plans.len(),
    ensures
        v.onward().0.wf(),
    decreases v.plans.len() - v.next,
{
    if v.next < v.plans.len() && v.place() is None {
        onward_wf(
            RunView { next: v.next + 1, ..v.reporting(unmatched_report(v.plans[v.next].rel)) },
        );
    }
}

fn one_note(name: String, decision: &str, action: &str, note: String) -> (r: EntryReport)
    ensures
        r@ == plain_report(name@, decision@, action@, note@),
{
    let mut notes: Vec<String> = Vec::new();
    notes.push(note);
    let r: EntryReport = EntryReport {
        name,
        decision: text::copy_str(decision),
        action: text::copy_str(action),
        notes,
        reversal: ReversalClass::Noop,
    };
    assert(r@.notes =~= seq![note@]);
    r
}

fn named_step(word: &str, name: &str) -> (s: String)
    ensures
        s@ == step_name(word@, name@),
{
    let mut s: String = text::copy_str(word);
    s.append(name);
    s.append(">");
    s
}

fn told(head: &str, why: &str) -> (s: String)
    ensures
        s@ == head@ + why@,
{
    let mut s: String = text::copy_str(head);
    s.append(why);
    s
}

impl Run {
    /// A run on a snapshot whose entries have these paths.
    pub fn new(name: String, ts: String, dry_run: bool, rebuild: bool, rels: Vec<String>) -> (r:
        Run)
        ensures
            r@ == (RunView {
                name: name@,
                ts: ts@,
                dry_run,
                rebuild,
                rels: text::texts(rels@),
                phase: Phase::Start,
                plans: Seq::empty(),
                next: 0,
                entries: Seq::empty(),
            }),
    {
        let r: Run = Run {
            name,
            ts,
            dry_run,
            rebuild,
            rels,
            phase: Phase::Start,
            plans: Vec::new(),
            next: 0,
            entries: Vec::new(),
        };
        assert(r@.plans =~= Seq::empty());
        assert(r@.entries =~= Seq::empty());
        r
    }

    fn report(&mut self, r: EntryReport)
        ensures
            final(self)@ == old(self)@.reporting(r@),
    {
        let ghost before = self@;
        self.entries.push(r);
        assert(self@.entries =~= before.entries.push(r@));
    }

    fn find(&self, rel: &str) -> (at: Option<usize>)
        ensures
            match at {
                Some(i) => place_of(self@.rels, rel@, self@.rels.len() as int) == Some(i as int),
                None => place_of(self@.rels, rel@, self@.rels.len() as int) is None,
            },
    {
        let ghost rs = self@.rels;
        let mut i: usize = 0;
        let mut at: Option<usize> = None;
        while i < self.rels.len()
            invariant
                i <= self.rels@.len(),
                rs == text::texts(self.rels@),
                match at {
                    Some(k) => place_of(rs, rel@, i as int) == Some(k as int),
                    None => place_of(rs, rel@, i as int) is None,
                },
            decreases self.rels@.len() - i,
        {
            assert(rs[i as int] == self.rels@[i as int]@);
            if at.is_none() && text::same_str(self.rels[i].as_str(), rel) {
                at = Some(i);
            }
            i = i + 1;
        }
        at
    }

    fn go_on(&mut self) -> (r: RunAction)
        requires
            old(self)@.next <= old(self)@.plans.len(),
        ensures
            final(self)@ == old(self)@.onward().0,
            r@ == old(self)@.onward().1,
    {
        let ghost start = self@;
        while self.next < self.plans.len()
            invariant
                start == old(self)@,
                start.onward() == self@.onward(),
                self@.next <= self@.plans.len(),
            decreases self@.plans.len() - self@.next,
        {
            let at: usize = self.next;
            assert(self@.plans[at as int] == self.plans@[at as int]@);
            if self.find(self.plans[at].rel.as_str()).is_some() {
                self.phase = Phase::Confirming;
                return RunAction::Confirm(at);
            }
            let rel: String = self.plans[at].rel.clone();
            let len: usize = self.plans.len();
            assert(at < len);
            self.report(
                one_note(
                    rel,
                    "skip",
                    "unmatched-snapshot",
                    text::copy_str("plan 条目在快照中无对应项（不可达），防御跳过、underlay 不动"),
                ),
            );
            self.next = at + 1;
        }
        self.phase = Phase::PruningDirs;
        RunAction::PruneDirs
    }

    fn go_past(&mut self, report: EntryReport) -> (r: RunAction)
        requires
            old(self)@.next < old(self)@.plans.len(),
        ensures
            final(self)@ == old(self)@.past(report@).0,
            r@ == old(self)@.past(report@).1,
    {
        let len: usize = self.plans.len();
        assert(self.next < len);
        self.report(report);
        self.next = self.next + 1;
        self.go_on()
    }

    fn record(&mut self) -> (r: RunAction)
        ensures
            final(self)@ == old(self)@.recording().0,
            r@ == old(self)@.recording().1,
    {
        self.phase = Phase::Recording;
        RunAction::WriteManifest(manifest::manifest_body(self.ts.as_str(), &self.entries))
    }

    fn finish(&mut self) -> (r: RunAction)
        ensures
            final(self)@ == old(self)@.finished().0,
            r@ == old(self)@.finished().1,
    {
        self.phase = Phase::End;
        let mut entries: Vec<EntryReport> = Vec::new();
        std::mem::swap(&mut entries, &mut self.entries);
        assert(self@.entries =~= Seq::empty());
        RunAction::Finish(entries)
    }

    fn report_plans(&mut self, plans: Vec<PlannedEntry>)
        ensures
            final(self)@ == (RunView {
                entries: old(self)@.entries + dry_reports(planned(plans@)),
                ..old(self)@
            }),
    {
        let ghost before = self@;
        let ghost ps = planned(plans@);
        let ghost all = dry_reports(ps);
        let mut i: usize = 0;
        assert(before.entries + all.subrange(0, 0) =~= before.entries);
        while i < plans.len()
            invariant
                i <= plans@.len(),
                ps == planned(plans@),
                all == dry_reports(ps),
                self@ == (RunView {
                    entries: before.entries + all.subrange(0, i as int),
                    ..before
                }),
            decreases plans@.len() - i,
        {
            let rel: String = plans[i].rel.clone();
            let why: String = plans[i].rationale.clone();
            assert(ps[i as int] == plans@[i as int]@);
            self.report(one_note(rel, plans[i].plan.as_str(), "dry-run", why));
            assert(before.entries + all.subrange(0, i + 1) =~= (before.entries + all.subrange(
                0,
                i as int,
            )).push(all[i as int]));
            i = i + 1;
        }
        assert(all.subrange(0, i as int) =~= all);
    }

    /// Takes in what came of the step under way, and says what to do next. Nothing comes of an
    /// event that is not one of that step.
    #[verifier::rlimit(40)]
    pub fn step(&mut self, e: RunEvent) -> (r: Option<RunAction>)
        requires
            old(self)@.wf(),
        ensures
            final(self)@.wf(),
            match old(self)@.stepped(e) {
                Some((v, a)) => {
                    &&& final(self)@ == v
                    &&& r matches Some(x) && x@ == a
                },
                None => r is None && final(self)@ == old(self)@,
            },
    {
        match (self.phase, e) {
            (Phase::Start, RunEvent::Begin) => {
                if self.dry_run {
                    self.phase = Phase::Planning;
                    Some(RunAction::Plan)
                } else {
                    self.phase = Phase::Marking;
                    Some(RunAction::SetMarker)
                }
            },
            (Phase::Marking, RunEvent::Done) => {
                self.phase = Phase::Planning;
                Some(RunAction::Plan)
            },
            (Phase::Planning, RunEvent::Planned(plans)) => {
                if self.dry_run {
                    self.report_plans(plans);
                    Some(self.finish())
                } else {
                    self.plans = plans;
                    self.next = 0;
                    proof {
                        onward_wf(self@);
                    }
                    Some(self.go_on())
                }
            },
            (Phase::Confirming, RunEvent::Answer(c)) => {
                let at: usize = self.next;
                assert(self@.plans[at as int] == self.plans@[at as int]@);
                let plan: EntryPlan = self.plans[at].plan;
                let place: Option<usize> = self.find(self.plans[at].rel.as_str());
                match (c, place) {
                    (Confirm::Accept, Some(i)) => {
                        self.phase = Phase::Applying;
                        Some(RunAction::Apply(i, plan))
                    },
                    (Confirm::KeepBoth, Some(_)) => {
                        let rel: String = self.plans[at].rel.clone();
                        let note: String = told(
                            EntryPlan::KeepBoth.as_str(),
                            " 未在本任务落盘（KeepBoth 待人工/后续），underlay 保留待处理",
                        );
                        let report: EntryReport = one_note(
                            rel,
                            EntryPlan::KeepBoth.as_str(),
                            "deferred",
                            note,
                        );
                        proof {
                            onward_wf(
                                RunView { next: self@.next + 1, ..self@.reporting(report@) },
                            );
                        }
                        Some(self.go_past(report))
                    },
                    _ => {
                        let rel: String = self.plans[at].rel.clone();
                        let report: EntryReport = one_note(
                            rel,
                            "skip",
                            "skipped+underlay-kept",
                            text::copy_str("用户跳过此条：underlay 原样保留、orig 不动"),
                        );
                        proof {
                            onward_wf(
                                RunView { next: self@.next + 1, ..self@.reporting(report@) },
                            );
                        }
                        Some(self.go_past(report))
                    },
                }
            },
            (Phase::Applying, RunEvent::Applied(report)) => {
                proof {
                    onward_wf(RunView { next: self@.next + 1, ..self@.reporting(report@) });
                }
                Some(self.go_past(report))
            },
            (Phase::PruningDirs, RunEvent::Done) => {
                self.phase = Phase::PruningLinks;
                Some(RunAction::PruneLinks)
            },
            (Phase::PruningDirs, RunEvent::Failed(why)) => {
                let name: String = named_step("<prune ", self.name.as_str());
                self.report(
                    one_note(
                        name,
                        "prune-empty-dirs",
                        "warn",
                        told(
                            "剪除空 underlay 子目录失败（仅影响重挂门禁，非数据安全）：",
                            why.as_str(),
                        ),
                    ),
                );
                self.phase = Phase::PruningLinks;
                Some(RunAction::PruneLinks)
            },
            (Phase::PruningLinks, RunEvent::Links(notes)) => {
                if notes.len() != 0 {
                    let name: String = named_step("<prune-symlinks ", self.name.as_str());
                    self.report(
                        EntryReport {
                            name,
                            decision: text::copy_str("prune-redundant-symlinks"),
                            action: text::copy_str("kept-anomaly"),
                            notes,
                            reversal: ReversalClass::Noop,
                        },
                    );
                }
                self.phase = Phase::Scanning;
                Some(RunAction::Scan)
            },
            (Phase::PruningLinks, RunEvent::Failed(why)) => {
                let name: String = named_step("<prune-symlinks ", self.name.as_str());
                self.report(
                    one_note(
                        name,
                        "prune-redundant-symlinks",
                        "warn",
                        told(
                            "清除冗余 underlay 软链失败（仅影响重挂门禁，非数据安全）：",
                            why.as_str(),
                        ),
                    ),
                );
                self.phase = Phase::Scanning;
                Some(RunAction::Scan)
            },
            (Phase::Scanning, RunEvent::Scanned(holds)) => {
                let drained: bool = match holds {
                    Some(b) => !b,
                    None => false,
                };
                if !self.rebuild && drained {
                    self.phase = Phase::Finalizing;
                    Some(RunAction::FinalizeMeta)
                } else {
                    Some(self.record())
                }
            },
            (Phase::Finalizing, RunEvent::Done) => Some(self.record()),
            (Phase::Finalizing, RunEvent::Failed(why)) => {
                let name: String = named_step("<meta ", self.name.as_str());
                self.report(
                    one_note(
                        name,
                        "meta-finalize",
                        "warn",
                        told(
                            "meta 字节数收尾失败（仅影响 list 显示，非数据安全）：",
                            why.as_str(),
                        ),
                    ),
                );
                Some(self.record())
            },
            (Phase::Recording, RunEvent::Done) => {
                self.phase = Phase::Clearing;
                Some(RunAction::ClearMarker)
            },
            (Phase::Recording, RunEvent::Failed(_)) => {
                self.phase = Phase::Clearing;
                Some(RunAction::ClearMarker)
            },
            (Phase::Clearing, RunEvent::Done) => {
                if self.rebuild {
                    self.phase = Phase::Rebuilding;
                    Some(RunAction::Rebuild)
                } else {
                    Some(self.finish())
                }
            },
            (Phase::Rebuilding, RunEvent::Rebuilt(msg)) => {
                let name: String = named_step("<rebuild ", self.name.as_str());
                self.report(one_note(name, "rebuild", "reingest-delegated", msg));
                Some(self.finish())
            },
            _ => None,
        }
    }
}

/// Whether a step changes anything.
pub open spec fn changes(a: ActionView) -> bool {
    !(a is Plan || a is Confirm || a is Scan || a is Finish)
}

/// Whether a step changes entries or originals.
pub open spec fn touches_entries(a: ActionView) -> bool {
    a is Apply || a is PruneDirs || a is PruneLinks
}

/// What the steps of a run leave behind.
#[verifier::ext_equal]
pub struct World {
    /// Whether the marker of the run is there.
    pub marker: bool,
    /// Whether the manifest was written, or it was tried.
    pub recorded: bool,
}

impl World {
    /// What a step makes of it.
    pub open spec fn after(&self, a: ActionView) -> World {
        match a {
            ActionView::SetMarker => World { marker: true, ..*self },
            ActionView::ClearMarker => World { marker: false, ..*self },
            ActionView::WriteManifest(_) => World { recorded: true, ..*self },
            _ => *self,
        }
    }
}

/// What holds of a run under way: `a` is what it said to do next, and `w` how things are.
pub open spec fn ordered(v: RunView, a: ActionView, w: World) -> bool {
    &&& v.dry_run ==> !changes(a)
    &&& touches_entries(a) ==> w.marker && !w.recorded
    &&& a is ClearMarker ==> w.recorded
    &&& a is Rebuild ==> !w.marker && w.recorded && v.rebuild
    &&& a is FinalizeMeta ==> !v.rebuild
    &&& match v.phase {
        Phase::Start => false,
        Phase::Marking => a == ActionView::SetMarker && !w.recorded && !v.dry_run
            && v.entries.len() == 0,
        Phase::Planning => a == ActionView::Plan && !w.recorded && (v.dry_run || w.marker)
            && v.entries.len() == 0,
        Phase::Confirming => a is Confirm && w.marker && !w.recorded && !v.dry_run
            && v.entries.len() == v.next,
        Phase::Applying => a is Apply && w.marker && !w.recorded && !v.dry_run && v.entries.len()
            == v.next,
        Phase::PruningDirs => a == ActionView::PruneDirs && w.marker && !w.recorded && !v.dry_run
            && v.entries.len() == v.plans.len(),
        Phase::PruningLinks => a == ActionView::PruneLinks && w.marker && !w.recorded && !v.dry_run,
        Phase::Scanning => a == ActionView::Scan && w.marker && !w.recorded && !v.dry_run,
        Phase::Finalizing => a == ActionView::FinalizeMeta && w.marker && !w.recorded
            && !v.dry_run,
        Phase::Recording => a is WriteManifest && w.marker && !v.dry_run,
        Phase::Clearing => a == ActionView::ClearMarker && w.marker && !v.dry_run,
        Phase::Rebuilding => a == ActionView::Rebuild && !v.dry_run,
        Phase::End => a is Finish && (v.dry_run || !w.marker),
    }
}

/// A run starts in order.
pub proof fn run_starts_in_order(v: RunView, w: World)
    requires
        v.phase == Phase::Start,
        v.entries.len() == 0,
        !w.recorded,
    ensures
        v.stepped(RunEvent::Begin) matches Some(next) && ordered(next.0, next.1, w),
{
}

proof fn onward_in_order(v: RunView, w: World)
    requires
        !v.dry_run,
        w.marker,
        !w.recorded,
        0 <= v.next <= v.plans.len(),
        v.entries.len() == v.next,
    ensures
        ordered(v.onward().0, v.onward().1, w),
    decreases v.plans.len() - v.next,
{
    if v.next < v.plans.len() && v.place() is None {
        onward_in_order(
            RunView { next: v.next + 1, ..v.reporting(unmatched_report(v.plans[v.next].rel)) },
            w,
        );
    }
}

/// Every step of a run is in order: a dry run changes nothing; entries are touched only while the
/// marker is there; the marker is cleared only when the manifest was written or that was tried; and
/// archives are built anew only when the marker is gone. There is one report for each planned
/// entry.
pub proof fn every_step_is_in_order(v: RunView, a: ActionView, w: World, e: RunEvent)
    requires
        v.wf(),
        ordered(v, a, w),
        v.stepped(e) is Some,
    ensures
        v.stepped(e) matches Some(next) && ordered(next.0, next.1, w.after(a)),
{
    let after = w.after(a);
    match (v.phase, e) {
        (Phase::Planning, RunEvent::Planned(plans)) => {
            if !v.dry_run {
                onward_in_order(RunView { plans: planned(plans@), next: 0, ..v }, after);
            }
        },
        (Phase::Confirming, RunEvent::Answer(c)) => {
            let r = skip_report(v.plans[v.next].rel);
            onward_in_order(RunView { next: v.next + 1, ..v.reporting(r) }, after);
            let r = both_report(v.plans[v.next].rel);
            onward_in_order(RunView { next: v.next + 1, ..v.reporting(r) }, after);
        },
        (Phase::Applying, RunEvent::Applied(r)) => {
            onward_in_order(RunView { next: v.next + 1, ..v.reporting(r@) }, after);
        },
        _ => {},
    }
}

/// An entry that the user leaves alone is not touched, and neither is one whose two versions the
/// user keeps, whatever the entry is and whatever was planned for it.
pub proof fn kept_entry_is_not_applied(v: RunView, c: Confirm)
    requires
        v.phase == Phase::Confirming,
        v.wf(),
        c == Confirm::Skip || c == Confirm::KeepBoth,
    ensures
        v.stepped(RunEvent::Answer(c)) matches Some(next) && !(next.1 is Apply),
{
    onward_applies_nothing(
        RunView { next: v.next + 1, ..v.reporting(both_report(v.plans[v.next].rel)) },
    );
    onward_applies_nothing(
        RunView { next: v.next + 1, ..v.reporting(skip_report(v.plans[v.next].rel)) },
    );
}

proof fn onward_applies_nothing(v: RunView)
    ensures
        !(v.onward().1 is Apply),
    decreases v.plans.len() - v.next,
{
    if v.next < v.plans.len() && v.place() is None {
        onward_applies_nothing(
            RunView { next: v.next + 1, ..v.reporting(unmatched_report(v.plans[v.next].rel)) },
        );
    }
}

proof fn place_is_the_first(rels: Seq<Seq<char>>, rel: Seq<char>, n: int)
    requires
        0 <= n <= rels.len(),
    ensures
        match place_of(rels, rel, n) {
            Some(i) => 0 <= i < n && rels[i] == rel && forall|j: int|
                0 <= j < i ==> #[trigger] rels[j] != rel,
            None => forall|j: int| 0 <= j < n ==> #[trigger] rels[j] != rel,
        },
    decreases n,
{
    if n > 0 {
        place_is_the_first(rels, rel, n - 1);
    }
}

/// An entry that the user accepts is applied with what was planned for it, and to the entry of the
/// snapshot that has its path.
pub proof fn accepted_entry_is_applied_as_planned(v: RunView)
    requires
        v.phase == Phase::Confirming,
        v.wf(),
    ensures
        v.stepped(RunEvent::Answer(Confirm::Accept)) matches Some(next) && (next.1
            matches ActionView::Apply(i, plan) && {
            &&& plan == v.plans[v.next].plan
            &&& 0 <= i < v.rels.len()
            &&& v.rels[i] == v.plans[v.next].rel
            &&& next.0.entries == v.entries
            &&& next.0.next == v.next
        }),
{
    place_is_the_first(v.rels, v.plans[v.next].rel, v.rels.len() as int);
}

proof fn onward_keeps_reports(v: RunView)
    ensures
        v.entries.len() <= v.onward().0.entries.len(),
        forall|k: int|
            0 <= k < v.entries.len() ==> #[trigger] v.onward().0.entries[k] == v.entries[k],
    decreases v.plans.len() - v.next,
{
    if v.next < v.plans.len() && v.place() is None {
        let u = RunView {
            next: v.next + 1,
            ..v.reporting(unmatched_report(v.plans[v.next].rel))
        };
        onward_keeps_reports(u);
        assert forall|k: int| 0 <= k < v.entries.len() implies #[trigger] v.onward().0.entries[k]
            == v.entries[k] by {
            assert(u.entries[k] == v.entries[k]);
        }
    }
}

/// An entry that the user leaves alone, or both of whose versions the user keeps, is reported under
/// its path with nothing to undo; what was done with an entry is reported as it was told.
pub proof fn every_answer_is_reported(v: RunView, r: EntryReport)
    requires
        v.wf(),
    ensures
        ({
            let k = v.entries.len() as int;
            let rel = v.plans[v.next].rel;
            &&& v.phase == Phase::Confirming ==> (v.stepped(RunEvent::Answer(Confirm::Skip))
                matches Some(next) && next.0.entries.len() > k && {
                let e = next.0.entries[k];
                &&& e.name == rel
                &&& e.decision == "skip"@
                &&& e.action == "skipped+underlay-kept"@
                &&& e.reversal == ReversalClass::Noop
            })
            &&& v.phase == Phase::Confirming ==> (v.stepped(RunEvent::Answer(Confirm::KeepBoth))
                matches Some(next) && next.0.entries.len() > k && {
                let e = next.0.entries[k];
                &&& e.name == rel
                &&& e.decision == "KeepBoth"@
                &&& e.action == "deferred"@
                &&& e.reversal == ReversalClass::Noop
            })
            &&& v.phase == Phase::Applying ==> (v.stepped(RunEvent::Applied(r)) matches Some(next)
                && next.0.entries.len() > k && next.0.entries[k] == r@)
        }),
{
    let rel = v.plans[v.next].rel;
    onward_keeps_reports(RunView { next: v.next + 1, ..v.reporting(skip_report(rel)) });
    onward_keeps_reports(RunView { next: v.next + 1, ..v.reporting(both_report(rel)) });
    onward_keeps_reports(RunView { next: v.next + 1, ..v.reporting(r@) });
    if v.phase == Phase::Confirming {
        let u = RunView { next: v.next + 1, ..v.reporting(skip_report(rel)) };
        assert(u.entries[v.entries.len() as int] == skip_report(rel));
        let u = RunView { next: v.next + 1, ..v.reporting(both_report(rel)) };
        assert(u.entries[v.entries.len() as int] == both_report(rel));
    }
    if v.phase == Phase::Applying {
        let u = RunView { next: v.next + 1, ..v.reporting(r@) };
        assert(u.entries[v.entries.len() as int] == r@);
    }
}

/// Every planned entry is asked for in its order: the next one that the snapshot has is, those before
/// it that the snapshot does not have are reported and left, and only when none is left are the
/// directories cleared away.
pub proof fn every_planned_entry_is_asked_for(v: RunView)
    requires
        0 <= v.next <= v.plans.len(),
    ensures
        ({
            let (u, a) = v.onward();
            &&& a is Confirm || a is PruneDirs
            &&& v.next <= u.next <= v.plans.len()
            &&& a matches ActionView::Confirm(i) ==> i == u.next && u.next < v.plans.len()
                && v.rels.contains(v.plans[i].rel)
            &&& a is PruneDirs ==> u.next == v.plans.len()
            &&& forall|k: int|
                v.next <= k < u.next ==> !v.rels.contains((#[trigger] v.plans[k]).rel)
            &&& u.plans == v.plans && u.rels == v.rels
            &&& u.entries.len() == v.entries.len() + (u.next - v.next)
        }),
    decreases v.plans.len() - v.next,
{
    if v.next < v.plans.len() {
        let rel = v.plans[v.next].rel;
        place_is_the_first(v.rels, rel, v.rels.len() as int);
        if v.place() is None {
            let next = RunView { next: v.next + 1, ..v.reporting(unmatched_report(rel)) };
            every_planned_entry_is_asked_for(next);
            let u = v.onward().0;
            assert forall|k: int| v.next <= k < u.next implies !v.rels.contains(
                (#[trigger] v.plans[k]).rel,
            ) by {
                if k == v.next {
                    assert(!v.rels.contains(rel));
                } else {
                    assert(!next.rels.contains(next.plans[k].rel));
                }
            }
        } else {
            assert(v.rels.contains(rel));
        }
    }
}

/// A dry run plans and reports what it would do, one report for each planned entry, and does nothing
/// else; any other run sets its marker before it plans.
pub proof fn dry_run_only_plans(v: RunView, plans: Vec<PlannedEntry>, k: int)
    ensures
        v.phase == Phase::Start && v.dry_run ==> (v.stepped(RunEvent::Begin) matches Some(next)
            && next.1 == ActionView::Plan),
        v.phase == Phase::Start && !v.dry_run ==> (v.stepped(RunEvent::Begin) matches Some(next)
            && next.1 == ActionView::SetMarker && (next.0.stepped(RunEvent::Done)
            matches Some(then) && then.1 == ActionView::Plan)),
        v.phase == Phase::Planning && v.dry_run && v.entries.len() == 0 && 0 <= k < plans@.len()
            ==> (v.stepped(RunEvent::Planned(plans)) matches Some(next) && (next.1
            matches ActionView::Finish(reports) && {
            &&& reports.len() == plans@.len()
            &&& reports[k].name == plans@[k].rel@
            &&& reports[k].decision == plans@[k].plan.name()
            &&& reports[k].action == "dry-run"@
            &&& reports[k].notes == seq![plans@[k].rationale@]
            &&& reports[k].reversal == ReversalClass::Noop
        })),
{
}

/// After the last entry the directories are cleared away, then the links, then it is looked whether
/// anything is left; only where nothing is, and the archives are not built anew anyway, are the bytes
/// counted. The manifest of all reports is written next, then the marker is cleared, then the archives
/// are built anew where that was asked for, and then all reports are given back.
pub proof fn run_ends_in_order(v: RunView, notes: Vec<String>, msg: String)
    ensures
        v.phase == Phase::PruningDirs ==> (v.stepped(RunEvent::Done) matches Some(next) && next.1
            == ActionView::PruneLinks && next.0.entries == v.entries),
        v.phase == Phase::PruningLinks && notes@.len() == 0 ==> (v.stepped(RunEvent::Links(notes))
            matches Some(next) && next.1 == ActionView::Scan && next.0.entries == v.entries),
        v.phase == Phase::Scanning && !v.rebuild ==> (v.stepped(RunEvent::Scanned(Some(false)))
            matches Some(next) && next.1 == ActionView::FinalizeMeta),
        v.phase == Phase::Scanning ==> (v.stepped(RunEvent::Scanned(Some(true))) matches Some(next)
            && next.1 == ActionView::WriteManifest(manifest::manifest_of(v.ts, v.entries))),
        v.phase == Phase::Scanning ==> (v.stepped(RunEvent::Scanned(None)) matches Some(next)
            && next.1 == ActionView::WriteManifest(manifest::manifest_of(v.ts, v.entries))),
        v.phase == Phase::Scanning && v.rebuild ==> (v.stepped(RunEvent::Scanned(Some(false)))
            matches Some(next) && next.1 is WriteManifest),
        v.phase == Phase::Finalizing ==> (v.stepped(RunEvent::Done) matches Some(next) && next.1
            == ActionView::WriteManifest(manifest::manifest_of(v.ts, v.entries))),
        v.phase == Phase::Recording ==> (v.stepped(RunEvent::Done) matches Some(next) && next.1
            == ActionView::ClearMarker && next.0.entries == v.entries),
        v.phase == Phase::Recording ==> (v.stepped(RunEvent::Failed(msg)) matches Some(next)
            && next.1 == ActionView::ClearMarker && next.0.entries == v.entries),
        v.phase == Phase::Clearing && v.rebuild ==> (v.stepped(RunEvent::Done) matches Some(next)
            && next.1 == ActionView::Rebuild),
        v.phase == Phase::Clearing && !v.rebuild ==> (v.stepped(RunEvent::Done) matches Some(next)
            && next.1 == ActionView::Finish(v.entries)),
        v.phase == Phase::Rebuilding ==> (v.stepped(RunEvent::Rebuilt(msg)) matches Some(next) && (
        next.1 matches ActionView::Finish(reports) && {
            &&& reports.len() == v.entries.len() + 1
            &&& reports.last().notes == seq![msg@]
            &&& reports.last().action == "reingest-delegated"@
            &&& reports.last().reversal == ReversalClass::Noop
            &&& reports.drop_last() == v.entries
        })),
{
    assert(v.entries.push(rebuild_report(v.name, msg@)).drop_last() =~= v.entries);
}

/// What fails after the last entry is reported with its reason and stops nothing, and links that stay
/// are reported with what is said of them.
pub proof fn failing_to_clear_away_stops_nothing(v: RunView, why: String, notes: Vec<String>)
    ensures
        v.phase == Phase::PruningDirs ==> (v.stepped(RunEvent::Failed(why)) matches Some(next)
            && next.1 == ActionView::PruneLinks && next.0.entries.len() == v.entries.len() + 1
            && next.0.entries.last().action == "warn"@ && next.0.entries.last().reversal
            == ReversalClass::Noop && manifest::synthetic(next.0.entries.last().name)),
        v.phase == Phase::PruningLinks ==> (v.stepped(RunEvent::Failed(why)) matches Some(next)
            && next.1 == ActionView::Scan && next.0.entries.len() == v.entries.len() + 1
            && next.0.entries.last().action == "warn"@ && next.0.entries.last().reversal
            == ReversalClass::Noop),
        v.phase == Phase::PruningLinks && notes@.len() > 0 ==> (v.stepped(RunEvent::Links(notes))
            matches Some(next) && next.1 == ActionView::Scan && next.0.entries.len()
            == v.entries.len() + 1 && next.0.entries.last().notes == text::texts(notes@)
            && next.0.entries.last().reversal == ReversalClass::Noop),
        v.phase == Phase::Finalizing ==> (v.stepped(RunEvent::Failed(why)) matches Some(next)
            && next.1 is WriteManifest && next.0.entries.len() == v.entries.len() + 1
            && next.0.entries.last().action == "warn"@ && next.0.entries.last().reversal
            == ReversalClass::Noop),
{
    reveal_strlit("<prune ");
    reveal_strlit(">");
}

/// A planned entry that the snapshot does not have is reported under its path and left as it is.
pub proof fn left_out_entry_is_reported(v: RunView, k: int)
    requires
        0 <= v.next <= k < v.onward().0.next,
    ensures
        ({
            let at = v.entries.len() + (k - v.next);
            let u = v.onward().0;
            &&& at < u.entries.len()
            &&& u.entries[at].name == v.plans[k].rel
            &&& u.entries[at].decision == "skip"@
            &&& u.entries[at].action == "unmatched-snapshot"@
            &&& u.entries[at].reversal == ReversalClass::Noop
        }),
    decreases v.plans.len() - v.next,
{
    if v.next < v.plans.len() && v.place() is None {
        let rel = v.plans[v.next].rel;
        let next = RunView { next: v.next + 1, ..v.reporting(unmatched_report(rel)) };
        if k == v.next {
            onward_keeps_reports(next);
            assert(next.entries[v.entries.len() as int] == unmatched_report(rel));
        } else {
            left_out_entry_is_reported(next, k);
        }
    }
}

/// What is reported of the whole run names the project between angle brackets, and tells the reason
/// that was given.
pub proof fn run_report_tells_the_reason(name: Seq<char>, why: Seq<char>, notes: Seq<Seq<char>>)
    ensures
        ({
            let rs = seq![
                prune_report(name, why),
                links_failed_report(name, why),
                meta_report(name, why),
            ];
            forall|i: int|
                0 <= i < 3 ==> {
                    &&& (#[trigger] rs[i]).notes.len() == 1
                    &&& text::stands_in(rs[i].notes[0], why)
                    &&& text::stands_in(rs[i].name, name)
                    &&& manifest::synthetic(rs[i].name)
                    &&& rs[i].action == "warn"@
                    &&& rs[i].reversal == ReversalClass::Noop
                }
        }),
        prune_report(name, why).decision == "prune-empty-dirs"@,
        links_failed_report(name, why).decision == "prune-redundant-symlinks"@,
        meta_report(name, why).decision == "meta-finalize"@,
        links_kept_report(name, notes).notes == notes,
        links_kept_report(name, notes).action == "kept-anomaly"@,
        manifest::synthetic(links_kept_report(name, notes).name),
        rebuild_report(name, why).notes == seq![why],
        manifest::synthetic(rebuild_report(name, why).name),
        text::stands_in(rebuild_report(name, why).name, name),
{
    let none = Seq::<char>::empty();
    let a = "剪除空 underlay 子目录失败（仅影响重挂门禁，非数据安全）："@;
    let b = "清除冗余 underlay 软链失败（仅影响重挂门禁，非数据安全）："@;
    let c = "meta 字节数收尾失败（仅影响 list 显示，非数据安全）："@;
    text::part_stands_in(a, why, none);
    text::part_stands_in(b, why, none);
    text::part_stands_in(c, why, none);
    assert(a + why + none =~= a + why);
    assert(b + why + none =~= b + why);
    assert(c + why + none =~= c + why);
    text::part_stands_in("<prune "@, name, ">"@);
    text::part_stands_in("<prune-symlinks "@, name, ">"@);
    text::part_stands_in("<meta "@, name, ">"@);
    text::part_stands_in("<rebuild "@, name, ">"@);
    reveal_strlit("<prune ");
    reveal_strlit("<prune-symlinks ");
    reveal_strlit("<meta ");
    reveal_strlit("<rebuild ");
    reveal_strlit(">");
}

} // verus!
