//! A whole run and its undoing: what they leave together is what was there before.
use vstd::prelude::*;

use super::apply;
use super::apply::ApplyEvent;
use super::driver;
use super::driver::{PlannedView, RunEvent, RunView};
use super::manifest;
use super::memory;
use super::restore;
use super::restore::{RestoreEvent, RestoreView};
use super::types::{EntryPlan, ReportView, ReversalClass, SnapView};
use super::undo;
use super::undo::{held_at, UndoEvent, UndoView, World};
use crate::path;
use crate::text;

verus! {

/// Whether `w` is what the project holds at a path.
pub open spec fn seen(p: World, rel: Seq<char>, w: apply::World) -> bool {
    &&& w.orig == held_at(p.orig, rel)
    &&& w.stash == held_at(p.preimages, rel)
    &&& w.backing == held_at(p.backing, rel)
    &&& w.quarantine == held_at(p.quarantine, rel)
    &&& w.live is Some <==> p.live.contains_key(rel)
}

/// Whether the files below the mount point are as they were or gone.
pub open spec fn shrunk(p: World, q: World) -> bool {
    forall|x: Seq<char>| #[trigger]
        q.live.contains_key(x) ==> p.live.contains_key(x) && q.live[x] == p.live[x]
}

/// Whether nothing but the files changed, and of the originals, the stash and the copies that were
/// there no others than those of one path.
pub open spec fn same_but(p: World, q: World, rel: Seq<char>) -> bool {
    &&& q == (World {
        orig: q.orig,
        backing: q.backing,
        live: q.live,
        quarantine: q.quarantine,
        preimages: q.preimages,
        shared: q.shared,
        ..p
    })
    &&& forall|x: Seq<char>|
        x != rel ==> #[trigger] held_at(q.orig, x) == held_at(p.orig, x)
    &&& forall|x: Seq<char>|
        x != rel ==> #[trigger] held_at(q.preimages, x) == held_at(p.preimages, x)
    &&& forall|x: Seq<char>|
        x != rel && p.quarantine.contains_key(x) ==> #[trigger] held_at(q.quarantine, x) == held_at(
            p.quarantine,
            x,
        )
}

/// Whether what was done at a path can be undone as the class says: the original was stashed, was
/// not there, or is as it was; a copy that was set aside is the entry of the snapshot.
pub open spec fn undoable(p: World, q: World, rel: Seq<char>, c: ReversalClass) -> bool {
    match c {
        ReversalClass::RestoreOrig => p.orig.contains_key(rel) && held_at(q.preimages, rel) == Some(
            p.orig[rel],
        ),
        ReversalClass::RemoveOrig => !p.orig.contains_key(rel),
        ReversalClass::RemoveQuarantine => {
            &&& held_at(q.orig, rel) == held_at(p.orig, rel)
            &&& q.quarantine.contains_key(rel)
            &&& held_at(q.quarantine, rel) == held_at(p.snapshots, rel)
        },
        _ => held_at(q.orig, rel) == held_at(p.orig, rel),
    }
}

/// Whether an entry was dealt with in a way that its report tells how to undo.
pub open spec fn entry_done(p: World, q: World, rel: Seq<char>, r: ReportView) -> bool {
    &&& same_but(p, q, rel)
    &&& shrunk(p, q)
    &&& r.name == rel
    &&& undoable(p, q, rel, r.reversal)
}

/// Whether a path lies below a directory.
pub open spec fn below(top: Seq<char>, rel: Seq<char>) -> bool {
    top.len() < rel.len() && rel.subrange(0, (top.len() + 1) as int) == top.push('/')
}

/// Whether a path lies behind one of the links at the top of the archive.
pub open spec fn linked(links: Set<Seq<char>>, rel: Seq<char>) -> bool {
    exists|top: Seq<char>| #[trigger] links.contains(top) && (rel == top || below(top, rel))
}

/// Whether an entry is routed by the links: only what lies behind one, and is not of a subordinate
/// session, goes to a shared directory.
pub open spec fn routes(links: Set<Seq<char>>, rel: Seq<char>, routed: ApplyEvent) -> bool {
    match routed {
        ApplyEvent::Routed { subagents, passthrough_entry, top_link } => !subagents ==> {
            &&& passthrough_entry == linked(links, rel)
            &&& top_link == linked(links, rel)
        },
        _ => false,
    }
}

/// Whether nothing behind a link that was set aside is still there.
pub open spec fn apart(links: Set<Seq<char>>, p: World) -> bool {
    forall|x: Seq<char>| #[trigger]
        p.quarantine.contains_key(x) && linked(links, x) ==> !p.live.contains_key(x)
}

/// Whether an entry went its own course from one state of the project to another and ended with
/// that report. It was read whole.
pub open spec fn went_through(
    links: Set<Seq<char>>,
    p: World,
    q: World,
    snap: SnapView,
    plan: EntryPlan,
    r: ReportView,
    routed: ApplyEvent,
    ms: Seq<apply::Moment>,
    es: Seq<ApplyEvent>,
) -> bool {
    &&& routes(links, snap.rel, routed)
    &&& apply::course(snap, plan, routed, ms, es)
    &&& ms.last().action == apply::ActionView::Finish(r)
    &&& seen(p, snap.rel, ms[0].world)
    &&& seen(q, snap.rel, ms.last().world)
    &&& same_but(p, q, snap.rel)
    &&& q.shared == p.shared
    &&& forall|x: Seq<char>|
        x != snap.rel ==> #[trigger] held_at(q.quarantine, x) == held_at(p.quarantine, x)
    &&& forall|x: Seq<char>|
        x != snap.rel ==> #[trigger] held_at(q.live, x) == held_at(p.live, x)
    &&& p.live.contains_key(snap.rel) && q.live.contains_key(snap.rel) ==> q.live[snap.rel]
        == p.live[snap.rel]
    &&& held_at(p.snapshots, snap.rel) == Some(snap.bytes)
}

/// What a step that sends the directory `top` back makes of the project: what is written goes to the
/// shared directory, and a directory that is moved away is among what was set aside.
pub open spec fn sent(p: World, top: Seq<char>, m: restore::Moment) -> World {
    match m.action {
        restore::ActionView::WriteDest(i, behind, b) => World {
            shared: p.shared.insert(m.state.canon.push('/') + m.world.path(i, behind), b),
            ..p
        },
        restore::ActionView::Relocate => World {
            live: Map::new(
                |x: Seq<char>| p.live.contains_key(x) && !below(top, x),
                |x: Seq<char>| p.live[x],
            ),
            quarantine: Map::new(
                |x: Seq<char>|
                    p.quarantine.contains_key(x) || (p.live.contains_key(x) && below(top, x)),
                |x: Seq<char>|
                    if p.live.contains_key(x) && below(top, x) {
                        p.live[x]
                    } else {
                        p.quarantine[x]
                    },
            ),
            ..p
        },
        _ => p,
    }
}

/// The project after the first `n` steps that send the directory `top` back.
pub open spec fn sent_up_to(p: World, top: Seq<char>, ms: Seq<restore::Moment>, n: int) -> World
    decreases n,
{
    if n <= 0 {
        p
    } else {
        sent(sent_up_to(p, top, ms, n - 1), top, ms[n - 1])
    }
}

/// Whether the directory of an entry behind a link was sent back, from one state of the project to
/// another, and ended with that report.
pub open spec fn sent_back(
    links: Set<Seq<char>>,
    p: World,
    q: World,
    snap: SnapView,
    plan: EntryPlan,
    r: ReportView,
    routed: ApplyEvent,
    top: Seq<char>,
    first: RestoreView,
    ms: Seq<restore::Moment>,
    es: Seq<RestoreEvent>,
) -> bool {
    &&& routes(links, snap.rel, routed)
    &&& apply::planned(snap, plan).stepped(routed) matches Some(next) && next.1
        == apply::ActionView::RestoreMemory
    &&& links.contains(top)
    &&& snap.rel == top || below(top, snap.rel)
    &&& restore::course(first, ms, es)
    &&& ms.last().action matches restore::ActionView::Finish(notes) && r == memory::report_of(
        snap.rel,
        notes,
    )
    &&& q == sent_up_to(p, top, ms, ms.len() as int)
}

/// Whether an entry of a subordinate session was merged in a way that its report tells how to undo:
/// nothing is set aside, and no shared directory is written to.
pub open spec fn merged_apart(
    p: World,
    q: World,
    snap: SnapView,
    plan: EntryPlan,
    r: ReportView,
    routed: ApplyEvent,
) -> bool {
    &&& apply::planned(snap, plan).stepped(routed) matches Some(next) && next.1
        == apply::ActionView::Subagents
    &&& entry_done(p, q, snap.rel, r)
    &&& r.reversal != ReversalClass::RemoveQuarantine
    &&& r.reversal != ReversalClass::ReportMemory
    &&& q.quarantine == p.quarantine
    &&& q.shared == p.shared
}

/// Whether a plan was carried out for an entry: by the entry's own course, by sending its directory
/// back, or by merging it as one of a subordinate session. Of the last it is taken that its report
/// tells how to undo it.
pub open spec fn carried_out(
    links: Set<Seq<char>>,
    p: World,
    q: World,
    snap: SnapView,
    plan: EntryPlan,
    r: ReportView,
) -> bool {
    ||| exists|routed: ApplyEvent| #[trigger] merged_apart(p, q, snap, plan, r, routed)
    ||| exists|
        routed: ApplyEvent,
        top: Seq<char>,
        first: RestoreView,
        ms: Seq<restore::Moment>,
        es: Seq<RestoreEvent>,
    | #[trigger] sent_back(links, p, q, snap, plan, r, routed, top, first, ms, es)
    ||| exists|routed: ApplyEvent, ms: Seq<apply::Moment>, es: Seq<ApplyEvent>| #[trigger]
        went_through(links, p, q, snap, plan, r, routed, ms, es)
}

/// What goes its own course can be undone as its report tells.
pub proof fn own_course_can_be_undone(
    links: Set<Seq<char>>,
    p: World,
    q: World,
    snap: SnapView,
    plan: EntryPlan,
    r: ReportView,
    routed: ApplyEvent,
    ms: Seq<apply::Moment>,
    es: Seq<ApplyEvent>,
)
    requires
        apart(links, p),
        went_through(links, p, q, snap, plan, r, routed, ms, es),
    ensures
        entry_done(p, q, snap.rel, r),
        apart(links, q),
{
    let k = ms.len() - 1;
    apply::every_moment_is_safe(snap, plan, routed, ms, es, k);
    let m = ms[k];
    assert(m.state.phase == apply::Phase::End);
    assert(apply::entry_kept(m.state, ms[0].world, m.world));
    assert forall|x: Seq<char>| #[trigger] q.live.contains_key(x) implies p.live.contains_key(x)
        && q.live[x] == p.live[x] by {
        if x != snap.rel {
            assert(held_at(q.live, x) == held_at(p.live, x));
        }
    }
    assert(!linked(links, snap.rel));
    assert forall|x: Seq<char>| #[trigger]
        q.quarantine.contains_key(x) && linked(links, x) implies !q.live.contains_key(x) by {
        assert(held_at(q.quarantine, x) == held_at(p.quarantine, x));
        assert(p.quarantine.contains_key(x));
    }
}

/// Sending a directory back leaves the rest: the originals, their archives, what was stashed of them
/// and the snapshot are as they were, files below the mount point are as they were or gone, and what
/// was set aside is as it was or was moved there from the directory.
pub proof fn sending_back_leaves_the_rest(
    links: Set<Seq<char>>,
    p: World,
    top: Seq<char>,
    ms: Seq<restore::Moment>,
    n: int,
)
    requires
        apart(links, p),
        links.contains(top),
    ensures
        ({
            let q = sent_up_to(p, top, ms, n);
            &&& q == (World {
                live: q.live,
                quarantine: q.quarantine,
                shared: q.shared,
                ..p
            })
            &&& shrunk(p, q)
            &&& apart(links, q)
            &&& forall|x: Seq<char>| #[trigger]
                p.quarantine.contains_key(x) ==> held_at(q.quarantine, x) == held_at(
                    p.quarantine,
                    x,
                )
        }),
    decreases n,
{
    if n > 0 {
        sending_back_leaves_the_rest(links, p, top, ms, n - 1);
        let mid = sent_up_to(p, top, ms, n - 1);
        let q = sent_up_to(p, top, ms, n);
        assert forall|x: Seq<char>| #[trigger] q.live.contains_key(x) implies p.live.contains_key(x)
            && q.live[x] == p.live[x] by {
            assert(mid.live.contains_key(x));
        }
        assert forall|x: Seq<char>| #[trigger] p.quarantine.contains_key(x) implies held_at(
            q.quarantine,
            x,
        ) == held_at(p.quarantine, x) by {
            assert(held_at(mid.quarantine, x) == held_at(p.quarantine, x));
            assert(mid.quarantine.contains_key(x));
            if below(top, x) {
                assert(linked(links, x));
            }
        }
        assert forall|x: Seq<char>| #[trigger]
            q.quarantine.contains_key(x) && linked(links, x) implies !q.live.contains_key(x) by {
            if mid.quarantine.contains_key(x) {
                assert(!mid.live.contains_key(x));
            }
        }
    }
}

/// What is sent back can be undone as its report tells: nothing of it needs undoing.
pub proof fn sending_back_can_be_undone(
    links: Set<Seq<char>>,
    p: World,
    q: World,
    snap: SnapView,
    plan: EntryPlan,
    r: ReportView,
    routed: ApplyEvent,
    top: Seq<char>,
    first: RestoreView,
    ms: Seq<restore::Moment>,
    es: Seq<RestoreEvent>,
)
    requires
        apart(links, p),
        sent_back(links, p, q, snap, plan, r, routed, top, first, ms, es),
    ensures
        entry_done(p, q, snap.rel, r),
        r.reversal == ReversalClass::ReportMemory || r.reversal == ReversalClass::Noop,
        apart(links, q),
{
    sending_back_leaves_the_rest(links, p, top, ms, ms.len() as int);
}

/// A directory that was moved away is told: its entry is one of those that a person has to look at
/// when the run is undone.
pub proof fn moved_directory_is_told(
    links: Set<Seq<char>>,
    p: World,
    q: World,
    snap: SnapView,
    plan: EntryPlan,
    r: ReportView,
    routed: ApplyEvent,
    top: Seq<char>,
    first: RestoreView,
    ms: Seq<restore::Moment>,
    es: Seq<RestoreEvent>,
    k: int,
)
    requires
        sent_back(links, p, q, snap, plan, r, routed, top, first, ms, es),
        0 <= k < ms.len(),
        ms[k].action == restore::ActionView::Relocate,
    ensures
        r.reversal == ReversalClass::ReportMemory,
{
    let m = ms[k];
    restore::every_moment_is_safe(first, ms, es, k);
    assert(m.state.phase == restore::Phase::Relocating);
    assert(k < es.len());
    assert(m.world.answers(m.action, es[k]));
    restore::moved_directory_is_reported(m.state);
    restore::every_moment_is_safe(first, ms, es, k + 1);
    if k + 1 < es.len() {
        assert(ms[k + 1].world.answers(ms[k + 1].action, es[k + 1]));
    }
}

/// What was carried out can be undone as its report tells.
pub proof fn entry_can_be_undone(
    links: Set<Seq<char>>,
    p: World,
    q: World,
    snap: SnapView,
    plan: EntryPlan,
    r: ReportView,
)
    requires
        apart(links, p),
        carried_out(links, p, q, snap, plan, r),
    ensures
        entry_done(p, q, snap.rel, r),
        apart(links, q),
{
    if exists|routed: ApplyEvent| #[trigger] merged_apart(p, q, snap, plan, r, routed) {
        assert forall|x: Seq<char>| #[trigger]
            q.quarantine.contains_key(x) && linked(links, x) implies !q.live.contains_key(x) by {
            assert(p.quarantine.contains_key(x));
        }
    } else if exists|routed: ApplyEvent, ms: Seq<apply::Moment>, es: Seq<ApplyEvent>| #[trigger]
        went_through(links, p, q, snap, plan, r, routed, ms, es) {
        let (routed, ms, es) = choose|
            routed: ApplyEvent,
            ms: Seq<apply::Moment>,
            es: Seq<ApplyEvent>,
        | #[trigger] went_through(links, p, q, snap, plan, r, routed, ms, es);
        own_course_can_be_undone(links, p, q, snap, plan, r, routed, ms, es);
    } else {
        let (routed, top, first, ms, es) = choose|
            routed: ApplyEvent,
            top: Seq<char>,
            first: RestoreView,
            ms: Seq<restore::Moment>,
            es: Seq<RestoreEvent>,
        | #[trigger] sent_back(links, p, q, snap, plan, r, routed, top, first, ms, es);
        sending_back_can_be_undone(
            links,
            p,
            q,
            snap,
            plan,
            r,
            routed,
            top,
            first,
            ms,
            es,
        );
    }
}

/// Whether each path is planned for once.
pub open spec fn planned_once(plans: Seq<PlannedView>) -> bool {
    forall|i: int, j: int|
        0 <= i < j < plans.len() ==> (#[trigger] plans[i]).rel != (#[trigger] plans[j]).rel
}

/// A moment of a run: where it is, what it said to do next, and how things are.
pub struct Moment {
    pub state: RunView,
    pub action: driver::ActionView,
    pub world: World,
}

/// Whether `e` is what came of a step and `q` how things are after it. Directories and links that
/// are cleared away are none of the files.
pub open spec fn step_done(
    links: Set<Seq<char>>,
    snaps: Seq<SnapView>,
    m: Moment,
    e: RunEvent,
    q: World,
) -> bool {
    let p = m.world;
    match m.action {
        driver::ActionView::SetMarker => e is Done && q == (World { marker: true, ..p }),
        driver::ActionView::ClearMarker => e is Done && q == (World { marker: false, ..p }),
        driver::ActionView::Plan => q == p && (e matches RunEvent::Planned(plans) && planned_once(
            driver::planned(plans@),
        )),
        driver::ActionView::Apply(i, plan) => e matches RunEvent::Applied(r) && carried_out(
            links,
            p,
            q,
            snaps[i],
            plan,
            r@,
        ),
        driver::ActionView::WriteManifest(body) => {
            ||| e is Done && q == (World { manifest: Some(body), ..p })
            ||| e is Failed && q == p
        },
        driver::ActionView::Rebuild => false,
        driver::ActionView::Finish(_) => false,
        _ => q == p,
    }
}

/// Whether `ms` are the moments of a run from its first step on, and `es` what came of each step. It
/// is no dry run, archives are not built anew, and nothing was set aside when it started.
pub open spec fn course(
    run: RunView,
    links: Set<Seq<char>>,
    snaps: Seq<SnapView>,
    start: World,
    ms: Seq<Moment>,
    es: Seq<RunEvent>,
) -> bool {
    &&& run.phase == driver::Phase::Start
    &&& !run.dry_run
    &&& !run.rebuild
    &&& run.plans.len() == 0
    &&& run.entries.len() == 0
    &&& run.rels == rels_of(snaps)
    &&& ms.len() == es.len() + 1
    &&& run.stepped(RunEvent::Begin) == Some((ms[0].state, ms[0].action))
    &&& ms[0].world == start
    &&& start.quarantine == Map::<Seq<char>, Seq<u8>>::empty()
    &&& forall|k: int|
        0 <= k < es.len() ==> {
            &&& step_done(links, snaps, ms[k], #[trigger] es[k], ms[k + 1].world)
            &&& ms[k].state.stepped(es[k]) == Some((ms[k + 1].state, ms[k + 1].action))
        }
}

/// Whether a path can stand in a manifest: it is not taken for a step of the run, does not lead out
/// of its directory, and has no tab and no line feed.
pub open spec fn recordable(rel: Seq<char>) -> bool {
    &&& !manifest::synthetic(rel)
    &&& path::safe_rel(text::utf8(rel))
    &&& !rel.contains('\t')
    &&& !rel.contains('\n')
}

/// The paths of the snapshot's entries.
pub open spec fn rels_of(snaps: Seq<SnapView>) -> Seq<Seq<char>> {
    Seq::new(snaps.len(), |i: int| snaps[i].rel)
}

/// Whether report `k` is the recorded one of a path.
pub open spec fn tells_of(reports: Seq<ReportView>, rel: Seq<char>, k: int) -> bool {
    0 <= k < reports.len() && manifest::recorded(reports[k]) && reports[k].name == rel
}

/// Whether one of the first `n` reports is recorded with that path and class.
pub open spec fn reported(
    reports: Seq<ReportView>,
    n: int,
    entry: (Seq<char>, ReversalClass),
) -> bool {
    exists|k: int|
        k < n && #[trigger] tells_of(reports, entry.0, k) && entry.1 == reports[k].reversal
}

/// Whether what became of a path can be undone by the reports.
pub open spec fn fate(start: World, p: World, reports: Seq<ReportView>, rel: Seq<char>) -> bool {
    &&& forall|k: int| #[trigger]
        tells_of(reports, rel, k) ==> undoable(start, p, rel, reports[k].reversal)
    &&& (forall|k: int| !(#[trigger] tells_of(reports, rel, k))) ==> held_at(p.orig, rel)
        == held_at(start.orig, rel)
}

/// What holds of the reports so far and of the project.
pub open spec fn sound(
    plans: Seq<PlannedView>,
    reports: Seq<ReportView>,
    snaps: Seq<SnapView>,
    start: World,
    p: World,
) -> bool {
    &&& planned_once(plans)
    &&& forall|k: int|
        0 <= k < reports.len() ==> if k < plans.len() {
            (#[trigger] reports[k]).name == plans[k].rel
        } else {
            reports[k].reversal == ReversalClass::Noop
        }
    &&& forall|k: int|
        0 <= k < reports.len() && (#[trigger] reports[k]).reversal != ReversalClass::Noop
            ==> rels_of(snaps).contains(reports[k].name)
    &&& forall|rel: Seq<char>| #[trigger] fate(start, p, reports, rel)
    &&& p.snapshots == start.snapshots
    &&& p.undone == start.undone
    &&& shrunk(start, p)
}

/// The reports of a run so far.
pub open spec fn reports_of(v: RunView, a: driver::ActionView) -> Seq<ReportView> {
    match a {
        driver::ActionView::Finish(reports) => reports,
        _ => v.entries,
    }
}

/// What holds at every moment of a run.
pub open spec fn undoable_so_far(
    run: RunView,
    links: Set<Seq<char>>,
    snaps: Seq<SnapView>,
    start: World,
    m: Moment,
) -> bool {
    let (v, a, p) = (m.state, m.action, m.world);
    &&& v.ts == run.ts
    &&& v.rels == run.rels
    &&& !v.dry_run
    &&& !v.rebuild
    &&& sound(v.plans, reports_of(v, a), snaps, start, p)
    &&& apart(links, p)
    &&& match v.phase {
        driver::Phase::Start => false,
        driver::Phase::Marking => a == driver::ActionView::SetMarker && v.entries.len() == 0
            && p.manifest == start.manifest,
        driver::Phase::Planning => a == driver::ActionView::Plan && v.entries.len() == 0
            && p.manifest == start.manifest,
        driver::Phase::Confirming => a is Confirm && 0 <= v.next < v.plans.len() && v.entries.len()
            == v.next && p.manifest == start.manifest,
        driver::Phase::Applying => {
            &&& a matches driver::ActionView::Apply(i, _) && v.place() == Some(i)
            &&& 0 <= v.next < v.plans.len()
            &&& v.entries.len() == v.next
            &&& p.manifest == start.manifest
        },
        driver::Phase::PruningDirs => a == driver::ActionView::PruneDirs && v.entries.len()
            >= v.plans.len() && p.manifest == start.manifest,
        driver::Phase::PruningLinks => a == driver::ActionView::PruneLinks && v.entries.len()
            >= v.plans.len() && p.manifest == start.manifest,
        driver::Phase::Scanning => a == driver::ActionView::Scan && v.entries.len()
            >= v.plans.len() && p.manifest == start.manifest,
        driver::Phase::Finalizing => a == driver::ActionView::FinalizeMeta && v.entries.len()
            >= v.plans.len() && p.manifest == start.manifest,
        driver::Phase::Recording => a == driver::ActionView::WriteManifest(
            manifest::manifest_of(v.ts, v.entries),
        ) && p.manifest == start.manifest,
        driver::Phase::Clearing => a == driver::ActionView::ClearMarker && (p.manifest
            == start.manifest || p.manifest == Some(manifest::manifest_of(v.ts, v.entries))),
        driver::Phase::Rebuilding => false,
        driver::Phase::End => a matches driver::ActionView::Finish(reports) && (p.manifest
            == start.manifest || p.manifest == Some(manifest::manifest_of(v.ts, reports))),
    }
}

proof fn place_is_there(rels: Seq<Seq<char>>, rel: Seq<char>, n: int)
    requires
        0 <= n <= rels.len(),
    ensures
        driver::place_of(rels, rel, n) matches Some(i) ==> 0 <= i < n && rels[i] == rel,
    decreases n,
{
    if n > 0 {
        place_is_there(rels, rel, n - 1);
    }
}

/// A report of nothing to undo leaves all that was said of the reports.
proof fn idle_report_is_sound(
    plans: Seq<PlannedView>,
    reports: Seq<ReportView>,
    snaps: Seq<SnapView>,
    start: World,
    p: World,
    r: ReportView,
)
    requires
        sound(plans, reports, snaps, start, p),
        r.reversal == ReversalClass::Noop,
        reports.len() < plans.len() ==> r.name == plans[reports.len() as int].rel,
    ensures
        sound(plans, reports.push(r), snaps, start, p),
{
    let more = reports.push(r);
    assert forall|rel: Seq<char>| #[trigger] fate(start, p, more, rel) by {
        assert(fate(start, p, reports, rel));
        assert forall|k: int| #[trigger] tells_of(more, rel, k) == tells_of(reports, rel, k) by {}
        if forall|k: int| !(#[trigger] tells_of(more, rel, k)) {
            assert forall|k: int| !(#[trigger] tells_of(reports, rel, k)) by {
                assert(tells_of(more, rel, k) == tells_of(reports, rel, k));
            }
        }
    }
}

/// The report of an entry that was carried out leaves what was said of the others, and its own can
/// be undone.
proof fn entry_report_is_sound(
    plans: Seq<PlannedView>,
    reports: Seq<ReportView>,
    snaps: Seq<SnapView>,
    start: World,
    p: World,
    q: World,
    r: ReportView,
)
    requires
        sound(plans, reports, snaps, start, p),
        reports.len() < plans.len(),
        entry_done(p, q, plans[reports.len() as int].rel, r),
        rels_of(snaps).contains(r.name),
        !manifest::synthetic(r.name),
    ensures
        sound(plans, reports.push(r), snaps, start, q),
{
    let more = reports.push(r);
    let n = reports.len() as int;
    let here = plans[n].rel;
    assert forall|k: int| !(#[trigger] tells_of(reports, here, k)) by {
        if tells_of(reports, here, k) {
            assert(reports[k].name == plans[k].rel);
            assert(plans[k].rel != plans[n].rel);
        }
    }
    assert(fate(start, p, reports, here));
    assert(held_at(p.orig, here) == held_at(start.orig, here));
    assert forall|rel: Seq<char>| #[trigger] fate(start, q, more, rel) by {
        assert(fate(start, p, reports, rel));
        if rel == here {
            assert forall|k: int| #[trigger] tells_of(more, rel, k) implies k == n by {
                if k != n {
                    assert(tells_of(reports, rel, k));
                }
            }
            if forall|k: int| !(#[trigger] tells_of(more, rel, k)) {
                assert(!tells_of(more, rel, n));
                assert(r.reversal == ReversalClass::Noop);
            }
        } else {
            assert forall|k: int| #[trigger] tells_of(more, rel, k) == tells_of(
                reports,
                rel,
                k,
            ) by {}
            assert(held_at(q.orig, rel) == held_at(p.orig, rel));
            assert(held_at(q.preimages, rel) == held_at(p.preimages, rel));
            assert(p.quarantine.contains_key(rel) ==> held_at(q.quarantine, rel) == held_at(
                p.quarantine,
                rel,
            ));
            assert forall|k: int| #[trigger] tells_of(more, rel, k) implies undoable(
                start,
                q,
                rel,
                more[k].reversal,
            ) by {
                assert(tells_of(reports, rel, k));
            }
            if forall|k: int| !(#[trigger] tells_of(more, rel, k)) {
                assert forall|k: int| !(#[trigger] tells_of(reports, rel, k)) by {
                    assert(tells_of(more, rel, k) == tells_of(reports, rel, k));
                }
            }
        }
    }
    assert forall|x: Seq<char>| #[trigger] q.live.contains_key(x) implies start.live.contains_key(x)
        && q.live[x] == start.live[x] by {
        assert(p.live.contains_key(x));
    }
}

proof fn onward_is_sound(
    run: RunView,
    links: Set<Seq<char>>,
    snaps: Seq<SnapView>,
    start: World,
    v: RunView,
    p: World,
)
    requires
        v.ts == run.ts,
        v.rels == run.rels,
        !v.dry_run,
        !v.rebuild,
        sound(v.plans, v.entries, snaps, start, p),
        apart(links, p),
        0 <= v.next <= v.plans.len(),
        v.entries.len() == v.next,
        p.manifest == start.manifest,
    ensures
        undoable_so_far(
            run,
            links,
            snaps,
            start,
            (Moment { state: v.onward().0, action: v.onward().1, world: p }),
        ),
    decreases v.plans.len() - v.next,
{
    if v.next < v.plans.len() && v.place() is None {
        let r = driver::unmatched_report(v.plans[v.next].rel);
        idle_report_is_sound(v.plans, v.entries, snaps, start, p, r);
        onward_is_sound(run, links, snaps, start, RunView { next: v.next + 1, ..v.reporting(r) }, p);
    }
}

proof fn past_is_sound(
    run: RunView,
    links: Set<Seq<char>>,
    snaps: Seq<SnapView>,
    start: World,
    v: RunView,
    p: World,
    r: ReportView,
)
    requires
        v.ts == run.ts,
        v.rels == run.rels,
        !v.dry_run,
        !v.rebuild,
        sound(v.plans, v.entries.push(r), snaps, start, p),
        apart(links, p),
        0 <= v.next < v.plans.len(),
        v.entries.len() == v.next,
        p.manifest == start.manifest,
    ensures
        undoable_so_far(
            run,
            links,
            snaps,
            start,
            (Moment { state: v.past(r).0, action: v.past(r).1, world: p }),
        ),
{
    onward_is_sound(run, links, snaps, start, RunView { next: v.next + 1, ..v.reporting(r) }, p);
}

/// What nothing but the marker or the manifest changes stays sound.
proof fn marks_are_sound(
    plans: Seq<PlannedView>,
    reports: Seq<ReportView>,
    snaps: Seq<SnapView>,
    start: World,
    p: World,
    q: World,
)
    requires
        sound(plans, reports, snaps, start, p),
        q == (World { marker: q.marker, manifest: q.manifest, ..p }),
    ensures
        sound(plans, reports, snaps, start, q),
{
    assert forall|rel: Seq<char>| #[trigger] fate(start, q, reports, rel) by {
        assert(fate(start, p, reports, rel));
        assert forall|k: int| #[trigger] tells_of(reports, rel, k) implies undoable(
            start,
            q,
            rel,
            reports[k].reversal,
        ) by {}
    }
    assert forall|x: Seq<char>| #[trigger] q.live.contains_key(x) implies start.live.contains_key(x)
        && q.live[x] == start.live[x] by {
        assert(p.live.contains_key(x));
    }
}

/// Every step of a run leaves it so that what it did can be undone.
#[verifier::rlimit(60)]
proof fn step_can_be_undone(
    run: RunView,
    links: Set<Seq<char>>,
    snaps: Seq<SnapView>,
    start: World,
    m: Moment,
    e: RunEvent,
    next: Moment,
)
    requires
        run.rels == rels_of(snaps),
        forall|i: int| 0 <= i < snaps.len() ==> recordable((#[trigger] snaps[i]).rel),
        undoable_so_far(run, links, snaps, start, m),
        step_done(links, snaps, m, e, next.world),
        m.state.stepped(e) == Some((next.state, next.action)),
    ensures
        undoable_so_far(run, links, snaps, start, next),
{
    let (v, p, q) = (m.state, m.world, next.world);
    match (v.phase, e) {
        (driver::Phase::Marking, RunEvent::Done) => {
            marks_are_sound(v.plans, v.entries, snaps, start, p, q);
        },
        (driver::Phase::Planning, RunEvent::Planned(plans)) => {
            let u = RunView { plans: driver::planned(plans@), next: 0, ..v };
            onward_is_sound(run, links, snaps, start, u, q);
        },
        (driver::Phase::Confirming, RunEvent::Answer(c)) => {
            let rel = v.plans[v.next].rel;
            let skip = driver::skip_report(rel);
            let both = driver::both_report(rel);
            idle_report_is_sound(v.plans, v.entries, snaps, start, p, skip);
            idle_report_is_sound(v.plans, v.entries, snaps, start, p, both);
            past_is_sound(run, links, snaps, start, v, p, skip);
            past_is_sound(run, links, snaps, start, v, p, both);
        },
        (driver::Phase::Applying, RunEvent::Applied(r)) => {
            place_is_there(v.rels, v.plans[v.next].rel, v.rels.len() as int);
            let i = v.place()->0;
            let plan = m.action->Apply_1;
            assert(rels_of(snaps)[i] == snaps[i].rel);
            assert(snaps[i].rel == v.plans[v.next].rel);
            entry_can_be_undone(links, p, q, snaps[i], plan, r@);
            assert(recordable(snaps[i].rel));
            entry_report_is_sound(v.plans, v.entries, snaps, start, p, q, r@);
            past_is_sound(run, links, snaps, start, v, q, r@);
        },
        (driver::Phase::PruningDirs, RunEvent::Failed(why)) => {
            let r = driver::prune_report(v.name, why@);
            idle_report_is_sound(v.plans, v.entries, snaps, start, p, r);
        },
        (driver::Phase::PruningLinks, RunEvent::Links(notes)) => {
            let r = driver::links_kept_report(v.name, text::texts(notes@));
            idle_report_is_sound(v.plans, v.entries, snaps, start, p, r);
        },
        (driver::Phase::PruningLinks, RunEvent::Failed(why)) => {
            let r = driver::links_failed_report(v.name, why@);
            idle_report_is_sound(v.plans, v.entries, snaps, start, p, r);
        },
        (driver::Phase::Finalizing, RunEvent::Failed(why)) => {
            let r = driver::meta_report(v.name, why@);
            idle_report_is_sound(v.plans, v.entries, snaps, start, p, r);
        },
        (driver::Phase::Recording, _) => {
            marks_are_sound(v.plans, v.entries, snaps, start, p, q);
        },
        (driver::Phase::Clearing, _) => {
            marks_are_sound(v.plans, v.entries, snaps, start, p, q);
        },
        _ => {},
    }
}

/// At every moment of a run, what it did so far can be undone by its reports.
pub proof fn every_moment_can_be_undone(
    run: RunView,
    links: Set<Seq<char>>,
    snaps: Seq<SnapView>,
    start: World,
    ms: Seq<Moment>,
    es: Seq<RunEvent>,
    k: int,
)
    requires
        course(run, links, snaps, start, ms, es),
        forall|i: int| 0 <= i < snaps.len() ==> recordable((#[trigger] snaps[i]).rel),
        0 <= k < ms.len(),
    ensures
        undoable_so_far(run, links, snaps, start, ms[k]),
    decreases k,
{
    if k == 0 {
        assert forall|rel: Seq<char>| #[trigger] fate(
            start,
            start,
            ms[0].state.entries,
            rel,
        ) by {}
    } else {
        every_moment_can_be_undone(run, links, snaps, start, ms, es, k - 1);
        assert(step_done(links, snaps, ms[k - 1], es[k - 1], ms[k - 1 + 1].world));
        step_can_be_undone(run, links, snaps, start, ms[k - 1], es[k - 1], ms[k]);
    }
}

/// What is read of a manifest are the recorded reports, each once.
proof fn manifest_lists_the_reports(reports: Seq<ReportView>, n: int)
    requires
        0 <= n <= reports.len(),
        forall|k: int|
            0 <= k < reports.len() && manifest::recorded(#[trigger] reports[k]) ==> path::safe_rel(
                text::utf8(reports[k].name),
            ),
        forall|i: int, j: int|
            0 <= i < j < reports.len() && manifest::recorded(#[trigger] reports[i])
                && manifest::recorded(#[trigger] reports[j]) ==> reports[i].name
                != reports[j].name,
    ensures
        ({
            let list = manifest::entries_of(reports, n);
            &&& undo::distinct(list)
            &&& forall|j: int| 0 <= j < list.len() ==> reported(reports, n, #[trigger] list[j])
            &&& forall|k: int|
                0 <= k < n && manifest::recorded(#[trigger] reports[k]) ==> list.contains(
                    (reports[k].name, reports[k].reversal),
                )
        }),
    decreases n,
{
    if n > 0 {
        manifest_lists_the_reports(reports, n - 1);
        let before = manifest::entries_of(reports, n - 1);
        let list = manifest::entries_of(reports, n);
        let r = reports[n - 1];
        if manifest::recorded(r) {
            assert(list == before.push((r.name, r.reversal)));
            assert forall|j: int| 0 <= j < list.len() implies reported(
                reports,
                n,
                #[trigger] list[j],
            ) by {
                if j == before.len() {
                    assert(tells_of(reports, list[j].0, n - 1));
                } else {
                    assert(reported(reports, n - 1, before[j]));
                    let k = choose|k: int|
                        k < n - 1 && #[trigger] tells_of(reports, before[j].0, k) && before[j].1
                            == reports[k].reversal;
                    assert(tells_of(reports, list[j].0, k));
                }
            }
            assert forall|k: int|
                0 <= k < n && manifest::recorded(#[trigger] reports[k]) implies list.contains(
                (reports[k].name, reports[k].reversal),
            ) by {
                let entry = (reports[k].name, reports[k].reversal);
                if k == n - 1 {
                    assert(list[before.len() as int] == entry);
                } else {
                    assert(before.contains(entry));
                    let j = choose|j: int| 0 <= j < before.len() && before[j] == entry;
                    assert(list[j] == entry);
                }
            }
            assert forall|i: int, j: int| 0 <= i < j < list.len() implies (#[trigger] list[i]).0
                != (#[trigger] list[j]).0 by {
                if j == before.len() {
                    assert(reported(reports, n - 1, before[i]));
                    let k = choose|k: int|
                        k < n - 1 && #[trigger] tells_of(reports, before[i].0, k) && before[i].1
                            == reports[k].reversal;
                    assert(manifest::recorded(reports[k]) && manifest::recorded(reports[n - 1]));
                } else {
                    assert(list[i] == before[i] && list[j] == before[j]);
                }
            }
        } else {
            assert(list == before);
            assert forall|j: int| 0 <= j < list.len() implies reported(
                reports,
                n,
                #[trigger] list[j],
            ) by {
                assert(reported(reports, n - 1, before[j]));
                let k = choose|k: int|
                    k < n - 1 && #[trigger] tells_of(reports, before[j].0, k) && before[j].1
                        == reports[k].reversal;
                assert(tells_of(reports, list[j].0, k));
            }
        }
    }
}

/// What the manifest of a run says of a path is what its reports say.
proof fn manifest_of_a_run(
    run: RunView,
    links: Set<Seq<char>>,
    snaps: Seq<SnapView>,
    start: World,
    m: Moment,
    reports: Seq<ReportView>,
)
    requires
        run.rels == rels_of(snaps),
        forall|i: int| 0 <= i < snaps.len() ==> recordable((#[trigger] snaps[i]).rel),
        !run.ts.contains('\n'),
        undoable_so_far(run, links, snaps, start, m),
        m.action == driver::ActionView::Finish(reports),
    ensures
        manifest::manifest_read(manifest::manifest_of(run.ts, reports)) == Ok::<
            _,
            manifest::ErrorView,
        >(manifest::entries_of(reports, reports.len() as int)),
        ({
            let list = manifest::entries_of(reports, reports.len() as int);
            &&& undo::distinct(list)
            &&& forall|j: int|
                0 <= j < list.len() ==> reported(
                    reports,
                    reports.len() as int,
                    #[trigger] list[j],
                )
            &&& forall|k: int|
                0 <= k < reports.len() && manifest::recorded(#[trigger] reports[k])
                    ==> list.contains((reports[k].name, reports[k].reversal))
        }),
{
    let plans = m.state.plans;
    assert forall|k: int| 0 <= k < reports.len() && manifest::recorded(#[trigger] reports[k]) implies
        recordable(reports[k].name) by {
        let i = choose|i: int|
            0 <= i < rels_of(snaps).len() && rels_of(snaps)[i] == reports[k].name;
        assert(recordable(snaps[i].rel));
    }
    assert forall|i: int, j: int|
        0 <= i < j < reports.len() && manifest::recorded(#[trigger] reports[i])
            && manifest::recorded(#[trigger] reports[j]) implies reports[i].name
        != reports[j].name by {
        assert(reports[j].name == plans[j].rel);
        assert(reports[i].name == plans[i].rel);
        assert(plans[i].rel != plans[j].rel);
    }
    manifest::manifest_reads_back(run.ts, reports);
    manifest_lists_the_reports(reports, reports.len() as int);
}

proof fn manual_entry_is_listed(list: Seq<(Seq<char>, ReversalClass)>, n: int, j: int)
    requires
        0 <= j < n <= list.len(),
        list[j].1 == ReversalClass::ReportMemory,
    ensures
        undo::manual_of(list, n).contains(list[j].0),
    decreases n,
{
    let before = undo::manual_of(list, n - 1);
    let all = undo::manual_of(list, n);
    if j == n - 1 {
        assert(all[before.len() as int] == list[j].0);
    } else {
        manual_entry_is_listed(list, n - 1, j);
        let k = choose|k: int| 0 <= k < before.len() && before[k] == list[j].0;
        assert(all[k] == list[j].0);
    }
}

/// Undoing a run gives back what was there before it. The run finished and wrote its manifest, the
/// snapshot had all files below the mount point, and nothing was written since: then the originals
/// hold what they held, the files below the mount point are back with their content, the copies that
/// the run set aside are gone, the marker is cleared, it is noted that the run was undone, what went to
/// shared directories is left alone, and the report names the entries that were undone and those that
/// went there.
pub proof fn undoing_gives_back_what_was(
    run: RunView,
    links: Set<Seq<char>>,
    snaps: Seq<SnapView>,
    start: World,
    ms: Seq<Moment>,
    es: Seq<RunEvent>,
    name: Seq<char>,
    us: Seq<undo::Moment>,
    ues: Seq<UndoEvent>,
)
    requires
        course(run, links, snaps, start, ms, es),
        ms.last().action is Finish,
        ms.last().world.manifest is Some,
        start.manifest is None,
        !start.undone,
        start.snapshots == start.live,
        forall|i: int| 0 <= i < snaps.len() ==> recordable((#[trigger] snaps[i]).rel),
        !run.ts.contains('\n'),
        undo::course(name, ms.last().world, us, ues),
        us.last().action is Finish,
    ensures
        ({
            let reports = ms.last().action->Finish_0;
            let list = manifest::entries_of(reports, reports.len() as int);
            let r: UndoView = us.last().action->Finish_0;
            let w = us.last().world;
            &&& w.orig == start.orig
            &&& w.live == start.live
            &&& forall|k: int|
                0 <= k < reports.len() && (#[trigger] reports[k]).reversal
                    == ReversalClass::RemoveQuarantine ==> !w.quarantine.contains_key(
                    reports[k].name,
                )
            &&& !w.marker
            &&& w.undone
            &&& w.shared == ms.last().world.shared
            &&& forall|k: int|
                0 <= k < reports.len() && (#[trigger] reports[k]).reversal
                    == ReversalClass::ReportMemory ==> r.memory_manual.contains(reports[k].name)
            &&& r.reversed == undo::reversed_of(list, list.len() as int)
            &&& r.memory_manual == undo::manual_of(list, list.len() as int)
            &&& r.skipped_live_changed.len() == 0
        }),
{
    let last = ms.len() - 1;
    every_moment_can_be_undone(run, links, snaps, start, ms, es, last);
    let m = ms[last];
    let p = m.world;
    let reports = m.action->Finish_0;
    assert(m.state.phase == driver::Phase::End);
    manifest_of_a_run(run, links, snaps, start, m, reports);
    let list = manifest::entries_of(reports, reports.len() as int);
    let end = us.len() - 1;
    undo::every_moment_is_safe(name, p, us, ues, end);
    let u = us[end].state;
    let r = us[end].action->Finish_0;
    let w = us[end].world;
    assert(u.phase == undo::Phase::End);
    assert(undo::restored(u, r, p, w));
    assert(u.manifest == list);
    assert forall|rel: Seq<char>| held_at(w.orig, rel) == #[trigger] held_at(start.orig, rel) by {
        assert(fate(start, p, reports, rel));
        if undo::listed(u, rel) {
            let j = choose|j: int| 0 <= j < u.manifest.len() && (#[trigger] u.manifest[j]).0 == rel;
            assert(undo::reverted(u, p, w, j));
            assert(reported(reports, reports.len() as int, list[j]));
            let k = choose|k: int|
                k < reports.len() && #[trigger] tells_of(reports, list[j].0, k) && list[j].1
                    == reports[k].reversal;
            assert(tells_of(reports, rel, k));
            assert(undoable(start, p, rel, reports[k].reversal));
        } else {
            assert forall|k: int| !(#[trigger] tells_of(reports, rel, k)) by {
                if tells_of(reports, rel, k) {
                    let entry = (reports[k].name, reports[k].reversal);
                    assert(list.contains(entry));
                    let j = choose|j: int| 0 <= j < list.len() && list[j] == entry;
                    assert(u.manifest[j].0 == rel);
                }
            }
        }
    }
    assert forall|rel: Seq<char>| w.orig.contains_key(rel) == start.orig.contains_key(rel) by {
        assert(held_at(w.orig, rel) == held_at(start.orig, rel));
    }
    assert forall|rel: Seq<char>| w.orig.contains_key(rel) implies w.orig[rel]
        == start.orig[rel] by {
        assert(held_at(w.orig, rel) == held_at(start.orig, rel));
    }
    assert(w.orig =~= start.orig);
    assert(w.live =~= start.live);
    assert forall|k: int|
        0 <= k < reports.len() && (#[trigger] reports[k]).reversal
            == ReversalClass::ReportMemory implies r.memory_manual.contains(reports[k].name) by {
        let i = choose|i: int|
            0 <= i < rels_of(snaps).len() && rels_of(snaps)[i] == reports[k].name;
        assert(recordable(snaps[i].rel));
        let entry = (reports[k].name, reports[k].reversal);
        assert(list.contains(entry));
        let j = choose|j: int| 0 <= j < list.len() && list[j] == entry;
        manual_entry_is_listed(list, list.len() as int, j);
    }
    assert forall|k: int|
        0 <= k < reports.len() && (#[trigger] reports[k]).reversal
            == ReversalClass::RemoveQuarantine implies !w.quarantine.contains_key(
        reports[k].name,
    ) by {
        let i = choose|i: int|
            0 <= i < rels_of(snaps).len() && rels_of(snaps)[i] == reports[k].name;
        assert(recordable(snaps[i].rel));
        let entry = (reports[k].name, reports[k].reversal);
        assert(list.contains(entry));
        let j = choose|j: int| 0 <= j < list.len() && list[j] == entry;
        assert(undo::reverted(u, p, w, j));
        assert(held_at(w.quarantine, reports[k].name) is None);
    }
}

/// Undoing a run is refused before anything is changed or not at all: what the run stashed of an
/// original is there, and a copy that it set aside is the entry of the snapshot.
pub proof fn finished_run_is_not_half_undone(
    run: RunView,
    links: Set<Seq<char>>,
    snaps: Seq<SnapView>,
    start: World,
    ms: Seq<Moment>,
    es: Seq<RunEvent>,
    name: Seq<char>,
    us: Seq<undo::Moment>,
    ues: Seq<UndoEvent>,
)
    requires
        course(run, links, snaps, start, ms, es),
        ms.last().action is Finish,
        ms.last().world.manifest is Some,
        start.manifest is None,
        forall|i: int| 0 <= i < snaps.len() ==> recordable((#[trigger] snaps[i]).rel),
        !run.ts.contains('\n'),
        undo::course(name, ms.last().world, us, ues),
        us.last().action is Refuse,
    ensures
        undo::untouched(ms.last().world, us.last().world),
{
    let last = ms.len() - 1;
    every_moment_can_be_undone(run, links, snaps, start, ms, es, last);
    let m = ms[last];
    let p = m.world;
    let reports = m.action->Finish_0;
    assert(m.state.phase == driver::Phase::End);
    manifest_of_a_run(run, links, snaps, start, m, reports);
    let list = manifest::entries_of(reports, reports.len() as int);
    let end = us.len() - 1;
    undo::every_moment_is_safe(name, p, us, ues, end);
    assert(us[end].state.phase == undo::Phase::End);
    if end > 0 {
        undo::every_moment_is_safe(name, p, us, ues, end - 1);
        let prev = us[end - 1];
        let e = ues[end - 1];
        assert(prev.world.answers(prev.state, prev.action, e));
        assert(us[end - 1 + 1] == us[end]);
        let phase = prev.state.phase;
        if prev.state.reversing() || phase == undo::Phase::Recheck {
            undo::only_missing_files_stop_it(prev.state, e);
        }
        if phase == undo::Phase::Preimage || phase == undo::Phase::Snapshot {
            let j = prev.state.next;
            let rel = list[j].0;
            assert(prev.state.manifest == list);
            assert(reported(reports, reports.len() as int, list[j]));
            let k = choose|k: int|
                k < reports.len() && #[trigger] tells_of(reports, list[j].0, k) && list[j].1
                    == reports[k].reversal;
            assert(fate(start, p, reports, rel));
            assert(undoable(start, p, rel, reports[k].reversal));
        }
    }
}

} // verus!
