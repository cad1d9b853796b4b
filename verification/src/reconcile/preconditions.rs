//! What must hold before a reconciliation starts, asked in order.
use vstd::prelude::*;
use vstd::string::*;

use super::guard;
use crate::store::types;
use crate::text;

verus! {

/// Why a reconciliation does not start.
#[derive(Debug)]
pub enum Refusal {
    /// The name could lead out of its directory.
    InvalidName,
    /// The project was never set up.
    NoMeta,
    /// The backend, of this name, keeps no files of its own.
    NotShadow(String),
    /// There is nothing to do; a marker that an earlier run left behind was cleared.
    StaleMarkerCleared,
    /// There is nothing to do.
    NothingToDo,
    /// Something is being written, for this reason.
    Active(String),
}

/// Why a reconciliation does not start, as a mathematical value.
#[verifier::ext_equal]
pub enum RefusalView {
    InvalidName,
    NoMeta,
    NotShadow(Seq<char>),
    StaleMarkerCleared,
    NothingToDo,
    Active(Seq<char>),
}

impl View for Refusal {
    type V = RefusalView;

    open spec fn view(&self) -> RefusalView {
        match self {
            Refusal::InvalidName => RefusalView::InvalidName,
            Refusal::NoMeta => RefusalView::NoMeta,
            Refusal::NotShadow(flag) => RefusalView::NotShadow(flag@),
            Refusal::StaleMarkerCleared => RefusalView::StaleMarkerCleared,
            Refusal::NothingToDo => RefusalView::NothingToDo,
            Refusal::Active(reason) => RefusalView::Active(reason@),
        }
    }
}

impl RefusalView {
    /// The message, for a project of that name with that mount point.
    pub open spec fn message(&self, name: Seq<char>, mp: Seq<char>) -> Seq<char> {
        match self {
            RefusalView::InvalidName => text::debug_text(name) + " 非法项目名"@,
            RefusalView::NoMeta => name + " 无提交标记 meta，无法 reconcile（未 apply？）"@,
            RefusalView::NotShadow(flag) => "reconcile 仅支持 shadow 后端；"@ + text::debug_text(
                name,
            ) + " 为 "@ + *flag + "，不适用（container 无 fall-through 语义）"@,
            RefusalView::StaleMarkerCleared => mp
                + " underlay 已空但残留 reconciling 标记（上次收尾被中断）→ 已清标记收敛，项目恢复可维护；无需 reconcile"@,
            RefusalView::NothingToDo => mp
                + " 挂载点 underlay 无回落写（fall-through 为空），无需 reconcile"@,
            RefusalView::Active(reason) => mp + " 疑似活跃会话（"@ + *reason
                + "），拒绝 reconcile；确认空闲后用 --force 重试"@,
        }
    }
}

impl Refusal {
    /// The message, for a project of that name with that mount point.
    pub fn message(&self, name: &str, mp: &str) -> (m: String)
        ensures
            m@ == self@.message(name@, mp@),
    {
        let mut m: String = String::new();
        match self {
            Refusal::InvalidName => {
                m.append(text::quoted(name).as_str());
                m.append(" 非法项目名");
            },
            Refusal::NoMeta => {
                m.append(name);
                m.append(" 无提交标记 meta，无法 reconcile（未 apply？）");
            },
            Refusal::NotShadow(flag) => {
                m.append("reconcile 仅支持 shadow 后端；");
                m.append(text::quoted(name).as_str());
                m.append(" 为 ");
                m.append(flag.as_str());
                m.append("，不适用（container 无 fall-through 语义）");
            },
            Refusal::StaleMarkerCleared => {
                m.append(mp);
                m.append(
                    " underlay 已空但残留 reconciling 标记（上次收尾被中断）→ 已清标记收敛，项目恢复可维护；无需 reconcile",
                );
            },
            Refusal::NothingToDo => {
                m.append(mp);
                m.append(" 挂载点 underlay 无回落写（fall-through 为空），无需 reconcile");
            },
            Refusal::Active(reason) => {
                m.append(mp);
                m.append(" 疑似活跃会话（");
                m.append(reason.as_str());
                m.append("），拒绝 reconcile；确认空闲后用 --force 重试");
            },
        }
        assert(m@ =~= self@.message(name@, mp@));
        m
    }
}

/// What to do next.
pub enum CheckAction {
    /// List the mount point.
    List,
    /// Look whether the marker of a reconciliation is there.
    CheckMarker,
    /// Clear that marker.
    ClearMarker,
    /// Ask whether something is being written.
    CheckActivity,
    /// Take the lock and the snapshot.
    Proceed,
    /// Nothing: it does not start.
    Refuse(Refusal),
}

/// What to do next, as a mathematical value.
#[verifier::ext_equal]
pub enum ActionView {
    List,
    CheckMarker,
    ClearMarker,
    CheckActivity,
    Proceed,
    Refuse(RefusalView),
}

impl View for CheckAction {
    type V = ActionView;

    open spec fn view(&self) -> ActionView {
        match self {
            CheckAction::List => ActionView::List,
            CheckAction::CheckMarker => ActionView::CheckMarker,
            CheckAction::ClearMarker => ActionView::ClearMarker,
            CheckAction::CheckActivity => ActionView::CheckActivity,
            CheckAction::Proceed => ActionView::Proceed,
            CheckAction::Refuse(r) => ActionView::Refuse(r@),
        }
    }
}

/// What came of a step.
pub enum CheckEvent {
    /// To start with.
    Begin,
    /// What the mount point holds; nothing where it does not exist.
    Listed(Option<Vec<Vec<u8>>>),
    /// Whether the marker is there.
    Marker(bool),
    /// The marker was cleared.
    Cleared,
    /// Why something seems to be being written, if so.
    Activity(Option<String>),
}

/// Which step is under way.
#[derive(Debug, Clone, Copy, PartialEq, Eq, Structural)]
pub enum Phase {
    Start,
    Listing,
    Marker,
    Clearing,
    Activity,
    End,
}

/// The checks before a reconciliation.
pub struct Check {
    /// The name of the project.
    pub name: String,
    /// Whether its backend keeps files of its own.
    pub shadow: bool,
    /// The name of its backend.
    pub flag: String,
    /// Whether to start though something seems to be being written.
    pub force: bool,
    /// The step that is under way.
    pub phase: Phase,
}

/// The text of a reason that may be there.
pub open spec fn reason_text(r: Option<String>) -> Option<Seq<char>> {
    match r {
        Some(s) => Some(s@),
        None => None,
    }
}

/// Whether a listing holds a write that fell through.
pub open spec fn fell_through(listing: Option<Vec<Vec<u8>>>) -> bool {
    match listing {
        Some(names) => guard::fell_through(names@),
        None => false,
    }
}

impl Check {
    /// What comes next; nothing where the event is not one of the step under way.
    pub open spec fn stepped(&self, e: CheckEvent) -> Option<(Phase, ActionView)> {
        match (self.phase, e) {
            (Phase::Start, CheckEvent::Begin) => if !types::valid_name(self.name@) {
                Some((Phase::End, ActionView::Refuse(RefusalView::InvalidName)))
            } else if !self.shadow {
                Some((Phase::End, ActionView::Refuse(RefusalView::NotShadow(self.flag@))))
            } else {
                Some((Phase::Listing, ActionView::List))
            },
            (Phase::Listing, CheckEvent::Listed(listing)) => if !fell_through(listing) {
                Some((Phase::Marker, ActionView::CheckMarker))
            } else if self.force {
                Some((Phase::End, ActionView::Proceed))
            } else {
                Some((Phase::Activity, ActionView::CheckActivity))
            },
            (Phase::Marker, CheckEvent::Marker(there)) => if there {
                Some((Phase::Clearing, ActionView::ClearMarker))
            } else {
                Some((Phase::End, ActionView::Refuse(RefusalView::NothingToDo)))
            },
            (Phase::Clearing, CheckEvent::Cleared) => Some(
                (Phase::End, ActionView::Refuse(RefusalView::StaleMarkerCleared)),
            ),
            (Phase::Activity, CheckEvent::Activity(reason)) => match reason_text(reason) {
                Some(r) => Some((Phase::End, ActionView::Refuse(RefusalView::Active(r)))),
                None => Some((Phase::End, ActionView::Proceed)),
            },
            _ => None,
        }
    }

    /// The checks for a project.
    pub fn new(name: String, shadow: bool, flag: String, force: bool) -> (c: Check)
        ensures
            c == (Check { name, shadow, flag, force, phase: Phase::Start }),
    {
        Check { name, shadow, flag, force, phase: Phase::Start }
    }

    /// The checks for a project whose record says whether its backend keeps files of its own, and
    /// the name of the backend. A name that could lead out of its directory refuses the project,
    /// and then a missing record.
    pub fn of_record(name: String, record: Option<(bool, String)>, force: bool) -> (r: Result<
        Check,
        Refusal,
    >)
        ensures
            match r {
                Ok(c) => types::valid_name(name@) && (record matches Some((shadow, flag)) && c == (
                Check { name, shadow, flag, force, phase: Phase::Start })),
                Err(why) => if types::valid_name(name@) {
                    record is None && why@ == RefusalView::NoMeta
                } else {
                    why@ == RefusalView::InvalidName
                },
            },
    {
        if types::validate_name(name.as_str()).is_err() {
            return Err(Refusal::InvalidName);
        }
        match record {
            Some((shadow, flag)) => Ok(Check::new(name, shadow, flag, force)),
            None => Err(Refusal::NoMeta),
        }
    }

    /// Takes in what came of the step under way, and says what to do next. Nothing comes of an
    /// event that is not one of that step.
    pub fn step(&mut self, e: CheckEvent) -> (r: Option<CheckAction>)
        ensures
            match old(self).stepped(e) {
                Some((phase, a)) => {
                    &&& *final(self) == (Check { phase, ..*old(self) })
                    &&& r matches Some(x) && x@ == a
                },
                None => r is None && *final(self) == *old(self),
            },
    {
        match (self.phase, e) {
            (Phase::Start, CheckEvent::Begin) => {
                if types::validate_name(self.name.as_str()).is_err() {
                    self.phase = Phase::End;
                    return Some(CheckAction::Refuse(Refusal::InvalidName));
                }
                if !self.shadow {
                    self.phase = Phase::End;
                    let flag: String = self.flag.clone();
                    return Some(CheckAction::Refuse(Refusal::NotShadow(flag)));
                }
                self.phase = Phase::Listing;
                Some(CheckAction::List)
            },
            (Phase::Listing, CheckEvent::Listed(listing)) => {
                let fell: bool = match &listing {
                    Some(names) => guard::underlay_has_fallthrough(Some(names)),
                    None => false,
                };
                assert(fell == fell_through(listing));
                if !fell {
                    self.phase = Phase::Marker;
                    Some(CheckAction::CheckMarker)
                } else if self.force {
                    self.phase = Phase::End;
                    Some(CheckAction::Proceed)
                } else {
                    self.phase = Phase::Activity;
                    Some(CheckAction::CheckActivity)
                }
            },
            (Phase::Marker, CheckEvent::Marker(there)) => {
                if there {
                    self.phase = Phase::Clearing;
                    Some(CheckAction::ClearMarker)
                } else {
                    self.phase = Phase::End;
                    Some(CheckAction::Refuse(Refusal::NothingToDo))
                }
            },
            (Phase::Clearing, CheckEvent::Cleared) => {
                self.phase = Phase::End;
                Some(CheckAction::Refuse(Refusal::StaleMarkerCleared))
            },
            (Phase::Activity, CheckEvent::Activity(reason)) => {
                self.phase = Phase::End;
                match reason {
                    Some(r) => Some(CheckAction::Refuse(Refusal::Active(r))),
                    None => Some(CheckAction::Proceed),
                }
            },
            _ => None,
        }
    }
}

/// A reconciliation starts only with writes that fell through, and a marker is cleared only where
/// there are none.
pub proof fn starts_with_writes_only(c: Check, e: CheckEvent)
    requires
        c.stepped(e) is Some,
    ensures
        ({
            let (_, a) = c.stepped(e)->0;
            &&& a == ActionView::Proceed ==> c.phase == Phase::Activity || (e matches
                CheckEvent::Listed(l) && fell_through(l) && c.force)
            &&& a == ActionView::CheckActivity ==> (e matches CheckEvent::Listed(l)
                && fell_through(l))
            &&& a == ActionView::CheckMarker ==> (e matches CheckEvent::Listed(l)
                && !fell_through(l))
            &&& a == ActionView::ClearMarker ==> c.phase == Phase::Marker
        }),
{
}

/// A reconciliation goes ahead where the project's name and backend are fit, something was written
/// below the mount point, and nothing seems to be being written or that does not matter; else it is
/// refused for what is wrong, and a marker that an earlier run left behind is cleared where there is
/// nothing to do.
pub proof fn each_check_decides(c: Check, listing: Option<Vec<Vec<u8>>>, reason: Option<String>)
    ensures
        c.phase == Phase::Start && !types::valid_name(c.name@) ==> (c.stepped(CheckEvent::Begin)
            matches Some(next) && next.1 == ActionView::Refuse(RefusalView::InvalidName)),
        c.phase == Phase::Start && types::valid_name(c.name@) && !c.shadow ==> (c.stepped(
            CheckEvent::Begin,
        ) matches Some(next) && next.1 == ActionView::Refuse(
            RefusalView::NotShadow(c.flag@),
        )),
        c.phase == Phase::Start && types::valid_name(c.name@) && c.shadow ==> (c.stepped(
            CheckEvent::Begin,
        ) matches Some(next) && next == (Phase::Listing, ActionView::List)),
        c.phase == Phase::Listing ==> (c.stepped(CheckEvent::Listed(listing)) matches Some(next) && {
            let wrote = listing matches Some(names) && guard::fell_through(names@);
            &&& !wrote ==> next == (Phase::Marker, ActionView::CheckMarker)
            &&& wrote && c.force ==> next.1 == ActionView::Proceed
            &&& wrote && !c.force ==> next == (Phase::Activity, ActionView::CheckActivity)
        }),
        c.phase == Phase::Marker ==> (c.stepped(CheckEvent::Marker(true)) matches Some(next) && next
            == (Phase::Clearing, ActionView::ClearMarker)),
        c.phase == Phase::Marker ==> (c.stepped(CheckEvent::Marker(false)) matches Some(next)
            && next.1 == ActionView::Refuse(RefusalView::NothingToDo)),
        c.phase == Phase::Clearing ==> (c.stepped(CheckEvent::Cleared) matches Some(next) && next.1
            == ActionView::Refuse(RefusalView::StaleMarkerCleared)),
        c.phase == Phase::Activity ==> (c.stepped(CheckEvent::Activity(reason)) matches Some(next)
            && {
            &&& reason is None ==> next.1 == ActionView::Proceed
            &&& reason matches Some(r) ==> next.1 == ActionView::Refuse(RefusalView::Active(r@))
        }),
{
}

/// A message names the project or its mount point, and says what it is about.
pub proof fn message_says_what_is_wrong(name: Seq<char>, mp: Seq<char>, part: Seq<char>)
    ensures
        text::stands_in(RefusalView::InvalidName.message(name, mp), text::debug_text(name)),
        text::stands_in(RefusalView::NoMeta.message(name, mp), name),
        text::stands_in(RefusalView::NotShadow(part).message(name, mp), text::debug_text(name)),
        text::stands_in(RefusalView::NotShadow(part).message(name, mp), part),
        text::stands_in(RefusalView::StaleMarkerCleared.message(name, mp), mp),
        text::stands_in(RefusalView::NothingToDo.message(name, mp), mp),
        text::stands_in(RefusalView::Active(part).message(name, mp), mp),
        text::stands_in(RefusalView::Active(part).message(name, mp), part),
{
    let none = Seq::<char>::empty();
    let shown = text::debug_text(name);
    text::part_stands_in(none, shown, " 非法项目名"@);
    assert(none + shown + " 非法项目名"@ =~= RefusalView::InvalidName.message(name, mp));
    let unset = " 无提交标记 meta，无法 reconcile（未 apply？）"@;
    text::part_stands_in(none, name, unset);
    assert(none + name + unset =~= RefusalView::NoMeta.message(name, mp));
    let lead = "reconcile 仅支持 shadow 后端；"@;
    let end = "，不适用（container 无 fall-through 语义）"@;
    text::part_stands_in(lead, shown, " 为 "@ + part + end);
    assert(lead + shown + (" 为 "@ + part + end) =~= RefusalView::NotShadow(part).message(name, mp));
    text::part_stands_in(lead + shown + " 为 "@, part, end);
    let stale = " underlay 已空但残留 reconciling 标记（上次收尾被中断）→ 已清标记收敛，项目恢复可维护；无需 reconcile"@;
    text::part_stands_in(none, mp, stale);
    assert(none + mp + stale =~= RefusalView::StaleMarkerCleared.message(name, mp));
    let nothing = " 挂载点 underlay 无回落写（fall-through 为空），无需 reconcile"@;
    text::part_stands_in(none, mp, nothing);
    assert(none + mp + nothing =~= RefusalView::NothingToDo.message(name, mp));
    let idle = "），拒绝 reconcile；确认空闲后用 --force 重试"@;
    text::part_stands_in(none, mp, " 疑似活跃会话（"@ + part + idle);
    assert(none + mp + (" 疑似活跃会话（"@ + part + idle) =~= RefusalView::Active(part).message(
        name,
        mp,
    ));
    text::part_stands_in(mp + " 疑似活跃会话（"@, part, idle);
}

} // verus!
