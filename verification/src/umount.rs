//! Unmounting in steps that get rougher, without ever losing the writes of a daemon that lives.
use vstd::prelude::*;

verus! {

/// What came of an outside command.
#[derive(Debug, Clone, Copy, PartialEq, Eq, Structural)]
pub enum CmdOutcome {
    /// It succeeded.
    Success,
    /// It ran and failed.
    Failed,
    /// It did not end in time.
    TimedOut,
    /// There is no such command.
    NotFound,
}

/// How rough to be.
#[derive(Debug, Clone, Copy, PartialEq, Eq, Structural)]
pub enum UmountLevel {
    /// Let the daemon write everything; fail where the mount is in use.
    Clean,
    /// Detach at once, and let the daemon end later.
    Lazy,
    /// Cut the daemon off, then detach; writes under way may be lost.
    Abort,
    /// One after the other, cutting off only a daemon that does not live.
    Auto,
}

/// What came of unmounting.
#[derive(Debug, Clone, Copy, PartialEq, Eq, Structural)]
pub struct UmountReport {
    /// Whether it was mounted at all.
    pub was_mounted: bool,
    /// The number of the connection to the daemon, where that is known.
    pub connection_id: Option<u64>,
    /// The last level that was tried.
    pub level_reached: UmountLevel,
    /// Whether the daemon was cut off.
    pub aborted: bool,
    /// Whether it is unmounted.
    pub unmounted: bool,
}

/// Why it is still mounted.
#[derive(Debug, Clone, Copy, PartialEq, Eq, Structural)]
pub enum UmountError {
    /// The daemon lives and the mount is in use.
    Busy,
    /// Not even cutting the daemon off helped.
    AbortFailed,
    /// The level that was asked for did not help.
    NotDetached(UmountLevel),
}

/// What to do next.
#[derive(Debug, Clone, Copy, PartialEq, Eq, Structural)]
pub enum UmountStep {
    /// Cut the daemon of that connection off, where one is given; then detach, lazily or not; then
    /// look whether it is still mounted.
    Detach { abort: Option<u64>, lazy: bool },
    /// Ask whether the daemon answers.
    Probe,
    /// Nothing: it is unmounted.
    Done(UmountReport),
    /// Nothing: it is still mounted.
    Fail(UmountError),
}

/// What came of a step.
#[derive(Debug, Clone, Copy, PartialEq, Eq, Structural)]
pub enum UmountEvent {
    /// Whether it is still mounted.
    StillMounted(bool),
    /// Whether the daemon answers.
    Alive(bool),
}

/// Which step is under way.
#[derive(Debug, Clone, Copy, PartialEq, Eq, Structural)]
pub enum Phase {
    /// A level is being tried.
    Trying,
    /// The daemon is asked.
    Probing,
    /// Nothing.
    End,
}

/// An unmounting.
#[derive(Debug, Clone, Copy, PartialEq, Eq, Structural)]
pub struct Umount {
    /// Whether levels follow each other.
    pub auto: bool,
    /// The step that is under way.
    pub phase: Phase,
    /// What came of it so far.
    pub report: UmountReport,
}

impl Umount {
    /// Tries a level.
    pub open spec fn trying(&self, level: UmountLevel) -> (Umount, UmountStep) {
        let aborts = level == UmountLevel::Abort;
        (
            Umount {
                phase: Phase::Trying,
                report: UmountReport {
                    level_reached: level,
                    aborted: self.report.aborted || (aborts && self.report.connection_id is Some),
                    ..self.report
                },
                ..*self
            },
            UmountStep::Detach {
                abort: if aborts {
                    self.report.connection_id
                } else {
                    None
                },
                lazy: level != UmountLevel::Clean,
            },
        )
    }

    /// The end, unmounted.
    pub open spec fn unmounted(&self) -> (Umount, UmountStep) {
        let report = UmountReport { unmounted: true, ..self.report };
        (Umount { phase: Phase::End, report, ..*self }, UmountStep::Done(report))
    }

    /// The end, mounted.
    pub open spec fn failed(&self, e: UmountError) -> (Umount, UmountStep) {
        (Umount { phase: Phase::End, ..*self }, UmountStep::Fail(e))
    }

    /// What comes next; nothing where the event is not one of the step under way.
    pub open spec fn stepped(&self, e: UmountEvent) -> Option<(Umount, UmountStep)> {
        match (self.phase, e) {
            (Phase::Trying, UmountEvent::StillMounted(mounted)) => if !mounted {
                Some(self.unmounted())
            } else if !self.auto {
                Some(self.failed(UmountError::NotDetached(self.report.level_reached)))
            } else if self.report.level_reached == UmountLevel::Clean {
                Some(self.trying(UmountLevel::Lazy))
            } else if self.report.level_reached == UmountLevel::Lazy {
                Some((Umount { phase: Phase::Probing, ..*self }, UmountStep::Probe))
            } else {
                Some(self.failed(UmountError::AbortFailed))
            },
            (Phase::Probing, UmountEvent::Alive(alive)) => if alive {
                Some(self.failed(UmountError::Busy))
            } else {
                Some(self.trying(UmountLevel::Abort))
            },
            _ => None,
        }
    }

    fn try_level(&mut self, level: UmountLevel) -> (s: UmountStep)
        ensures
            *final(self) == old(self).trying(level).0,
            s == old(self).trying(level).1,
    {
        self.phase = Phase::Trying;
        self.report.level_reached = level;
        let abort: Option<u64> = if level == UmountLevel::Abort {
            self.report.connection_id
        } else {
            None
        };
        if abort.is_some() {
            self.report.aborted = true;
        }
        UmountStep::Detach { abort, lazy: level != UmountLevel::Clean }
    }

    fn done(&mut self) -> (s: UmountStep)
        ensures
            *final(self) == old(self).unmounted().0,
            s == old(self).unmounted().1,
    {
        self.phase = Phase::End;
        self.report.unmounted = true;
        UmountStep::Done(self.report)
    }

    fn fail(&mut self, e: UmountError) -> (s: UmountStep)
        ensures
            *final(self) == old(self).failed(e).0,
            s == old(self).failed(e).1,
    {
        self.phase = Phase::End;
        UmountStep::Fail(e)
    }

    /// Takes in what came of the step under way, and says what to do next. Nothing comes of an
    /// event that is not one of that step.
    pub fn step(&mut self, e: UmountEvent) -> (s: Option<UmountStep>)
        ensures
            match old(self).stepped(e) {
                Some((u, next)) => *final(self) == u && s == Some(next),
                None => s is None && *final(self) == *old(self),
            },
    {
        match (self.phase, e) {
            (Phase::Trying, UmountEvent::StillMounted(mounted)) => {
                if !mounted {
                    return Some(self.done());
                }
                let level: UmountLevel = self.report.level_reached;
                if !self.auto {
                    return Some(self.fail(UmountError::NotDetached(level)));
                }
                match level {
                    UmountLevel::Clean => Some(self.try_level(UmountLevel::Lazy)),
                    UmountLevel::Lazy => {
                        self.phase = Phase::Probing;
                        Some(UmountStep::Probe)
                    },
                    _ => Some(self.fail(UmountError::AbortFailed)),
                }
            },
            (Phase::Probing, UmountEvent::Alive(alive)) => {
                if alive {
                    Some(self.fail(UmountError::Busy))
                } else {
                    Some(self.try_level(UmountLevel::Abort))
                }
            },
            _ => None,
        }
    }
}

/// How an unmounting starts.
pub open spec fn begun(level: UmountLevel, was_mounted: bool, connection_id: Option<u64>) -> (
    Umount,
    UmountStep,
) {
    let u = Umount {
        auto: level == UmountLevel::Auto,
        phase: Phase::Trying,
        report: UmountReport {
            was_mounted,
            connection_id,
            level_reached: level,
            aborted: false,
            unmounted: false,
        },
    };
    if !was_mounted {
        u.unmounted()
    } else if level == UmountLevel::Auto {
        u.trying(UmountLevel::Clean)
    } else {
        u.trying(level)
    }
}

/// Starts to unmount: what is not mounted is done at once.
pub fn umount(level: UmountLevel, was_mounted: bool, connection_id: Option<u64>) -> (r: (
    Umount,
    UmountStep,
))
    ensures
        r == begun(level, was_mounted, connection_id),
{
    let mut u: Umount = Umount {
        auto: level == UmountLevel::Auto,
        phase: Phase::Trying,
        report: UmountReport {
            was_mounted,
            connection_id,
            level_reached: level,
            aborted: false,
            unmounted: false,
        },
    };
    let step: UmountStep = if !was_mounted {
        u.done()
    } else if level == UmountLevel::Auto {
        u.try_level(UmountLevel::Clean)
    } else {
        u.try_level(level)
    };
    (u, step)
}

/// What holds of an unmounting where levels follow each other: nothing was cut off before the
/// daemon was found dead.
pub open spec fn gentle(u: Umount) -> bool {
    u.auto ==> {
        &&& u.report.level_reached != UmountLevel::Abort ==> !u.report.aborted
        &&& u.phase == Phase::Probing ==> u.report.level_reached == UmountLevel::Lazy
    }
}

/// Where levels follow each other, a daemon that answers is never cut off: the only step that cuts
/// one off follows the answer that it is dead.
pub proof fn living_daemon_is_not_cut_off(u: Umount, e: UmountEvent)
    requires
        u.auto,
        gentle(u),
        u.stepped(e) is Some,
    ensures
        ({
            let (next, step) = u.stepped(e)->0;
            &&& gentle(next)
            &&& step matches UmountStep::Detach { abort, .. } ==> (abort is Some ==> u.phase
                == Phase::Probing && e == UmountEvent::Alive(false))
            &&& e == UmountEvent::Alive(true) ==> step == UmountStep::Fail(UmountError::Busy)
                && !next.report.aborted
        }),
{
}

/// An unmounting starts gently, and reports as unmounted only what is not mounted.
pub proof fn unmounted_is_not_mounted(
    level: UmountLevel,
    was_mounted: bool,
    id: Option<u64>,
    u: Umount,
    e: UmountEvent,
)
    ensures
        gentle(begun(level, was_mounted, id).0),
        begun(level, was_mounted, id).1 is Done <==> !was_mounted,
        u.stepped(e) matches Some(next) ==> (next.1 is Done <==> u.phase == Phase::Trying && e
            == UmountEvent::StillMounted(false)),
{
}

/// What follows the attempt to run one of the two commands that detach.
#[derive(Debug, Clone, Copy, PartialEq, Eq, Structural)]
pub enum TryNext {
    /// Run the other one.
    Other,
    /// It is detached.
    Detached,
    /// Wait, then start again, unless time is up.
    Again,
}

/// Attempts to run one of the two commands that detach.
#[derive(Debug, Clone, Copy, PartialEq, Eq, Structural)]
pub struct Attempts {
    /// Whether the second command is next.
    pub second: bool,
    /// Whether one of them ever ran.
    pub ran: bool,
}

impl Attempts {
    /// No attempt yet.
    pub fn new() -> (a: Attempts)
        ensures
            a == (Attempts { second: false, ran: false }),
    {
        Attempts { second: false, ran: false }
    }

    /// Takes in what came of running the command that was next: where there is none, the second
    /// one follows the first; a failure is one to try again.
    pub fn outcome(&mut self, o: CmdOutcome) -> (n: TryNext)
        ensures
            match o {
                CmdOutcome::Success => n == TryNext::Detached && *final(self) == *old(self),
                CmdOutcome::NotFound => if old(self).second {
                    n == TryNext::Again && *final(self) == (Attempts {
                        second: false,
                        ..*old(self)
                    })
                } else {
                    n == TryNext::Other && *final(self) == (Attempts {
                        second: true,
                        ..*old(self)
                    })
                },
                _ => n == TryNext::Again && *final(self) == (Attempts {
                    second: false,
                    ran: true,
                }),
            },
    {
        match o {
            CmdOutcome::Success => TryNext::Detached,
            CmdOutcome::NotFound => {
                if self.second {
                    self.second = false;
                    TryNext::Again
                } else {
                    self.second = true;
                    TryNext::Other
                }
            },
            _ => {
                self.second = false;
                self.ran = true;
                TryNext::Again
            },
        }
    }

    /// What it comes to when time is up: a failure, or that there is no such command.
    pub fn give_up(&self) -> (o: CmdOutcome)
        ensures
            o == (if self.ran {
                CmdOutcome::Failed
            } else {
                CmdOutcome::NotFound
            }),
    {
        if self.ran {
            CmdOutcome::Failed
        } else {
            CmdOutcome::NotFound
        }
    }
}

/// What a look at a running command tells.
#[derive(Debug, Clone, Copy, PartialEq, Eq, Structural)]
pub enum Poll {
    /// It ended, well or not.
    Ended(bool),
    /// It still runs.
    Running,
    /// It cannot be seen.
    Lost,
}

/// What came of a command, by a look at it: nothing yet where it runs and time is not up.
pub fn polled(p: Poll, time_is_up: bool) -> (o: Option<CmdOutcome>)
    ensures
        o == (match p {
            Poll::Ended(true) => Some(CmdOutcome::Success),
            Poll::Ended(false) => Some(CmdOutcome::Failed),
            Poll::Running => if time_is_up {
                Some(CmdOutcome::TimedOut)
            } else {
                None
            },
            Poll::Lost => Some(CmdOutcome::Failed),
        }),
{
    match p {
        Poll::Ended(well) => if well {
            Some(CmdOutcome::Success)
        } else {
            Some(CmdOutcome::Failed)
        },
        Poll::Running => if time_is_up {
            Some(CmdOutcome::TimedOut)
        } else {
            None
        },
        Poll::Lost => Some(CmdOutcome::Failed),
    }
}

/// The level that was asked for is the one that is tried, and no other: the mount is detached lazily
/// at every level but the clean one, the daemon is cut off at the roughest level alone, and a mount
/// that is still there is reported as one that this level did not help.
pub proof fn asked_level_is_tried(level: UmountLevel, id: Option<u64>)
    requires
        level != UmountLevel::Auto,
    ensures
        ({
            let (u, step) = begun(level, true, id);
            &&& step matches UmountStep::Detach { abort, lazy } && {
                &&& lazy <==> level != UmountLevel::Clean
                &&& level == UmountLevel::Abort ==> abort == id
                &&& level != UmountLevel::Abort ==> abort is None
            }
            &&& u.report.level_reached == level
            &&& u.report.was_mounted
            &&& !u.report.unmounted
            &&& u.report.connection_id == id
            &&& u.report.aborted <==> level == UmountLevel::Abort && id is Some
            &&& u.stepped(UmountEvent::StillMounted(true)) matches Some(next) && next.1
                == UmountStep::Fail(UmountError::NotDetached(level))
            &&& u.stepped(UmountEvent::StillMounted(false)) matches Some(next) && (next.1 matches
                UmountStep::Done(r) && r.unmounted && r.level_reached == level && r.aborted
                == u.report.aborted)
        }),
{
}

/// What is not mounted is done with at once, and nothing was cut off.
pub proof fn nothing_is_done_to_what_is_not_mounted(level: UmountLevel, id: Option<u64>)
    ensures
        ({
            let (u, step) = begun(level, false, id);
            step matches UmountStep::Done(r) && !r.was_mounted && !r.aborted && r.unmounted
                && r.connection_id == id && r.level_reached == level
        }),
{
}

/// Where levels follow each other, each is tried once and the rougher one only where the gentler one
/// did not help: clean, lazy, then the daemon is asked, and only one that does not answer is cut off
/// before the last attempt.
pub proof fn levels_follow_each_other(id: Option<u64>)
    ensures
        ({
            let (clean, first) = begun(UmountLevel::Auto, true, id);
            let still = UmountEvent::StillMounted(true);
            let (lazy, second) = clean.stepped(still)->0;
            let (asking, third) = lazy.stepped(still)->0;
            let (rough, fourth) = asking.stepped(UmountEvent::Alive(false))->0;
            &&& first == UmountStep::Detach { abort: None, lazy: false }
            &&& clean.stepped(still) is Some
            &&& second == UmountStep::Detach { abort: None, lazy: true }
            &&& lazy.stepped(still) is Some
            &&& third == UmountStep::Probe
            &&& asking.stepped(UmountEvent::Alive(false)) is Some
            &&& fourth == UmountStep::Detach { abort: id, lazy: true }
            &&& clean.report.level_reached == UmountLevel::Clean
            &&& lazy.report.level_reached == UmountLevel::Lazy
            &&& rough.report.level_reached == UmountLevel::Abort
            &&& !clean.report.aborted && !lazy.report.aborted && !asking.report.aborted
            &&& rough.report.aborted <==> id is Some
            &&& asking.stepped(UmountEvent::Alive(true)) matches Some(next) && next.1
                == UmountStep::Fail(UmountError::Busy)
            &&& rough.stepped(still) matches Some(next) && next.1 == UmountStep::Fail(
                UmountError::AbortFailed,
            )
        }),
{
}

/// A mount that is gone after an attempt is reported as unmounted, at the level that was tried and
/// with what was done to the daemon.
pub proof fn gone_mount_is_reported(u: Umount)
    requires
        u.phase == Phase::Trying,
    ensures
        u.stepped(UmountEvent::StillMounted(false)) matches Some(next) && next.0.phase == Phase::End
            && next.1 == UmountStep::Done(UmountReport { unmounted: true, ..u.report }),
{
}

} // verus!
