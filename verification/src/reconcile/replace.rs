//! Replacing a file whole or not at all.
//!
//! The new content is written beside the file and made durable, takes the file's name, and then the
//! directory is made durable. Each step says what to do next; a step that fails ends it.
use vstd::prelude::*;

verus! {

/// What to do next.
#[derive(Debug, Clone, Copy, PartialEq, Eq, Structural)]
pub enum ReplaceAction {
    /// Write the new content beside the file.
    Write,
    /// Make what was written durable.
    Sync,
    /// Give it the file's name.
    Rename,
    /// Make the directory durable.
    SyncDir,
    /// It is replaced.
    Finish,
    /// The step under way failed: give its error back.
    Fail,
}

/// A replacement under way; it starts with writing.
#[derive(Debug, Clone, Copy, PartialEq, Eq, Structural)]
pub struct Replace {
    /// Whether the file lies in a directory that can be made durable.
    pub has_parent: bool,
    /// The step under way.
    pub doing: ReplaceAction,
}

impl Replace {
    /// What follows when the step under way succeeded or failed.
    pub open spec fn stepped(&self, ok: bool) -> ReplaceAction {
        match self.doing {
            ReplaceAction::Write => if ok {
                ReplaceAction::Sync
            } else {
                ReplaceAction::Fail
            },
            ReplaceAction::Sync => if ok {
                ReplaceAction::Rename
            } else {
                ReplaceAction::Fail
            },
            ReplaceAction::Rename => if !ok {
                ReplaceAction::Fail
            } else if self.has_parent {
                ReplaceAction::SyncDir
            } else {
                ReplaceAction::Finish
            },
            ReplaceAction::SyncDir => if ok {
                ReplaceAction::Finish
            } else {
                ReplaceAction::Fail
            },
            over => over,
        }
    }

    /// Starts to replace a file, with the first thing to do.
    pub fn new(has_parent: bool) -> (r: Replace)
        ensures
            r == (Replace { has_parent, doing: ReplaceAction::Write }),
    {
        Replace { has_parent, doing: ReplaceAction::Write }
    }

    /// Takes in whether the step under way succeeded, and says what to do next.
    pub fn step(&mut self, ok: bool) -> (next: ReplaceAction)
        ensures
            next == old(self).stepped(ok),
            *final(self) == (Replace { doing: next, ..*old(self) }),
    {
        let next: ReplaceAction = match self.doing {
            ReplaceAction::Write => if ok {
                ReplaceAction::Sync
            } else {
                ReplaceAction::Fail
            },
            ReplaceAction::Sync => if ok {
                ReplaceAction::Rename
            } else {
                ReplaceAction::Fail
            },
            ReplaceAction::Rename => if !ok {
                ReplaceAction::Fail
            } else if self.has_parent {
                ReplaceAction::SyncDir
            } else {
                ReplaceAction::Finish
            },
            ReplaceAction::SyncDir => if ok {
                ReplaceAction::Finish
            } else {
                ReplaceAction::Fail
            },
            over => over,
        };
        self.doing = next;
        next
    }
}

/// A file on a disk that may lose what was not made durable.
#[verifier::ext_equal]
pub struct Disk {
    /// What the file held at the start; nothing where it was not there.
    pub before: Option<Seq<u8>>,
    /// What it is to hold.
    pub content: Seq<u8>,
    /// Whether the new content stands beside it in full.
    pub written: bool,
    /// Whether that is durable.
    pub synced: bool,
    /// Whether it has the file's name.
    pub renamed: bool,
    /// Whether that is durable.
    pub settled: bool,
}

impl Disk {
    /// The disk before anything was done.
    pub open spec fn untouched(&self) -> bool {
        !self.written && !self.synced && !self.renamed && !self.settled
    }

    /// What a step that was asked for makes of it. One that fails may have been made or not.
    pub open spec fn after(&self, a: ReplaceAction, made: bool) -> Disk {
        match a {
            ReplaceAction::Write => Disk { written: self.written || made, ..*self },
            ReplaceAction::Sync => Disk { synced: self.synced || (made && self.written), ..*self },
            ReplaceAction::Rename => Disk { renamed: self.renamed || made, ..*self },
            ReplaceAction::SyncDir => Disk {
                settled: self.settled || (made && self.renamed),
                ..*self
            },
            _ => *self,
        }
    }

    /// Whether a crash now can leave the file with that content: a name that is not durable may be
    /// the old one or the new one, and what stands under the new one may be anything unless it was
    /// made durable.
    pub open spec fn can_leave(&self, found: Option<Seq<u8>>) -> bool {
        ||| !self.settled && found == self.before
        ||| self.renamed && (self.synced ==> found == Some(self.content))
    }
}

/// What holds of a replacement under way.
pub open spec fn in_step(r: Replace, d: Disk) -> bool {
    &&& d.renamed ==> d.synced
    &&& d.settled ==> d.renamed
    &&& match r.doing {
        ReplaceAction::Write => d.untouched(),
        ReplaceAction::Sync => d.written && !d.renamed,
        ReplaceAction::Rename => d.synced && !d.renamed,
        ReplaceAction::SyncDir => d.renamed,
        ReplaceAction::Finish => d.renamed && (r.has_parent ==> d.settled),
        ReplaceAction::Fail => true,
    }
}

/// Every step keeps a replacement in step; `made` is whether a step that failed was made all the
/// same.
pub proof fn every_step_is_in_step(r: Replace, d: Disk, ok: bool, made: bool)
    requires
        in_step(r, d),
        ok ==> made,
    ensures
        in_step(Replace { doing: r.stepped(ok), ..r }, d.after(r.doing, made)),
        d.after(r.doing, made).before == d.before,
        d.after(r.doing, made).content == d.content,
{
}

/// A replacement happens whole or not at all: a crash before, during or after any of its steps
/// leaves the file as it was, or with all of the new content, and nothing else.
pub proof fn crash_leaves_old_or_new(r: Replace, d: Disk, found: Option<Seq<u8>>)
    requires
        in_step(r, d),
        d.can_leave(found),
    ensures
        found == d.before || found == Some(d.content),
{
}

/// A file in a directory that was replaced stays replaced, whatever happens.
pub proof fn replaced_file_stays_replaced(r: Replace, d: Disk, found: Option<Seq<u8>>)
    requires
        in_step(r, d),
        r.has_parent,
        r.doing == ReplaceAction::Finish,
        d.can_leave(found),
    ensures
        found == Some(d.content),
{
}

/// A replacement goes through all its steps in order, and ends with the first that fails: the content
/// is written, made durable, given the file's name, and then the directory is made durable where
/// there is one.
pub proof fn replacement_goes_step_by_step(r: Replace)
    ensures
        r.doing == ReplaceAction::Write ==> r.stepped(true) == ReplaceAction::Sync,
        r.doing == ReplaceAction::Sync ==> r.stepped(true) == ReplaceAction::Rename,
        r.doing == ReplaceAction::Rename && r.has_parent ==> r.stepped(true)
            == ReplaceAction::SyncDir,
        r.doing == ReplaceAction::Rename && !r.has_parent ==> r.stepped(true)
            == ReplaceAction::Finish,
        r.doing == ReplaceAction::SyncDir ==> r.stepped(true) == ReplaceAction::Finish,
        r.doing != ReplaceAction::Finish ==> r.stepped(false) == ReplaceAction::Fail,
        r.doing == ReplaceAction::Finish || r.doing == ReplaceAction::Fail ==> r.stepped(true)
            == r.doing && r.stepped(false) == r.doing,
{
}

} // verus!
