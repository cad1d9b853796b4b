//! What a reconciliation speaks of: the entries found below a mount point, what is planned for
//! each, and what was done.
use vstd::prelude::*;
use vstd::string::*;

use crate::store::types::Time;
use crate::text;

verus! {

/// How an entry is undone.
#[derive(Debug, Clone, Copy, PartialEq, Eq, Structural)]
pub enum ReversalClass {
    /// The original had another content: it is put back.
    RestoreOrig,
    /// The original was not there: it is removed.
    RemoveOrig,
    /// A copy was set aside: the copy is removed.
    RemoveQuarantine,
    /// Files went to a shared directory: they are only reported.
    ReportMemory,
    /// There is nothing to undo.
    Noop,
}

impl ReversalClass {
    /// The name in a manifest.
    pub open spec fn name(&self) -> Seq<char> {
        match self {
            ReversalClass::RestoreOrig => "RestoreOrig"@,
            ReversalClass::RemoveOrig => "RemoveOrig"@,
            ReversalClass::RemoveQuarantine => "RemoveQuarantine"@,
            ReversalClass::ReportMemory => "ReportMemory"@,
            ReversalClass::Noop => "Noop"@,
        }
    }

    /// The class that a name stands for.
    pub open spec fn named(s: Seq<char>) -> Option<ReversalClass> {
        if s == "RestoreOrig"@ {
            Some(ReversalClass::RestoreOrig)
        } else if s == "RemoveOrig"@ {
            Some(ReversalClass::RemoveOrig)
        } else if s == "RemoveQuarantine"@ {
            Some(ReversalClass::RemoveQuarantine)
        } else if s == "ReportMemory"@ {
            Some(ReversalClass::ReportMemory)
        } else if s == "Noop"@ {
            Some(ReversalClass::Noop)
        } else {
            None
        }
    }

    /// The name in a manifest.
    pub fn as_str(&self) -> (s: &'static str)
        ensures
            s@ == self.name(),
    {
        match self {
            ReversalClass::RestoreOrig => "RestoreOrig",
            ReversalClass::RemoveOrig => "RemoveOrig",
            ReversalClass::RemoveQuarantine => "RemoveQuarantine",
            ReversalClass::ReportMemory => "ReportMemory",
            ReversalClass::Noop => "Noop",
        }
    }

    /// The class that a name stands for.
    pub fn parse(s: &str) -> (r: Option<ReversalClass>)
        ensures
            r == ReversalClass::named(s@),
    {
        if text::same_str(s, "RestoreOrig") {
            Some(ReversalClass::RestoreOrig)
        } else if text::same_str(s, "RemoveOrig") {
            Some(ReversalClass::RemoveOrig)
        } else if text::same_str(s, "RemoveQuarantine") {
            Some(ReversalClass::RemoveQuarantine)
        } else if text::same_str(s, "ReportMemory") {
            Some(ReversalClass::ReportMemory)
        } else if text::same_str(s, "Noop") {
            Some(ReversalClass::Noop)
        } else {
            None
        }
    }
}

/// A class is found again by its name.
pub proof fn class_reads_back(c: ReversalClass)
    ensures
        ReversalClass::named(c.name()) == Some(c),
{
    reveal_strlit("RestoreOrig");
    reveal_strlit("RemoveOrig");
    reveal_strlit("RemoveQuarantine");
    reveal_strlit("ReportMemory");
    reveal_strlit("Noop");
    assert("RestoreOrig"@.len() == 11);
    assert("RemoveOrig"@.len() == 10);
    assert("RemoveQuarantine"@.len() == 16);
    assert("ReportMemory"@.len() == 12);
    assert("Noop"@.len() == 4);
}

/// What is planned for an entry.
#[derive(Debug, Clone, Copy, PartialEq, Eq, Structural)]
pub enum EntryPlan {
    /// Merge it with the original.
    Union,
    /// There is no original: take it over.
    New,
    /// It is the original.
    Identical,
    /// Set it aside.
    KeepSeparate,
    /// Leave both for a person to look at.
    KeepBoth,
    /// Send it to the shared directory that its link points to.
    Passthrough,
}

impl EntryPlan {
    /// The name in a report.
    pub open spec fn name(&self) -> Seq<char> {
        match self {
            EntryPlan::Union => "Union"@,
            EntryPlan::New => "New"@,
            EntryPlan::Identical => "Identical"@,
            EntryPlan::KeepSeparate => "KeepSeparate"@,
            EntryPlan::KeepBoth => "KeepBoth"@,
            EntryPlan::Passthrough => "Passthrough"@,
        }
    }

    /// The name in a report.
    pub fn as_str(&self) -> (s: &'static str)
        ensures
            s@ == self.name(),
    {
        match self {
            EntryPlan::Union => "Union",
            EntryPlan::New => "New",
            EntryPlan::Identical => "Identical",
            EntryPlan::KeepSeparate => "KeepSeparate",
            EntryPlan::KeepBoth => "KeepBoth",
            EntryPlan::Passthrough => "Passthrough",
        }
    }
}

/// When a receiver is said to hold what a source holds.
#[derive(Debug, Clone, Copy, PartialEq, Eq, Structural)]
pub enum SupersetMode {
    /// It is byte for byte the same.
    ByteEqual,
    /// Every line of the source is one of its lines.
    LinesSuperset,
}

/// What the user said of a recommendation.
#[derive(Debug, Clone, Copy, PartialEq, Eq, Structural)]
pub enum Confirm {
    /// Do it.
    Accept,
    /// Keep both versions.
    KeepBoth,
    /// Leave it alone.
    Skip,
}

/// A file found below the mount point, as it was when the snapshot was taken.
#[derive(Debug)]
pub struct EntrySnapshot {
    /// Its path below the mount point.
    pub rel: String,
    /// Its content; nothing for a file that is too large to merge.
    pub bytes: Vec<u8>,
    /// Its time of modification.
    pub mtime: Time,
    /// Its length.
    pub size: u64,
    /// Its inode number.
    pub ino: u64,
}

/// A file found below the mount point, as a mathematical value.
#[verifier::ext_equal]
pub struct SnapView {
    pub rel: Seq<char>,
    pub bytes: Seq<u8>,
    pub mtime: Time,
    pub size: u64,
    pub ino: u64,
}

impl View for EntrySnapshot {
    type V = SnapView;

    open spec fn view(&self) -> SnapView {
        SnapView {
            rel: self.rel@,
            bytes: self.bytes@,
            mtime: self.mtime,
            size: self.size,
            ino: self.ino,
        }
    }
}

/// What the file system says of a file that is there.
#[derive(Debug, Clone, Copy, PartialEq, Eq, Structural)]
pub struct LiveStat {
    /// Its time of modification, where that can be had.
    pub mtime: Option<Time>,
    /// Its length.
    pub size: u64,
    /// Its inode number.
    pub ino: u64,
}

/// What was done with an entry.
#[derive(Debug)]
pub struct EntryReport {
    /// Its path below the mount point, or a word in angle brackets for a step of the whole run.
    pub name: String,
    /// What was decided.
    pub decision: String,
    /// What was done.
    pub action: String,
    /// Remarks.
    pub notes: Vec<String>,
    /// How it is undone.
    pub reversal: ReversalClass,
}

/// What was done with an entry, as a mathematical value.
#[verifier::ext_equal]
pub struct ReportView {
    pub name: Seq<char>,
    pub decision: Seq<char>,
    pub action: Seq<char>,
    pub notes: Seq<Seq<char>>,
    pub reversal: ReversalClass,
}

impl View for EntryReport {
    type V = ReportView;

    open spec fn view(&self) -> ReportView {
        ReportView {
            name: self.name@,
            decision: self.decision@,
            action: self.action@,
            notes: text::texts(self.notes@),
            reversal: self.reversal,
        }
    }
}

/// The reports of a list.
pub open spec fn reports(v: Seq<EntryReport>) -> Seq<ReportView> {
    Seq::new(v.len(), |i: int| v[i]@)
}

/// How an entry is undone whose original was written over: whether there was one to stash says it.
pub open spec fn preimage_class(has_preimage: bool) -> ReversalClass {
    if has_preimage {
        ReversalClass::RestoreOrig
    } else {
        ReversalClass::RemoveOrig
    }
}

/// How an entry is undone whose original was written over.
pub fn reversal_for_preimage(has_preimage: bool) -> (c: ReversalClass)
    ensures
        c == preimage_class(has_preimage),
{
    if has_preimage {
        ReversalClass::RestoreOrig
    } else {
        ReversalClass::RemoveOrig
    }
}

/// An original that was there is put back, and one that was not is removed.
pub proof fn what_was_there_is_put_back()
    ensures
        preimage_class(true) == ReversalClass::RestoreOrig,
        preimage_class(false) == ReversalClass::RemoveOrig,
{
}

/// Each class has its own name, and no other text is a class.
pub proof fn class_has_its_name(c: ReversalClass, d: ReversalClass, s: Seq<char>)
    ensures
        c.name() == d.name() ==> c == d,
        ReversalClass::named(s) is Some ==> (ReversalClass::named(s)->0).name() == s,
        ReversalClass::RestoreOrig.name() == "RestoreOrig"@,
        ReversalClass::RemoveOrig.name() == "RemoveOrig"@,
        ReversalClass::RemoveQuarantine.name() == "RemoveQuarantine"@,
        ReversalClass::ReportMemory.name() == "ReportMemory"@,
        ReversalClass::Noop.name() == "Noop"@,
{
    class_reads_back(c);
    class_reads_back(d);
}

/// No two plans have the same name.
pub proof fn plan_has_its_name(a: EntryPlan, b: EntryPlan)
    ensures
        a.name() == b.name() ==> a == b,
        a.name() == "Union"@ <==> a == EntryPlan::Union,
        a.name() == "New"@ <==> a == EntryPlan::New,
        a.name() == "Identical"@ <==> a == EntryPlan::Identical,
        a.name() == "KeepSeparate"@ <==> a == EntryPlan::KeepSeparate,
        a.name() == "KeepBoth"@ <==> a == EntryPlan::KeepBoth,
        a.name() == "Passthrough"@ <==> a == EntryPlan::Passthrough,
{
    reveal_strlit("Union");
    reveal_strlit("New");
    reveal_strlit("Identical");
    reveal_strlit("KeepSeparate");
    reveal_strlit("KeepBoth");
    reveal_strlit("Passthrough");
    assert("Union"@.len() == 5 && "New"@.len() == 3 && "Identical"@.len() == 9);
    assert("KeepSeparate"@.len() == 12 && "KeepBoth"@.len() == 8 && "Passthrough"@.len() == 11);
}

} // verus!
