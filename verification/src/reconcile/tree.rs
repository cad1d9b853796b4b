//! What is decided at each entry of a directory: when a snapshot is taken, when empty directories
//! are cleared away, when a directory is copied, and when a snapshot is put back.
use vstd::prelude::*;
use vstd::string::*;

use super::guard;
use crate::archive::wire;
use crate::store::types::FileKind;
use crate::text;

verus! {

/// What a snapshot does with an entry.
#[derive(Debug, Clone, Copy, PartialEq, Eq, Structural)]
pub enum WalkStep {
    /// Passes over it.
    Skip,
    /// Goes on in it.
    Descend,
    /// Takes it.
    Capture,
}

/// What a snapshot does with an entry: harmless names are passed over, and so is what is neither a
/// directory nor a regular file.
pub fn walk_step(name: &[u8], kind: FileKind) -> (s: WalkStep)
    ensures
        s == (if guard::harmless(name@) {
            WalkStep::Skip
        } else if kind == FileKind::Directory {
            WalkStep::Descend
        } else if kind == FileKind::RegularFile {
            WalkStep::Capture
        } else {
            WalkStep::Skip
        }),
{
    if guard::is_harmless(name) {
        return WalkStep::Skip;
    }
    match kind {
        FileKind::Directory => WalkStep::Descend,
        FileKind::RegularFile => WalkStep::Capture,
        _ => WalkStep::Skip,
    }
}

/// Whether a file is read as a whole: one above the limit is only copied to the stash and known by
/// its length, time and number.
pub fn reads_whole(size: u64, limit: u64) -> (b: bool)
    ensures
        b == (size <= limit),
{
    size <= limit
}

/// What clearing away does with an entry.
#[derive(Debug, Clone, Copy, PartialEq, Eq, Structural)]
pub enum PruneStep {
    /// Passes over it.
    Ignore,
    /// Leaves it, and the directory with it.
    Keep,
    /// Clears it away first.
    Descend,
}

/// What came of removing a directory.
#[derive(Debug, Clone, Copy, PartialEq, Eq, Structural)]
pub enum Removal {
    /// It is gone.
    Removed,
    /// It was gone.
    Missing,
    /// It is still there.
    Failed,
}

/// A directory that is being cleared away.
#[derive(Debug, Clone, Copy, PartialEq, Eq, Structural)]
pub struct PruneFrame {
    /// Whether something in it stays.
    pub has_kept: bool,
    /// Whether a directory in it was removed.
    pub removed_any: bool,
}

/// What clearing away does with an entry.
pub open spec fn prune_step(name: Seq<u8>, kind: FileKind) -> PruneStep {
    if guard::harmless(name) {
        PruneStep::Ignore
    } else if kind == FileKind::Directory {
        PruneStep::Descend
    } else {
        PruneStep::Keep
    }
}

impl PruneFrame {
    /// The directory when an entry was seen.
    pub open spec fn with_entry(&self, name: Seq<u8>, kind: FileKind) -> PruneFrame {
        PruneFrame {
            has_kept: self.has_kept || prune_step(name, kind) == PruneStep::Keep,
            ..*self
        }
    }

    /// The directory when one in it was cleared away.
    pub open spec fn with_child(&self, drained: bool) -> PruneFrame {
        PruneFrame { has_kept: self.has_kept || !drained, ..*self }
    }

    /// The directory when removing one in it came out that way.
    pub open spec fn with_removal(&self, r: Removal) -> PruneFrame {
        PruneFrame {
            has_kept: self.has_kept || r == Removal::Failed,
            removed_any: self.removed_any || r == Removal::Removed,
        }
    }

    /// A directory of which nothing was seen yet.
    pub fn new() -> (f: PruneFrame)
        ensures
            f == (PruneFrame { has_kept: false, removed_any: false }),
    {
        PruneFrame { has_kept: false, removed_any: false }
    }

    /// What is done with an entry: harmless names do not count; what is not a directory stays.
    pub fn entry(&mut self, name: &[u8], kind: FileKind) -> (s: PruneStep)
        ensures
            s == prune_step(name@, kind),
            *final(self) == old(self).with_entry(name@, kind),
    {
        if guard::is_harmless(name) {
            return PruneStep::Ignore;
        }
        if kind != FileKind::Directory {
            self.has_kept = true;
            return PruneStep::Keep;
        }
        PruneStep::Descend
    }

    /// Whether a directory in it that was cleared away is to be removed: one that holds nothing
    /// that stays. The other stays.
    pub fn child(&mut self, drained: bool) -> (remove: bool)
        ensures
            remove == drained,
            *final(self) == old(self).with_child(drained),
    {
        if !drained {
            self.has_kept = true;
        }
        drained
    }

    /// Takes in what came of removing a directory in it; one that could not be removed stays.
    pub fn removal(&mut self, r: Removal)
        ensures
            *final(self) == old(self).with_removal(r),
    {
        match r {
            Removal::Removed => {
                self.removed_any = true;
            },
            Removal::Missing => {},
            Removal::Failed => {
                self.has_kept = true;
            },
        }
    }

    /// Whether nothing in it stays.
    pub fn drained(&self) -> (b: bool)
        ensures
            b == !self.has_kept,
    {
        !self.has_kept
    }
}

/// An entry of a directory, with what is below it.
pub enum Node {
    /// A directory with its entries by name.
    Dir(Seq<(Seq<u8>, Node)>),
    /// Anything else.
    Other,
}

impl Node {
    /// What an entry is; all that is no directory counts alike.
    pub open spec fn is_kind(&self, kind: FileKind) -> bool {
        (kind == FileKind::Directory) == (*self is Dir)
    }
}

/// Whether nothing of an entry stays when empty directories are cleared away.
pub open spec fn clears(n: Node) -> bool
    decreases n,
{
    match n {
        Node::Dir(entries) => forall|i: int|
            0 <= i < entries.len() ==> guard::harmless(#[trigger] entries[i].0) || clears(
                entries[i].1,
            ),
        Node::Other => false,
    }
}

/// Whether a regular, or otherwise noteworthy, file stands somewhere below an entry in directories
/// of noteworthy names.
pub open spec fn shelters(n: Node) -> bool
    decreases n,
{
    match n {
        Node::Dir(entries) => exists|i: int|
            0 <= i < entries.len() && !guard::harmless(#[trigger] entries[i].0) && shelters(
                entries[i].1,
            ),
        Node::Other => true,
    }
}

/// Whether something of the first `n` entries stays, where each directory in it was cleared away
/// and removed if nothing in it stays.
pub open spec fn keeps_up_to(entries: Seq<(Seq<u8>, Node)>, n: int) -> bool
    decreases n,
{
    if n <= 0 {
        false
    } else {
        keeps_up_to(entries, n - 1) || (!guard::harmless(entries[n - 1].0) && !clears(
            entries[n - 1].1,
        ))
    }
}

proof fn kept_entry(entries: Seq<(Seq<u8>, Node)>, n: int)
    requires
        0 <= n <= entries.len(),
    ensures
        keeps_up_to(entries, n) == (exists|i: int|
            0 <= i < n && !guard::harmless(#[trigger] entries[i].0) && !clears(entries[i].1)),
    decreases n,
{
    if n > 0 {
        kept_entry(entries, n - 1);
    }
}

/// A directory is drained exactly where nothing of its entries stays.
pub proof fn directory_is_drained(dir: Node)
    requires
        dir is Dir,
    ensures
        clears(dir) == !keeps_up_to(dir->Dir_0, dir->Dir_0.len() as int),
{
    match dir {
        Node::Dir(entries) => {
            kept_entry(entries, entries.len() as int);
        },
        Node::Other => {},
    }
}

/// A directory's frame when `n` of its entries were dealt with. `kinds` are what they are said to
/// be, and `removals` what came of removing each directory among them in which nothing stays; a
/// directory among them was dealt with in the same way before, and `left` says what came of it.
pub open spec fn walked(
    entries: Seq<(Seq<u8>, Node)>,
    kinds: Seq<FileKind>,
    left: Seq<bool>,
    removals: Seq<Removal>,
    n: int,
) -> PruneFrame
    decreases n,
{
    if n <= 0 {
        PruneFrame { has_kept: false, removed_any: false }
    } else {
        let before = walked(entries, kinds, left, removals, n - 1);
        let (name, _) = entries[n - 1];
        let seen = before.with_entry(name, kinds[n - 1]);
        if prune_step(name, kinds[n - 1]) != PruneStep::Descend {
            seen
        } else if left[n - 1] {
            seen.with_child(true).with_removal(removals[n - 1])
        } else {
            seen.with_child(false)
        }
    }
}

/// Whether a walk through the directory ends with that answer: each entry is dealt with once, each
/// directory in it in the same way before, and no removal fails.
pub open spec fn walk_answers(dir: Node, drained: bool) -> bool
    decreases dir,
{
    match dir {
        Node::Dir(entries) => exists|
            kinds: Seq<FileKind>,
            left: Seq<bool>,
            removals: Seq<Removal>,
        |
            {
                &&& kinds.len() == entries.len()
                &&& left.len() == entries.len()
                &&& removals.len() == entries.len()
                &&& drained == !(#[trigger] walked(
                    entries,
                    kinds,
                    left,
                    removals,
                    entries.len() as int,
                )).has_kept
                &&& forall|i: int|
                    0 <= i < entries.len() ==> {
                        &&& (#[trigger] entries[i]).1.is_kind(kinds[i])
                        &&& removals[i] != Removal::Failed
                        &&& prune_step(entries[i].0, kinds[i]) == PruneStep::Descend
                            ==> walk_answers(entries[i].1, left[i])
                    }
            },
        Node::Other => false,
    }
}

/// The frame of a directory tells what stays of the entries dealt with so far, where each directory
/// among them is told to be drained if nothing in it stays, and no removal failed.
pub proof fn frame_tells_what_stays(
    entries: Seq<(Seq<u8>, Node)>,
    kinds: Seq<FileKind>,
    left: Seq<bool>,
    removals: Seq<Removal>,
    n: int,
)
    requires
        0 <= n <= entries.len(),
        forall|i: int|
            0 <= i < n ==> {
                &&& (#[trigger] entries[i]).1.is_kind(kinds[i])
                &&& removals[i] != Removal::Failed
                &&& prune_step(entries[i].0, kinds[i]) == PruneStep::Descend ==> left[i] == clears(
                    entries[i].1,
                )
            },
    ensures
        walked(entries, kinds, left, removals, n).has_kept == keeps_up_to(entries, n),
    decreases n,
{
    if n > 0 {
        frame_tells_what_stays(entries, kinds, left, removals, n - 1);
        assert(entries[n - 1].1.is_kind(kinds[n - 1]));
    }
}

/// A walk tells that a directory is drained exactly where nothing in it stays; so no directory that
/// shelters a file is ever removed.
pub proof fn walk_tells_the_truth(dir: Node, drained: bool)
    requires
        walk_answers(dir, drained),
    ensures
        drained == clears(dir),
        drained == !shelters(dir),
    decreases dir,
{
    match dir {
        Node::Dir(entries) => {
            let (kinds, left, removals) = choose|
                kinds: Seq<FileKind>,
                left: Seq<bool>,
                removals: Seq<Removal>,
            |
                {
                    &&& kinds.len() == entries.len()
                    &&& left.len() == entries.len()
                    &&& removals.len() == entries.len()
                    &&& drained == !(#[trigger] walked(
                        entries,
                        kinds,
                        left,
                        removals,
                        entries.len() as int,
                    )).has_kept
                    &&& forall|i: int|
                        0 <= i < entries.len() ==> {
                            &&& (#[trigger] entries[i]).1.is_kind(kinds[i])
                            &&& removals[i] != Removal::Failed
                            &&& prune_step(entries[i].0, kinds[i]) == PruneStep::Descend
                                ==> walk_answers(entries[i].1, left[i])
                        }
                };
            assert forall|i: int| 0 <= i < entries.len() implies {
                &&& (#[trigger] entries[i]).1.is_kind(kinds[i])
                &&& removals[i] != Removal::Failed
                &&& prune_step(entries[i].0, kinds[i]) == PruneStep::Descend ==> left[i] == clears(
                    entries[i].1,
                )
            } by {
                if prune_step(entries[i].0, kinds[i]) == PruneStep::Descend {
                    walk_tells_the_truth(entries[i].1, left[i]);
                }
            }
            frame_tells_what_stays(entries, kinds, left, removals, entries.len() as int);
            directory_is_drained(dir);
            clearing_loses_no_file(dir);
        },
        Node::Other => {},
    }
}

/// What is cleared away shelters nothing: no file is ever lost with an empty directory.
pub proof fn clearing_loses_no_file(n: Node)
    ensures
        clears(n) == !shelters(n),
    decreases n,
{
    match n {
        Node::Dir(entries) => {
            assert forall|i: int| 0 <= i < entries.len() implies clears(#[trigger] entries[i].1)
                == !shelters(entries[i].1) by {
                clearing_loses_no_file(entries[i].1);
            }
            if !clears(n) {
                let i = choose|i: int|
                    0 <= i < entries.len() && !guard::harmless(#[trigger] entries[i].0) && !clears(
                        entries[i].1,
                    );
                assert(!guard::harmless(entries[i].0) && shelters(entries[i].1));
            }
        },
        Node::Other => {},
    }
}

/// What is done with a link at the top of the mount point.
#[derive(Debug)]
pub enum LinkVerdict {
    /// It is no link.
    Ignore,
    /// It stays, with this remark.
    Keep(String),
    /// The archive has the same link: it goes.
    Remove,
}

/// The remark on a link that the archive does not have.
pub open spec fn unmatched_note(top: Seq<char>) -> Seq<char> {
    "underlay 顶层 symlink "@ + top + " 在 backing 无同名 symlink → 保留、待人工"@
}

/// The remark on a link that leads elsewhere than the archive's.
pub open spec fn differing_note(top: Seq<char>, under: Seq<char>, backing: Seq<char>) -> Seq<
    char,
> {
    "underlay 顶层 symlink "@ + top + " 目标 "@ + under + " 与 backing 同名目标 "@ + backing
        + " 不一致 → 保留、待人工"@
}

/// What is done with an entry at the top of the mount point: a link goes where the archive has one
/// of the same name to the same place. `backing` is where that leads, with its text, and nothing
/// where there is no such link.
pub fn link_verdict(
    top: &str,
    is_symlink: bool,
    under: &[u8],
    under_text: &str,
    backing: Option<(&[u8], &str)>,
) -> (v: LinkVerdict)
    ensures
        match v {
            LinkVerdict::Ignore => !is_symlink,
            LinkVerdict::Remove => is_symlink && (backing matches Some((path, _)) && path@ == under@),
            LinkVerdict::Keep(note) => is_symlink && (match backing {
                None => note@ == unmatched_note(top@),
                Some((path, shown)) => path@ != under@ && note@ == differing_note(
                    top@,
                    under_text@,
                    shown@,
                ),
            }),
        },
{
    if !is_symlink {
        return LinkVerdict::Ignore;
    }
    match backing {
        None => {
            let mut note: String = text::copy_str("underlay 顶层 symlink ");
            note.append(top);
            note.append(" 在 backing 无同名 symlink → 保留、待人工");
            assert(note@ =~= unmatched_note(top@));
            LinkVerdict::Keep(note)
        },
        Some((path, shown)) => {
            if wire::same_bytes(path, under) {
                return LinkVerdict::Remove;
            }
            let mut note: String = text::copy_str("underlay 顶层 symlink ");
            note.append(top);
            note.append(" 目标 ");
            note.append(under_text);
            note.append(" 与 backing 同名目标 ");
            note.append(shown);
            note.append(" 不一致 → 保留、待人工");
            assert(note@ =~= differing_note(top@, under_text@, shown@));
            LinkVerdict::Keep(note)
        },
    }
}

/// The error of a move across file systems.
pub const EXDEV: i32 = 18;

/// What follows an attempt to move a directory.
#[derive(Debug, Clone, Copy, PartialEq, Eq, Structural)]
pub enum RelocateStep {
    /// It was moved.
    Done,
    /// It is copied, then removed.
    CopyThenRemove,
    /// It stays.
    Fail,
}

/// What follows an attempt to move a directory: only a move across file systems is made up for by
/// a copy.
pub fn relocate_step(moved: bool, errno: Option<i32>) -> (s: RelocateStep)
    ensures
        s == (if moved {
            RelocateStep::Done
        } else if errno == Some(EXDEV) {
            RelocateStep::CopyThenRemove
        } else {
            RelocateStep::Fail
        }),
{
    if moved {
        return RelocateStep::Done;
    }
    match errno {
        Some(e) => if e == EXDEV {
            RelocateStep::CopyThenRemove
        } else {
            RelocateStep::Fail
        },
        None => RelocateStep::Fail,
    }
}

/// How an entry is copied.
#[derive(Debug, Clone, Copy, PartialEq, Eq, Structural)]
pub enum CopyStep {
    /// With everything below it.
    Descend,
    /// By its content.
    CopyFile,
    /// As a link to the same place.
    CopyLink,
    /// Not at all: the copy ends, and its source stays.
    Refuse,
}

/// How an entry is copied: what cannot be copied ends the copy before its source is removed.
pub fn copy_step(kind: FileKind) -> (s: CopyStep)
    ensures
        s == (match kind {
            FileKind::Directory => CopyStep::Descend,
            FileKind::RegularFile => CopyStep::CopyFile,
            FileKind::Symlink => CopyStep::CopyLink,
            _ => CopyStep::Refuse,
        }),
{
    match kind {
        FileKind::Directory => CopyStep::Descend,
        FileKind::RegularFile => CopyStep::CopyFile,
        FileKind::Symlink => CopyStep::CopyLink,
        _ => CopyStep::Refuse,
    }
}

/// Whether a file is there with another content than the snapshot's.
pub fn live_differs(live: Option<&Vec<u8>>, snapshot: &[u8]) -> (b: bool)
    ensures
        b == (live is Some && live->0@ != snapshot@),
{
    match live {
        Some(bytes) => !wire::same_bytes(bytes, snapshot),
        None => false,
    }
}

/// How a file of a snapshot is put back.
#[derive(Debug, Clone, Copy, PartialEq, Eq, Structural)]
pub enum PutBack {
    /// It is written.
    Write,
    /// It is there already.
    Leave,
    /// There is another file, which stays.
    Skip,
}

/// How a file of a snapshot is put back: never over a file with another content.
pub fn put_back(live: Option<&Vec<u8>>, snapshot: &[u8]) -> (p: PutBack)
    ensures
        p == (match live {
            None => PutBack::Write,
            Some(bytes) => if bytes@ == snapshot@ {
                PutBack::Leave
            } else {
                PutBack::Skip
            },
        }),
{
    match live {
        None => PutBack::Write,
        Some(bytes) => if wire::same_bytes(bytes, snapshot) {
            PutBack::Leave
        } else {
            PutBack::Skip
        },
    }
}

/// The bytes of the first `n` entries: a directory counts with what it holds, anything but a
/// directory and a regular file counts nothing.
pub open spec fn bytes_up_to(entries: Seq<(FileKind, u64)>, n: int) -> nat
    decreases n,
{
    if n <= 0 {
        0
    } else {
        let (kind, len) = entries[n - 1];
        bytes_up_to(entries, n - 1) + (if kind == FileKind::Directory || kind
            == FileKind::RegularFile {
            len as nat
        } else {
            0
        })
    }
}

/// The bytes of the files of a directory: the length of each file, and of each directory in it what
/// it holds in turn. A sum that does not fit is the largest number that does.
pub fn dir_file_bytes(entries: &Vec<(FileKind, u64)>) -> (total: u64)
    ensures
        total == (if bytes_up_to(entries@, entries@.len() as int) > u64::MAX {
            u64::MAX as nat
        } else {
            bytes_up_to(entries@, entries@.len() as int)
        }),
{
    let mut total: u64 = 0;
    let mut i: usize = 0;
    while i < entries.len()
        invariant
            i <= entries@.len(),
            total == (if bytes_up_to(entries@, i as int) > u64::MAX {
                u64::MAX as nat
            } else {
                bytes_up_to(entries@, i as int)
            }),
        decreases entries@.len() - i,
    {
        let (kind, len): (FileKind, u64) = entries[i];
        if kind == FileKind::Directory || kind == FileKind::RegularFile {
            if len <= u64::MAX - total {
                total = total + len;
            } else {
                total = u64::MAX;
            }
        }
        i = i + 1;
    }
    total
}

/// Of an entry that is put behind others only files and directories count, each with its own length.
pub proof fn only_files_and_directories_count(
    entries: Seq<(FileKind, u64)>,
    kind: FileKind,
    len: u64,
)
    ensures
        ({
            let more = entries.push((kind, len));
            let before = bytes_up_to(entries, entries.len() as int);
            let after = bytes_up_to(more, more.len() as int);
            &&& kind == FileKind::RegularFile || kind == FileKind::Directory ==> after == before
                + len
            &&& kind != FileKind::RegularFile && kind != FileKind::Directory ==> after == before
            &&& bytes_up_to(Seq::empty(), 0) == 0
        }),
{
    same_bytes_up_to(entries, entries.push((kind, len)), entries.len() as int);
}

proof fn same_bytes_up_to(a: Seq<(FileKind, u64)>, b: Seq<(FileKind, u64)>, n: int)
    requires
        0 <= n <= a.len(),
        n <= b.len(),
        forall|i: int| 0 <= i < n ==> #[trigger] a[i] == b[i],
    ensures
        bytes_up_to(a, n) == bytes_up_to(b, n),
    decreases n,
{
    if n > 0 {
        same_bytes_up_to(a, b, n - 1);
        assert(a[n - 1] == b[n - 1]);
    }
}

/// An entry of a harmless name is passed over, a directory is gone into, and everything else keeps
/// the directory.
pub proof fn anything_but_a_directory_keeps_it(f: PruneFrame, name: Seq<u8>, kind: FileKind)
    ensures
        guard::harmless(name) ==> prune_step(name, kind) == PruneStep::Ignore && f.with_entry(
            name,
            kind,
        ) == f,
        !guard::harmless(name) && kind == FileKind::Directory ==> prune_step(name, kind)
            == PruneStep::Descend && f.with_entry(name, kind) == f,
        !guard::harmless(name) && kind != FileKind::Directory ==> prune_step(name, kind)
            == PruneStep::Keep && f.with_entry(name, kind).has_kept,
        f.with_child(false).has_kept,
        f.with_child(true) == f,
        f.with_removal(Removal::Failed).has_kept,
        f.with_removal(Removal::Removed).removed_any && f.with_removal(Removal::Removed).has_kept
            == f.has_kept,
        f.with_removal(Removal::Missing) == f,
{
}

/// The remark on a link that stays names it, and where the two lead where they differ.
pub proof fn kept_link_is_named(top: Seq<char>, under: Seq<char>, backing: Seq<char>)
    ensures
        text::stands_in(unmatched_note(top), top),
        text::stands_in(differing_note(top, under, backing), top),
        text::stands_in(differing_note(top, under, backing), under),
        text::stands_in(differing_note(top, under, backing), backing),
{
    let lead = "underlay 顶层 symlink "@;
    text::part_stands_in(lead, top, " 在 backing 无同名 symlink → 保留、待人工"@);
    let end = " 不一致 → 保留、待人工"@;
    let other = " 与 backing 同名目标 "@;
    text::part_stands_in(lead, top, " 目标 "@ + under + other + backing + end);
    assert(lead + top + (" 目标 "@ + under + other + backing + end) =~= differing_note(
        top,
        under,
        backing,
    ));
    text::part_stands_in(lead + top + " 目标 "@, under, other + backing + end);
    assert(lead + top + " 目标 "@ + under + (other + backing + end) =~= differing_note(
        top,
        under,
        backing,
    ));
    text::part_stands_in(lead + top + " 目标 "@ + under + other, backing, end);
}

} // verus!
