//! Sending a directory that was written below the mount point back to the shared directory that
//! its link points to, step by step.
//!
//! What the shared directory holds is never written over: a file that differs gets a name of its
//! own beside it. The directory is moved away only when every file was placed.
use vstd::prelude::*;
use vstd::string::*;

use super::memory;
use crate::archive::wire;
use crate::path;
use crate::text;

verus! {

/// What stands below the mount point where the link's directory would be.
#[derive(Debug, Clone, Copy, PartialEq, Eq, Structural)]
pub enum Underlay {
    /// A link.
    Symlink,
    /// Something that is neither a link nor a directory.
    NotDirectory,
    /// A directory.
    Directory,
    /// Nothing.
    Missing,
}

/// A file of the directory: its path below it, and its name.
#[derive(Debug)]
pub struct MemoryFile {
    pub rel: String,
    pub name: String,
}

/// A file of the directory, as a mathematical value.
#[verifier::ext_equal]
pub struct FileView {
    pub rel: Seq<char>,
    pub name: Seq<char>,
}

impl View for MemoryFile {
    type V = FileView;

    open spec fn view(&self) -> FileView {
        FileView { rel: self.rel@, name: self.name@ }
    }
}

/// The files of a list.
pub open spec fn file_views(v: Seq<MemoryFile>) -> Seq<FileView> {
    Seq::new(v.len(), |i: int| v[i]@)
}

/// What to do next.
pub enum RestoreAction {
    /// Follow the link to where it leads.
    Resolve,
    /// Ask whether that is a directory.
    CheckDirectory,
    /// Try to write there.
    Probe,
    /// Look what stands below the mount point.
    Inspect,
    /// List the files of the directory, with those of the directories in it.
    ListFiles,
    /// Read a file of the directory.
    ReadSource(usize),
    /// Read the file of the same path in the shared directory, with that behind its name.
    ReadDest(usize, String),
    /// Write these bytes there, at once or not at all.
    WriteDest(usize, String, Vec<u8>),
    /// Read back what was written.
    ReadBack(usize, String),
    /// Move the directory to the stash.
    Relocate,
    /// Nothing: these are the remarks.
    Finish(Vec<String>),
    /// Nothing: it failed.
    Fail(String),
}

/// What to do next, as a mathematical value.
#[verifier::ext_equal]
pub enum ActionView {
    Resolve,
    CheckDirectory,
    Probe,
    Inspect,
    ListFiles,
    ReadSource(int),
    ReadDest(int, Seq<char>),
    WriteDest(int, Seq<char>, Seq<u8>),
    ReadBack(int, Seq<char>),
    Relocate,
    Finish(Seq<Seq<char>>),
    Fail(Seq<char>),
}

impl View for RestoreAction {
    type V = ActionView;

    open spec fn view(&self) -> ActionView {
        match self {
            RestoreAction::Resolve => ActionView::Resolve,
            RestoreAction::CheckDirectory => ActionView::CheckDirectory,
            RestoreAction::Probe => ActionView::Probe,
            RestoreAction::Inspect => ActionView::Inspect,
            RestoreAction::ListFiles => ActionView::ListFiles,
            RestoreAction::ReadSource(i) => ActionView::ReadSource(*i as int),
            RestoreAction::ReadDest(i, s) => ActionView::ReadDest(*i as int, s@),
            RestoreAction::WriteDest(i, s, b) => ActionView::WriteDest(*i as int, s@, b@),
            RestoreAction::ReadBack(i, s) => ActionView::ReadBack(*i as int, s@),
            RestoreAction::Relocate => ActionView::Relocate,
            RestoreAction::Finish(notes) => ActionView::Finish(text::texts(notes@)),
            RestoreAction::Fail(s) => ActionView::Fail(s@),
        }
    }
}

/// What came of a step.
pub enum RestoreEvent {
    /// To start with.
    Begin,
    /// Where the link leads.
    Resolved(String),
    /// Why it leads nowhere.
    Dangling(String),
    /// Whether that is a directory.
    IsDirectory(bool),
    /// It can be written to.
    Writable,
    /// Why it cannot be written to.
    NotWritable(String),
    /// What stands below the mount point.
    Found(Underlay),
    /// The files of the directory.
    Files(Vec<MemoryFile>),
    /// The bytes that were read.
    Bytes(Vec<u8>),
    /// There is no such file.
    Absent,
    /// It is done.
    Done,
}

/// Which step is under way.
#[derive(Debug, Clone, Copy, PartialEq, Eq, Structural)]
pub enum Phase {
    Start,
    Resolving,
    Checking,
    Probing,
    Inspecting,
    Listing,
    Source,
    Dest,
    Writing,
    ReadingBack,
    Relocating,
    End,
}

/// A directory on its way back.
pub struct Restore {
    /// The directory.
    pub underlay: String,
    /// The path that the link holds.
    pub target: Vec<u8>,
    /// That path as text.
    pub target_text: String,
    /// Where the directory is moved to.
    pub stash: String,
    /// The step that is under way.
    pub phase: Phase,
    /// Where the link leads.
    pub canon: String,
    /// The files of the directory.
    pub files: Vec<MemoryFile>,
    /// The file that is next.
    pub next: usize,
    /// Its content.
    pub content: Vec<u8>,
    /// Which of its names is tried: its own, or one of those beside it.
    pub slot: Option<u32>,
    /// Remarks so far.
    pub notes: Vec<String>,
}

/// A directory on its way back, as a mathematical value.
#[verifier::ext_equal]
pub struct RestoreView {
    pub underlay: Seq<char>,
    pub target: Seq<u8>,
    pub target_text: Seq<char>,
    pub stash: Seq<char>,
    pub phase: Phase,
    pub canon: Seq<char>,
    pub files: Seq<FileView>,
    pub next: int,
    pub content: Seq<u8>,
    pub slot: Option<u32>,
    pub notes: Seq<Seq<char>>,
}

impl View for Restore {
    type V = RestoreView;

    open spec fn view(&self) -> RestoreView {
        RestoreView {
            underlay: self.underlay@,
            target: self.target@,
            target_text: self.target_text@,
            stash: self.stash@,
            phase: self.phase,
            canon: self.canon@,
            files: file_views(self.files@),
            next: self.next as int,
            content: self.content@,
            slot: self.slot,
            notes: text::texts(self.notes@),
        }
    }
}

/// Whether a path goes up somewhere.
pub open spec fn climbs(s: Seq<u8>) -> bool {
    exists|i: int| 0 <= i < path::components(s).len() && path::is_dot_dot(
        #[trigger] path::components(s)[i],
    )
}

/// Whether a path goes up somewhere.
pub fn target_climbs(target: &[u8]) -> (b: bool)
    ensures
        b == climbs(target@),
{
    let parts: Vec<Vec<u8>> = path::path_components(target);
    let ghost all = path::parts_view(parts@);
    let mut i: usize = 0;
    while i < parts.len()
        invariant
            i <= parts@.len(),
            all == path::parts_view(parts@),
            all == path::components(target@),
            forall|j: int| 0 <= j < i ==> !path::is_dot_dot(#[trigger] all[j]),
        decreases parts@.len() - i,
    {
        let p: &Vec<u8> = &parts[i];
        assert(p@ == all[i as int]);
        if p.len() == 2 && p[0] == path::DOT && p[1] == path::DOT {
            assert(path::is_dot_dot(path::components(target@)[i as int]));
            return true;
        }
        i = i + 1;
    }
    false
}

/// Where a link in `parent` leads: its path is one below `parent`, unless it starts at the root.
pub fn resolve_target(parent: &[u8], target: &[u8]) -> (p: Vec<u8>)
    ensures
        p@ == path::joined(parent@, target@),
{
    path::join_path(parent, target)
}

/// A hexadecimal digit.
pub open spec fn hex_digit(d: int) -> char {
    if d < 10 {
        (48 + d) as char
    } else {
        (87 + d) as char
    }
}

/// The last `n` hexadecimal digits of a number.
pub open spec fn hex_digits(x: nat, n: nat) -> Seq<char>
    decreases n,
{
    if n == 0 {
        Seq::empty()
    } else {
        hex_digits(x / 16, (n - 1) as nat).push(hex_digit((x % 16) as int))
    }
}

fn push_hex(out: &mut String, x: u32, n: u32)
    ensures
        final(out)@ == old(out)@ + hex_digits(x as nat, n as nat),
    decreases n,
{
    let ghost before = out@;
    if n == 0 {
        assert(out@ =~= before + hex_digits(x as nat, 0));
        return;
    }
    push_hex(out, x / 16, n - 1);
    let d: u8 = (x % 16) as u8;
    let c: char = if d < 10 { (48 + d) as char } else { (87 + d) as char };
    out.push(c);
    assert(out@ =~= before + hex_digits(x as nat, n as nat));
}

/// What stands behind the name of a file: nothing at first, then its checksum, then its checksum
/// and a number.
pub open spec fn suffix(content: Seq<u8>, slot: Option<u32>) -> Seq<char> {
    match slot {
        None => Seq::empty(),
        Some(n) => if n == 0 {
            ".underlay-"@ + hex_digits(wire::crc32_of(content) as nat, 8)
        } else {
            ".underlay-"@ + hex_digits(wire::crc32_of(content) as nat, 8) + "-"@ + text::decimal(
                n as nat,
            )
        },
    }
}

/// What stands behind the name of a file.
pub fn variant_suffix(content: &[u8], slot: Option<u32>) -> (s: String)
    ensures
        s@ == suffix(content@, slot),
{
    let mut s: String = String::new();
    match slot {
        None => {},
        Some(n) => {
            s.append(".underlay-");
            push_hex(&mut s, wire::crc32(content), 8);
            if n != 0 {
                s.append("-");
                text::push_decimal(&mut s, n as u64);
            }
        },
    }
    assert(s@ =~= suffix(content@, slot));
    s
}

/// The remark on a link that goes up.
pub open spec fn climbing_note(target: Seq<char>) -> Seq<char> {
    "symlink 目标 "@ + target + " 含 `..` 穿越 → 拒绝、underlay memory 不删，待人工"@
}

/// The remark on a link that leads nowhere.
pub open spec fn dangling_note(target: Seq<char>, e: Seq<char>) -> Seq<char> {
    "symlink 目标 "@ + target + " 悬空/不可解析（"@ + e + "）→ underlay memory 不删，待人工"@
}

/// The remark on a link that leads to no directory.
pub open spec fn no_directory_note(canon: Seq<char>) -> Seq<char> {
    "symlink 目标 "@ + canon + " 解析后非目录（疑被物化）→ underlay memory 不删，待人工"@
}

/// The remark on a shared directory that cannot be written to.
pub open spec fn not_writable_note(canon: Seq<char>, e: Seq<char>) -> Seq<char> {
    "symlink 目标 "@ + canon + " 不可写（"@ + e + "）→ underlay memory 不删，待人工"@
}

/// The remark on what stands below the mount point where it is no directory.
pub open spec fn underlay_note(underlay: Seq<char>, u: Underlay) -> Seq<char> {
    match u {
        Underlay::Symlink => "underlay memory "@ + underlay
            + " 已是 symlink（上一条目已恢复），幂等跳过"@,
        Underlay::NotDirectory => "underlay memory "@ + underlay
            + " 非目录（异常）→ 不动、待人工"@,
        _ => "underlay memory 目录 "@ + underlay + " 不存在（已恢复或无回落）"@,
    }
}

/// The remark on a file that was placed.
pub open spec fn placed_note(f: FileView, slot: Option<u32>, content: Seq<u8>) -> Seq<char> {
    match slot {
        None => "memory 新增 → target/"@ + f.rel,
        Some(_) => "memory 冲突（canonical 保留）→ target 旁 "@ + f.name + suffix(content, slot),
    }
}

/// The remark on a file that is there already.
pub open spec fn present_note(f: FileView, slot: Option<u32>) -> Seq<char> {
    match slot {
        None => "memory 已存在同内容，跳过：target/"@ + f.rel,
        Some(_) => "memory 冲突副本已存在同内容，幂等跳过：target/"@ + f.rel,
    }
}

/// Why a file that was read back otherwise than it was written ends it.
pub open spec fn readback_message(f: FileView, slot: Option<u32>) -> Seq<char> {
    match slot {
        None => "memory 复制 "@ + f.rel + " 后 readback 不符"@,
        Some(_) => "memory 冲突副本 "@ + f.rel + " 后 readback 不符"@,
    }
}

/// The remark on the directory that was moved away.
pub open spec fn relocated_note(stash: Seq<char>) -> Seq<char> {
    "underlay memory relocate 到 stash 并从 underlay 移除（不复原 symlink，挂载由 backing/memory 服务）："@
        + stash
}

impl RestoreView {
    /// The step that comes next.
    pub open spec fn at(&self, phase: Phase) -> RestoreView {
        RestoreView { phase, ..*self }
    }

    /// With one more remark.
    pub open spec fn noting(&self, note: Seq<char>) -> RestoreView {
        RestoreView { notes: self.notes.push(note), ..*self }
    }

    /// The end, with one more remark.
    pub open spec fn stopped(&self, note: Seq<char>) -> (RestoreView, ActionView) {
        let v = self.noting(note);
        (RestoreView { notes: Seq::empty(), ..v.at(Phase::End) }, ActionView::Finish(v.notes))
    }

    /// The file that is next; where there is none, the directory is moved away.
    pub open spec fn onward(&self) -> (RestoreView, ActionView) {
        if self.next < self.files.len() {
            (self.at(Phase::Source), ActionView::ReadSource(self.next))
        } else {
            (self.at(Phase::Relocating), ActionView::Relocate)
        }
    }

    /// The file that is next when one was placed.
    pub open spec fn placed(&self, note: Seq<char>) -> (RestoreView, ActionView) {
        RestoreView {
            next: self.next + 1,
            content: Seq::empty(),
            slot: None,
            ..self.noting(note)
        }.onward()
    }

    /// What stands behind the name that is tried.
    pub open spec fn suffix(&self) -> Seq<char> {
        suffix(self.content, self.slot)
    }

    /// The name that is tried next.
    pub open spec fn next_slot(&self) -> Option<u32> {
        match self.slot {
            None => Some(0),
            Some(n) => Some((n + 1) as u32),
        }
    }

    /// What comes next; nothing where the event is not one of the step under way.
    pub open spec fn stepped(&self, e: RestoreEvent) -> Option<(RestoreView, ActionView)> {
        match (self.phase, e) {
            (Phase::Start, RestoreEvent::Begin) => if climbs(self.target) {
                Some(self.stopped(climbing_note(self.target_text)))
            } else {
                Some((self.at(Phase::Resolving), ActionView::Resolve))
            },
            (Phase::Resolving, RestoreEvent::Dangling(why)) => Some(
                self.stopped(dangling_note(self.target_text, why@)),
            ),
            (Phase::Resolving, RestoreEvent::Resolved(canon)) => Some(
                (
                    RestoreView { canon: canon@, ..self.at(Phase::Checking) },
                    ActionView::CheckDirectory,
                ),
            ),
            (Phase::Checking, RestoreEvent::IsDirectory(yes)) => if yes {
                Some((self.at(Phase::Probing), ActionView::Probe))
            } else {
                Some(self.stopped(no_directory_note(self.canon)))
            },
            (Phase::Probing, RestoreEvent::NotWritable(why)) => Some(
                self.stopped(not_writable_note(self.canon, why@)),
            ),
            (Phase::Probing, RestoreEvent::Writable) => Some(
                (self.at(Phase::Inspecting), ActionView::Inspect),
            ),
            (Phase::Inspecting, RestoreEvent::Found(u)) => if u == Underlay::Directory {
                Some((self.at(Phase::Listing), ActionView::ListFiles))
            } else {
                Some(self.stopped(underlay_note(self.underlay, u)))
            },
            (Phase::Listing, RestoreEvent::Files(files)) => Some(
                RestoreView {
                    files: file_views(files@),
                    next: 0,
                    content: Seq::empty(),
                    slot: None,
                    ..*self
                }.onward(),
            ),
            (Phase::Source, RestoreEvent::Bytes(b)) => {
                let v = RestoreView { content: b@, slot: None, ..self.at(Phase::Dest) };
                Some((v, ActionView::ReadDest(self.next, v.suffix())))
            },
            (Phase::Dest, RestoreEvent::Absent) => Some(
                (
                    self.at(Phase::Writing),
                    ActionView::WriteDest(self.next, self.suffix(), self.content),
                ),
            ),
            (Phase::Dest, RestoreEvent::Bytes(b)) => if b@ == self.content {
                Some(self.placed(present_note(self.files[self.next], self.slot)))
            } else {
                let v = RestoreView { slot: self.next_slot(), ..*self };
                Some((v, ActionView::ReadDest(self.next, v.suffix())))
            },
            (Phase::Writing, RestoreEvent::Done) => Some(
                (self.at(Phase::ReadingBack), ActionView::ReadBack(self.next, self.suffix())),
            ),
            (Phase::ReadingBack, RestoreEvent::Bytes(b)) => if b@ == self.content {
                Some(self.placed(placed_note(self.files[self.next], self.slot, self.content)))
            } else {
                Some(
                    (
                        RestoreView { notes: Seq::empty(), ..self.at(Phase::End) },
                        ActionView::Fail(readback_message(self.files[self.next], self.slot)),
                    ),
                )
            },
            (Phase::Relocating, RestoreEvent::Done) => Some(
                self.stopped(relocated_note(self.stash)),
            ),
            _ => None,
        }
    }

    /// Whether no file was listed yet.
    pub open spec fn early(&self) -> bool {
        self.phase == Phase::Start || self.phase == Phase::Resolving || self.phase
            == Phase::Checking || self.phase == Phase::Probing || self.phase == Phase::Inspecting
            || self.phase == Phase::Listing
    }

    /// Whether the file that is next is one of the files, where one is under way, and there is no
    /// remark before the files were listed.
    pub open spec fn wf(&self) -> bool {
        &&& (self.phase == Phase::Source || self.phase == Phase::Dest || self.phase
            == Phase::Writing || self.phase == Phase::ReadingBack) ==> 0 <= self.next
            < self.files.len()
        &&& self.early() ==> self.notes.len() == 0
    }
}

/// A remark of three parts.
fn note3(a: &str, b: &str, c: &str) -> (s: String)
    ensures
        s@ == a@ + b@ + c@,
{
    let mut s: String = text::copy_str(a);
    s.append(b);
    s.append(c);
    s
}

impl Restore {
    /// A directory that is to go back. `target` is the path that the link holds, and the texts say
    /// the same for remarks.
    pub fn new(underlay: String, target: Vec<u8>, target_text: String, stash: String) -> (r:
        Restore)
        ensures
            r@ == (RestoreView {
                underlay: underlay@,
                target: target@,
                target_text: target_text@,
                stash: stash@,
                phase: Phase::Start,
                canon: Seq::empty(),
                files: Seq::empty(),
                next: 0,
                content: Seq::empty(),
                slot: None,
                notes: Seq::empty(),
            }),
    {
        let r: Restore = Restore {
            underlay,
            target,
            target_text,
            stash,
            phase: Phase::Start,
            canon: String::new(),
            files: Vec::new(),
            next: 0,
            content: Vec::new(),
            slot: None,
            notes: Vec::new(),
        };
        assert(r@.files =~= Seq::empty());
        assert(r@.notes =~= Seq::empty());
        assert(r@.canon =~= Seq::empty());
        r
    }

    fn note(&mut self, note: String)
        ensures
            final(self)@ == old(self)@.noting(note@),
    {
        let ghost before = self@;
        self.notes.push(note);
        assert(self@.notes =~= before.notes.push(note@));
    }

    fn stop(&mut self, note: String) -> (r: RestoreAction)
        ensures
            final(self)@ == old(self)@.stopped(note@).0,
            r@ == old(self)@.stopped(note@).1,
    {
        self.note(note);
        self.phase = Phase::End;
        let mut notes: Vec<String> = Vec::new();
        std::mem::swap(&mut notes, &mut self.notes);
        assert(self@.notes =~= Seq::empty());
        RestoreAction::Finish(notes)
    }

    fn go_on(&mut self) -> (r: RestoreAction)
        ensures
            final(self)@ == old(self)@.onward().0,
            r@ == old(self)@.onward().1,
    {
        if self.next < self.files.len() {
            self.phase = Phase::Source;
            RestoreAction::ReadSource(self.next)
        } else {
            self.phase = Phase::Relocating;
            RestoreAction::Relocate
        }
    }

    fn place(&mut self, note: String) -> (r: RestoreAction)
        requires
            old(self)@.next < old(self)@.files.len(),
        ensures
            final(self)@ == old(self)@.placed(note@).0,
            r@ == old(self)@.placed(note@).1,
    {
        self.note(note);
        let len: usize = self.files.len();
        assert(self.next < len);
        self.next = self.next + 1;
        self.content = Vec::new();
        self.slot = None;
        assert(self@.content =~= Seq::empty());
        self.go_on()
    }

    fn copy_content(&self) -> (b: Vec<u8>)
        ensures
            b@ == self@.content,
    {
        let b: Vec<u8> = wire::copy_range(&self.content, 0, self.content.len());
        assert(b@ =~= self.content@);
        b
    }

    /// Takes in what came of the step under way, and says what to do next. Nothing comes of an
    /// event that is not one of that step.
    #[verifier::rlimit(40)]
    pub fn step(&mut self, e: RestoreEvent) -> (r: Option<RestoreAction>)
        requires
            old(self)@.wf(),
            old(self)@.slot is Some ==> old(self)@.slot->0 < u32::MAX,
        ensures
            final(self)@.wf(),
            match old(self)@.stepped(e) {
                Some((v, a)) => {
                    &&& final(self)@ == v
                    &&& r matches Some(x) && x@ == a
                },
                None => r is None && final(self)@ == old(self)@,
            },
    {
        match (self.phase, e) {
            (Phase::Start, RestoreEvent::Begin) => {
                if target_climbs(&self.target) {
                    let note: String = note3(
                        "symlink 目标 ",
                        self.target_text.as_str(),
                        " 含 `..` 穿越 → 拒绝、underlay memory 不删，待人工",
                    );
                    Some(self.stop(note))
                } else {
                    self.phase = Phase::Resolving;
                    Some(RestoreAction::Resolve)
                }
            },
            (Phase::Resolving, RestoreEvent::Dangling(why)) => {
                let mut note: String = note3(
                    "symlink 目标 ",
                    self.target_text.as_str(),
                    " 悬空/不可解析（",
                );
                note.append(why.as_str());
                note.append("）→ underlay memory 不删，待人工");
                Some(self.stop(note))
            },
            (Phase::Resolving, RestoreEvent::Resolved(canon)) => {
                self.canon = canon;
                self.phase = Phase::Checking;
                Some(RestoreAction::CheckDirectory)
            },
            (Phase::Checking, RestoreEvent::IsDirectory(yes)) => {
                if yes {
                    self.phase = Phase::Probing;
                    Some(RestoreAction::Probe)
                } else {
                    let note: String = note3(
                        "symlink 目标 ",
                        self.canon.as_str(),
                        " 解析后非目录（疑被物化）→ underlay memory 不删，待人工",
                    );
                    Some(self.stop(note))
                }
            },
            (Phase::Probing, RestoreEvent::NotWritable(why)) => {
                let mut note: String = note3("symlink 目标 ", self.canon.as_str(), " 不可写（");
                note.append(why.as_str());
                note.append("）→ underlay memory 不删，待人工");
                Some(self.stop(note))
            },
            (Phase::Probing, RestoreEvent::Writable) => {
                self.phase = Phase::Inspecting;
                Some(RestoreAction::Inspect)
            },
            (Phase::Inspecting, RestoreEvent::Found(u)) => {
                match u {
                    Underlay::Directory => {
                        self.phase = Phase::Listing;
                        Some(RestoreAction::ListFiles)
                    },
                    Underlay::Symlink => {
                        let note: String = note3(
                            "underlay memory ",
                            self.underlay.as_str(),
                            " 已是 symlink（上一条目已恢复），幂等跳过",
                        );
                        Some(self.stop(note))
                    },
                    Underlay::NotDirectory => {
                        let note: String = note3(
                            "underlay memory ",
                            self.underlay.as_str(),
                            " 非目录（异常）→ 不动、待人工",
                        );
                        Some(self.stop(note))
                    },
                    Underlay::Missing => {
                        let note: String = note3(
                            "underlay memory 目录 ",
                            self.underlay.as_str(),
                            " 不存在（已恢复或无回落）",
                        );
                        Some(self.stop(note))
                    },
                }
            },
            (Phase::Listing, RestoreEvent::Files(files)) => {
                self.files = files;
                self.next = 0;
                self.content = Vec::new();
                self.slot = None;
                assert(self@.content =~= Seq::empty());
                Some(self.go_on())
            },
            (Phase::Source, RestoreEvent::Bytes(b)) => {
                self.content = b;
                self.slot = None;
                self.phase = Phase::Dest;
                Some(RestoreAction::ReadDest(self.next, variant_suffix(&self.content, None)))
            },
            (Phase::Dest, RestoreEvent::Absent) => {
                self.phase = Phase::Writing;
                let bytes: Vec<u8> = self.copy_content();
                Some(
                    RestoreAction::WriteDest(
                        self.next,
                        variant_suffix(&self.content, self.slot),
                        bytes,
                    ),
                )
            },
            (Phase::Dest, RestoreEvent::Bytes(b)) => {
                assert(self@.files[self.next as int] == self.files@[self.next as int]@);
                if wire::same_bytes(&b, &self.content) {
                    let head: &str = match self.slot {
                        None => "memory 已存在同内容，跳过：target/",
                        Some(_) => "memory 冲突副本已存在同内容，幂等跳过：target/",
                    };
                    let mut note: String = text::copy_str(head);
                    note.append(self.files[self.next].rel.as_str());
                    Some(self.place(note))
                } else {
                    self.slot = match self.slot {
                        None => Some(0),
                        Some(n) => Some(n + 1),
                    };
                    Some(
                        RestoreAction::ReadDest(
                            self.next,
                            variant_suffix(&self.content, self.slot),
                        ),
                    )
                }
            },
            (Phase::Writing, RestoreEvent::Done) => {
                self.phase = Phase::ReadingBack;
                Some(RestoreAction::ReadBack(self.next, variant_suffix(&self.content, self.slot)))
            },
            (Phase::ReadingBack, RestoreEvent::Bytes(b)) => {
                assert(self@.files[self.next as int] == self.files@[self.next as int]@);
                if wire::same_bytes(&b, &self.content) {
                    let mut note: String = String::new();
                    match self.slot {
                        None => {
                            note.append("memory 新增 → target/");
                            note.append(self.files[self.next].rel.as_str());
                        },
                        Some(_) => {
                            note.append("memory 冲突（canonical 保留）→ target 旁 ");
                            note.append(self.files[self.next].name.as_str());
                            let behind: String = variant_suffix(&self.content, self.slot);
                            note.append(behind.as_str());
                        },
                    }
                    assert(note@ =~= placed_note(
                        self@.files[self.next as int],
                        self@.slot,
                        self@.content,
                    ));
                    Some(self.place(note))
                } else {
                    let head: &str = match self.slot {
                        None => "memory 复制 ",
                        Some(_) => "memory 冲突副本 ",
                    };
                    let why: String = note3(
                        head,
                        self.files[self.next].rel.as_str(),
                        " 后 readback 不符",
                    );
                    self.phase = Phase::End;
                    self.notes = Vec::new();
                    assert(self@.notes =~= Seq::empty());
                    Some(RestoreAction::Fail(why))
                }
            },
            (Phase::Relocating, RestoreEvent::Done) => {
                let mut note: String = text::copy_str(
                    "underlay memory relocate 到 stash 并从 underlay 移除（不复原 symlink，挂载由 backing/memory 服务）：",
                );
                note.append(self.stash.as_str());
                Some(self.stop(note))
            },
            _ => None,
        }
    }
}

/// What the steps act on.
#[verifier::ext_equal]
pub struct World {
    /// What the shared directory holds, by path.
    pub target: Map<Seq<char>, Seq<u8>>,
    /// The files of the directory.
    pub files: Seq<FileView>,
    /// What each of them holds.
    pub source: Seq<Seq<u8>>,
    /// Whether the directory was moved away.
    pub moved: bool,
}

impl World {
    /// The path of a file with that behind its name.
    pub open spec fn path(&self, i: int, behind: Seq<char>) -> Seq<char> {
        self.files[i].rel + behind
    }

    /// Whether the shared directory holds, somewhere, what a file of the directory holds.
    pub open spec fn holds(&self, i: int) -> bool {
        exists|p: Seq<char>| #[trigger]
            self.target.contains_key(p) && self.target[p] == self.source[i]
    }

    /// What a step makes of it.
    pub open spec fn after(&self, a: ActionView) -> World {
        match a {
            ActionView::WriteDest(i, behind, b) => World {
                target: self.target.insert(self.path(i, behind), b),
                ..*self
            },
            ActionView::Relocate => World { moved: true, ..*self },
            _ => *self,
        }
    }

    /// Whether an event is what a step that succeeds tells.
    pub open spec fn answers(&self, a: ActionView, e: RestoreEvent) -> bool {
        match a {
            ActionView::Resolve => e is Resolved || e is Dangling,
            ActionView::CheckDirectory => e is IsDirectory,
            ActionView::Probe => e is Writable || e is NotWritable,
            ActionView::Inspect => e is Found,
            ActionView::ListFiles => e matches RestoreEvent::Files(f) && file_views(f@)
                == self.files,
            ActionView::ReadSource(i) => e matches RestoreEvent::Bytes(b) && b@ == self.source[i],
            ActionView::ReadDest(i, behind) => if self.target.contains_key(self.path(i, behind)) {
                e matches RestoreEvent::Bytes(b) && b@ == self.target[self.path(i, behind)]
            } else {
                e is Absent
            },
            ActionView::WriteDest(_, _, _) => e is Done,
            ActionView::ReadBack(i, behind) => e matches RestoreEvent::Bytes(b)
                && self.target.contains_key(self.path(i, behind)) && b@ == self.target[self.path(
                i,
                behind,
            )],
            ActionView::Relocate => e is Done,
            _ => false,
        }
    }
}

/// Whether everything that the shared directory held is there unchanged.
pub open spec fn originals_kept(before: World, w: World) -> bool {
    forall|p: Seq<char>| #[trigger]
        before.target.contains_key(p) ==> w.target.contains_key(p) && w.target[p]
            == before.target[p]
}

/// Whether what the first `n` files of the directory hold is in the shared directory.
pub open spec fn placed_up_to(w: World, n: int) -> bool {
    forall|i: int| 0 <= i < n ==> #[trigger] w.holds(i)
}

/// What holds of a directory under way: `a` is what was said to do next, `before` how things were
/// at the start, and `w` how they are.
pub open spec fn safe(v: RestoreView, a: ActionView, before: World, w: World) -> bool {
    &&& originals_kept(before, w)
    &&& w.files == before.files
    &&& w.source == before.source
    &&& w.files.len() == w.source.len()
    &&& w.moved ==> placed_up_to(w, w.files.len() as int)
    &&& match v.phase {
        Phase::Start => false,
        Phase::Resolving => a == ActionView::Resolve && w == before,
        Phase::Checking => a == ActionView::CheckDirectory && w == before,
        Phase::Probing => a == ActionView::Probe && w == before,
        Phase::Inspecting => a == ActionView::Inspect && w == before,
        Phase::Listing => a == ActionView::ListFiles && w == before,
        Phase::Source => a == ActionView::ReadSource(v.next) && under_way(v, w),
        Phase::Dest => a == ActionView::ReadDest(v.next, v.suffix()) && under_way(v, w)
            && v.content == w.source[v.next],
        Phase::Writing => a == ActionView::WriteDest(v.next, v.suffix(), v.content) && under_way(
            v,
            w,
        ) && v.content == w.source[v.next] && !w.target.contains_key(w.path(v.next, v.suffix())),
        Phase::ReadingBack => a == ActionView::ReadBack(v.next, v.suffix()) && under_way(v, w)
            && v.content == w.source[v.next],
        Phase::Relocating => a == ActionView::Relocate && v.files == w.files && placed_up_to(
            w,
            w.files.len() as int,
        ),
        Phase::End => a is Finish || a is Fail,
    }
}

/// Whether a file is under way, and those before it were placed.
pub open spec fn under_way(v: RestoreView, w: World) -> bool {
    &&& v.files == w.files
    &&& 0 <= v.next < w.files.len()
    &&& placed_up_to(w, v.next)
}

/// Restoring starts safely.
pub proof fn restoring_starts_safely(v: RestoreView, w: World)
    requires
        v.phase == Phase::Start,
        w.files.len() == w.source.len(),
        !w.moved,
    ensures
        v.stepped(RestoreEvent::Begin) matches Some(next) && safe(next.0, next.1, w, w),
{
}

proof fn onward_is_safe(v: RestoreView, before: World, w: World)
    requires
        originals_kept(before, w),
        w.files == before.files,
        w.source == before.source,
        w.files.len() == w.source.len(),
        w.moved ==> placed_up_to(w, w.files.len() as int),
        v.files == w.files,
        0 <= v.next <= w.files.len(),
        placed_up_to(w, v.next),
    ensures
        safe(v.onward().0, v.onward().1, before, w),
{
}

/// Every step is safe: nothing that the shared directory held is written over, and the directory
/// is moved away only when the shared directory holds what each of its files holds.
pub proof fn every_step_is_safe(
    v: RestoreView,
    a: ActionView,
    before: World,
    w: World,
    e: RestoreEvent,
)
    requires
        safe(v, a, before, w),
        w.answers(a, e),
    ensures
        v.stepped(e) matches Some(next) && safe(next.0, next.1, before, w.after(a)),
{
    let after = w.after(a);
    match v.phase {
        Phase::Listing => {
            onward_is_safe(
                RestoreView {
                    files: w.files,
                    next: 0,
                    content: Seq::empty(),
                    slot: None,
                    ..v
                },
                before,
                w,
            );
        },
        Phase::Dest => {
            if let RestoreEvent::Bytes(b) = e {
                if b@ == v.content {
                    assert(w.target.contains_key(w.path(v.next, v.suffix())));
                    assert(w.holds(v.next));
                    let note = present_note(v.files[v.next], v.slot);
                    onward_is_safe(
                        RestoreView {
                            next: v.next + 1,
                            content: Seq::empty(),
                            slot: None,
                            ..v.noting(note)
                        },
                        before,
                        w,
                    );
                }
            }
        },
        Phase::Writing => {
            let p = w.path(v.next, v.suffix());
            assert forall|i: int| 0 <= i < after.files.len() && #[trigger] w.holds(
                i,
            ) implies after.holds(i) by {
                let q = choose|q: Seq<char>| #[trigger]
                    w.target.contains_key(q) && w.target[q] == w.source[i];
                assert(after.target.contains_key(q));
            }
            assert forall|i: int| 0 <= i < v.next implies #[trigger] after.holds(i) by {
                assert(w.holds(i));
            }
            if w.moved {
                assert forall|i: int| 0 <= i < after.files.len() implies #[trigger] after.holds(
                    i,
                ) by {
                    assert(w.holds(i));
                }
            }
        },
        Phase::ReadingBack => {
            if let RestoreEvent::Bytes(b) = e {
                if b@ == v.content {
                    assert(w.target.contains_key(w.path(v.next, v.suffix())));
                    assert(w.holds(v.next));
                    let note = placed_note(v.files[v.next], v.slot, v.content);
                    onward_is_safe(
                        RestoreView {
                            next: v.next + 1,
                            content: Seq::empty(),
                            slot: None,
                            ..v.noting(note)
                        },
                        before,
                        w,
                    );
                }
            }
        },
        Phase::Relocating => {
            assert forall|i: int| 0 <= i < after.files.len() implies #[trigger] after.holds(i) by {
                assert(w.holds(i));
                let q = choose|q: Seq<char>| #[trigger]
                    w.target.contains_key(q) && w.target[q] == w.source[i];
                assert(after.target.contains_key(q));
            }
        },
        _ => {},
    }
}

/// A moment of a directory on its way back: where it is, what was said to do next, and how things
/// are.
pub struct Moment {
    pub state: RestoreView,
    pub action: ActionView,
    pub world: World,
}

/// Whether `ms` are the moments of a directory from its first step on, and `es` what came of each
/// step: no step failed, and nothing else changed anything.
pub open spec fn course(first: RestoreView, ms: Seq<Moment>, es: Seq<RestoreEvent>) -> bool {
    &&& first.phase == Phase::Start
    &&& ms.len() == es.len() + 1
    &&& first.stepped(RestoreEvent::Begin) == Some((ms[0].state, ms[0].action))
    &&& ms[0].world.files.len() == ms[0].world.source.len()
    &&& !ms[0].world.moved
    &&& forall|k: int|
        0 <= k < es.len() ==> {
            &&& ms[k].world.answers(ms[k].action, #[trigger] es[k])
            &&& ms[k].state.stepped(es[k]) == Some((ms[k + 1].state, ms[k + 1].action))
            &&& ms[k + 1].world == ms[k].world.after(ms[k].action)
        }
}

/// Every moment of a directory on its way back is safe.
pub proof fn every_moment_is_safe(
    first: RestoreView,
    ms: Seq<Moment>,
    es: Seq<RestoreEvent>,
    k: int,
)
    requires
        course(first, ms, es),
        0 <= k < ms.len(),
    ensures
        safe(ms[k].state, ms[k].action, ms[0].world, ms[k].world),
    decreases k,
{
    if k == 0 {
        restoring_starts_safely(first, ms[0].world);
    } else {
        every_moment_is_safe(first, ms, es, k - 1);
        let m = ms[k - 1];
        assert(m.world.answers(m.action, es[k - 1]));
        every_step_is_safe(m.state, m.action, ms[0].world, m.world, es[k - 1]);
        assert(ms[k - 1 + 1] == ms[k]);
    }
}

/// The text of an event.
pub open spec fn told(e: RestoreEvent) -> Seq<char> {
    match e {
        RestoreEvent::Dangling(why) => why@,
        RestoreEvent::NotWritable(why) => why@,
        RestoreEvent::Resolved(canon) => canon@,
        _ => Seq::empty(),
    }
}

/// A directory that was moved away is reported as moved away.
pub proof fn moved_directory_is_reported(v: RestoreView)
    requires
        v.phase == Phase::Relocating,
    ensures
        v.stepped(RestoreEvent::Done) matches Some((_, ActionView::Finish(notes)))
            && memory::action_of(notes) == "memory-restored"@ && memory::any_holds(
            notes,
            "从 underlay 移除"@,
        ),
{
    let note = relocated_note(v.stash);
    let notes = v.notes.push(note);
    reveal_strlit(
        "underlay memory relocate 到 stash 并从 underlay 移除（不复原 symlink，挂载由 backing/memory 服务）：",
    );
    reveal_strlit("从 underlay 移除");
    assert(note.subrange(34, 47) =~= "从 underlay 移除"@);
    assert(memory::text_at(note, "从 underlay 移除"@, 34));
    assert(memory::holds_text(notes[v.notes.len() as int], "从 underlay 移除"@));
}

/// A directory that stays is not reported as moved away, unless a path or a message of the system
/// says so in the very words of the report.
pub proof fn kept_directory_is_not_reported_as_moved(v: RestoreView, e: RestoreEvent)
    requires
        v.wf(),
        v.phase != Phase::Relocating,
        !memory::holds_text(v.underlay, "从 underlay 移除"@),
        !memory::holds_text(v.target_text, "从 underlay 移除"@),
        !memory::holds_text(v.canon, "从 underlay 移除"@),
        !memory::holds_text(told(e), "从 underlay 移除"@),
    ensures
        v.stepped(e) matches Some((_, ActionView::Finish(notes))) ==> memory::action_of(notes)
            != "memory-restored"@,
{
    if let Some((_, ActionView::Finish(notes))) = v.stepped(e) {
        let words = "从 underlay 移除"@;
        reveal_strlit("从 underlay 移除");
        reveal_strlit("memory-restored");
        reveal_strlit("memory-noop");
        reveal_strlit("memory-deferred");
        reveal_with_fuel(memory::lacks, 60);
        reveal_strlit("symlink 目标 ");
        reveal_strlit("underlay memory ");
        reveal_strlit("underlay memory 目录 ");
        if v.phase == Phase::Start {
            reveal_strlit(" 含 `..` 穿越 → 拒绝、underlay memory 不删，待人工");
            memory::stands_within(
                "symlink 目标 "@,
                v.target_text,
                " 含 `..` 穿越 → 拒绝、underlay memory 不删，待人工"@,
                words,
            );
        } else if v.phase == Phase::Resolving {
            reveal_strlit(" 悬空/不可解析（");
            reveal_strlit("）→ underlay memory 不删，待人工");
            memory::stands_within_either(
                "symlink 目标 "@,
                v.target_text,
                " 悬空/不可解析（"@,
                told(e),
                "）→ underlay memory 不删，待人工"@,
                words,
                1,
            );
        } else if v.phase == Phase::Checking {
            reveal_strlit(" 解析后非目录（疑被物化）→ underlay memory 不删，待人工");
            memory::stands_within(
                "symlink 目标 "@,
                v.canon,
                " 解析后非目录（疑被物化）→ underlay memory 不删，待人工"@,
                words,
            );
        } else if v.phase == Phase::Probing {
            reveal_strlit(" 不可写（");
            reveal_strlit("）→ underlay memory 不删，待人工");
            memory::stands_within_either(
                "symlink 目标 "@,
                v.canon,
                " 不可写（"@,
                told(e),
                "）→ underlay memory 不删，待人工"@,
                words,
                1,
            );
        } else {
            reveal_strlit(" 已是 symlink（上一条目已恢复），幂等跳过");
            reveal_strlit(" 非目录（异常）→ 不动、待人工");
            reveal_strlit(" 不存在（已恢复或无回落）");
            memory::stands_within(
                "underlay memory "@,
                v.underlay,
                " 已是 symlink（上一条目已恢复），幂等跳过"@,
                words,
            );
            memory::stands_within(
                "underlay memory "@,
                v.underlay,
                " 非目录（异常）→ 不动、待人工"@,
                words,
            );
            memory::stands_within(
                "underlay memory 目录 "@,
                v.underlay,
                " 不存在（已恢复或无回落）"@,
                words,
            );
        }
        assert(notes.len() == 1);
        assert(!memory::holds_text(notes[0], words));
        assert(memory::action_of(notes)[7] != "memory-restored"@[7]);
    }
}

/// A directory is sent back only where its link does not go up, leads to a directory that can be
/// written to, and it is a directory itself; each is looked at in its turn, and else it stays and one
/// remark says why.
pub proof fn each_check_decides(v: RestoreView, canon: String, why: String, u: Underlay)
    requires
        v.notes.len() == 0,
    ensures
        v.phase == Phase::Start && climbs(v.target) ==> (v.stepped(RestoreEvent::Begin)
            matches Some(n) && (n.1 matches ActionView::Finish(notes) && notes.len() == 1
            && text::stands_in(notes[0], v.target_text))),
        v.phase == Phase::Start && !climbs(v.target) ==> (v.stepped(RestoreEvent::Begin)
            matches Some(n) && n.1 == ActionView::Resolve && n.0.phase == Phase::Resolving),
        v.phase == Phase::Resolving ==> (v.stepped(RestoreEvent::Dangling(why)) matches Some(n) && (
        n.1 matches ActionView::Finish(notes) && notes.len() == 1 && text::stands_in(
            notes[0],
            v.target_text,
        ) && text::stands_in(notes[0], why@))),
        v.phase == Phase::Resolving ==> (v.stepped(RestoreEvent::Resolved(canon)) matches Some(n)
            && n.1 == ActionView::CheckDirectory && n.0.canon == canon@ && n.0.phase
            == Phase::Checking),
        v.phase == Phase::Checking ==> (v.stepped(RestoreEvent::IsDirectory(false)) matches Some(n)
            && (n.1 matches ActionView::Finish(notes) && notes.len() == 1 && text::stands_in(
            notes[0],
            v.canon,
        ))),
        v.phase == Phase::Checking ==> (v.stepped(RestoreEvent::IsDirectory(true)) matches Some(n)
            && n.1 == ActionView::Probe && n.0.phase == Phase::Probing),
        v.phase == Phase::Probing ==> (v.stepped(RestoreEvent::NotWritable(why)) matches Some(n) && (
        n.1 matches ActionView::Finish(notes) && notes.len() == 1 && text::stands_in(
            notes[0],
            v.canon,
        ) && text::stands_in(notes[0], why@))),
        v.phase == Phase::Probing ==> (v.stepped(RestoreEvent::Writable) matches Some(n) && n.1
            == ActionView::Inspect && n.0.phase == Phase::Inspecting),
        v.phase == Phase::Inspecting && u == Underlay::Directory ==> (v.stepped(
            RestoreEvent::Found(u),
        ) matches Some(n) && n.1 == ActionView::ListFiles && n.0.phase == Phase::Listing),
        v.phase == Phase::Inspecting && u != Underlay::Directory ==> (v.stepped(
            RestoreEvent::Found(u),
        ) matches Some(n) && (n.1 matches ActionView::Finish(notes) && notes.len() == 1
            && text::stands_in(notes[0], v.underlay))),
{
    text::part_stands_in(
        "symlink 目标 "@,
        v.target_text,
        " 含 `..` 穿越 → 拒绝、underlay memory 不删，待人工"@,
    );
    let dangling = "）→ underlay memory 不删，待人工"@;
    text::part_stands_in(
        "symlink 目标 "@,
        v.target_text,
        " 悬空/不可解析（"@ + why@ + dangling,
    );
    text::part_stands_in(
        "symlink 目标 "@ + v.target_text + " 悬空/不可解析（"@,
        why@,
        dangling,
    );
    assert("symlink 目标 "@ + v.target_text + (" 悬空/不可解析（"@ + why@ + dangling)
        =~= dangling_note(v.target_text, why@));
    text::part_stands_in(
        "symlink 目标 "@,
        v.canon,
        " 解析后非目录（疑被物化）→ underlay memory 不删，待人工"@,
    );
    text::part_stands_in("symlink 目标 "@, v.canon, " 不可写（"@ + why@ + dangling);
    text::part_stands_in("symlink 目标 "@ + v.canon + " 不可写（"@, why@, dangling);
    assert("symlink 目标 "@ + v.canon + (" 不可写（"@ + why@ + dangling) =~= not_writable_note(
        v.canon,
        why@,
    ));
    text::part_stands_in(
        "underlay memory "@,
        v.underlay,
        " 已是 symlink（上一条目已恢复），幂等跳过"@,
    );
    text::part_stands_in("underlay memory "@, v.underlay, " 非目录（异常）→ 不动、待人工"@);
    text::part_stands_in(
        "underlay memory 目录 "@,
        v.underlay,
        " 不存在（已恢复或无回落）"@,
    );
}

/// Every file of the directory is read and looked for in its order, first under its own name; when all
/// were placed the directory is moved away, and the last remark names where it went.
pub proof fn every_file_has_its_turn(v: RestoreView, files: Vec<MemoryFile>, b: Vec<u8>)
    ensures
        v.phase == Phase::Listing ==> (v.stepped(RestoreEvent::Files(files)) matches Some(n) && {
            &&& n.0.files == file_views(files@)
            &&& files@.len() > 0 ==> n.1 == ActionView::ReadSource(0) && n.0.phase == Phase::Source
                && n.0.next == 0
            &&& files@.len() == 0 ==> n.1 == ActionView::Relocate
        }),
        v.phase == Phase::Source ==> (v.stepped(RestoreEvent::Bytes(b)) matches Some(n) && {
            &&& n.1 == ActionView::ReadDest(v.next, Seq::empty())
            &&& n.0.content == b@
            &&& n.0.slot is None
            &&& n.0.next == v.next
            &&& n.0.phase == Phase::Dest
        }),
        v.phase == Phase::Relocating ==> (v.stepped(RestoreEvent::Done) matches Some(n) && (n.1
            matches ActionView::Finish(notes) && notes.drop_last() == v.notes && text::stands_in(
            notes.last(),
            v.stash,
        ))),
{
    let lead = "underlay memory relocate 到 stash 并从 underlay 移除（不复原 symlink，挂载由 backing/memory 服务）："@;
    text::part_stands_in(lead, v.stash, Seq::empty());
    assert(lead + v.stash + Seq::empty() =~= relocated_note(v.stash));
    assert(v.notes.push(relocated_note(v.stash)).drop_last() =~= v.notes);
}

/// A file is written where there is none of its name, is done where the same is there, and is looked
/// for under another name where another is there. What was written is read back, and must be the file.
pub proof fn file_is_placed_under_a_free_name(v: RestoreView, b: Vec<u8>)
    requires
        v.slot matches Some(n) ==> n < u32::MAX,
    ensures
        v.phase == Phase::Dest ==> (v.stepped(RestoreEvent::Absent) matches Some(n) && n.1
            == ActionView::WriteDest(v.next, suffix(v.content, v.slot), v.content) && (n.0.stepped(
            RestoreEvent::Done,
        ) matches Some(then) && then.1 == ActionView::ReadBack(
            v.next,
            suffix(v.content, v.slot),
        ) && then.0 == v.at(Phase::ReadingBack))),
        v.phase == Phase::Dest && b@ == v.content ==> (v.stepped(RestoreEvent::Bytes(b))
            matches Some(n) && n.0.next == v.next + 1 && n.0.slot is None && n.0.notes.len()
            == v.notes.len() + 1 && text::stands_in(n.0.notes.last(), v.files[v.next].rel) && (
        n.1 == ActionView::ReadSource(v.next + 1) || (n.1 == ActionView::Relocate && v.next + 1
            >= v.files.len()))),
        v.phase == Phase::Dest && b@ != v.content ==> (v.stepped(RestoreEvent::Bytes(b))
            matches Some(n) && (n.1 matches ActionView::ReadDest(i, behind) && {
            &&& i == v.next
            &&& n.0.content == v.content && n.0.next == v.next && n.0.phase == Phase::Dest
            &&& behind == suffix(v.content, n.0.slot)
            &&& v.slot is None ==> n.0.slot == Some(0u32)
            &&& v.slot matches Some(k) ==> n.0.slot == Some((k + 1) as u32)
        })),
        v.phase == Phase::ReadingBack && b@ == v.content ==> (v.stepped(RestoreEvent::Bytes(b))
            matches Some(n) && n.0.next == v.next + 1 && n.0.slot is None && n.0.notes.len()
            == v.notes.len() + 1 && (n.1 == ActionView::ReadSource(v.next + 1) || (n.1
            == ActionView::Relocate && v.next + 1 >= v.files.len())) && text::stands_in(
            n.0.notes.last(),
            if v.slot is None {
                v.files[v.next].rel
            } else {
                v.files[v.next].name
            },
        )),
        v.phase == Phase::ReadingBack && b@ != v.content ==> (v.stepped(RestoreEvent::Bytes(b))
            matches Some(n) && (n.1 matches ActionView::Fail(m) && text::stands_in(
            m,
            v.files[v.next].rel,
        ))),
{
    let f = v.files[v.next];
    let none = Seq::<char>::empty();
    text::part_stands_in("memory 已存在同内容，跳过：target/"@, f.rel, none);
    assert("memory 已存在同内容，跳过：target/"@ + f.rel + none =~= present_note(f, None));
    text::part_stands_in("memory 冲突副本已存在同内容，幂等跳过：target/"@, f.rel, none);
    assert("memory 冲突副本已存在同内容，幂等跳过：target/"@ + f.rel + none =~= present_note(
        f,
        Some(0),
    ));
    text::part_stands_in("memory 新增 → target/"@, f.rel, none);
    assert("memory 新增 → target/"@ + f.rel + none =~= placed_note(f, None, v.content));
    text::part_stands_in(
        "memory 冲突（canonical 保留）→ target 旁 "@,
        f.name,
        suffix(v.content, v.slot),
    );
    text::part_stands_in("memory 复制 "@, f.rel, " 后 readback 不符"@);
    text::part_stands_in("memory 冲突副本 "@, f.rel, " 后 readback 不符"@);
}

/// One hexadecimal digit more stands for sixteen times as much and that digit, and a number is written
/// with as many digits as are asked for.
pub proof fn digit_behind_makes_sixteen_times_more(x: nat, d: nat, n: nat)
    requires
        d < 16,
    ensures
        hex_digits(16 * x + d, n + 1).len() == n + 1,
        hex_digits(16 * x + d, n + 1).drop_last() == hex_digits(x, n),
        d < 10 ==> hex_digits(16 * x + d, n + 1).last() as int == '0' as int + d,
        10 <= d ==> hex_digits(16 * x + d, n + 1).last() as int == 'a' as int + d - 10,
    decreases n,
{
    if n > 0 {
        digit_behind_makes_sixteen_times_more(x / 16, x % 16, (n - 1) as nat);
    }
    assert((16 * x + d) / 16 == x && (16 * x + d) % 16 == d);
    assert(hex_digits(16 * x + d, n + 1).drop_last() =~= hex_digits(x, n));
}

/// A file's own name has nothing behind it; the names beside it have its checksum in eight digits, and
/// from the second on a number, so that no two of them are the same.
pub proof fn names_beside_a_file_differ(content: Seq<u8>, a: u32, b: u32)
    requires
        a != 0,
        b != 0,
    ensures
        suffix(content, None).len() == 0,
        suffix(content, Some(0)) == ".underlay-"@ + hex_digits(
            wire::crc32_of(content) as nat,
            8,
        ),
        suffix(content, Some(a)) == suffix(content, Some(0)) + "-"@ + text::decimal(a as nat),
        suffix(content, Some(a)).len() > suffix(content, Some(0)).len() > 0,
        suffix(content, Some(a)) == suffix(content, Some(b)) ==> a == b,
{
    reveal_strlit(".underlay-");
    reveal_strlit("-");
    let stem = suffix(content, Some(0u32)) + "-"@;
    if suffix(content, Some(a)) == suffix(content, Some(b)) {
        let n = stem.len() as int;
        let s = suffix(content, Some(a));
        let t = suffix(content, Some(b));
        assert(s.subrange(n, s.len() as int) =~= text::decimal(a as nat));
        assert(t.subrange(n, t.len() as int) =~= text::decimal(b as nat));
        text::written_number_reads_back(a as u64);
        text::written_number_reads_back(b as u64);
    }
}

/// A path goes up exactly where one of its parts is two dots.
pub proof fn two_dots_go_up(s: Seq<u8>)
    ensures
        climbs(s) <==> path::components(s).contains(seq![46u8, 46u8]),
{
    let up = seq![46u8, 46u8];
    if path::components(s).contains(up) {
        let i = path::components(s).index_of(up);
        assert(path::is_dot_dot(path::components(s)[i]));
    }
    if climbs(s) {
        let i = choose|i: int| 0 <= i < path::components(s).len() && path::is_dot_dot(
            #[trigger] path::components(s)[i],
        );
        assert(path::components(s)[i] =~= up);
    }
}

/// After the remarks were told, or why it failed, nothing more comes.
pub proof fn ended_restoring_goes_no_further(v: RestoreView, e: RestoreEvent)
    ensures
        v.phase == Phase::End ==> v.stepped(e) is None,
{
}

} // verus!
