//! What the file system says to the kernel: attributes, listings, figures, and what is done in
//! which order when a file is made durable or forgotten.
use vstd::prelude::*;

use crate::blockio::EIO;
use crate::metrics;
use crate::metrics::Metrics;
use crate::store::types::{Attr, DirEntry, DirEntryView, FileKind, Time};
use crate::text;

verus! {

/// The largest block size that is told: applications allocate buffers of it.
pub const MAX_BLKSIZE: u32 = 1_048_576;

/// The unit of the figures of the whole file system.
pub const STATFS_BLOCK: u64 = 4096;

/// The longest name.
pub const NAME_MAX: u32 = 255;

/// The permission bits of a mode.
pub const PERM_BITS: u32 = 0o7777;

/// Attributes as the kernel is told them.
#[derive(Debug, Clone, Copy, PartialEq, Eq, Structural)]
pub struct FileAttr {
    pub ino: u64,
    pub size: u64,
    /// Length in units of 512 bytes.
    pub blocks: u64,
    pub atime: Time,
    pub mtime: Time,
    pub ctime: Time,
    /// Time of creation.
    pub crtime: Time,
    pub kind: FileKind,
    pub perm: u16,
    pub nlink: u32,
    pub uid: u32,
    pub gid: u32,
    pub rdev: u32,
    pub flags: u32,
    /// The best unit to read and write in.
    pub blksize: u32,
}

/// The block size that is told of a file: its chunk size, or else the default one, up to a limit.
pub open spec fn told_blksize(chunk_size: u32, default_chunk_size: u32) -> u32 {
    let cs = if chunk_size > 0 {
        chunk_size
    } else {
        default_chunk_size
    };
    if cs < MAX_BLKSIZE {
        cs
    } else {
        MAX_BLKSIZE
    }
}

/// The attributes that the kernel is told. The time of creation is not known.
pub open spec fn told_attr(a: Attr, default_chunk_size: u32) -> FileAttr {
    FileAttr {
        ino: a.ino,
        size: a.size,
        blocks: ((a.size + 511) / 512) as u64,
        atime: a.atime,
        mtime: a.mtime,
        ctime: a.ctime,
        crtime: Time::at_epoch(),
        kind: a.kind,
        perm: a.perm,
        nlink: 1,
        uid: a.uid,
        gid: a.gid,
        rdev: 0,
        flags: 0,
        blksize: told_blksize(a.chunk_size, default_chunk_size),
    }
}

/// The attributes that the kernel is told.
pub fn to_file_attr(a: &Attr, default_chunk_size: u32) -> (f: FileAttr)
    ensures
        f == told_attr(*a, default_chunk_size),
{
    let cs: u32 = if a.chunk_size > 0 { a.chunk_size } else { default_chunk_size };
    FileAttr {
        ino: a.ino,
        size: a.size,
        blocks: a.size / 512 + if a.size % 512 == 0 { 0 } else { 1 },
        atime: a.atime,
        mtime: a.mtime,
        ctime: a.ctime,
        crtime: Time::epoch(),
        kind: a.kind,
        perm: a.perm,
        nlink: 1,
        uid: a.uid,
        gid: a.gid,
        rdev: 0,
        flags: 0,
        blksize: if cs < MAX_BLKSIZE { cs } else { MAX_BLKSIZE },
    }
}

/// The attributes of a file with the length that its open tail gives it; `geometry` is that length
/// with the chunk size.
pub fn overlay_tail_size(a: Attr, geometry: Option<(u64, u32)>) -> (r: Attr)
    ensures
        r == (match geometry {
            Some((size, _)) => if a.kind == FileKind::RegularFile {
                Attr { size, ..a }
            } else {
                a
            },
            None => a,
        }),
{
    if a.kind != FileKind::RegularFile {
        return a;
    }
    match geometry {
        Some((size, _)) => Attr { size, ..a },
        None => a,
    }
}

/// The permission bits of a new file.
pub open spec fn new_perm(mode: u32, umask: u32) -> u16 {
    ((mode & !umask) & PERM_BITS) as u16
}

/// The permission bits of a mode.
pub open spec fn perm_of(mode: u32) -> u16 {
    (mode & PERM_BITS) as u16
}

/// The attributes that a new file or directory is made with.
pub fn creation_attr(
    kind: FileKind,
    mode: u32,
    umask: u32,
    uid: u32,
    gid: u32,
    now: Time,
    chunk_size: u32,
) -> (a: Attr)
    ensures
        a == (Attr {
            ino: 0,
            size: 0,
            kind,
            perm: new_perm(mode, umask),
            uid,
            gid,
            mtime: now,
            atime: now,
            ctime: now,
            chunk_size,
        }),
{
    let bits: u32 = (mode & !umask) & PERM_BITS;
    assert(bits <= 0o7777) by (bit_vector)
        requires
            bits == (mode & !umask) & 0o7777u32,
    ;
    Attr {
        ino: 0,
        size: 0,
        kind,
        perm: bits as u16,
        uid,
        gid,
        mtime: now,
        atime: now,
        ctime: now,
        chunk_size,
    }
}

/// Permission bits never hold more than the twelve that there are, nor any that the mask takes
/// away.
pub proof fn mask_takes_bits_away(mode: u32, umask: u32)
    ensures
        new_perm(mode, umask) <= 0o7777,
        (mode & !umask) & PERM_BITS & umask == 0,
{
    assert((mode & !umask) & 0o7777u32 <= 0o7777) by (bit_vector);
    assert((mode & !umask) & 0o7777u32 & umask == 0) by (bit_vector);
}

/// Whether an opened file goes through the page cache: one that is only read does, and any where
/// writes are cached.
pub fn uses_page_cache(read_only: bool, writeback: bool) -> (b: bool)
    ensures
        b == (read_only || writeback),
{
    read_only || writeback
}

/// A time that is given, or the present one.
#[derive(Debug, Clone, Copy, PartialEq, Eq, Structural)]
pub enum TimeOrNow {
    SpecificTime(Time),
    Now,
}

/// The time that is meant.
pub open spec fn meant(t: TimeOrNow, now: Time) -> Time {
    match t {
        TimeOrNow::SpecificTime(t) => t,
        TimeOrNow::Now => now,
    }
}

/// The time that is meant.
pub fn resolve_time_or_now(t: TimeOrNow, now: Time) -> (r: Time)
    ensures
        r == meant(t, now),
{
    match t {
        TimeOrNow::SpecificTime(t) => t,
        TimeOrNow::Now => now,
    }
}

/// Attributes to change.
#[derive(Debug, Clone, Copy, PartialEq, Eq, Structural)]
pub struct SetAttr {
    pub mode: Option<u32>,
    pub uid: Option<u32>,
    pub gid: Option<u32>,
    pub atime: Option<TimeOrNow>,
    pub mtime: Option<TimeOrNow>,
    pub ctime: Option<Time>,
}

impl SetAttr {
    /// Whether there is anything to change.
    pub open spec fn any(&self) -> bool {
        self.mode is Some || self.uid is Some || self.gid is Some || self.atime is Some
            || self.mtime is Some || self.ctime is Some
    }

    /// The attributes with the changes.
    pub open spec fn applied(&self, a: Attr, now: Time) -> Attr {
        Attr {
            perm: if self.mode is Some {
                perm_of(self.mode->0)
            } else {
                a.perm
            },
            uid: if self.uid is Some {
                self.uid->0
            } else {
                a.uid
            },
            gid: if self.gid is Some {
                self.gid->0
            } else {
                a.gid
            },
            atime: if self.atime is Some {
                meant(self.atime->0, now)
            } else {
                a.atime
            },
            mtime: if self.mtime is Some {
                meant(self.mtime->0, now)
            } else {
                a.mtime
            },
            ctime: if self.ctime is Some {
                self.ctime->0
            } else {
                a.ctime
            },
            ..a
        }
    }

    /// The attributes to store; nothing where there is nothing to change.
    pub fn update(&self, a: Attr, now: Time) -> (r: Option<Attr>)
        ensures
            r == (if self.any() {
                Some(self.applied(a, now))
            } else {
                None
            }),
    {
        let mut a: Attr = a;
        let mut any: bool = false;
        if let Some(m) = self.mode {
            let bits: u32 = m & PERM_BITS;
            assert(bits <= 0o7777) by (bit_vector)
                requires
                    bits == m & 0o7777u32,
            ;
            a.perm = bits as u16;
            any = true;
        }
        if let Some(u) = self.uid {
            a.uid = u;
            any = true;
        }
        if let Some(g) = self.gid {
            a.gid = g;
            any = true;
        }
        if let Some(t) = self.atime {
            a.atime = resolve_time_or_now(t, now);
            any = true;
        }
        if let Some(t) = self.mtime {
            a.mtime = resolve_time_or_now(t, now);
            any = true;
        }
        if let Some(t) = self.ctime {
            a.ctime = t;
            any = true;
        }
        if any {
            Some(a)
        } else {
            None
        }
    }
}

/// Figures of the whole file system.
#[derive(Debug, Clone, Copy, PartialEq, Eq, Structural)]
pub struct Statfs {
    pub blocks: u64,
    pub bfree: u64,
    pub bavail: u64,
    pub files: u64,
    pub ffree: u64,
    pub bsize: u32,
    pub namelen: u32,
    pub frsize: u32,
}

/// The figures of a file system that keeps `logical` bytes in `physical` bytes: what compression
/// saves counts as free.
pub open spec fn told_statfs(physical: u64, logical: u64) -> Statfs {
    let blocks = (logical / STATFS_BLOCK) as int;
    let used = (physical / STATFS_BLOCK) as int;
    let free = (if blocks > used {
        blocks - used
    } else {
        0
    }) as u64;
    Statfs {
        blocks: blocks as u64,
        bfree: free,
        bavail: free,
        files: 0,
        ffree: 0,
        bsize: 4096,
        namelen: NAME_MAX,
        frsize: 4096,
    }
}

/// The figures of a file system; nothing is known without figures of its store.
pub fn statfs(stats: Option<(u64, u64)>) -> (s: Statfs)
    ensures
        s == (match stats {
            Some((physical, logical)) => told_statfs(physical, logical),
            None => told_statfs(0, 0),
        }),
{
    let (physical, logical): (u64, u64) = match stats {
        Some(s) => s,
        None => (0, 0),
    };
    let blocks: u64 = logical / STATFS_BLOCK;
    let used: u64 = physical / STATFS_BLOCK;
    let free: u64 = if blocks > used { blocks - used } else { 0 };
    Statfs {
        blocks,
        bfree: free,
        bavail: free,
        files: 0,
        ffree: 0,
        bsize: 4096,
        namelen: NAME_MAX,
        frsize: 4096,
    }
}

/// The entry of a directory for itself, under that name.
pub open spec fn own_entry(ino: u64, name: Seq<char>) -> DirEntryView {
    DirEntryView { ino, name, kind: FileKind::Directory }
}

/// A directory's listing: one dot, two dots, then its entries.
pub open spec fn full_listing(ino: u64, entries: Seq<DirEntryView>) -> Seq<DirEntryView> {
    seq![own_entry(ino, "."@), own_entry(ino, ".."@)] + entries
}

/// The views of some entries.
pub open spec fn entry_views(v: Seq<DirEntry>) -> Seq<DirEntryView> {
    Seq::new(v.len(), |i: int| v[i]@)
}

/// The entries of a listing from a place on, each with the place behind it.
pub open spec fn page_of(all: Seq<DirEntryView>, offset: int) -> Seq<(DirEntryView, u64)> {
    let from = if offset <= all.len() {
        offset
    } else {
        all.len() as int
    };
    Seq::new((all.len() - from) as nat, |i: int| (all[from + i], (from + i + 1) as u64))
}

/// The views of the entries of a page.
pub open spec fn page_view(v: Seq<(DirEntry, u64)>) -> Seq<(DirEntryView, u64)> {
    Seq::new(v.len(), |i: int| (v[i].0@, v[i].1))
}

/// A reader that stops behind any entry and asks again from there misses nothing and gets nothing
/// twice.
pub proof fn pages_follow_each_other(all: Seq<DirEntryView>, offset: int, n: int)
    requires
        0 <= offset,
        all.len() <= u64::MAX,
        0 < n <= page_of(all, offset).len(),
    ensures
        page_of(all, offset) == page_of(all, offset).take(n) + page_of(
            all,
            page_of(all, offset)[n - 1].1 as int,
        ),
{
    let page = page_of(all, offset);
    assert(page =~= page.take(n) + page_of(all, page[n - 1].1 as int));
}

/// The entries of a listing from a place on, each with the place behind it.
pub fn dir_page(ino: u64, entries: Vec<DirEntry>, offset: u64) -> (page: Vec<(DirEntry, u64)>)
    requires
        entries@.len() + 2 <= u64::MAX,
    ensures
        page_view(page@) == page_of(full_listing(ino, entry_views(entries@)), offset as int),
{
    let ghost all = full_listing(ino, entry_views(entries@));
    let ghost own = entries@;
    let ghost from = if offset <= all.len() {
        offset as int
    } else {
        all.len() as int
    };
    let mut page: Vec<(DirEntry, u64)> = Vec::new();
    if offset == 0 {
        page.push((DirEntry { ino, name: text::copy_str("."), kind: FileKind::Directory }, 1));
    }
    if offset <= 1 {
        page.push((DirEntry { ino, name: text::copy_str(".."), kind: FileKind::Directory }, 2));
    }
    let mut at: u64 = 2;
    let mut i: usize = 0;
    while i < entries.len()
        invariant
            i <= entries@.len(),
            entries@ == own,
            own.len() + 2 <= u64::MAX,
            all == full_listing(ino, entry_views(own)),
            at == i + 2,
            from == (if offset <= all.len() {
                offset as int
            } else {
                all.len() as int
            }),
            page@.len() == (if at > from {
                at - from
            } else {
                0
            }),
            forall|j: int|
                0 <= j < page@.len() ==> (#[trigger] page@[j]).0@ == all[from + j] && page@[j].1
                    == from + j + 1,
        decreases entries@.len() - i,
    {
        if at >= offset {
            let e: &DirEntry = &entries[i];
            assert(all[at as int] == entry_views(own)[i as int]);
            page.push((DirEntry { ino: e.ino, name: e.name.clone(), kind: e.kind }, at + 1));
        }
        at = at + 1;
        i = i + 1;
    }
    assert(page_view(page@) =~= page_of(all, offset as int));
    page
}

/// The error number of a failed call; an unknown one is an I/O error.
pub fn io_to_errno(raw: Option<i32>) -> (e: i32)
    ensures
        e == (match raw {
            Some(n) => n,
            None => EIO,
        }),
{
    match raw {
        Some(n) => n,
        None => EIO,
    }
}

/// What is done when the kernel forgets a file.
#[derive(Debug, Clone, Copy, PartialEq, Eq, Structural)]
pub enum ForgetStep {
    /// Seal its tail.
    Seal,
    /// Make it durable.
    Flush,
    /// Drop its tail, what the store keeps of it, and its lock.
    Release,
    /// Keep everything for another time.
    Keep,
}

/// What follows when a file is forgotten: its tail is dropped only when it was sealed and made
/// durable.
#[derive(Debug, Clone, Copy, PartialEq, Eq, Structural)]
pub struct Forget {
    /// Whether the tail was sealed.
    pub sealed: bool,
    /// Whether it is over.
    pub over: bool,
}

impl Forget {
    /// What follows when the step under way succeeded or failed.
    pub open spec fn stepped(&self, ok: bool) -> (Forget, ForgetStep) {
        if self.over || !ok {
            (Forget { over: true, ..*self }, ForgetStep::Keep)
        } else if self.sealed {
            (Forget { over: true, ..*self }, ForgetStep::Release)
        } else {
            (Forget { sealed: true, ..*self }, ForgetStep::Flush)
        }
    }

    /// To start with, the tail is sealed.
    pub fn new() -> (r: (Forget, ForgetStep))
        ensures
            r == ((Forget { sealed: false, over: false }), ForgetStep::Seal),
    {
        (Forget { sealed: false, over: false }, ForgetStep::Seal)
    }

    /// Takes in whether the step under way succeeded, and says what to do next.
    pub fn step(&mut self, ok: bool) -> (s: ForgetStep)
        ensures
            (*final(self), s) == old(self).stepped(ok),
    {
        if self.over || !ok {
            self.over = true;
            return ForgetStep::Keep;
        }
        if self.sealed {
            self.over = true;
            ForgetStep::Release
        } else {
            self.sealed = true;
            ForgetStep::Flush
        }
    }
}

/// The tail of a file that is forgotten is dropped exactly where it was sealed and then made
/// durable; once either failed, nothing that follows drops it.
pub proof fn tail_is_dropped_only_when_durable(sealed: bool, flushed: bool, later: bool)
    ensures
        ({
            let start = Forget { sealed: false, over: false };
            let (one, first) = start.stepped(sealed);
            let (two, second) = one.stepped(flushed);
            &&& first == (if sealed {
                ForgetStep::Flush
            } else {
                ForgetStep::Keep
            })
            &&& (second == ForgetStep::Release) == (sealed && flushed)
            &&& two.stepped(later).1 == ForgetStep::Keep
        }),
{
}

/// What came of making a file durable.
#[derive(Debug, Clone, Copy, PartialEq, Eq, Structural)]
pub enum Barrier {
    /// Its tail could not be sealed.
    SealFailed,
    /// The store failed.
    SyncFailed,
    /// It is durable.
    Done,
}

/// Counts a barrier and the time that it took. Tells whether the kernel's pages of the file are to
/// be dropped: only where it succeeded.
pub fn after_barrier(m: &mut Metrics, b: Barrier, us: u64) -> (invalidate: bool)
    requires
        old(m).wf(),
    ensures
        final(m).wf(),
        invalidate == (b == Barrier::Done),
        final(m).fsync_latency@ == old(m).fsync_latency@.observed(us),
        *final(m) == (Metrics {
            fsync_latency: final(m).fsync_latency,
            fuse_fsync_ops: if b == Barrier::Done {
                metrics::wrapped(old(m).fuse_fsync_ops, 1)
            } else {
                old(m).fuse_fsync_ops
            },
            fuse_errors: if b == Barrier::SyncFailed {
                metrics::wrapped(old(m).fuse_errors, 1)
            } else {
                old(m).fuse_errors
            },
            ..*old(m)
        }),
{
    match b {
        Barrier::SealFailed => {},
        Barrier::SyncFailed => {
            m.record_fuse_error();
        },
        Barrier::Done => {
            m.record_fsync();
        },
    }
    m.observe_fsync_latency_us(us);
    b == Barrier::Done
}

/// Counts a read of so many bytes, or one that failed, and the time that it took.
pub fn after_read(m: &mut Metrics, bytes: Option<u64>, us: u64)
    requires
        old(m).wf(),
    ensures
        final(m).wf(),
        final(m).read_latency@ == old(m).read_latency@.observed(us),
        *final(m) == (match bytes {
            Some(n) => Metrics {
                read_latency: final(m).read_latency,
                fuse_read_ops: metrics::wrapped(old(m).fuse_read_ops, 1),
                fuse_read_bytes: metrics::wrapped(old(m).fuse_read_bytes, n),
                ..*old(m)
            },
            None => Metrics {
                read_latency: final(m).read_latency,
                fuse_errors: metrics::wrapped(old(m).fuse_errors, 1),
                ..*old(m)
            },
        }),
{
    match bytes {
        Some(n) => {
            m.record_read(n);
        },
        None => {
            m.record_fuse_error();
        },
    }
    m.observe_read_latency_us(us);
}

/// Counts a write of so many bytes, or one that failed, and the time that it took.
pub fn after_write(m: &mut Metrics, bytes: Option<u64>, us: u64)
    requires
        old(m).wf(),
    ensures
        final(m).wf(),
        final(m).write_latency@ == old(m).write_latency@.observed(us),
        *final(m) == (match bytes {
            Some(n) => Metrics {
                write_latency: final(m).write_latency,
                fuse_write_ops: metrics::wrapped(old(m).fuse_write_ops, 1),
                fuse_write_bytes: metrics::wrapped(old(m).fuse_write_bytes, n),
                ..*old(m)
            },
            None => Metrics {
                write_latency: final(m).write_latency,
                fuse_errors: metrics::wrapped(old(m).fuse_errors, 1),
                ..*old(m)
            },
        }),
{
    match bytes {
        Some(n) => {
            m.record_write(n);
        },
        None => {
            m.record_fuse_error();
        },
    }
    m.observe_write_latency_us(us);
}

/// What the kernel is told of a file is what the store says of it: the length counted in units of 512
/// bytes covers it and no unit too many, there is one name, and it is no device.
pub proof fn kernel_is_told_what_the_store_says(a: Attr, default_chunk_size: u32)
    ensures
        ({
            let f = told_attr(a, default_chunk_size);
            &&& f.ino == a.ino && f.size == a.size && f.kind == a.kind
            &&& f.perm == a.perm && f.uid == a.uid && f.gid == a.gid
            &&& f.atime == a.atime && f.mtime == a.mtime && f.ctime == a.ctime
            &&& f.crtime.secs == 0 && f.crtime.nanos == 0
            &&& f.nlink == 1 && f.rdev == 0 && f.flags == 0
            &&& a.size <= 512 * f.blocks < a.size + 512
            &&& 0 < a.chunk_size <= 1_048_576 ==> f.blksize == a.chunk_size
            &&& a.chunk_size > 1_048_576 ==> f.blksize == 1_048_576
            &&& a.chunk_size == 0 && default_chunk_size <= 1_048_576 ==> f.blksize
                == default_chunk_size
            &&& a.chunk_size == 0 && default_chunk_size > 1_048_576 ==> f.blksize == 1_048_576
        }),
{
}

/// The permission bits of a mode are its last twelve, and those of a new file are the ones that the
/// mask leaves: what is kept and what is taken away make up what was asked for.
pub proof fn bits_kept_and_taken_make_up_the_mode(mode: u32, umask: u32)
    ensures
        perm_of(mode) == mode % 4096,
        perm_of(mode) == new_perm(mode, umask) + perm_of(mode & umask),
        new_perm(mode, 0) == perm_of(mode),
        new_perm(mode, 0o7777) == 0,
{
    assert(mode & 0o7777u32 == mode % 4096) by (bit_vector);
    assert((mode & !umask) & 0o7777u32 <= 0o7777 && (mode & umask) & 0o7777u32 <= 0o7777 && mode
        & 0o7777u32 == ((mode & !umask) & 0o7777u32) + ((mode & umask) & 0o7777u32)) by (bit_vector);
    assert((mode & !0u32) & 0o7777u32 == mode & 0o7777u32) by (bit_vector);
    assert((mode & !0o7777u32) & 0o7777u32 == 0) by (bit_vector);
}

/// Only what is asked for changes, and it becomes what was asked for; length, kind, number and chunk
/// size never do.
pub proof fn only_what_is_asked_for_changes(s: SetAttr, a: Attr, now: Time)
    ensures
        ({
            let b = s.applied(a, now);
            &&& b.ino == a.ino && b.size == a.size && b.kind == a.kind && b.chunk_size
                == a.chunk_size
            &&& s.mode matches Some(m) ==> b.perm == m % 4096
            &&& s.mode is None ==> b.perm == a.perm
            &&& s.uid matches Some(u) ==> b.uid == u
            &&& s.uid is None ==> b.uid == a.uid
            &&& s.gid matches Some(g) ==> b.gid == g
            &&& s.gid is None ==> b.gid == a.gid
            &&& s.atime == Some(TimeOrNow::Now) ==> b.atime == now
            &&& s.atime matches Some(TimeOrNow::SpecificTime(t)) ==> b.atime == t
            &&& s.atime is None ==> b.atime == a.atime
            &&& s.mtime == Some(TimeOrNow::Now) ==> b.mtime == now
            &&& s.mtime matches Some(TimeOrNow::SpecificTime(t)) ==> b.mtime == t
            &&& s.mtime is None ==> b.mtime == a.mtime
            &&& s.ctime matches Some(t) ==> b.ctime == t
            &&& s.ctime is None ==> b.ctime == a.ctime
            &&& !s.any() ==> b == a
            &&& s.any() <==> !(s.mode is None && s.uid is None && s.gid is None && s.atime is None
                && s.mtime is None && s.ctime is None)
        }),
{
    if let Some(m) = s.mode {
        bits_kept_and_taken_make_up_the_mode(m, 0);
    }
}

/// The figures count whole units: as many as the files take, of which those that compression saves
/// are free.
pub proof fn saved_units_are_free(physical: u64, logical: u64)
    ensures
        ({
            let s = told_statfs(physical, logical);
            &&& s.blocks * 4096 <= logical < (s.blocks + 1) * 4096
            &&& s.bfree == s.bavail
            &&& s.bfree <= s.blocks
            &&& physical >= logical ==> s.bfree == 0
            &&& physical < logical ==> (s.blocks - s.bfree) * 4096 <= physical < (s.blocks - s.bfree
                + 1) * 4096
            &&& s.bsize == 4096 && s.frsize == 4096 && s.namelen == 255
            &&& s.files == 0 && s.ffree == 0
        }),
{
}

/// A listing starts with the directory itself and the one above it, and then has each entry in its
/// order.
pub proof fn listing_has_every_entry(ino: u64, entries: Seq<DirEntryView>, i: int)
    ensures
        ({
            let all = full_listing(ino, entries);
            &&& all.len() == entries.len() + 2
            &&& all[0].ino == ino && all[0].name == seq!['.'] && all[0].kind == FileKind::Directory
            &&& all[1].ino == ino && all[1].name == seq!['.', '.'] && all[1].kind
                == FileKind::Directory
            &&& 0 <= i < entries.len() ==> all[i + 2] == entries[i]
        }),
{
    reveal_strlit(".");
    reveal_strlit("..");
    assert("."@ =~= seq!['.']);
    assert(".."@ =~= seq!['.', '.']);
}

/// A page from the start is the whole listing, each entry with its own place behind it; behind the
/// end there is nothing.
pub proof fn first_page_is_the_listing(all: Seq<DirEntryView>, i: int, beyond: int)
    requires
        all.len() <= u64::MAX,
        beyond >= all.len(),
    ensures
        page_of(all, 0).len() == all.len(),
        0 <= i < all.len() ==> page_of(all, 0)[i].0 == all[i] && page_of(all, 0)[i].1 == i + 1,
        page_of(all, beyond).len() == 0,
{
}

/// A step that succeeds leads on: the tail is sealed, then made durable, then dropped.
pub proof fn forgetting_goes_step_by_step(f: Forget)
    ensures
        f.stepped(false).1 == ForgetStep::Keep,
        !f.over && !f.sealed ==> f.stepped(true).1 == ForgetStep::Flush && f.stepped(true).0.sealed
            && !f.stepped(true).0.over,
        !f.over && f.sealed ==> f.stepped(true).1 == ForgetStep::Release && f.stepped(true).0.over,
        f.over ==> f.stepped(true).1 == ForgetStep::Keep,
{
}

/// A time that is given is the one that is meant, and no other time is where none is given.
pub proof fn given_time_is_meant(t: Time, now: Time, later: Time)
    ensures
        meant(TimeOrNow::SpecificTime(t), now) == t,
        meant(TimeOrNow::Now, now) == now,
        meant(TimeOrNow::SpecificTime(t), now) == meant(TimeOrNow::SpecificTime(t), later),
{
}

} // verus!
