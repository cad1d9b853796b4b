//! A file system that hands everything on to a directory: how modes, flags and system calls are
//! read.
use vstd::prelude::*;

use crate::frontend;
use crate::frontend::FileAttr;
use crate::ordmap::OrdMap;
use crate::store::types::{FileKind, Time};

verus! {

/// The bits of a mode that say what kind of file it is.
pub const S_IFMT: u32 = 0o170000;

/// The kind of a regular file.
pub const S_IFREG: u32 = 0o100000;

/// The kind of a directory.
pub const S_IFDIR: u32 = 0o040000;

/// The kind of a symbolic link.
pub const S_IFLNK: u32 = 0o120000;

/// The kind of a pipe.
pub const S_IFIFO: u32 = 0o010000;

/// The kind of a character device.
pub const S_IFCHR: u32 = 0o020000;

/// The kind of a block device.
pub const S_IFBLK: u32 = 0o060000;

/// The kind of a socket.
pub const S_IFSOCK: u32 = 0o140000;

/// The kind that a mode tells; an unknown one counts as a regular file.
pub open spec fn kind_of_mode(mode: u32) -> FileKind {
    let k = mode & S_IFMT;
    if k == S_IFDIR {
        FileKind::Directory
    } else if k == S_IFLNK {
        FileKind::Symlink
    } else if k == S_IFIFO {
        FileKind::NamedPipe
    } else if k == S_IFCHR {
        FileKind::CharDevice
    } else if k == S_IFBLK {
        FileKind::BlockDevice
    } else if k == S_IFSOCK {
        FileKind::Socket
    } else {
        FileKind::RegularFile
    }
}

/// The kind that a mode tells.
pub fn mode_to_filetype(mode: u32) -> (k: FileKind)
    ensures
        k == kind_of_mode(mode),
{
    let k: u32 = mode & S_IFMT;
    if k == S_IFDIR {
        FileKind::Directory
    } else if k == S_IFLNK {
        FileKind::Symlink
    } else if k == S_IFIFO {
        FileKind::NamedPipe
    } else if k == S_IFCHR {
        FileKind::CharDevice
    } else if k == S_IFBLK {
        FileKind::BlockDevice
    } else if k == S_IFSOCK {
        FileKind::Socket
    } else {
        FileKind::RegularFile
    }
}

/// The kind of an entry by what can be said of it cheaply; anything else counts as a regular file.
pub fn filetype_from_std(is_dir: bool, is_symlink: bool) -> (k: FileKind)
    ensures
        k == (if is_dir {
            FileKind::Directory
        } else if is_symlink {
            FileKind::Symlink
        } else {
            FileKind::RegularFile
        }),
{
    if is_dir {
        FileKind::Directory
    } else if is_symlink {
        FileKind::Symlink
    } else {
        FileKind::RegularFile
    }
}

/// What the directory's file system says of a file.
#[derive(Debug, Clone, Copy, PartialEq, Eq, Structural)]
pub struct Metadata {
    pub mode: u32,
    pub size: u64,
    pub blocks: u64,
    pub atime: Time,
    pub mtime: Time,
    pub ctime: Time,
    pub nlink: u64,
    pub uid: u32,
    pub gid: u32,
    pub rdev: u64,
    pub blksize: u64,
}

/// The attributes that the kernel is told, under our own number. Figures of 64 bits are told by
/// their lower half.
pub fn metadata_to_attr(ino: u64, meta: &Metadata) -> (f: FileAttr)
    ensures
        f == (FileAttr {
            ino,
            size: meta.size,
            blocks: meta.blocks,
            atime: meta.atime,
            mtime: meta.mtime,
            ctime: meta.ctime,
            crtime: Time::at_epoch(),
            kind: kind_of_mode(meta.mode),
            perm: frontend::perm_of(meta.mode),
            nlink: meta.nlink as u32,
            uid: meta.uid,
            gid: meta.gid,
            rdev: meta.rdev as u32,
            flags: 0,
            blksize: meta.blksize as u32,
        }),
{
    FileAttr {
        ino,
        size: meta.size,
        blocks: meta.blocks,
        atime: meta.atime,
        mtime: meta.mtime,
        ctime: meta.ctime,
        crtime: Time::epoch(),
        kind: mode_to_filetype(meta.mode),
        perm: (meta.mode & frontend::PERM_BITS) as u16,
        nlink: meta.nlink as u32,
        uid: meta.uid,
        gid: meta.gid,
        rdev: meta.rdev as u32,
        flags: 0,
        blksize: meta.blksize as u32,
    }
}

/// The bits of open flags that say how a file is accessed.
pub const O_ACCMODE: i32 = 3;

/// Reading only.
pub const O_RDONLY: i32 = 0;

/// Writing only.
pub const O_WRONLY: i32 = 1;

/// Reading and writing.
pub const O_RDWR: i32 = 2;

/// Create the file.
pub const O_CREAT: i32 = 0o100;

/// Fail where the file is there.
pub const O_EXCL: i32 = 0o200;

/// How a file of the directory is opened.
#[derive(Debug, Clone, Copy, PartialEq, Eq, Structural)]
pub struct OpenPlan {
    /// For reading.
    pub read: bool,
    /// For writing.
    pub write: bool,
    /// The flags that are handed on.
    pub flags: i32,
}

/// How a file that is there is opened: it is not created.
pub fn open_plan(flags: i32) -> (p: OpenPlan)
    ensures
        p == (OpenPlan {
            read: (flags & O_ACCMODE) == O_RDONLY || (flags & O_ACCMODE) == O_RDWR,
            write: (flags & O_ACCMODE) == O_WRONLY || (flags & O_ACCMODE) == O_RDWR,
            flags: flags & !O_CREAT & !O_EXCL,
        }),
{
    let acc: i32 = flags & O_ACCMODE;
    OpenPlan {
        read: acc == O_RDONLY || acc == O_RDWR,
        write: acc == O_WRONLY || acc == O_RDWR,
        flags: flags & !O_CREAT & !O_EXCL,
    }
}

/// How a file is opened that may have to be created: that is asked for otherwise than by a flag.
pub fn create_plan(flags: i32) -> (p: OpenPlan)
    ensures
        p == (OpenPlan {
            read: (flags & O_ACCMODE) == O_RDONLY || (flags & O_ACCMODE) == O_RDWR,
            write: (flags & O_ACCMODE) == O_WRONLY || (flags & O_ACCMODE) == O_RDWR,
            flags: flags & !O_CREAT,
        }),
{
    let acc: i32 = flags & O_ACCMODE;
    OpenPlan {
        read: acc == O_RDONLY || acc == O_RDWR,
        write: acc == O_WRONLY || acc == O_RDWR,
        flags: flags & !O_CREAT,
    }
}

/// A step of changing attributes.
#[derive(Debug, Clone, Copy, PartialEq, Eq, Structural)]
pub enum SetStep {
    /// Change owner and group; the largest number leaves one alone.
    Chown(u32, u32),
    /// Change the permission bits.
    Chmod(u32),
    /// Change the length.
    SetLen(u64),
}

/// The steps of changing attributes.
pub open spec fn set_steps_of(
    mode: Option<u32>,
    uid: Option<u32>,
    gid: Option<u32>,
    size: Option<u64>,
) -> Seq<SetStep> {
    let owner = if uid is Some || gid is Some {
        seq![
            SetStep::Chown(
                if uid is Some {
                    uid->0
                } else {
                    u32::MAX
                },
                if gid is Some {
                    gid->0
                } else {
                    u32::MAX
                },
            ),
        ]
    } else {
        Seq::empty()
    };
    let perm = if mode is Some {
        seq![SetStep::Chmod(mode->0 & frontend::PERM_BITS)]
    } else {
        Seq::empty()
    };
    let len = if size is Some {
        seq![SetStep::SetLen(size->0)]
    } else {
        Seq::empty()
    };
    owner + perm + len
}

/// The steps of changing attributes. The owner goes first, because a change of it clears permission
/// bits.
pub fn set_steps(mode: Option<u32>, uid: Option<u32>, gid: Option<u32>, size: Option<u64>) -> (
    steps: Vec<SetStep>)
    ensures
        steps@ == set_steps_of(mode, uid, gid, size),
{
    let mut steps: Vec<SetStep> = Vec::new();
    if uid.is_some() || gid.is_some() {
        let u: u32 = match uid {
            Some(u) => u,
            None => u32::MAX,
        };
        let g: u32 = match gid {
            Some(g) => g,
            None => u32::MAX,
        };
        steps.push(SetStep::Chown(u, g));
    }
    if let Some(m) = mode {
        steps.push(SetStep::Chmod(m & frontend::PERM_BITS));
    }
    if let Some(n) = size {
        steps.push(SetStep::SetLen(n));
    }
    assert(steps@ =~= set_steps_of(mode, uid, gid, size));
    steps
}

/// The call was interrupted.
pub const EINTR: i32 = 4;

/// What a system call that moves bytes told.
#[derive(Debug, Clone, Copy, PartialEq, Eq, Structural)]
pub enum Moved {
    /// So many bytes.
    Bytes(usize),
    /// It failed with this error.
    Failed(i32),
}

/// What follows a system call that reads.
#[derive(Debug, Clone, Copy, PartialEq, Eq, Structural)]
pub enum ReadNext {
    /// Call again.
    Retry,
    /// So many bytes were read.
    Done(usize),
    /// It failed.
    Fail(i32),
}

/// What follows a system call that reads: an interrupted one is made again, and fewer bytes than
/// asked for are what there is.
pub fn after_pread(m: Moved) -> (n: ReadNext)
    ensures
        n == (match m {
            Moved::Bytes(k) => ReadNext::Done(k),
            Moved::Failed(e) => if e == EINTR {
                ReadNext::Retry
            } else {
                ReadNext::Fail(e)
            },
        }),
{
    match m {
        Moved::Bytes(k) => ReadNext::Done(k),
        Moved::Failed(e) => if e == EINTR {
            ReadNext::Retry
        } else {
            ReadNext::Fail(e)
        },
    }
}

/// What follows a system call that writes.
#[derive(Debug, Clone, Copy, PartialEq, Eq, Structural)]
pub enum WriteNext {
    /// Write what is left.
    More,
    /// So many bytes were written.
    Done(usize),
    /// Nothing was written.
    Fail(i32),
}

/// A write under way.
#[derive(Debug, Clone, Copy, PartialEq, Eq, Structural)]
pub struct WriteLoop {
    /// Bytes to write.
    pub len: usize,
    /// Bytes written.
    pub written: usize,
}

impl WriteLoop {
    /// Nothing was written yet.
    pub fn new(len: usize) -> (w: WriteLoop)
        ensures
            w == (WriteLoop { len, written: 0 }),
    {
        WriteLoop { len, written: 0 }
    }

    /// Whether there is something left to write.
    pub fn is_open(&self) -> (b: bool)
        ensures
            b == (self.written < self.len),
    {
        self.written < self.len
    }

    /// Takes in what a system call told that was to write the rest: a short write goes on, an
    /// interrupted one is made again, and an error after some bytes tells these bytes.
    pub fn step(&mut self, m: Moved) -> (n: WriteNext)
        requires
            old(self).written < old(self).len,
            m matches Moved::Bytes(k) ==> k <= old(self).len - old(self).written,
        ensures
            match m {
                Moved::Bytes(k) => {
                    &&& *final(self) == (WriteLoop {
                        written: (old(self).written + k) as usize,
                        ..*old(self)
                    })
                    &&& n == (if k == 0 || old(self).written + k == old(self).len {
                        WriteNext::Done((old(self).written + k) as usize)
                    } else {
                        WriteNext::More
                    })
                },
                Moved::Failed(e) => {
                    &&& *final(self) == *old(self)
                    &&& n == (if e == EINTR {
                        WriteNext::More
                    } else if old(self).written > 0 {
                        WriteNext::Done(old(self).written)
                    } else {
                        WriteNext::Fail(e)
                    })
                },
            },
    {
        match m {
            Moved::Bytes(k) => {
                self.written = self.written + k;
                if k == 0 || self.written == self.len {
                    WriteNext::Done(self.written)
                } else {
                    WriteNext::More
                }
            },
            Moved::Failed(e) => {
                if e == EINTR {
                    WriteNext::More
                } else if self.written > 0 {
                    WriteNext::Done(self.written)
                } else {
                    WriteNext::Fail(e)
                }
            },
        }
    }
}

/// Open files by handle. A handle is never given out twice.
#[verifier::reject_recursive_types(T)]
pub struct Handles<T> {
    /// The files.
    pub files: OrdMap<u64, T>,
    /// The next handle.
    pub next_fh: u64,
}

impl<T> Handles<T> {
    /// Handles given out are below the next one.
    pub open spec fn wf(&self) -> bool {
        forall|fh: u64| #[trigger] self.files@.contains_key(fh) ==> fh < self.next_fh
    }

    /// No open file; handles start at one.
    pub fn new() -> (h: Handles<T>)
        ensures
            h.wf(),
            h.files@ == Map::<u64, T>::empty(),
            h.next_fh == 1,
    {
        Handles { files: OrdMap::new(), next_fh: 1 }
    }

    /// Takes a file and gives it a handle that no file ever had.
    pub fn open(&mut self, file: T) -> (fh: u64)
        requires
            old(self).wf(),
            old(self).next_fh < u64::MAX,
        ensures
            final(self).wf(),
            fh == old(self).next_fh,
            final(self).next_fh == fh + 1,
            !old(self).files@.contains_key(fh),
            final(self).files@ == old(self).files@.insert(fh, file),
    {
        let fh: u64 = self.next_fh;
        self.next_fh = fh + 1;
        self.files.insert(fh, file);
        fh
    }

    /// The file of a handle.
    pub fn get(&self, fh: u64) -> (f: Option<&T>)
        ensures
            match f {
                Some(f) => self.files@.contains_key(fh) && *f == self.files@[fh],
                None => !self.files@.contains_key(fh),
            },
    {
        self.files.get(&fh)
    }

    /// Takes the file of a handle out.
    pub fn close(&mut self, fh: u64) -> (f: Option<T>)
        requires
            old(self).wf(),
        ensures
            final(self).wf(),
            final(self).next_fh == old(self).next_fh,
            final(self).files@ == old(self).files@.remove(fh),
            match f {
                Some(f) => old(self).files@.contains_key(fh) && f == old(self).files@[fh],
                None => !old(self).files@.contains_key(fh),
            },
    {
        self.files.remove(&fh)
    }
}

/// The kind of a file stands in the four bits of its mode above the permission bits.
pub proof fn four_bits_tell_the_kind(mode: u32)
    ensures
        ({
            let k = (mode / 4096) % 16;
            &&& kind_of_mode(mode) == FileKind::Directory <==> k == 4
            &&& kind_of_mode(mode) == FileKind::Symlink <==> k == 10
            &&& kind_of_mode(mode) == FileKind::NamedPipe <==> k == 1
            &&& kind_of_mode(mode) == FileKind::CharDevice <==> k == 2
            &&& kind_of_mode(mode) == FileKind::BlockDevice <==> k == 6
            &&& kind_of_mode(mode) == FileKind::Socket <==> k == 12
            &&& k == 8 ==> kind_of_mode(mode) == FileKind::RegularFile
        }),
{
    assert(mode & 0o170000u32 == ((mode / 4096) % 16) * 4096) by (bit_vector);
}

/// Changing attributes takes a step for each thing asked for and no other: the owner first, with the
/// largest number for what is left alone, then the permission bits, then the length.
pub proof fn each_change_has_its_step(
    mode: Option<u32>,
    uid: Option<u32>,
    gid: Option<u32>,
    size: Option<u64>,
)
    ensures
        ({
            let s = set_steps_of(mode, uid, gid, size);
            let owner: int = if uid is None && gid is None {
                0
            } else {
                1
            };
            let perm: int = if mode is None {
                0
            } else {
                1
            };
            let len: int = if size is None {
                0
            } else {
                1
            };
            &&& s.len() == owner + perm + len
            &&& owner == 1 ==> (s[0] matches SetStep::Chown(u, g) && {
                &&& uid matches Some(x) ==> u == x
                &&& uid is None ==> u == 0xffff_ffff
                &&& gid matches Some(x) ==> g == x
                &&& gid is None ==> g == 0xffff_ffff
            })
            &&& mode matches Some(m) ==> s[owner] == SetStep::Chmod((m % 4096) as u32)
            &&& size matches Some(n) ==> s[owner + perm] == SetStep::SetLen(n)
        }),
{
    if let Some(m) = mode {
        assert(m & 0o7777u32 == m % 4096) by (bit_vector);
    }
}

} // verus!
