//! The row that a container keeps for each file.
use vstd::prelude::*;

use super::types::{Attr, FileKind, StoreError, Time};
use crate::archive::wire;

verus! {

/// Length of a row without times, as the first containers wrote it.
pub const INODE_ROW_LEN_V1: usize = 23;

/// Length of a row.
pub const INODE_ROW_LEN: usize = 59;

/// What a container keeps of a file.
#[derive(Debug, Clone, Copy, PartialEq, Eq, Structural)]
pub struct InodeRow {
    /// 1 for a directory, 2 for a file.
    pub kind: u8,
    /// Logical length.
    pub size: u64,
    /// Permission bits.
    pub perm: u16,
    /// Owner.
    pub uid: u32,
    /// Group.
    pub gid: u32,
    /// Chunk size.
    pub chunk_size: u32,
    /// Time of the last change of content.
    pub mtime: Time,
    /// Time of the last access.
    pub atime: Time,
    /// Time of the last change of attributes.
    pub ctime: Time,
}

/// A time as a row keeps it: one before the epoch is kept as the epoch.
pub open spec fn kept_time(t: Time) -> Time {
    if t.secs < 0 {
        Time::at_epoch()
    } else {
        t
    }
}

/// The bytes of a time.
pub open spec fn time_bytes(t: Time) -> Seq<u8> {
    wire::le64(kept_time(t).secs as u64) + wire::le32(kept_time(t).nanos)
}

/// The time at `at`.
pub open spec fn time_at(b: Seq<u8>, at: int) -> Time {
    let secs = wire::u64_at(b, at);
    if secs > i64::MAX {
        Time::at_epoch()
    } else {
        Time { secs: secs as i64, nanos: wire::u32_at(b, at + 8) }
    }
}

/// The bytes of a row.
pub open spec fn row_bytes(r: InodeRow) -> Seq<u8> {
    seq![r.kind] + wire::le64(r.size) + wire::le16(r.perm) + wire::le32(r.uid) + wire::le32(r.gid)
        + wire::le32(r.chunk_size) + time_bytes(r.mtime) + time_bytes(r.atime) + time_bytes(r.ctime)
}

/// The row that some bytes stand for; none where they have no row's length. A row without times
/// has those of the epoch.
pub open spec fn row_decoded(b: Seq<u8>) -> Option<InodeRow> {
    if b.len() != INODE_ROW_LEN && b.len() != INODE_ROW_LEN_V1 {
        None
    } else {
        let timed = b.len() == INODE_ROW_LEN;
        Some(
            InodeRow {
                kind: b[0],
                size: wire::u64_at(b, 1),
                perm: wire::u16_at(b, 9),
                uid: wire::u32_at(b, 11),
                gid: wire::u32_at(b, 15),
                chunk_size: wire::u32_at(b, 19),
                mtime: if timed {
                    time_at(b, 23)
                } else {
                    Time::at_epoch()
                },
                atime: if timed {
                    time_at(b, 35)
                } else {
                    Time::at_epoch()
                },
                ctime: if timed {
                    time_at(b, 47)
                } else {
                    Time::at_epoch()
                },
            },
        )
    }
}

/// The row as it is kept.
pub open spec fn kept_row(r: InodeRow) -> InodeRow {
    InodeRow {
        mtime: kept_time(r.mtime),
        atime: kept_time(r.atime),
        ctime: kept_time(r.ctime),
        ..r
    }
}

proof fn peel_time(b: Seq<u8>, p: Seq<u8>, t: Time)
    requires
        p.len() + 12 <= b.len(),
        b.subrange(0, (p.len() + 12) as int) == p + time_bytes(t),
    ensures
        b.subrange(0, p.len() as int) == p,
        time_at(b, p.len() as int) == kept_time(t),
{
    broadcast use {wire::le32_len, wire::le64_len};

    let q = p + wire::le64(kept_time(t).secs as u64);
    assert(p + time_bytes(t) =~= q + wire::le32(kept_time(t).nanos));
    wire::peel32(b, q, kept_time(t).nanos);
    wire::peel64(b, p, kept_time(t).secs as u64);
}

/// Decoding a row gives back what was encoded; times before the epoch come back as the epoch.
pub proof fn row_reads_back(r: InodeRow)
    ensures
        row_bytes(r).len() == INODE_ROW_LEN,
        row_decoded(row_bytes(r)) == Some(kept_row(r)),
{
    broadcast use {wire::le16_len, wire::le32_len, wire::le64_len};

    let b = row_bytes(r);
    let p1 = seq![r.kind];
    let p2 = p1 + wire::le64(r.size);
    let p3 = p2 + wire::le16(r.perm);
    let p4 = p3 + wire::le32(r.uid);
    let p5 = p4 + wire::le32(r.gid);
    let p6 = p5 + wire::le32(r.chunk_size);
    let p7 = p6 + time_bytes(r.mtime);
    let p8 = p7 + time_bytes(r.atime);
    assert(b == p8 + time_bytes(r.ctime));
    assert(b.subrange(0, b.len() as int) =~= b);
    peel_time(b, p8, r.ctime);
    peel_time(b, p7, r.atime);
    peel_time(b, p6, r.mtime);
    wire::peel32(b, p5, r.chunk_size);
    wire::peel32(b, p4, r.gid);
    wire::peel32(b, p3, r.uid);
    wire::peel16(b, p2, r.perm);
    wire::peel64(b, p1, r.size);
    assert(b.subrange(0, 1)[0] == r.kind);
}

fn put_time(b: &mut Vec<u8>, t: Time)
    ensures
        final(b)@ == old(b)@ + time_bytes(t),
{
    let ghost before = b@;
    let (secs, nanos): (u64, u32) = if t.secs < 0 { (0, 0) } else { (t.secs as u64, t.nanos) };
    wire::put_u64(b, secs);
    wire::put_u32(b, nanos);
    assert(b@ =~= before + time_bytes(t));
}

fn get_time(b: &[u8], at: usize) -> (t: Time)
    requires
        at + 12 <= b@.len(),
    ensures
        t == time_at(b@, at as int),
{
    let len: usize = b.len();
    assert(at + 12 <= len);
    let secs: u64 = wire::get_u64(b, at);
    let nanos: u32 = wire::get_u32(b, at + 8);
    if secs > i64::MAX as u64 {
        Time::epoch()
    } else {
        Time { secs: secs as i64, nanos }
    }
}

/// The kind that a row keeps for a file: 1 for a directory, 2 for anything else.
pub open spec fn kind_code(k: FileKind) -> u8 {
    if k == FileKind::Directory {
        1
    } else {
        2
    }
}

/// The kind that a row keeps for a file.
pub fn filetype_to_kind(k: FileKind) -> (code: u8)
    ensures
        code == kind_code(k),
{
    if k == FileKind::Directory {
        1
    } else {
        2
    }
}

impl InodeRow {
    /// The row's bytes.
    pub fn encode(&self) -> (b: Vec<u8>)
        ensures
            b@ == row_bytes(*self),
    {
        let mut b: Vec<u8> = Vec::new();
        b.push(self.kind);
        wire::put_u64(&mut b, self.size);
        wire::put_u16(&mut b, self.perm);
        wire::put_u32(&mut b, self.uid);
        wire::put_u32(&mut b, self.gid);
        wire::put_u32(&mut b, self.chunk_size);
        assert(b@ =~= seq![self.kind] + wire::le64(self.size) + wire::le16(self.perm) + wire::le32(
            self.uid,
        ) + wire::le32(self.gid) + wire::le32(self.chunk_size));
        put_time(&mut b, self.mtime);
        put_time(&mut b, self.atime);
        put_time(&mut b, self.ctime);
        b
    }

    /// The row that some bytes stand for.
    pub fn decode(b: &[u8]) -> (r: Result<InodeRow, StoreError>)
        ensures
            match row_decoded(b@) {
                Some(row) => r == Ok::<InodeRow, StoreError>(row),
                None => r == Err::<InodeRow, StoreError>(StoreError::BadRow(b@.len() as usize)),
            },
    {
        if b.len() != INODE_ROW_LEN && b.len() != INODE_ROW_LEN_V1 {
            return Err(StoreError::BadRow(b.len()));
        }
        let (mtime, atime, ctime): (Time, Time, Time) = if b.len() == INODE_ROW_LEN {
            (get_time(b, 23), get_time(b, 35), get_time(b, 47))
        } else {
            (Time::epoch(), Time::epoch(), Time::epoch())
        };
        Ok(
            InodeRow {
                kind: b[0],
                size: wire::get_u64(b, 1),
                perm: wire::get_u16(b, 9),
                uid: wire::get_u32(b, 11),
                gid: wire::get_u32(b, 15),
                chunk_size: wire::get_u32(b, 19),
                mtime,
                atime,
                ctime,
            },
        )
    }

    /// The kind that the row stands for.
    pub open spec fn file_kind(&self) -> FileKind {
        if self.kind == 1 {
            FileKind::Directory
        } else {
            FileKind::RegularFile
        }
    }

    /// The kind that the row stands for.
    pub fn kind_to_filetype(&self) -> (k: FileKind)
        ensures
            k == self.file_kind(),
    {
        if self.kind == 1 {
            FileKind::Directory
        } else {
            FileKind::RegularFile
        }
    }

    /// The attributes of file `ino`, of `size` bytes.
    pub open spec fn attr(&self, ino: u64, size: u64) -> Attr {
        Attr {
            ino,
            size,
            kind: self.file_kind(),
            perm: self.perm,
            uid: self.uid,
            gid: self.gid,
            mtime: self.mtime,
            atime: self.atime,
            ctime: self.ctime,
            chunk_size: self.chunk_size,
        }
    }
}

/// A time from the epoch on is kept as it is; one before it becomes the epoch.
pub proof fn time_is_kept_from_the_epoch_on(t: Time)
    ensures
        t.secs >= 0 ==> kept_time(t) == t,
        t.secs < 0 ==> kept_time(t).secs == 0 && kept_time(t).nanos == 0,
{
}

/// A directory stays a directory, and what is none does not become one.
pub proof fn directory_is_told_apart(k: FileKind, r: InodeRow)
    requires
        r.kind == kind_code(k),
    ensures
        k == FileKind::Directory ==> r.file_kind() == FileKind::Directory && r.kind == 1,
        k != FileKind::Directory ==> r.file_kind() == FileKind::RegularFile && r.kind == 2,
{
}

/// What is told of a file is what its row says, at the number and the length given.
pub proof fn row_is_told(r: InodeRow, ino: u64, size: u64)
    ensures
        ({
            let a = r.attr(ino, size);
            &&& a.ino == ino && a.size == size
            &&& a.perm == r.perm && a.uid == r.uid && a.gid == r.gid
            &&& a.mtime == r.mtime && a.atime == r.atime && a.ctime == r.ctime
            &&& a.chunk_size == r.chunk_size
            &&& a.kind == FileKind::Directory <==> r.kind == 1
        }),
{
}

/// Where each field of a row stands.
pub proof fn row_has_its_layout(r: InodeRow)
    ensures
        ({
            let b = row_bytes(r);
            &&& b.len() == 59
            &&& b[0] == r.kind
            &&& wire::u64_at(b, 1) == r.size
            &&& wire::u16_at(b, 9) == r.perm
            &&& wire::u32_at(b, 11) == r.uid
            &&& wire::u32_at(b, 15) == r.gid
            &&& wire::u32_at(b, 19) == r.chunk_size
            &&& r.mtime.secs >= 0 ==> wire::u64_at(b, 23) == r.mtime.secs && wire::u32_at(b, 31)
                == r.mtime.nanos
            &&& r.atime.secs >= 0 ==> wire::u64_at(b, 35) == r.atime.secs && wire::u32_at(b, 43)
                == r.atime.nanos
            &&& r.ctime.secs >= 0 ==> wire::u64_at(b, 47) == r.ctime.secs && wire::u32_at(b, 55)
                == r.ctime.nanos
        }),
{
    broadcast use {wire::le16_len, wire::le32_len, wire::le64_len};

    let b = row_bytes(r);
    let p1 = seq![r.kind];
    let p2 = p1 + wire::le64(r.size);
    let p3 = p2 + wire::le16(r.perm);
    let p4 = p3 + wire::le32(r.uid);
    let p5 = p4 + wire::le32(r.gid);
    let p6 = p5 + wire::le32(r.chunk_size);
    let p7 = p6 + time_bytes(r.mtime);
    let p8 = p7 + time_bytes(r.atime);
    assert(b.subrange(0, b.len() as int) =~= b);
    assert(b =~= p8 + wire::le64(kept_time(r.ctime).secs as u64) + wire::le32(
        kept_time(r.ctime).nanos,
    ));
    wire::peel32(b, p8 + wire::le64(kept_time(r.ctime).secs as u64), kept_time(r.ctime).nanos);
    wire::peel64(b, p8, kept_time(r.ctime).secs as u64);
    assert(p8 =~= p7 + wire::le64(kept_time(r.atime).secs as u64) + wire::le32(
        kept_time(r.atime).nanos,
    ));
    wire::peel32(b, p7 + wire::le64(kept_time(r.atime).secs as u64), kept_time(r.atime).nanos);
    wire::peel64(b, p7, kept_time(r.atime).secs as u64);
    assert(p7 =~= p6 + wire::le64(kept_time(r.mtime).secs as u64) + wire::le32(
        kept_time(r.mtime).nanos,
    ));
    wire::peel32(b, p6 + wire::le64(kept_time(r.mtime).secs as u64), kept_time(r.mtime).nanos);
    wire::peel64(b, p6, kept_time(r.mtime).secs as u64);
    wire::peel32(b, p5, r.chunk_size);
    wire::peel32(b, p4, r.gid);
    wire::peel32(b, p3, r.uid);
    wire::peel16(b, p2, r.perm);
    wire::peel64(b, p1, r.size);
    assert(b.subrange(0, 1)[0] == r.kind);
}

/// A row without times says what the same row with times says, at the epoch; nothing of another
/// length is a row.
pub proof fn row_without_times_is_read(b: Seq<u8>, r: InodeRow)
    requires
        b == row_bytes(r).subrange(0, 23),
    ensures
        row_decoded(b) == Some(
            InodeRow {
                mtime: Time { secs: 0, nanos: 0 },
                atime: Time { secs: 0, nanos: 0 },
                ctime: Time { secs: 0, nanos: 0 },
                ..r
            },
        ),
        forall|x: Seq<u8>| #[trigger] row_decoded(x) is Some <==> x.len() == 23 || x.len() == 59,
{
    row_has_its_layout(r);
    reveal(wire::u64_at);
    reveal(wire::u32_at);
    reveal(wire::u16_at);
}

/// A time that is kept in a row and that no clock could hold reads as the epoch; every other one reads
/// as its seconds and nanoseconds stand there.
pub proof fn time_is_read_as_it_stands(b: Seq<u8>)
    requires
        b.len() == 59,
    ensures
        row_decoded(b) matches Some(r) && {
            let far = 0x8000_0000_0000_0000int;
            &&& wire::u64_at(b, 23) >= far ==> r.mtime == (Time { secs: 0, nanos: 0 })
            &&& wire::u64_at(b, 23) < far ==> r.mtime.secs == wire::u64_at(b, 23) && r.mtime.nanos
                == wire::u32_at(b, 31)
            &&& wire::u64_at(b, 35) >= far ==> r.atime == (Time { secs: 0, nanos: 0 })
            &&& wire::u64_at(b, 35) < far ==> r.atime.secs == wire::u64_at(b, 35) && r.atime.nanos
                == wire::u32_at(b, 43)
            &&& wire::u64_at(b, 47) >= far ==> r.ctime == (Time { secs: 0, nanos: 0 })
            &&& wire::u64_at(b, 47) < far ==> r.ctime.secs == wire::u64_at(b, 47) && r.ctime.nanos
                == wire::u32_at(b, 55)
        },
{
}

} // verus!
