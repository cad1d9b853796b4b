//! The byte device under an archive: positioned reads and writes, a barrier, a length.
use vstd::prelude::*;

verus! {

/// A failed device operation, with the operating system's error number.
#[derive(Debug, Clone, Copy, PartialEq, Eq, Structural)]
pub struct IoError {
    pub errno: i32,
}

/// No space left on the device.
pub const ENOSPC: i32 = 28;

/// Input or output error.
pub const EIO: i32 = 5;

/// Argument out of range.
pub const EINVAL: i32 = 22;

/// `image` with `bytes` written at `off`; a gap past the end is filled with zeros.
pub open spec fn written(image: Seq<u8>, off: int, bytes: Seq<u8>) -> Seq<u8> {
    let end = off + bytes.len();
    Seq::new(
        if end > image.len() { end as nat } else { image.len() },
        |i: int|
            if off <= i < end {
                bytes[i - off]
            } else if i < image.len() {
                image[i]
            } else {
                0u8
            },
    )
}

/// `after` is `before` but for what lies in `[off, off + len)`, and is no shorter.
pub open spec fn differs_only_in(before: Seq<u8>, after: Seq<u8>, off: int, len: int) -> bool {
    &&& after.len() >= before.len()
    &&& forall|i: int| 0 <= i < before.len() && !(off <= i < off + len) ==> after[i] == before[i]
}

/// A call that changes a device or makes it durable.
pub enum IoStep {
    /// These bytes are written at that offset.
    Write(u64, Seq<u8>),
    /// A barrier.
    Sync,
    /// The device is cut or extended to that length.
    SetLen(u64),
}

/// A call on a device, and the error that it failed with, if it failed.
pub struct IoCall {
    pub step: IoStep,
    pub failure: Option<IoError>,
}

/// The call that came out that way.
pub open spec fn called(step: IoStep, r: Result<(), IoError>) -> IoCall {
    IoCall {
        step,
        failure: match r {
            Ok(_) => None,
            Err(e) => Some(e),
        },
    }
}

/// The steps, all of which succeeded.
pub open spec fn done(steps: Seq<IoStep>) -> Seq<IoCall> {
    Seq::new(steps.len(), |i: int| IoCall { step: steps[i], failure: None })
}

/// The first `n` steps, the last of which failed.
pub open spec fn done_but_last(steps: Seq<IoStep>, n: int, e: IoError) -> Seq<IoCall> {
    done(steps.subrange(0, n - 1)).push(IoCall { step: steps[n - 1], failure: Some(e) })
}

/// Calls that are made one after the other add up.
pub proof fn calls_add_up(log: Seq<IoCall>, steps: Seq<IoStep>, k: int)
    requires
        0 <= k < steps.len(),
    ensures
        k == 0 ==> log + done(steps.subrange(0, k)) == log,
        log + done(steps.subrange(0, k + 1)) == (log + done(steps.subrange(0, k))).push(
            IoCall { step: steps[k], failure: None },
        ),
        forall|e: IoError|
            log + #[trigger] done_but_last(steps, k + 1, e) == (log + done(
                steps.subrange(0, k),
            )).push(IoCall { step: steps[k], failure: Some(e) }),
        k + 1 == steps.len() ==> steps.subrange(0, k + 1) == steps,
{
    assert(k == 0 ==> log + done(steps.subrange(0, k)) =~= log);
    assert(log + done(steps.subrange(0, k + 1)) =~= (log + done(steps.subrange(0, k))).push(
        IoCall { step: steps[k], failure: None },
    ));
    assert forall|e: IoError|
        log + #[trigger] done_but_last(steps, k + 1, e) == (log + done(
            steps.subrange(0, k),
        )).push(IoCall { step: steps[k], failure: Some(e) }) by {
        assert(log + done_but_last(steps, k + 1, e) =~= (log + done(steps.subrange(0, k))).push(
            IoCall { step: steps[k], failure: Some(e) },
        ));
    }
    assert(k + 1 == steps.len() ==> steps.subrange(0, k + 1) =~= steps);
}

/// Whether a step may change the byte at `i`.
pub open spec fn touches_byte(step: IoStep, i: int) -> bool {
    match step {
        IoStep::Write(off, bytes) => off <= i < off + bytes.len(),
        IoStep::Sync => false,
        IoStep::SetLen(len) => len <= i,
    }
}

/// Whether one of the steps may change the byte at `i`.
pub open spec fn touched(steps: Seq<IoStep>, i: int) -> bool {
    exists|k: int| 0 <= k < steps.len() && touches_byte(#[trigger] steps[k], i)
}

/// Whether a crash may leave `left`: `durable` is what the device held at the last barrier that
/// succeeded, and `steps` were begun since. A byte that none of them changes is as it was, and the
/// device is not shorter where none of them cuts it.
pub open spec fn crash_leaves(durable: Seq<u8>, steps: Seq<IoStep>, left: Seq<u8>) -> bool {
    &&& forall|i: int|
        0 <= i < durable.len() && !touched(steps, i) ==> i < left.len() && #[trigger] left[i]
            == durable[i]
    &&& (forall|k: int| 0 <= k < steps.len() ==> !(#[trigger] steps[k] is SetLen)) ==> durable.len()
        <= left.len()
}

/// A byte device. Archives are read and written through it, so that a device that fails on
/// demand can take the place of a file.
///
/// A device in ordinary Rust, such as a file, gives no model of what it holds and takes the
/// defaults: its author answers for the contracts of its operations.
pub trait BlockIo: Sized {
    /// What the device holds.
    open spec fn image(&self) -> Seq<u8> {
        arbitrary()
    }

    /// Whether every operation within the device's limits succeeds.
    open spec fn reliable(&self) -> bool {
        false
    }

    /// The greatest length that the device can grow to.
    open spec fn limit(&self) -> u64 {
        u64::MAX
    }

    /// Whether all that the device holds survives a crash. A write may end that, and a barrier
    /// brings it about.
    open spec fn durable(&self) -> bool {
        arbitrary()
    }

    /// The calls so far that change the device or make it durable, and how each came out.
    open spec fn log(&self) -> Seq<IoCall> {
        arbitrary()
    }

    /// Writes `buf` at `off`. A write that fails may leave any bytes in that range.
    fn write_at(&mut self, off: u64, buf: &[u8]) -> (r: Result<(), IoError>)
        ensures
            final(self).reliable() == old(self).reliable(),
            final(self).limit() == old(self).limit(),
            final(self).log() == old(self).log().push(called(IoStep::Write(off, buf@), r)),
            r is Ok ==> off + buf@.len() <= old(self).limit() && final(self).image() == written(
                old(self).image(),
                off as int,
                buf@,
            ),
            r is Err ==> differs_only_in(
                old(self).image(),
                final(self).image(),
                off as int,
                buf@.len() as int,
            ),
            old(self).reliable() && off + buf@.len() <= old(self).limit() ==> r is Ok,
    ;

    /// Reads `len` bytes at `off`; a range that reaches past the end is an error.
    fn read_at(&self, off: u64, len: u64) -> (r: Result<Vec<u8>, IoError>)
        ensures
            r matches Ok(bytes) ==> off + len <= self.image().len() && bytes@
                == self.image().subrange(off as int, off + len),
            self.reliable() && off + len <= self.image().len() ==> r is Ok,
    ;

    /// Barrier: what was written before is durable once this succeeds.
    fn sync(&mut self) -> (r: Result<(), IoError>)
        ensures
            final(self).reliable() == old(self).reliable(),
            final(self).limit() == old(self).limit(),
            final(self).image() == old(self).image(),
            final(self).log() == old(self).log().push(called(IoStep::Sync, r)),
            r is Ok ==> final(self).durable(),
            old(self).reliable() ==> r is Ok,
    ;

    /// The device's length.
    fn len(&self) -> (r: Result<u64, IoError>)
        ensures
            r matches Ok(n) ==> n == self.image().len(),
            self.reliable() ==> r is Ok,
    ;

    /// Cuts the device to `len` bytes, or extends it with zeros.
    fn set_len(&mut self, len: u64) -> (r: Result<(), IoError>)
        ensures
            final(self).reliable() == old(self).reliable(),
            final(self).limit() == old(self).limit(),
            final(self).log() == old(self).log().push(called(IoStep::SetLen(len), r)),
            r is Ok ==> final(self).image() == (if len <= old(self).image().len() {
                old(self).image().subrange(0, len as int)
            } else {
                written(old(self).image(), len as int, Seq::empty())
            }),
            r is Err ==> final(self).image() == old(self).image(),
            old(self).reliable() && len <= old(self).limit() ==> r is Ok,
    ;
}

/// A device in memory.
pub struct MemIo {
    pub data: Vec<u8>,
    /// The calls so far.
    pub calls: Ghost<Seq<IoCall>>,
}

impl MemIo {
    /// A device that holds `data`.
    pub fn new(data: Vec<u8>) -> (io: MemIo)
        ensures
            io.image() == data@,
            io.reliable(),
            io.limit() == usize::MAX,
            io.durable(),
            io.log() == Seq::<IoCall>::empty(),
    {
        MemIo { data, calls: Ghost(Seq::empty()) }
    }

    /// The bytes it holds.
    pub fn into_inner(self) -> (data: Vec<u8>)
        ensures
            data@ == self.image(),
    {
        self.data
    }
}

impl BlockIo for MemIo {
    open spec fn image(&self) -> Seq<u8> {
        self.data@
    }

    open spec fn reliable(&self) -> bool {
        true
    }

    open spec fn limit(&self) -> u64 {
        usize::MAX as u64
    }

    /// The memory is all there is to it.
    open spec fn durable(&self) -> bool {
        true
    }

    open spec fn log(&self) -> Seq<IoCall> {
        self.calls@
    }

    fn write_at(&mut self, off: u64, buf: &[u8]) -> (r: Result<(), IoError>) {
        let len: usize = buf.len();
        if off > (usize::MAX - len) as u64 {
            let full: IoError = IoError { errno: ENOSPC };
            self.calls = Ghost(self.calls@.push(called(IoStep::Write(off, buf@), Err(full))));
            return Err(full);
        }
        self.calls = Ghost(self.calls@.push(called(IoStep::Write(off, buf@), Ok(()))));
        let start: usize = off as usize;
        let end: usize = start + len;
        let ghost before = self.data@;
        if self.data.len() < end {
            self.data.resize(end, 0);
        }
        let ghost grown = self.data@;
        let mut i: usize = 0;
        while i < len
            invariant
                i <= len,
                len == buf@.len(),
                end == start + len,
                self.data@.len() == grown.len(),
                end <= grown.len(),
                self.calls@ == old(self).calls@.push(called(IoStep::Write(off, buf@), Ok(()))),
                forall|j: int|
                    0 <= j < grown.len() ==> self.data@[j] == (if start <= j < start + i {
                        buf@[j - start]
                    } else {
                        grown[j]
                    }),
            decreases len - i,
        {
            self.data.set(start + i, buf[i]);
            i = i + 1;
        }
        assert(self.data@ =~= written(before, off as int, buf@));
        Ok(())
    }

    fn read_at(&self, off: u64, len: u64) -> (r: Result<Vec<u8>, IoError>) {
        let total: u64 = self.data.len() as u64;
        if off > total || len > total - off {
            return Err(IoError { errno: EINVAL });
        }
        Ok(crate::archive::wire::copy_range(&self.data, off as usize, (off + len) as usize))
    }

    fn sync(&mut self) -> (r: Result<(), IoError>) {
        self.calls = Ghost(self.calls@.push(called(IoStep::Sync, Ok(()))));
        Ok(())
    }

    fn len(&self) -> (r: Result<u64, IoError>) {
        Ok(self.data.len() as u64)
    }

    fn set_len(&mut self, len: u64) -> (r: Result<(), IoError>) {
        if len > usize::MAX as u64 {
            let full: IoError = IoError { errno: ENOSPC };
            self.calls = Ghost(self.calls@.push(called(IoStep::SetLen(len), Err(full))));
            return Err(full);
        }
        self.calls = Ghost(self.calls@.push(called(IoStep::SetLen(len), Ok(()))));
        let ghost before = self.data@;
        self.data.resize(len as usize, 0);
        assert(len <= before.len() ==> self.data@ =~= before.subrange(0, len as int));
        assert(len > before.len() ==> self.data@ =~= written(before, len as int, Seq::empty()));
        Ok(())
    }
}

/// A write puts its bytes where it was told to, leaves every other byte, fills what lies between the
/// end and its start with zeros, and makes the device no longer than it takes.
pub proof fn write_changes_only_its_place(image: Seq<u8>, off: int, bytes: Seq<u8>, i: int)
    requires
        0 <= off,
        0 <= i < written(image, off, bytes).len(),
    ensures
        ({
            let w = written(image, off, bytes);
            &&& w.len() >= image.len()
            &&& w.len() >= off + bytes.len()
            &&& w.len() == image.len() || w.len() == off + bytes.len()
            &&& off <= i < off + bytes.len() ==> w[i] == bytes[i - off]
            &&& !(off <= i < off + bytes.len()) && i < image.len() ==> w[i] == image[i]
            &&& i < off && i >= image.len() ==> w[i] == 0
        }),
{
}

/// A write that fails touches no byte outside its place and takes none away.
pub proof fn other_bytes_stay(before: Seq<u8>, after: Seq<u8>, off: int, len: int, i: int)
    requires
        differs_only_in(before, after, off, len),
        0 <= i < before.len(),
    ensures
        i < after.len(),
        i < off || off + len <= i ==> after[i] == before[i],
{
}

} // verus!
