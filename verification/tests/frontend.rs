use scrollz::archive::HEAD_CACHE_BYTES;
use scrollz::frontend::{
    after_barrier, after_read, after_write, creation_attr, dir_page, io_to_errno,
    overlay_tail_size, resolve_time_or_now, statfs, to_file_attr, uses_page_cache, Barrier,
    Forget, ForgetStep, SetAttr, TimeOrNow,
};
use scrollz::hang_cache::HungCache;
use scrollz::metrics::Metrics;
use scrollz::passthrough::{
    after_pread, create_plan, filetype_from_std, metadata_to_attr, mode_to_filetype, open_plan,
    set_steps, Handles, Metadata, Moved, ReadNext, SetStep, WriteLoop, WriteNext, EINTR, O_CREAT,
    O_EXCL,
};
use scrollz::ratio::{compress_file, is_eligible, Collected, Measured};
use scrollz::read::{ChunkData, ReadSession, ReadStart};
use scrollz::store::types::{DirEntry, FileKind, Time};
use scrollz::umount::{
    polled, umount, Attempts, CmdOutcome, Poll, TryNext, UmountError, UmountEvent, UmountLevel,
    UmountStep,
};

use std::collections::BTreeMap;

fn at(secs: i64, nanos: u32) -> Time {
    Time { secs, nanos }
}

#[test]
fn resolve_time_or_now_maps_specific_and_now() {
    let t = at(1_750_740_420, 5);
    let now = at(1_900_000_000, 0);
    assert_eq!(resolve_time_or_now(TimeOrNow::SpecificTime(t), now), t);
    assert_eq!(resolve_time_or_now(TimeOrNow::Now, now), now);
}

fn sample(n: usize) -> Vec<u8> {
    (0..n).map(|i| b"abcde \n"[i % 7]).collect()
}

fn started(size: u64, cs: u32, off: u64, len: u32) -> ReadSession {
    match ReadSession::start(Some((size, cs)), off, len) {
        ReadStart::Session(s) => s,
        _ => panic!("nothing to read"),
    }
}

/// Reads as the file system does: from the prefix that is kept, or else chunk by chunk. Tells how
/// many chunks were fetched.
fn read_range(data: &[u8], cs: u32, head: &[u8], off: u64, len: u32) -> (Vec<u8>, usize) {
    let mut s = started(data.len() as u64, cs, off, len);
    if let Some(bytes) = s.from_head(head) {
        return (bytes, 0);
    }
    let mut fetched = 0;
    while let Some((idx, _)) = s.need() {
        let from = idx as usize * cs as usize;
        let to = (from + cs as usize).min(data.len());
        s.feed(&ChunkData::Stored(data[from..to].to_vec())).unwrap();
        fetched += 1;
    }
    (s.finish(), fetched)
}

const HEAD: usize = HEAD_CACHE_BYTES as usize;

#[test]
fn read_range_head_cache_hit_byte_for_byte_correct() {
    let data = sample(200 * 1024);
    let (got, fetched) = read_range(&data, 128 * 1024, &data[..HEAD], 100, 4000);
    assert_eq!(got, &data[100..4100]);
    assert_eq!(fetched, 0);
}

#[test]
fn read_range_beyond_cached_prefix_falls_back_per_block_still_correct() {
    let data = sample(200 * 1024);
    let off = HEAD as u64 - 50;
    let (got, fetched) = read_range(&data, 128 * 1024, &data[..HEAD], off, 200);
    assert_eq!(got, &data[off as usize..off as usize + 200]);
    assert_eq!(fetched, 1);
}

/// A file that is read through a cache of chunks; it counts how often a chunk is fetched.
struct Cached {
    data: Vec<u8>,
    cs: u32,
    chunks: BTreeMap<u64, Vec<u8>>,
    fetched: usize,
}

impl Cached {
    fn new(cs: u32, n: usize) -> Cached {
        Cached {
            data: sample(n),
            cs,
            chunks: BTreeMap::new(),
            fetched: 0,
        }
    }

    fn read_range(&mut self, off: u64, len: u32) -> Vec<u8> {
        let mut s = started(self.data.len() as u64, self.cs, off, len);
        while let Some((idx, cacheable)) = s.need() {
            let chunk = match self.chunks.get(&idx) {
                Some(c) if cacheable => c.clone(),
                _ => {
                    self.fetched += 1;
                    let from = idx as usize * self.cs as usize;
                    let to = (from + self.cs as usize).min(self.data.len());
                    self.data[from..to].to_vec()
                }
            };
            if cacheable {
                self.chunks.insert(idx, chunk.clone());
            }
            s.feed(&ChunkData::Stored(chunk)).unwrap();
        }
        s.finish()
    }
}

#[test]
fn block_cache_multiple_small_reads_same_interior_block_fetch_once() {
    let cs = 4096u32;
    let mut fs = Cached::new(cs, 4 * cs as usize + 100);
    let b1 = cs as u64;
    let r1 = fs.read_range(b1, 100);
    let r2 = fs.read_range(b1 + 100, 100);
    let r3 = fs.read_range(b1 + 1000, 50);
    let at = b1 as usize;
    assert_eq!(r1, &fs.data[at..at + 100]);
    assert_eq!(r2, &fs.data[at + 100..at + 200]);
    assert_eq!(r3, &fs.data[at + 1000..at + 1050]);
    assert_eq!(fs.fetched, 1);
}

#[test]
fn block_cache_tail_block_not_cached_fetch_every_read() {
    let cs = 4096u32;
    let mut fs = Cached::new(cs, 4 * cs as usize + 100);
    let tail = 4 * cs as u64;
    fs.read_range(tail, 50);
    fs.read_range(tail + 10, 40);
    assert_eq!(fs.fetched, 2);
    let got = fs.read_range(tail, 100);
    assert_eq!(got, &fs.data[tail as usize..tail as usize + 100]);
}

#[test]
fn forget_evicts_lock_and_tail_preserving_data() {
    let (mut f, first) = Forget::new();
    assert_eq!(first, ForgetStep::Seal);
    assert_eq!(f.step(true), ForgetStep::Flush);
    assert_eq!(f.step(true), ForgetStep::Release);
}

#[test]
fn forget_flush_failure_preserves_tail_and_lock_no_data_loss() {
    let (mut f, _) = Forget::new();
    assert_eq!(f.step(true), ForgetStep::Flush);
    assert_eq!(f.step(false), ForgetStep::Keep);
    assert_eq!(f.step(true), ForgetStep::Keep);
    let (mut f, _) = Forget::new();
    assert_eq!(f.step(false), ForgetStep::Keep);
    let (mut again, _) = Forget::new();
    assert_eq!(again.step(true), ForgetStep::Flush);
    assert_eq!(again.step(true), ForgetStep::Release);
}

#[test]
fn attributes_as_the_kernel_is_told_them() {
    let now = at(10, 11);
    let a = creation_attr(FileKind::RegularFile, 0o100666, 0o022, 7, 8, now, 65536);
    assert_eq!(a.perm, 0o644);
    assert_eq!((a.ino, a.size, a.uid, a.gid), (0, 0, 7, 8));
    assert_eq!((a.mtime, a.atime, a.ctime), (now, now, now));
    let shown = overlay_tail_size(a, Some((1000, 65536)));
    assert_eq!(shown.size, 1000);
    let f = to_file_attr(&shown, 4096);
    assert_eq!((f.size, f.blocks, f.nlink, f.blksize), (1000, 2, 1, 65536));
    let mut dir = a;
    dir.kind = FileKind::Directory;
    dir.chunk_size = 0;
    assert_eq!(overlay_tail_size(dir, Some((1000, 65536))).size, 0);
    assert_eq!(to_file_attr(&dir, 4096).nlink, 1);
    assert_eq!(to_file_attr(&dir, 4096).blksize, 4096);
}

#[test]
fn attribute_changes_are_applied_once_asked_for() {
    let a = creation_attr(FileKind::RegularFile, 0o600, 0, 1, 2, at(1, 0), 4096);
    let nothing = SetAttr {
        mode: None,
        uid: None,
        gid: None,
        atime: None,
        mtime: None,
        ctime: None,
    };
    assert_eq!(nothing.update(a, at(9, 0)), None);
    let some = SetAttr {
        mode: Some(0o104755),
        uid: None,
        gid: Some(5),
        atime: Some(TimeOrNow::Now),
        mtime: Some(TimeOrNow::SpecificTime(at(3, 3))),
        ctime: None,
    };
    let b = some.update(a, at(9, 0)).unwrap();
    assert_eq!((b.perm, b.uid, b.gid), (0o4755, 1, 5));
    assert_eq!((b.atime, b.mtime), (at(9, 0), at(3, 3)));
}

#[test]
fn figures_of_the_file_system() {
    let s = statfs(Some((4096 * 3 + 1, 4096 * 10)));
    assert_eq!((s.blocks, s.bfree, s.bavail), (10, 7, 7));
    let s = statfs(Some((4096 * 10, 4096)));
    assert_eq!(s.bfree, 0);
    let s = statfs(None);
    assert_eq!((s.blocks, s.bfree, s.namelen), (0, 0, 255));
}

#[test]
fn directory_pages_start_with_the_two_dots() {
    let entries = || {
        vec![DirEntry {
            ino: 9,
            name: "a".to_string(),
            kind: FileKind::RegularFile,
        }]
    };
    let page = dir_page(4, entries(), 0);
    let names: Vec<&str> = page.iter().map(|(e, _)| e.name.as_str()).collect();
    assert_eq!(names, vec![".", "..", "a"]);
    assert_eq!(page[2].1, 3);
    let page = dir_page(4, entries(), 2);
    assert_eq!((page.len(), page[0].0.ino), (1, 9));
    assert!(dir_page(4, entries(), 3).is_empty());
    assert!(dir_page(4, entries(), u64::MAX).is_empty());
}

#[test]
fn pages_read_one_after_the_other_give_the_whole_listing() {
    let entries = || -> Vec<DirEntry> {
        (0..5u64)
            .map(|i| DirEntry {
                ino: 10 + i,
                name: format!("f{i}"),
                kind: FileKind::RegularFile,
            })
            .collect()
    };
    let whole: Vec<u64> = dir_page(4, entries(), 0).iter().map(|(e, _)| e.ino).collect();
    assert_eq!(whole, vec![4, 4, 10, 11, 12, 13, 14]);
    let mut seen = Vec::new();
    let mut at = 0;
    loop {
        let page = dir_page(4, entries(), at);
        if page.is_empty() {
            break;
        }
        for (e, next) in page.into_iter().take(3) {
            seen.push(e.ino);
            at = next;
        }
    }
    assert_eq!(seen, whole);
}

#[test]
fn errors_and_the_page_cache() {
    assert_eq!(io_to_errno(Some(28)), 28);
    assert_eq!(io_to_errno(None), 5);
    assert!(uses_page_cache(true, false));
    assert!(uses_page_cache(false, true));
    assert!(!uses_page_cache(false, false));
}

fn counter(m: &Metrics, name: &str) -> u64 {
    let mut out = String::new();
    m.write_prometheus(&mut out);
    let line = out
        .lines()
        .find(|l| l.starts_with(name) && l[name.len()..].starts_with(' '))
        .unwrap();
    line.rsplit(' ').next().unwrap().parse().unwrap()
}

#[test]
fn operations_are_counted() {
    let mut m = Metrics::new();
    after_read(&mut m, Some(100), 5);
    after_read(&mut m, None, 5);
    after_write(&mut m, Some(7), 5);
    after_write(&mut m, None, 5);
    assert!(after_barrier(&mut m, Barrier::Done, 1));
    assert!(!after_barrier(&mut m, Barrier::SealFailed, 1));
    assert!(!after_barrier(&mut m, Barrier::SyncFailed, 1));
    assert_eq!(counter(&m, "scrollz_fuse_read_ops_total"), 1);
    assert_eq!(counter(&m, "scrollz_fuse_read_bytes_total"), 100);
    assert_eq!(counter(&m, "scrollz_fuse_write_bytes_total"), 7);
    assert_eq!(counter(&m, "scrollz_fuse_fsync_ops_total"), 1);
    assert_eq!(counter(&m, "scrollz_fuse_errors_total"), 3);
}

#[test]
fn umount_reports_not_mounted_as_success() {
    let (_, step) = umount(UmountLevel::Auto, false, None);
    let r = match step {
        UmountStep::Done(r) => r,
        other => panic!("{other:?}"),
    };
    assert!(!r.was_mounted);
    assert!(r.unmounted);
    assert!(!r.aborted);
}

#[test]
fn umount_goes_up_only_past_a_dead_daemon() {
    let (mut u, step) = umount(UmountLevel::Auto, true, Some(44));
    assert_eq!(
        step,
        UmountStep::Detach {
            abort: None,
            lazy: false
        }
    );
    assert_eq!(
        u.step(UmountEvent::StillMounted(true)),
        Some(UmountStep::Detach {
            abort: None,
            lazy: true
        })
    );
    assert_eq!(
        u.step(UmountEvent::StillMounted(true)),
        Some(UmountStep::Probe)
    );
    let mut alive = u;
    assert_eq!(
        alive.step(UmountEvent::Alive(true)),
        Some(UmountStep::Fail(UmountError::Busy))
    );
    let abort = match u.step(UmountEvent::Alive(false)) {
        Some(UmountStep::Detach { abort, .. }) => abort,
        other => panic!("{other:?}"),
    };
    assert_eq!(abort, Some(44));
    match u.step(UmountEvent::StillMounted(false)) {
        Some(UmountStep::Done(r)) => {
            assert!(r.was_mounted && r.unmounted && r.aborted);
            assert_eq!(r.connection_id, Some(44));
        }
        other => panic!("{other:?}"),
    }
    let (mut u, _) = umount(UmountLevel::Clean, true, None);
    assert_eq!(
        u.step(UmountEvent::StillMounted(true)),
        Some(UmountStep::Fail(UmountError::NotDetached(UmountLevel::Clean)))
    );
}

#[test]
fn run_fusermount_notfound_when_binary_absent() {
    let mut a = Attempts::new();
    assert_eq!(a.outcome(CmdOutcome::NotFound), TryNext::Other);
    assert_eq!(a.outcome(CmdOutcome::NotFound), TryNext::Again);
    assert_eq!(a.give_up(), CmdOutcome::NotFound);
    assert_eq!(a.outcome(CmdOutcome::Failed), TryNext::Again);
    assert_eq!(a.give_up(), CmdOutcome::Failed);
    assert_eq!(a.outcome(CmdOutcome::Success), TryNext::Detached);
    assert_eq!(polled(Poll::Running, false), None);
    assert_eq!(polled(Poll::Running, true), Some(CmdOutcome::TimedOut));
    assert_eq!(polled(Poll::Ended(true), true), Some(CmdOutcome::Success));
    assert_eq!(polled(Poll::Lost, false), Some(CmdOutcome::Failed));
}

/// Runs `f` unless the mount is known to hang; `took` is how long it takes.
fn memo(c: &mut HungCache, key: &str, clock: &mut u64, limit: u64, ttl: u64, took: u64) -> bool {
    let key = key.as_bytes().to_vec();
    if c.is_hung(&key, *clock, ttl) {
        return false;
    }
    if took > limit {
        *clock += limit;
        c.timed_out(key, *clock, ttl);
    } else {
        *clock += took;
        c.answered(&key);
    }
    true
}

#[test]
fn memo_skips_closure_on_cached_hung_within_ttl() {
    let mut c = HungCache::new();
    let mut clock = 0;
    assert!(memo(&mut c, "mnt-a", &mut clock, 20, 1000, 200));
    clock += 60;
    assert!(!memo(&mut c, "mnt-a", &mut clock, 20, 1000, 1));
    assert!(memo(&mut c, "mnt-other", &mut clock, 20, 1000, 1));
}

#[test]
fn memo_reexecutes_after_ttl_expiry() {
    let mut c = HungCache::new();
    let mut clock = 0;
    assert!(memo(&mut c, "mnt-b", &mut clock, 20, 50, 200));
    clock += 80;
    assert!(memo(&mut c, "mnt-b", &mut clock, 500, 50, 1));
}

#[test]
fn memo_does_not_cache_on_success() {
    let mut c = HungCache::new();
    let mut clock = 0;
    assert!(memo(&mut c, "mnt-c", &mut clock, 500, 1000, 1));
    assert!(memo(&mut c, "mnt-c", &mut clock, 500, 1000, 1));
}

#[test]
fn mode_derives_filetype() {
    assert_eq!(
        mode_to_filetype(libc::S_IFREG | 0o644),
        FileKind::RegularFile
    );
    assert_eq!(mode_to_filetype(libc::S_IFDIR | 0o755), FileKind::Directory);
    assert_eq!(mode_to_filetype(libc::S_IFLNK | 0o777), FileKind::Symlink);
}

#[test]
fn kinds_and_flags_are_those_of_the_system() {
    assert_eq!(mode_to_filetype(libc::S_IFIFO), FileKind::NamedPipe);
    assert_eq!(mode_to_filetype(libc::S_IFCHR), FileKind::CharDevice);
    assert_eq!(mode_to_filetype(libc::S_IFBLK), FileKind::BlockDevice);
    assert_eq!(mode_to_filetype(libc::S_IFSOCK), FileKind::Socket);
    assert_eq!(filetype_from_std(true, false), FileKind::Directory);
    assert_eq!(filetype_from_std(false, true), FileKind::Symlink);
    assert_eq!(filetype_from_std(false, false), FileKind::RegularFile);
    assert_eq!((O_CREAT, O_EXCL), (libc::O_CREAT, libc::O_EXCL));
    assert_eq!(EINTR, libc::EINTR);
    let p = open_plan(libc::O_RDWR | libc::O_CREAT | libc::O_EXCL | libc::O_APPEND);
    assert!(p.read && p.write);
    assert_eq!(p.flags, libc::O_RDWR | libc::O_APPEND);
    let p = create_plan(libc::O_WRONLY | libc::O_CREAT | libc::O_EXCL);
    assert!(!p.read && p.write);
    assert_eq!(p.flags, libc::O_WRONLY | libc::O_EXCL);
}

#[test]
fn metadata_becomes_attributes() {
    let m = Metadata {
        mode: 0o104755,
        size: 5,
        blocks: 8,
        atime: at(1, 0),
        mtime: at(2, 0),
        ctime: at(3, 0),
        nlink: 2,
        uid: 4,
        gid: 5,
        rdev: 6,
        blksize: 4096,
    };
    let a = metadata_to_attr(77, &m);
    assert_eq!((a.ino, a.size, a.blocks, a.nlink), (77, 5, 8, 2));
    assert_eq!((a.kind, a.perm), (FileKind::RegularFile, 0o4755));
    assert_eq!((a.atime, a.mtime, a.ctime), (at(1, 0), at(2, 0), at(3, 0)));
}

#[test]
fn attribute_steps_change_the_owner_before_the_mode() {
    assert_eq!(
        set_steps(Some(0o640), Some(1), None, Some(9)),
        vec![
            SetStep::Chown(1, u32::MAX),
            SetStep::Chmod(0o640),
            SetStep::SetLen(9)
        ]
    );
    assert!(set_steps(None, None, None, None).is_empty());
}

#[test]
fn interrupted_calls_are_made_again() {
    assert_eq!(after_pread(Moved::Failed(EINTR)), ReadNext::Retry);
    assert_eq!(after_pread(Moved::Failed(5)), ReadNext::Fail(5));
    assert_eq!(after_pread(Moved::Bytes(3)), ReadNext::Done(3));
    let mut w = WriteLoop::new(10);
    assert_eq!(w.step(Moved::Bytes(4)), WriteNext::More);
    assert_eq!(w.step(Moved::Failed(EINTR)), WriteNext::More);
    let mut stopped = w;
    assert_eq!(stopped.step(Moved::Failed(28)), WriteNext::Done(4));
    assert_eq!(w.step(Moved::Bytes(6)), WriteNext::Done(10));
    assert!(!w.is_open());
    let mut none = WriteLoop::new(3);
    assert_eq!(none.step(Moved::Failed(28)), WriteNext::Fail(28));
}

#[test]
fn handles_are_found_until_they_are_closed() {
    let mut h: Handles<&str> = Handles::new();
    let a = h.open("a");
    let b = h.open("b");
    assert_ne!(a, b);
    assert_eq!(h.get(a), Some(&"a"));
    assert_eq!(h.close(a), Some("a"));
    assert_eq!(h.get(a), None);
    assert_eq!(h.close(a), None);
    assert_eq!(h.get(b), Some(&"b"));
}

#[test]
fn compression_is_summed_and_read_back() {
    assert!(is_eligible(8 * 1024 * 1024));
    assert!(!is_eligible(8 * 1024 * 1024 - 1));
    let mut c = Collected { total: 0, cap: 10 };
    assert!(!c.is_full());
    c.take(10);
    assert!(c.is_full());
    let stored = vec![vec![1, 2], vec![3]];
    let back = vec![b"abcd".to_vec(), b"ef".to_vec()];
    assert_eq!(
        compress_file(b"abcdef", 4, &stored, Some(&back)),
        Ok((6, 3))
    );
    assert_eq!(compress_file(b"abcdef", 4, &stored, None), Ok((6, 3)));
    let wrong = vec![b"abcd".to_vec(), b"eX".to_vec()];
    assert!(compress_file(b"abcdef", 4, &stored, Some(&wrong)).is_err());
}

#[test]
fn first_file_that_long_ranges_help_is_read_back() {
    let big = 8 * 1024 * 1024;
    let mut m = Measured::new();
    assert_eq!(m.begin(0), None);
    assert_eq!(m.begin(big - 1), Some(false));
    m.add_file(big - 1, 100);
    assert_eq!(m.begin(big), Some(true));
    m.add_file(big, 50);
    assert_eq!(m.begin(big + 1), Some(false));
    m.add_file(big + 1, 7);
    assert_eq!(m.eligible, 2);
    assert_eq!(m.logical, 3 * big);
    assert_eq!(m.physical, 157);
}
