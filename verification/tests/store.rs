use scrollz::inode_table::ROOT_INO;
use scrollz::metrics::Metrics;
use scrollz::ordmap::{BlockKey, OrdMap};
use scrollz::store::container::{readdir, Container};
use scrollz::store::mem::MemStore;
use scrollz::store::pending::{Buffers, Pending};
use scrollz::store::row::{InodeRow, INODE_ROW_LEN, INODE_ROW_LEN_V1};
use scrollz::store::tables::{decode_block, dirent_key, encode_block, plan_flush, TableOp};
use scrollz::store::types::{
    validate_name, Attr, DirEntry, FileKind, StoreError, StoredBlock, Time,
};
use std::collections::BTreeMap;

fn at(secs: i64, nanos: u32) -> Time {
    Time { secs, nanos }
}

fn mk_block(plain: &[u8]) -> StoredBlock {
    StoredBlock {
        bytes: plain.to_vec(),
        stored_verbatim: true,
    }
}

fn attr_of(kind: FileKind, perm: u16, cs: u32) -> Attr {
    Attr {
        ino: 0,
        size: 0,
        kind,
        perm,
        uid: 0,
        gid: 0,
        mtime: Time::epoch(),
        atime: Time::epoch(),
        ctime: Time::epoch(),
        chunk_size: cs,
    }
}

/// The tables of a container, in memory.
#[derive(Default)]
struct Tables {
    inodes: BTreeMap<u64, Vec<u8>>,
    dirents: BTreeMap<String, u64>,
    blocks: BTreeMap<(u64, u64), Vec<u8>>,
}

impl Tables {
    fn apply(&mut self, ops: Vec<TableOp>) {
        for op in ops {
            match op {
                TableOp::PutInode(ino, row) => {
                    self.inodes.insert(ino, row);
                }
                TableOp::DelInode(ino) => {
                    self.inodes.remove(&ino);
                }
                TableOp::PutDirent(key, ino) => {
                    self.dirents.insert(key, ino);
                }
                TableOp::DelDirent(key) => {
                    self.dirents.remove(&key);
                }
                TableOp::PutBlock(k, b) => {
                    self.blocks.insert((k.ino, k.idx), b);
                }
                TableOp::DelBlocksFrom(ino, from) => {
                    self.blocks.retain(|&(i, idx), _| i != ino || idx < from);
                }
            }
        }
    }
}

/// A container over such tables.
struct Store {
    c: Container,
    t: Tables,
    metrics: Metrics,
    fault: bool,
}

impl Store {
    fn open(mut t: Tables, cs: u32) -> Store {
        let inos: Vec<u64> = t.inodes.keys().copied().collect();
        let (c, ops) = match Container::open_with_chunk_size(cs, &inos, at(1, 0)) {
            Ok(x) => x,
            Err(e) => panic!("{e:?}"),
        };
        t.apply(ops);
        Store {
            c,
            t,
            metrics: Metrics::new(),
            fault: false,
        }
    }

    fn entry(&self, parent: u64, name: &str) -> Option<u64> {
        self.t.dirents.get(&dirent_key(parent, name)).copied()
    }

    fn create(&mut self, parent: u64, name: &str, attr: Attr) -> Result<u64, StoreError> {
        let existing = self.entry(parent, name);
        let (ino, ops) = self.c.create(parent, name, attr, existing)?;
        self.t.apply(ops);
        Ok(ino)
    }

    fn mkdir(&mut self, parent: u64, name: &str, attr: Attr) -> Result<u64, StoreError> {
        let existing = self.entry(parent, name);
        let (ino, ops) = self.c.mkdir(parent, name, attr, existing)?;
        self.t.apply(ops);
        Ok(ino)
    }

    fn getattr_ino(&self, ino: u64) -> Option<Attr> {
        self.c.getattr_ino(ino, self.t.inodes.get(&ino))
    }

    fn lookup(&self, parent: u64, name: &str) -> Option<Attr> {
        self.getattr_ino(self.entry(parent, name)?)
    }

    fn readdir(&self, dir: u64) -> Vec<DirEntry> {
        let entries: Vec<(String, u64)> =
            self.t.dirents.iter().map(|(k, v)| (k.clone(), *v)).collect();
        readdir(dir, &entries, &self.rows())
    }

    fn rows(&self) -> OrdMap<u64, Vec<u8>> {
        let mut rows = OrdMap::new();
        for (ino, row) in &self.t.inodes {
            rows.insert(*ino, row.clone());
        }
        rows
    }

    fn unlink(&mut self, parent: u64, name: &str) -> Result<(), StoreError> {
        let child = self.entry(parent, name);
        let ops = self.c.unlink(parent, name, child)?;
        self.t.apply(ops);
        Ok(())
    }

    fn rmdir(&mut self, parent: u64, name: &str) -> Result<(), StoreError> {
        let found = self.lookup(parent, name);
        let listing = match &found {
            Some(a) => self.readdir(a.ino),
            None => Vec::new(),
        };
        let ops = self.c.rmdir(parent, name, found, &listing)?;
        self.t.apply(ops);
        Ok(())
    }

    fn rename(&mut self, old: (u64, &str), new: (u64, &str)) -> Result<(), StoreError> {
        let child = self.entry(old.0, old.1);
        let prev = self.entry(new.0, new.1);
        let ops = self.c.rename(old.0, old.1, new.0, new.1, child, prev)?;
        self.t.apply(ops);
        Ok(())
    }

    fn setattr(&mut self, ino: u64, attr: Attr) -> Result<(), StoreError> {
        let ops = self.c.setattr(ino, attr, self.t.inodes.get(&ino))?;
        self.t.apply(ops);
        Ok(())
    }

    fn put_block(&mut self, ino: u64, idx: u64, blk: StoredBlock, size: u64) {
        self.c.buffers.put_block(ino, idx, blk, size);
    }

    fn get_block(&self, ino: u64, idx: u64) -> Option<StoredBlock> {
        self.c.get_block(ino, idx, self.t.blocks.get(&(ino, idx)))
    }

    fn block_geometry(&self, ino: u64) -> Option<(u64, u32)> {
        self.c.block_geometry(ino, self.t.inodes.get(&ino))
    }

    fn commit(&mut self) -> bool {
        if !self.c.begin_commit(&mut self.metrics) {
            return true;
        }
        let planned = plan_flush(&self.c.buffers.flushing, &self.rows(), at(77, 7));
        let ok = match planned {
            Ok(ops) if !self.fault => {
                self.t.apply(ops);
                true
            }
            _ => false,
        };
        self.fault = false;
        self.c.end_commit(ok, &mut self.metrics);
        ok
    }

    fn block_count(&self, ino: u64) -> usize {
        self.t.blocks.keys().filter(|k| k.0 == ino).count()
    }
}

fn new_file(store: &mut Store, name: &str, cs: u32) -> u64 {
    store
        .create(ROOT_INO, name, attr_of(FileKind::RegularFile, 0o644, cs))
        .unwrap()
}

#[test]
fn rmdir_rejects_non_empty_dir() {
    let cs = 4096u32;
    let mut store = Store::open(Tables::default(), cs);
    let sub = store
        .mkdir(ROOT_INO, "sub", attr_of(FileKind::Directory, 0o755, cs))
        .unwrap();
    store
        .create(sub, "inner.txt", attr_of(FileKind::RegularFile, 0o755, cs))
        .unwrap();

    assert_eq!(store.rmdir(ROOT_INO, "sub"), Err(StoreError::NotEmpty));
    assert!(store.lookup(ROOT_INO, "sub").is_some());
    assert!(store.lookup(sub, "inner.txt").is_some());
    store.unlink(sub, "inner.txt").unwrap();
    store.rmdir(ROOT_INO, "sub").unwrap();
    assert!(store.lookup(ROOT_INO, "sub").is_none());
}

#[test]
fn rmdir_rejects_files_and_missing_names() {
    let mut store = Store::open(Tables::default(), 4096);
    new_file(&mut store, "f", 4096);
    assert_eq!(store.rmdir(ROOT_INO, "f"), Err(StoreError::NotADirectory));
    assert_eq!(store.rmdir(ROOT_INO, "g"), Err(StoreError::NotFound));
    assert_eq!(store.unlink(ROOT_INO, "g"), Err(StoreError::NotFound));
    assert_eq!(
        store.rename((ROOT_INO, "g"), (ROOT_INO, "h")),
        Err(StoreError::NotFound)
    );
}

#[test]
fn readdir_reports_consistent_kinds_in_single_txn() {
    let cs = 4096u32;
    let mut store = Store::open(Tables::default(), cs);
    let file_ino = new_file(&mut store, "file.txt", cs);
    let subdir_ino = store
        .mkdir(ROOT_INO, "subdir", attr_of(FileKind::Directory, 0o755, cs))
        .unwrap();

    let entries = store.readdir(ROOT_INO);
    let file_entry = entries.iter().find(|e| e.name == "file.txt").unwrap();
    let dir_entry = entries.iter().find(|e| e.name == "subdir").unwrap();
    assert_eq!(file_entry.ino, file_ino);
    assert_eq!(file_entry.kind, FileKind::RegularFile);
    assert_eq!(dir_entry.ino, subdir_ino);
    assert_eq!(dir_entry.kind, FileKind::Directory);
}

#[test]
fn readdir_keeps_directories_apart_and_skips_entries_without_a_row() {
    let mut store = Store::open(Tables::default(), 64);
    let a = new_file(&mut store, "a", 64);
    let sub = store
        .mkdir(ROOT_INO, "sub", attr_of(FileKind::Directory, 0o755, 64))
        .unwrap();
    store
        .create(sub, "b", attr_of(FileKind::RegularFile, 0o644, 64))
        .unwrap();
    store.t.dirents.insert(dirent_key(ROOT_INO, "orphan"), 999);
    let names: Vec<String> = store
        .readdir(ROOT_INO)
        .into_iter()
        .map(|e| e.name)
        .collect();
    assert_eq!(names, vec!["a".to_string(), "sub".to_string()]);
    assert_eq!(store.readdir(sub).len(), 1);
    assert_eq!(store.readdir(a).len(), 0);
}

#[test]
fn inode_row_encode_decode_round_trips_times() {
    let t = at(1_750_740_420, 999);
    let row = InodeRow {
        kind: 2,
        size: 4096,
        perm: 0o644,
        uid: 7,
        gid: 9,
        chunk_size: 65536,
        mtime: t,
        atime: t,
        ctime: t,
    };
    let bytes = row.encode();
    assert_eq!(bytes.len(), INODE_ROW_LEN);
    let back = InodeRow::decode(&bytes).unwrap();
    assert_eq!(back.size, 4096);
    assert_eq!(back.mtime, t);
    assert_eq!(back.atime, t);
    assert_eq!(back.ctime, t);
}

#[test]
fn decode_legacy_v1_row_yields_epoch_times() {
    let mut v1 = [0u8; INODE_ROW_LEN_V1];
    v1[0] = 2;
    v1[1..9].copy_from_slice(&123u64.to_le_bytes());
    v1[9..11].copy_from_slice(&0o600u16.to_le_bytes());
    v1[19..23].copy_from_slice(&65536u32.to_le_bytes());
    let back = InodeRow::decode(&v1).unwrap();
    assert_eq!(back.size, 123);
    assert_eq!(back.mtime, Time::epoch());
    assert_eq!(back.ctime, Time::epoch());
}

#[test]
fn row_of_another_length_is_refused() {
    match InodeRow::decode(&[0u8; 24]) {
        Err(StoreError::BadRow(24)) => {}
        other => panic!("unexpected {:?}", other.map(|r| r.size)),
    }
}

#[test]
fn setattr_mtime_persists_across_reopen() {
    let t = at(1_750_740_420, 0);
    let mut store = Store::open(Tables::default(), 65536);
    let ino = new_file(&mut store, "f.bin", 65536);
    let mut a = store.getattr_ino(ino).unwrap();
    a.mtime = t;
    store.setattr(ino, a).unwrap();
    assert!(store.commit());
    let store2 = Store::open(store.t, 65536);
    assert_eq!(store2.getattr_ino(ino).unwrap().mtime, t);
}

#[test]
fn setattr_of_a_missing_file_is_refused() {
    let mut store = Store::open(Tables::default(), 64);
    let a = attr_of(FileKind::RegularFile, 0o644, 64);
    assert_eq!(store.setattr(42, a), Err(StoreError::NotFound));
}

#[test]
fn commit_pending_does_not_resurrect_unlinked_inode_blocks() {
    let cs = 4096u32;
    let mut store = Store::open(Tables::default(), cs);
    let ino = new_file(&mut store, "f.bin", cs);
    let plain = vec![b'X'; cs as usize];
    store.put_block(ino, 0, mk_block(&plain), cs as u64);
    assert!(store.commit());
    store.unlink(ROOT_INO, "f.bin").unwrap();
    store.put_block(ino, 1, mk_block(&plain), 2 * cs as u64);
    assert!(store.commit());
    assert_eq!(store.block_count(ino), 0);
    assert!(store.getattr_ino(ino).is_none());
}

#[test]
fn commit_failure_does_not_lose_pending_blocks() {
    let cs = 4096u32;
    let mut store = Store::open(Tables::default(), cs);
    let ino = new_file(&mut store, "f.bin", cs);
    let p0 = vec![b'A'; cs as usize];
    let p1 = vec![b'B'; cs as usize];
    store.put_block(ino, 0, mk_block(&p0), cs as u64);
    store.put_block(ino, 1, mk_block(&p1), 2 * cs as u64);

    store.fault = true;
    assert!(!store.commit());

    assert_eq!(store.get_block(ino, 0).unwrap().bytes, p0);
    assert_eq!(store.get_block(ino, 1).unwrap().bytes, p1);
    assert_eq!(
        store.block_geometry(ino).map(|(s, _)| s),
        Some(2 * cs as u64)
    );

    assert!(store.commit());
    assert_eq!(store.block_count(ino), 2);
}

#[test]
fn failed_commit_merge_does_not_revive_blocks_removed_by_newer_truncate() {
    let mut flushing = Pending::new();
    flushing
        .blocks
        .insert(BlockKey { ino: 7, idx: 3 }, mk_block(b"OLD-HIGH-BLOCK"));
    flushing.sizes.insert(7, 32);

    let mut active = Pending::new();
    active.truncations.insert(7, 2);
    active.sizes.insert(7, 16);
    active.merge_from_flushing(flushing);

    assert!(!active.blocks.contains_key(&BlockKey { ino: 7, idx: 3 }));
    assert_eq!(active.sizes.get(&7), Some(&16));
    assert_eq!(active.truncations.get(&7), Some(&2));
}

#[test]
fn get_block_reads_from_flushing_buffer_mid_commit() {
    let cs = 4096u32;
    let mut store = Store::open(Tables::default(), cs);
    let ino = new_file(&mut store, "f.bin", cs);
    let plain = vec![b'Q'; cs as usize];
    store.put_block(ino, 0, mk_block(&plain), cs as u64);

    assert!(store.c.begin_commit(&mut store.metrics));

    assert_eq!(store.get_block(ino, 0).unwrap().bytes, plain);
    assert_eq!(store.block_geometry(ino).map(|(s, _)| s), Some(cs as u64));
    assert!(store.get_block(ino, 1).is_none());
}

#[test]
fn commit_metrics_count_ok_and_failed() {
    let cs = 4096u32;
    let mut store = Store::open(Tables::default(), cs);
    let ino = new_file(&mut store, "f.bin", cs);
    let plain = vec![b'M'; cs as usize];
    store.put_block(ino, 0, mk_block(&plain), cs as u64);
    store.put_block(ino, 1, mk_block(&plain), 2 * cs as u64);
    assert!(store.commit());

    store.put_block(ino, 2, mk_block(&plain), 3 * cs as u64);
    store.fault = true;
    assert!(!store.commit());

    let mut out = String::new();
    store.metrics.write_prometheus(&mut out);
    assert!(out.contains("scrollz_commit_ok_total 1"), "{out}");
    assert!(out.contains("scrollz_blocks_flushed_total 2"), "{out}");
    assert!(out.contains("scrollz_commit_failed_total 1"), "{out}");
    assert!(out.contains("scrollz_flushing_bytes_peak "), "{out}");
    let peak_line = out
        .lines()
        .find(|l| l.starts_with("scrollz_flushing_bytes_peak "))
        .expect("peak");
    let peak: u64 = peak_line.rsplit(' ').next().unwrap().parse().expect("peak");
    assert!(peak > 0);
    assert_eq!(peak, 2 * 4096);
}

#[test]
fn commit_updates_length_and_times_and_leaves_nothing_waiting() {
    let mut store = Store::open(Tables::default(), 64);
    let ino = new_file(&mut store, "f", 64);
    store.put_block(ino, 0, mk_block(b"abc"), 3);
    assert_eq!(store.getattr_ino(ino).unwrap().size, 3);
    assert!(store.commit());
    let a = store.getattr_ino(ino).unwrap();
    assert_eq!(a.size, 3);
    assert_eq!(a.mtime, at(77, 7));
    assert_eq!(a.ctime, at(77, 7));
    assert_eq!(a.atime, Time::epoch());
    assert!(store.c.buffers.active.is_empty());
    assert!(store.c.buffers.flushing.is_empty());
}

#[test]
fn truncation_cuts_stored_and_waiting_blocks() {
    let mut store = Store::open(Tables::default(), 4);
    let ino = new_file(&mut store, "f", 4);
    for idx in 0..4u64 {
        store.put_block(ino, idx, mk_block(&[idx as u8; 4]), (idx + 1) * 4);
    }
    assert!(store.commit());
    store.put_block(ino, 4, mk_block(&[4; 4]), 20);
    store.c.buffers.truncate_blocks(ino, 2, 8);
    assert!(store.get_block(ino, 1).is_some());
    assert!(store.get_block(ino, 2).is_none());
    assert!(store.get_block(ino, 4).is_none());
    assert!(store.commit());
    assert_eq!(store.block_count(ino), 2);
    assert_eq!(store.block_geometry(ino), Some((8, 4)));
}

#[test]
fn row_that_cannot_be_decoded_stops_the_commit() {
    let mut store = Store::open(Tables::default(), 4);
    let ino = new_file(&mut store, "f", 4);
    store.t.inodes.insert(ino, vec![1, 2, 3]);
    store.put_block(ino, 0, mk_block(b"x"), 1);
    assert!(!store.commit());
    assert_eq!(store.get_block(ino, 0).unwrap().bytes, b"x");
    assert!(store.getattr_ino(ino).is_none());
}

#[test]
fn create_refuses_bad_and_taken_names_and_uses_up_a_number() {
    let mut store = Store::open(Tables::default(), 4);
    let a = attr_of(FileKind::RegularFile, 0o644, 0);
    assert_eq!(
        store.create(ROOT_INO, "a/b", a).unwrap_err(),
        StoreError::InvalidName
    );
    assert_eq!(store.create(ROOT_INO, "f", a).unwrap(), 2);
    assert_eq!(
        store.create(ROOT_INO, "f", a).unwrap_err(),
        StoreError::AlreadyExists
    );
    assert_eq!(store.create(ROOT_INO, "g", a).unwrap(), 4);
    assert_eq!(store.getattr_ino(2).unwrap().chunk_size, 4);
}

#[test]
fn rename_replaces_the_target_and_keeps_the_content() {
    let mut store = Store::open(Tables::default(), 4);
    let src = new_file(&mut store, "src", 4);
    let dst = new_file(&mut store, "dst", 4);
    store.put_block(src, 0, mk_block(b"SSSS"), 4);
    store.put_block(dst, 0, mk_block(b"DDDD"), 4);
    assert!(store.commit());
    store.rename((ROOT_INO, "src"), (ROOT_INO, "dst")).unwrap();
    assert!(store.lookup(ROOT_INO, "src").is_none());
    assert_eq!(store.lookup(ROOT_INO, "dst").unwrap().ino, src);
    assert_eq!(store.get_block(src, 0).unwrap().bytes, b"SSSS");
    assert_eq!(store.block_count(dst), 0);
    assert!(store.getattr_ino(dst).is_none());
    store.rename((ROOT_INO, "dst"), (ROOT_INO, "dst")).unwrap();
    assert_eq!(store.lookup(ROOT_INO, "dst").unwrap().ino, src);
    assert_eq!(
        store.rename((ROOT_INO, "dst"), (ROOT_INO, "..")),
        Err(StoreError::InvalidName)
    );
}

#[test]
fn opening_keeps_numbers_ahead_and_refuses_a_zero_chunk_size() {
    let mut store = Store::open(Tables::default(), 8);
    assert_eq!(store.lookup(ROOT_INO, "x"), None);
    let root = store.getattr_ino(ROOT_INO).unwrap();
    assert_eq!((root.kind, root.perm), (FileKind::Directory, 0o755));
    new_file(&mut store, "a", 8);
    new_file(&mut store, "b", 8);
    let mut again = Store::open(store.t, 8);
    assert_eq!(new_file(&mut again, "c", 8), 4);
    match Container::open_with_chunk_size(0, &Vec::new(), at(0, 0)) {
        Err(StoreError::ZeroChunkSize) => {}
        _ => panic!("took a chunk size of zero"),
    }
}

#[test]
fn block_forms_round_trip() {
    for verbatim in [true, false] {
        let b = StoredBlock {
            bytes: b"payload".to_vec(),
            stored_verbatim: verbatim,
        };
        let raw = encode_block(&b);
        assert_eq!(raw[0], verbatim as u8);
        let back = decode_block(&raw);
        assert_eq!(back.bytes, b.bytes);
        assert_eq!(back.stored_verbatim, verbatim);
    }
    let empty = decode_block(&[]);
    assert!(empty.bytes.is_empty() && !empty.stored_verbatim);
}

#[test]
fn entry_keys_are_decimal_numbers_and_names() {
    assert_eq!(dirent_key(12, "x.txt"), "12/x.txt");
    assert_ne!(dirent_key(1, "2/x"), dirent_key(12, "x"));
}

#[test]
fn names_are_checked() {
    for bad in ["", ".", "..", "a/b", "a\0b"] {
        assert_eq!(validate_name(bad), Err(StoreError::InvalidName), "{bad:?}");
    }
    for good in ["a", "...", ".hidden", "名字"] {
        assert_eq!(validate_name(good), Ok(()), "{good:?}");
    }
}

#[test]
fn buffers_know_what_the_database_does_not() {
    let mut b = Buffers::new();
    b.put_block(3, 0, mk_block(b"one"), 3);
    assert_eq!(b.size_of(3, 99), 3);
    assert_eq!(b.size_of(4, 99), 99);
    assert!(b.begin_commit());
    b.put_block(3, 1, mk_block(b"two"), 6);
    assert_eq!(b.size_of(3, 0), 6);
    b.commit_failed();
    assert_eq!(b.size_of(3, 0), 6);
    assert!(b.active.blocks.contains_key(&BlockKey { ino: 3, idx: 0 }));
    b.forget_file(3);
    assert!(b.active.is_empty());
    assert!(!b.begin_commit());
}

#[test]
fn memory_store_keeps_files_directories_and_blocks() {
    let mut s = MemStore::new(16);
    let f = s.new_file();
    assert_eq!(f, 2);
    assert_eq!(s.block_geometry(f), Some((0, 16)));
    assert_eq!(s.block_geometry(ROOT_INO), None);
    s.put_block(f, 0, mk_block(b"0000"), 4).unwrap();
    s.put_block(f, 1, mk_block(b"1111"), 8).unwrap();
    assert_eq!(s.get_block(f, 1).unwrap().bytes, b"1111");
    s.truncate_blocks(f, 1, 4).unwrap();
    assert!(s.get_block(f, 1).is_none());
    assert_eq!(s.getattr_ino(f).unwrap().size, 4);
    assert_eq!(
        s.put_block(99, 0, mk_block(b""), 0),
        Err(StoreError::NotFound)
    );
    s.fsync(f).unwrap();
    s.sync_all().unwrap();
}

#[test]
fn memory_store_names_are_made_renamed_and_removed() {
    let mut s = MemStore::new(16);
    let a = attr_of(FileKind::RegularFile, 0o600, 16);
    let d = s
        .mkdir(
            ROOT_INO,
            "d".to_string(),
            attr_of(FileKind::Directory, 0o755, 16),
        )
        .unwrap();
    let f = s.create(ROOT_INO, "f".to_string(), a).unwrap();
    assert_eq!(
        s.create(ROOT_INO, "f".to_string(), a),
        Err(StoreError::AlreadyExists)
    );
    assert_eq!(
        s.create(77, "f".to_string(), a),
        Err(StoreError::NotFound)
    );
    let names: Vec<String> = s.readdir(ROOT_INO).into_iter().map(|e| e.name).collect();
    assert_eq!(names, vec!["d".to_string(), "f".to_string()]);
    s.rename(ROOT_INO, &"f".to_string(), d, "g".to_string())
        .unwrap();
    assert_eq!(s.lookup(ROOT_INO, &"f".to_string()), None);
    assert_eq!(s.lookup(d, &"g".to_string()).unwrap().ino, f);
    let mut changed = a;
    changed.uid = 5;
    changed.size = 9;
    s.setattr(f, changed).unwrap();
    assert_eq!(s.getattr_ino(f).unwrap().uid, 5);
    assert_eq!(s.getattr_ino(f).unwrap().size, 9);
    s.unlink(d, &"g".to_string()).unwrap();
    assert_eq!(s.getattr_ino(f), None);
    assert_eq!(s.unlink(d, &"g".to_string()), Err(StoreError::NotFound));
    s.rmdir(ROOT_INO, &"d".to_string()).unwrap();
    assert!(s.readdir(ROOT_INO).is_empty());
}

#[test]
fn flushed_blocks_are_those_the_commit_started_with() {
    let cs = 4096u32;
    let mut store = Store::open(Tables::default(), cs);
    let ino = new_file(&mut store, "f.bin", cs);
    let plain = vec![b'U'; cs as usize];
    store.put_block(ino, 0, mk_block(&plain), cs as u64);
    store.put_block(ino, 1, mk_block(&plain), 2 * cs as u64);
    assert!(store.c.begin_commit(&mut store.metrics));
    store.unlink(ROOT_INO, "f.bin").unwrap();
    store.c.end_commit(true, &mut store.metrics);
    let mut out = String::new();
    store.metrics.write_prometheus(&mut out);
    assert!(out.contains("scrollz_blocks_flushed_total 2"), "{out}");
}
