use scrollz::archive::superblock::SB_CRC_OFFSET;
use scrollz::archive::{
    crc32, parse_superblock, pick_active, replay_journal, serialize_journal_record,
    serialize_superblock, ArchiveError, ArchiveReader, ArchiveUpdater, ArchiveWriter, ChunkEntry,
    HeadCache, SuperBlock, DATA_START, JOURNAL_REC_HEADER_LEN, SB_A_OFFSET, SB_B_OFFSET, SB_LEN,
};
use scrollz::blockio::{BlockIo, IoError, MemIo, EIO};

fn build_archive(chunk_size: u32, blocks: &[(Vec<u8>, bool, u64)]) -> Vec<u8> {
    let mut w = ArchiveWriter::new(MemIo::new(Vec::new()), chunk_size).unwrap();
    for (bytes, verbatim, raw_len) in blocks {
        w.append_block(bytes, *verbatim, *raw_len).unwrap();
    }
    w.finish().unwrap().into_inner()
}

fn active_sb(buf: &[u8]) -> SuperBlock {
    let a = parse_superblock(&buf[SB_A_OFFSET as usize..]);
    let b = parse_superblock(&buf[SB_B_OFFSET as usize..]);
    match (a, b) {
        (Some(x), Some(y)) => {
            if y.seq > x.seq {
                y
            } else {
                x
            }
        }
        (Some(x), None) => x,
        (None, Some(y)) => y,
        (None, None) => panic!("neither slot can be parsed"),
    }
}

fn patch_both_sb(buf: &mut [u8], f: impl Fn(&mut SuperBlock)) {
    let mut sb = active_sb(buf);
    f(&mut sb);
    let b = serialize_superblock(&sb);
    buf[SB_A_OFFSET as usize..][..SB_LEN as usize].copy_from_slice(&b);
    buf[SB_B_OFFSET as usize..][..SB_LEN as usize].copy_from_slice(&b);
}

fn open(bytes: &[u8]) -> ArchiveReader<MemIo> {
    match ArchiveReader::from_file(MemIo::new(bytes.to_vec())) {
        Ok(r) => r,
        Err(e) => panic!("cannot open: {e:?}"),
    }
}

fn open_err(bytes: &[u8]) -> ArchiveError {
    match ArchiveReader::from_file(MemIo::new(bytes.to_vec())) {
        Ok(_) => panic!("opened what is corrupt"),
        Err(e) => e,
    }
}

fn update(bytes: &[u8]) -> ArchiveUpdater<MemIo> {
    match ArchiveUpdater::from_io(MemIo::new(bytes.to_vec())) {
        Ok(up) => up,
        Err(e) => panic!("cannot open for update: {e:?}"),
    }
}

fn image(up: ArchiveUpdater<MemIo>) -> Vec<u8> {
    up.into_io().into_inner()
}

fn block(r: &ArchiveReader<MemIo>, idx: u64) -> Vec<u8> {
    r.read_block(idx).unwrap().unwrap().0
}

#[test]
fn crc32_known_vectors() {
    assert_eq!(crc32(b"123456789"), 0xCBF4_3926);
}

#[test]
fn crc32_of_nothing_is_zero() {
    assert_eq!(crc32(b""), 0);
    assert_ne!(crc32(b"a"), crc32(b"b"));
}

fn sample_sb(seq: u64, head: Option<HeadCache>) -> SuperBlock {
    SuperBlock {
        seq,
        chunk_size: 1 << 20,
        uncompressed_size: 123_456,
        chunk_count: 3,
        index_offset: 4096,
        index_len: 60,
        index_crc: 0xDEAD_BEEF,
        tail_journal_offset: 8192,
        tail_journal_len: 256,
        head_cache: head,
    }
}

#[test]
fn superblock_round_trip_no_head_cache() {
    let sb = sample_sb(42, None);
    let bytes = serialize_superblock(&sb);
    assert_eq!(bytes.len(), SB_LEN as usize);
    assert_eq!(parse_superblock(&bytes), Some(sb));
}

#[test]
fn superblock_round_trip_with_head_cache() {
    let hc = HeadCache {
        offset: 500,
        clen: 20,
        rawlen: 65536,
        verbatim: true,
    };
    let sb = sample_sb(7, Some(hc));
    let bytes = serialize_superblock(&sb);
    assert_eq!(parse_superblock(&bytes), Some(sb));
}

#[test]
fn superblock_without_extent_of_head_cache_has_none() {
    let hc = HeadCache {
        offset: 0,
        clen: 0,
        rawlen: 0,
        verbatim: true,
    };
    let bytes = serialize_superblock(&sample_sb(7, Some(hc)));
    assert_eq!(parse_superblock(&bytes), Some(sample_sb(7, None)));
}

#[test]
fn superblock_crc_detects_any_single_byte_flip() {
    let sb = sample_sb(1, None);
    let good = serialize_superblock(&sb);
    for i in 0..SB_CRC_OFFSET {
        let mut bad = good;
        bad[i] ^= 0xFF;
        assert_eq!(parse_superblock(&bad), None, "flip of byte {i}");
    }
}

#[test]
fn superblock_bad_magic_returns_none() {
    let mut bytes = serialize_superblock(&sample_sb(1, None));
    bytes[0] ^= 0xFF;
    assert_eq!(parse_superblock(&bytes), None);
}

#[test]
fn superblock_short_buffer_returns_none() {
    assert_eq!(parse_superblock(&[0u8; 10]), None);
    assert_eq!(parse_superblock(&[]), None);
}

#[test]
fn pick_active_picks_max_seq_regardless_of_order() {
    let a = sample_sb(5, None);
    let b = sample_sb(3, None);
    assert_eq!(pick_active(Some(a), Some(b)).unwrap().seq, 5);
    assert_eq!(pick_active(Some(b), Some(a)).unwrap().seq, 5);
}

#[test]
fn pick_active_one_slot_corrupt_picks_other_both_corrupt_none() {
    let a = sample_sb(9, None);
    assert_eq!(pick_active(Some(a), None), Some(a));
    assert_eq!(pick_active(None, Some(a)), Some(a));
    assert_eq!(pick_active(None, None), None);
}

#[test]
fn pick_active_equal_seq_picks_a_deterministic() {
    let mut a = sample_sb(5, None);
    a.chunk_count = 1;
    let mut b = sample_sb(5, None);
    b.chunk_count = 2;
    assert_eq!(pick_active(Some(a), Some(b)), Some(a));
}

#[test]
fn writer_reader_round_trip_single_block() {
    let bytes = build_archive(64, &[(b"compressed-block-0".to_vec(), false, 50)]);
    let r = open(&bytes);
    assert_eq!(r.chunk_count(), 1);
    assert_eq!(r.footer().chunk_size, 64);
    assert_eq!(r.footer().uncompressed_size, 50);
    let (data, entry) = r.read_block(0).unwrap().unwrap();
    assert_eq!(data, b"compressed-block-0");
    assert!(!entry.is_verbatim());
}

#[test]
fn multi_block_offset_and_clen_correct() {
    let b0 = vec![1u8; 10];
    let b1 = vec![2u8; 25];
    let b2 = vec![3u8; 7];
    let bytes = build_archive(
        16,
        &[
            (b0.clone(), false, 16),
            (b1.clone(), false, 16),
            (b2.clone(), true, 9),
        ],
    );
    let r = open(&bytes);
    assert_eq!(r.chunk_count(), 3);
    assert_eq!(r.entry(0).unwrap().offset, DATA_START);
    assert_eq!(r.entry(0).unwrap().clen, 10);
    assert_eq!(r.entry(1).unwrap().offset, DATA_START + 10);
    assert_eq!(r.entry(2).unwrap().offset, DATA_START + 10 + 25);
    assert_eq!(r.read_block(1).unwrap().unwrap().0, b1);
    assert!(r.entry(2).unwrap().is_verbatim());
    assert_eq!(r.footer().uncompressed_size, 41);
}

#[test]
fn out_of_bounds_block_returns_none() {
    let bytes = build_archive(64, &[(b"x".to_vec(), false, 1)]);
    let r = open(&bytes);
    assert!(r.read_block(1).unwrap().is_none());
    assert!(r.entry(5).is_none());
}

#[test]
fn zero_block_archive_valid() {
    let bytes = build_archive(64, &[]);
    let r = open(&bytes);
    assert_eq!(r.chunk_count(), 0);
    assert_eq!(r.footer().uncompressed_size, 0);
    assert!(r.read_block(0).unwrap().is_none());
}

#[test]
fn bad_magic_rejected() {
    let mut bytes = build_archive(64, &[(b"y".to_vec(), false, 1)]);
    bytes[0] = b'X';
    let err = open_err(&bytes);
    assert!(err.is_corrupt());
    assert_eq!(err, ArchiveError::BadMagic);
}

#[test]
fn short_file_and_unknown_version_are_rejected() {
    assert_eq!(open_err(&[0u8; 20]), ArchiveError::TooSmall);
    let mut bytes = build_archive(64, &[]);
    bytes[8] = 99;
    match open_err(&bytes) {
        ArchiveError::BadVersion(_) => {}
        e => panic!("unexpected {e:?}"),
    }
}

#[test]
fn zero_chunk_size_is_refused_by_the_writer() {
    match ArchiveWriter::new(MemIo::new(Vec::new()), 0) {
        Ok(_) => panic!("took a chunk size of zero"),
        Err(e) => assert_eq!(e, ArchiveError::ZeroChunkSize),
    }
}

#[test]
fn index_crc_corruption_detected() {
    let bytes = build_archive(64, &[(b"abc".to_vec(), false, 3)]);
    let mut corrupted = bytes.clone();
    let index_off = active_sb(&corrupted).index_offset as usize;
    corrupted[index_off] ^= 0xFF;
    let err = open_err(&corrupted);
    assert!(err.is_corrupt());
    assert_eq!(err, ArchiveError::NoUsableSlot);
}

#[test]
fn block_silent_byte_flip_detected_by_per_block_crc() {
    let bytes = build_archive(64, &[(b"compressed-block-0".to_vec(), false, 50)]);
    let off = open(&bytes).entry(0).unwrap().offset as usize;
    let mut corrupted = bytes;
    corrupted[off] ^= 0xFF;
    let err = open(&corrupted).read_block(0).unwrap_err();
    assert!(err.is_corrupt());
    assert_eq!(err, ArchiveError::BlockCrc(0));
}

#[test]
fn out_of_bounds_clen_rejected_during_open() {
    let bytes = build_archive(64, &[(b"abc".to_vec(), false, 3)]);
    let mut corrupted = bytes.clone();
    let sb = active_sb(&corrupted);
    let index_off = sb.index_offset as usize;
    let index_len = sb.index_len as usize;
    corrupted[index_off + 8..index_off + 16].copy_from_slice(&u64::MAX.to_le_bytes());
    let new_crc = crc32(&corrupted[index_off..index_off + index_len]);
    patch_both_sb(&mut corrupted, |s| s.index_crc = new_crc);
    assert!(open_err(&corrupted).is_corrupt());
}

#[test]
fn head_cache_absent_reader_returns_none() {
    let bytes = build_archive(64, &[(b"blk0".to_vec(), false, 4)]);
    let r = open(&bytes);
    assert!(r.footer().head_cache.is_none());
    assert_eq!(r.head_cache_rawlen(), 0);
    assert!(r.read_head_cache().unwrap().is_none());
}

#[test]
fn head_cache_writer_round_trip() {
    let mut w = ArchiveWriter::new(MemIo::new(Vec::new()), 64).unwrap();
    w.append_block(b"compressed-block-0", false, 50).unwrap();
    w.set_head_cache(b"HEADCACHE-COMPRESSED".to_vec(), false, 64);
    let bytes = w.finish().unwrap().into_inner();

    let r = open(&bytes);
    assert_eq!(r.head_cache_rawlen(), 64);
    let (hc, verbatim) = r.read_head_cache().unwrap().unwrap();
    assert_eq!(hc, b"HEADCACHE-COMPRESSED");
    assert!(!verbatim);
    assert_eq!(r.read_block(0).unwrap().unwrap().0, b"compressed-block-0");
}

#[test]
fn head_cache_verbatim_flag_preserved() {
    let mut w = ArchiveWriter::new(MemIo::new(Vec::new()), 64).unwrap();
    w.append_block(b"x", false, 1).unwrap();
    w.set_head_cache(b"RAWHEAD".to_vec(), true, 7);
    let bytes = w.finish().unwrap().into_inner();
    let (_, verbatim) = open(&bytes).read_head_cache().unwrap().unwrap();
    assert!(verbatim);
}

#[test]
fn head_cache_out_of_bounds_graceful_fallback_none() {
    let mut w = ArchiveWriter::new(MemIo::new(Vec::new()), 64).unwrap();
    w.append_block(b"abc", false, 3).unwrap();
    w.set_head_cache(b"HEAD".to_vec(), false, 64);
    let mut bytes = w.finish().unwrap().into_inner();
    patch_both_sb(&mut bytes, |s| {
        if let Some(hc) = s.head_cache.as_mut() {
            hc.offset = u64::MAX - 100;
        }
    });
    let r = open(&bytes);
    assert!(r.read_head_cache().unwrap().is_none());
    assert_eq!(r.read_block(0).unwrap().unwrap().0, b"abc");
}

fn read_all_raw(bytes: &[u8]) -> Vec<(Vec<u8>, ChunkEntry)> {
    let r = open(bytes);
    (0..r.chunk_count())
        .map(|i| r.read_block(i).unwrap().unwrap())
        .collect()
}

#[test]
fn updater_append_tail_block_does_not_rewrite_prior_data() {
    let base = build_archive(8, &[(b"AAAAAAAA".to_vec(), false, 8)]);
    let block0_before = read_all_raw(&base)[0].0.clone();

    let mut up = update(&base);
    up.set_block(1, b"BBBB", false, 12).unwrap();
    up.commit().unwrap();
    let bytes = image(up);

    let blocks = read_all_raw(&bytes);
    assert_eq!(blocks.len(), 2);
    assert_eq!(blocks[0].0, block0_before);
    assert_eq!(blocks[1].0, b"BBBB");
    let r = open(&bytes);
    assert_eq!(r.footer().uncompressed_size, 12);
    assert!(bytes.len() > base.len());
    assert_eq!(r.entry(0).unwrap().offset, DATA_START);
}

#[test]
fn updater_rmw_interior_block_appends_new_version_old_block_becomes_hole() {
    let base = build_archive(
        8,
        &[
            (b"AAAAAAAA".to_vec(), false, 8),
            (b"BBBBBBBB".to_vec(), false, 8),
        ],
    );
    let old_block1_offset = open(&base).entry(1).unwrap().offset;

    let mut up = update(&base);
    up.set_block(0, b"XXXXXXXX", false, 16).unwrap();
    up.commit().unwrap();

    let r = open(&image(up));
    assert_eq!(r.chunk_count(), 2);
    assert!(r.entry(0).unwrap().offset > old_block1_offset);
    assert_eq!(block(&r, 0), b"XXXXXXXX");
    assert_eq!(block(&r, 1), b"BBBBBBBB");
}

#[test]
fn updater_truncate_discards_tail_block() {
    let base = build_archive(
        8,
        &[
            (b"AAAAAAAA".to_vec(), false, 8),
            (b"BBBBBBBB".to_vec(), false, 8),
            (b"CCCC".to_vec(), false, 4),
        ],
    );
    let mut up = update(&base);
    up.truncate(1, 8);
    up.commit().unwrap();
    let r = open(&image(up));
    assert_eq!(r.chunk_count(), 1);
    assert_eq!(r.footer().uncompressed_size, 8);
    assert_eq!(block(&r, 0), b"AAAAAAAA");
}

#[test]
fn updater_after_commit_crc_stays_consistent_reopenable() {
    let base = build_archive(8, &[(b"AAAAAAAA".to_vec(), false, 8)]);
    let mut up = update(&base);
    up.set_block(1, b"BBBB", false, 12).unwrap();
    up.commit().unwrap();
    let mut up2 = update(&image(up));
    up2.set_block(0, b"ZZZZZZZZ", false, 12).unwrap();
    up2.commit().unwrap();
    let r = open(&image(up2));
    assert_eq!(block(&r, 0), b"ZZZZZZZZ");
    assert_eq!(block(&r, 1), b"BBBB");
}

#[test]
fn updater_crash_before_commit_recovers_last_consistent_version() {
    let base = build_archive(8, &[(b"AAAAAAAA".to_vec(), false, 8)]);
    let mut up = update(&base);
    up.set_block(1, b"BBBB", false, 12).unwrap();
    let r = open(&image(up));
    assert_eq!(r.chunk_count(), 1);
    assert_eq!(block(&r, 0), b"AAAAAAAA");
}

#[test]
fn updater_active_sb_corrupt_falls_back_to_other_slot_recovers() {
    let base = build_archive(8, &[(b"AAAAAAAA".to_vec(), false, 8)]);
    let mut up = update(&base);
    up.set_block(0, b"CCCCCCCC", false, 8).unwrap();
    up.commit().unwrap();
    let mut bytes = image(up);
    assert_eq!(block(&open(&bytes), 0), b"CCCCCCCC");
    let sa = parse_superblock(&bytes[SB_A_OFFSET as usize..]);
    let sb = parse_superblock(&bytes[SB_B_OFFSET as usize..]);
    let active_off = match (sa, sb) {
        (Some(x), Some(y)) if y.seq > x.seq => SB_B_OFFSET,
        _ => SB_A_OFFSET,
    };
    bytes[active_off as usize + 4] ^= 0xFF;
    let got = block(&open(&bytes), 0);
    assert!(got == b"AAAAAAAA" || got == b"CCCCCCCC");
}

#[test]
fn updater_repeated_tail_rewrite_across_commits_readback_correct() {
    let mut bytes = build_archive(64, &[(b"AAAAAAAA".to_vec(), false, 8)]);
    for grow in 1..=20u64 {
        let len = (grow * 3).min(60) as usize;
        let content = vec![b'Z'; len];
        let mut up = update(&bytes);
        up.set_block(0, &content, false, len as u64).unwrap();
        up.commit().unwrap();
        up.sync().unwrap();
        bytes = image(up);
        let r = open(&bytes);
        assert_eq!(r.chunk_count(), 1);
        assert_eq!(block(&r, 0), content, "commit {grow}");
    }
}

#[test]
fn updater_preserves_head_cache_across_commits_append() {
    let mut w = ArchiveWriter::new(MemIo::new(Vec::new()), 8).unwrap();
    w.append_block(b"AAAAAAAA", false, 8).unwrap();
    w.set_head_cache(b"HC-COMPRESSED-BYTES".to_vec(), false, 8);
    let base = w.finish().unwrap().into_inner();

    let mut up = update(&base);
    assert_eq!(up.head_cache_rawlen(), 8);
    up.set_block(1, b"BBBB", false, 12).unwrap();
    up.commit().unwrap();

    let r = open(&image(up));
    assert_eq!(r.chunk_count(), 2);
    assert_eq!(r.head_cache_rawlen(), 8);
    assert_eq!(
        r.read_head_cache().unwrap().unwrap().0,
        b"HC-COMPRESSED-BYTES"
    );
    assert_eq!(block(&r, 1), b"BBBB");
}

#[test]
fn updater_truncate_discards_out_of_bounds_head_cache() {
    let mut w = ArchiveWriter::new(MemIo::new(Vec::new()), 8).unwrap();
    w.append_block(b"AAAAAAAA", false, 8).unwrap();
    w.append_block(b"BBBBBBBB", false, 8).unwrap();
    w.set_head_cache(b"HEADCACHE-16B".to_vec(), false, 16);
    let base = w.finish().unwrap().into_inner();

    let mut up = update(&base);
    assert_eq!(up.head_cache_rawlen(), 16);
    up.truncate(0, 4);
    up.set_block(0, b"AAAA", false, 4).unwrap();
    up.commit().unwrap();

    let r = open(&image(up));
    assert_eq!(r.footer().uncompressed_size, 4);
    assert_eq!(r.head_cache_rawlen(), 0);
}

#[test]
fn updater_set_head_cache_after_commit_readback() {
    let base = build_archive(8, &[(b"AAAAAAAA".to_vec(), false, 8)]);
    let mut up = update(&base);
    assert_eq!(up.head_cache_rawlen(), 0);
    up.set_head_cache(b"NEW-HEAD".to_vec(), false, 8);
    up.commit().unwrap();
    let r = open(&image(up));
    assert_eq!(r.head_cache_rawlen(), 8);
    assert_eq!(r.read_head_cache().unwrap().unwrap().0, b"NEW-HEAD");
    assert_eq!(block(&r, 0), b"AAAAAAAA");
}

#[test]
fn updater_clear_head_cache_drops_it_on_commit() {
    let mut w = ArchiveWriter::new(MemIo::new(Vec::new()), 8).unwrap();
    w.append_block(b"AAAAAAAA", false, 8).unwrap();
    w.set_head_cache(b"HEAD".to_vec(), false, 8);
    let mut up = update(&w.finish().unwrap().into_inner());
    up.clear_head_cache();
    up.commit().unwrap();
    let r = open(&image(up));
    assert_eq!(r.head_cache_rawlen(), 0);
    assert!(r.read_head_cache().unwrap().is_none());
}

#[test]
fn updater_with_head_cache_crash_before_commit_recovers_last_consistent_version() {
    let base = build_archive(8, &[(b"AAAAAAAA".to_vec(), false, 8)]);
    let mut up = update(&base);
    up.set_head_cache(b"HEAD-PENDING".to_vec(), false, 8);
    up.set_block(1, b"BBBB", false, 12).unwrap();
    let r = open(&image(up));
    assert_eq!(r.chunk_count(), 1);
    assert_eq!(block(&r, 0), b"AAAAAAAA");
    assert!(r.read_head_cache().unwrap().is_none());
}

#[test]
fn updater_fills_missing_chunks_with_zeros() {
    let base = build_archive(4, &[(b"AAAA".to_vec(), false, 4)]);
    let mut up = update(&base);
    up.set_block(3, b"DD", true, 14).unwrap();
    up.commit().unwrap();
    assert_eq!(up.chunk_count(), 4);
    assert_eq!(up.chunk_size(), 4);
    assert_eq!(up.uncompressed_size(), 14);
    let r = open(&image(up));
    assert_eq!(r.chunk_count(), 4);
    for idx in 1..3 {
        let (bytes, entry) = r.read_block(idx).unwrap().unwrap();
        assert!(entry.is_verbatim());
        assert_eq!(bytes, vec![0u8; 4]);
    }
    assert_eq!(block(&r, 3), b"DD");
}

#[test]
fn journal_append_commit_reopen_replay_tail_block() {
    let base = build_archive(64, &[]);
    let mut up = update(&base);
    for line in [b"line1\n".as_ref(), b"line2\n", b"line3\n"] {
        up.append_journal(line).unwrap();
        up.commit_journal().unwrap();
    }
    let r = open(&image(up));
    assert_eq!(r.chunk_count(), 0);
    assert_eq!(
        r.read_tail().unwrap().as_deref(),
        Some(b"line1\nline2\nline3\n".as_ref())
    );
}

#[test]
fn journal_crash_before_commit_drop_uncommitted_delta_keep_committed() {
    let base = build_archive(64, &[]);
    let mut up = update(&base);
    up.append_journal(b"committed-A").unwrap();
    up.commit_journal().unwrap();
    up.append_journal(b"committed-B").unwrap();
    up.commit_journal().unwrap();
    up.append_journal(b"UNCOMMITTED").unwrap();
    let r = open(&image(up));
    assert_eq!(
        r.read_tail().unwrap().as_deref(),
        Some(b"committed-Acommitted-B".as_ref())
    );
}

#[test]
fn journal_reset_after_sealing_tail_migrated_into_compressed_block() {
    let base = build_archive(64, &[]);
    let mut up = update(&base);
    up.append_journal(b"AAAA").unwrap();
    up.commit_journal().unwrap();
    up.append_journal(b"BBBB").unwrap();
    up.commit_journal().unwrap();
    up.set_block(0, b"AAAABBBB", true, 8).unwrap();
    up.reset_journal();
    up.commit().unwrap();
    let r = open(&image(up));
    assert_eq!(r.chunk_count(), 1);
    assert!(r.read_tail().unwrap().is_none());
    assert_eq!(block(&r, 0), b"AAAABBBB");
}

#[test]
fn journal_out_of_bounds_load_active_rejects_slot() {
    let base = build_archive(64, &[]);
    let mut up = update(&base);
    up.append_journal(b"data").unwrap();
    up.commit_journal().unwrap();
    let mut bytes = image(up);
    patch_both_sb(&mut bytes, |s| s.tail_journal_offset = u64::MAX - 100);
    assert!(ArchiveReader::from_file(MemIo::new(bytes)).is_err());
}

#[test]
fn journal_records_replay_up_to_the_first_that_is_cut_short() {
    let mut buf = serialize_journal_record(b"one");
    assert_eq!(buf.len(), JOURNAL_REC_HEADER_LEN as usize + 3);
    buf.extend_from_slice(&serialize_journal_record(b"two"));
    assert_eq!(replay_journal(&buf), b"onetwo");
    let cut = &buf[..buf.len() - 1];
    assert_eq!(replay_journal(cut), b"one");
    let mut flipped = buf.clone();
    let last = flipped.len() - 1;
    flipped[last] ^= 1;
    assert_eq!(replay_journal(&flipped), b"one");
}

#[test]
fn torn_commit_leaves_the_old_version_or_the_new_one() {
    let base = build_archive(8, &[(b"AAAAAAAA".to_vec(), false, 8)]);
    let mut up = update(&base);
    up.set_block(0, b"CCCCCCCC", false, 8).unwrap();
    up.commit().unwrap();
    let new = image(up);
    let changed: Vec<usize> = (0..DATA_START as usize)
        .filter(|&i| base[i] != new[i])
        .collect();
    for cut in 0..=changed.len() {
        let mut torn = new.clone();
        for &i in &changed[cut..] {
            torn[i] = base[i];
        }
        let got = block(&open(&torn), 0);
        if cut == changed.len() {
            assert_eq!(got, b"CCCCCCCC");
        } else {
            assert_eq!(got, b"AAAAAAAA");
        }
    }
}

#[test]
fn logical_length_grows_with_the_journal() {
    let base = build_archive(64, &[(b"AAAAAAAA".to_vec(), false, 8)]);
    let mut up = update(&base);
    up.append_journal(b"tail").unwrap();
    up.set_size(12);
    assert_eq!(up.uncompressed_size(), 12);
    up.commit_journal().unwrap();
    let r = open(&image(up));
    assert_eq!(r.footer().uncompressed_size, 12);
    assert_eq!(r.read_tail().unwrap().as_deref(), Some(&b"tail"[..]));
    assert_eq!(r.chunk_count(), 1);
}

/// A disk in memory that notes every write.
struct RecordingIo {
    data: Vec<u8>,
    writes: Vec<(u64, usize)>,
}

impl BlockIo for RecordingIo {
    fn write_at(&mut self, off: u64, buf: &[u8]) -> Result<(), IoError> {
        let end = off as usize + buf.len();
        if self.data.len() < end {
            self.data.resize(end, 0);
        }
        self.data[off as usize..end].copy_from_slice(buf);
        self.writes.push((off, buf.len()));
        Ok(())
    }

    fn read_at(&self, off: u64, len: u64) -> Result<Vec<u8>, IoError> {
        let end = off as usize + len as usize;
        if end > self.data.len() {
            return Err(IoError { errno: EIO });
        }
        Ok(self.data[off as usize..end].to_vec())
    }

    fn sync(&mut self) -> Result<(), IoError> {
        Ok(())
    }

    fn len(&self) -> Result<u64, IoError> {
        Ok(self.data.len() as u64)
    }

    fn set_len(&mut self, len: u64) -> Result<(), IoError> {
        self.data.resize(len as usize, 0);
        Ok(())
    }
}

#[test]
fn updater_spy_io_byte_mirror_equals_file_path_byte_for_byte() {
    let base = build_archive(8, &[(b"AAAAAAAA".to_vec(), false, 8)]);

    let mut up = update(&base);
    up.set_block(1, b"BBBB", false, 12).unwrap();
    up.set_block(0, b"XXXXXXXX", false, 16).unwrap();
    up.commit().unwrap();
    let golden = image(up);

    let spy = RecordingIo {
        data: base.clone(),
        writes: Vec::new(),
    };
    let mut up = match ArchiveUpdater::from_io(spy) {
        Ok(up) => up,
        Err(e) => panic!("{e:?}"),
    };
    up.set_block(1, b"BBBB", false, 12).unwrap();
    up.set_block(0, b"XXXXXXXX", false, 16).unwrap();
    up.commit().unwrap();
    let spy = up.into_io();
    assert_eq!(spy.data, golden);

    let sb = active_sb(&spy.data);
    assert!(sb.index_offset as usize >= base.len());
    let idx = &spy.data[sb.index_offset as usize..(sb.index_offset + sb.index_len) as usize];
    assert_eq!(crc32(idx), sb.index_crc);
    assert!(spy.writes.len() >= 2);
}

/// A disk that fails.
struct BrokenIo;

impl BlockIo for BrokenIo {
    fn write_at(&mut self, _off: u64, _buf: &[u8]) -> Result<(), IoError> {
        Err(IoError { errno: EIO })
    }

    fn read_at(&self, _off: u64, _len: u64) -> Result<Vec<u8>, IoError> {
        Err(IoError { errno: EIO })
    }

    fn sync(&mut self) -> Result<(), IoError> {
        Err(IoError { errno: EIO })
    }

    fn len(&self) -> Result<u64, IoError> {
        Err(IoError { errno: EIO })
    }

    fn set_len(&mut self, _len: u64) -> Result<(), IoError> {
        Err(IoError { errno: EIO })
    }
}

#[test]
fn failing_disk_is_an_io_error() {
    let e = match ArchiveReader::from_file(BrokenIo) {
        Ok(_) => panic!("opened a broken disk"),
        Err(e) => e,
    };
    assert_eq!(e, ArchiveError::Io(IoError { errno: EIO }));
    assert!(!e.is_corrupt());
    assert!(ArchiveWriter::new(BrokenIo, 8).is_err());
}

/// A disk in memory that notes what the last barrier covered, and whose barriers can fail.
struct BarrierIo {
    disk: RecordingIo,
    covered: Vec<u8>,
    fails: bool,
}

impl BlockIo for BarrierIo {
    fn write_at(&mut self, off: u64, buf: &[u8]) -> Result<(), IoError> {
        self.disk.write_at(off, buf)
    }

    fn read_at(&self, off: u64, len: u64) -> Result<Vec<u8>, IoError> {
        self.disk.read_at(off, len)
    }

    fn sync(&mut self) -> Result<(), IoError> {
        if self.fails {
            return Err(IoError { errno: EIO });
        }
        self.covered = self.disk.data.clone();
        Ok(())
    }

    fn len(&self) -> Result<u64, IoError> {
        self.disk.len()
    }

    fn set_len(&mut self, len: u64) -> Result<(), IoError> {
        self.disk.set_len(len)
    }
}

/// Writes a block, asks for a barrier, and hands back its result and the disk.
fn block_then_barrier(fails: bool) -> (Result<(), ArchiveError>, BarrierIo) {
    let io = BarrierIo {
        disk: RecordingIo {
            data: build_archive(8, &[(b"AAAAAAAA".to_vec(), false, 8)]),
            writes: Vec::new(),
        },
        covered: Vec::new(),
        fails,
    };
    let mut up = match ArchiveUpdater::from_io(io) {
        Ok(up) => up,
        Err(e) => panic!("{e:?}"),
    };
    up.set_block(1, b"BBBB", false, 12).unwrap();
    let r = up.sync();
    (r, up.into_io())
}

#[test]
fn barrier_covers_every_write_before_it() {
    let (r, io) = block_then_barrier(false);
    assert_eq!(r, Ok(()));
    assert_eq!(io.covered, io.disk.data);
    assert!(io.covered.ends_with(b"BBBB"));
}

#[test]
fn failed_barrier_is_an_io_error() {
    let (r, io) = block_then_barrier(true);
    assert_eq!(r, Err(ArchiveError::Io(IoError { errno: EIO })));
    assert!(io.covered.is_empty());
}

#[derive(Debug, PartialEq, Clone)]
enum Call {
    Write(u64, usize),
    Sync,
}

/// A disk in memory that notes every call that changes it, and can fail at one of them.
struct CallsIo {
    disk: RecordingIo,
    calls: Vec<Call>,
    fail_at: Option<usize>,
}

impl CallsIo {
    fn fails(&self) -> bool {
        self.fail_at == Some(self.calls.len())
    }
}

impl BlockIo for CallsIo {
    fn write_at(&mut self, off: u64, buf: &[u8]) -> Result<(), IoError> {
        self.calls.push(Call::Write(off, buf.len()));
        if self.fails() {
            return Err(IoError { errno: EIO });
        }
        self.disk.write_at(off, buf)
    }

    fn read_at(&self, off: u64, len: u64) -> Result<Vec<u8>, IoError> {
        self.disk.read_at(off, len)
    }

    fn sync(&mut self) -> Result<(), IoError> {
        self.calls.push(Call::Sync);
        if self.fails() {
            return Err(IoError { errno: EIO });
        }
        Ok(())
    }

    fn len(&self) -> Result<u64, IoError> {
        self.disk.len()
    }

    fn set_len(&mut self, len: u64) -> Result<(), IoError> {
        self.disk.set_len(len)
    }
}

fn noted(bytes: &[u8], fail_at: Option<usize>) -> ArchiveUpdater<CallsIo> {
    let io = CallsIo {
        disk: RecordingIo {
            data: bytes.to_vec(),
            writes: Vec::new(),
        },
        calls: Vec::new(),
        fail_at,
    };
    match ArchiveUpdater::from_io(io) {
        Ok(up) => up,
        Err(e) => panic!("{e:?}"),
    }
}

#[test]
fn commit_writes_the_slot_between_two_barriers() {
    let base = build_archive(8, &[(b"AAAAAAAA".to_vec(), false, 8)]);
    let end = base.len() as u64;
    let mut up = noted(&base, None);
    up.set_head_cache(b"head".to_vec(), false, 4);
    up.commit().unwrap();
    assert_eq!(
        up.into_io().calls,
        vec![
            Call::Write(end, 4),
            Call::Write(end + 4, 24),
            Call::Sync,
            Call::Write(SB_B_OFFSET, 128),
            Call::Sync,
        ]
    );
}

#[test]
fn journal_commit_writes_nothing_but_the_slot() {
    let base = build_archive(8, &[(b"AAAAAAAA".to_vec(), false, 8)]);
    let mut up = noted(&base, None);
    up.commit_journal().unwrap();
    assert_eq!(
        up.into_io().calls,
        vec![Call::Sync, Call::Write(SB_B_OFFSET, 128), Call::Sync]
    );
}

#[test]
fn commit_stops_at_the_call_that_fails() {
    let base = build_archive(8, &[(b"AAAAAAAA".to_vec(), false, 8)]);
    let slots = SB_A_OFFSET as usize..(SB_B_OFFSET + SB_LEN) as usize;
    for n in 1..=4usize {
        let mut up = noted(&base, Some(n));
        assert_eq!(
            up.commit(),
            Err(ArchiveError::Io(IoError { errno: EIO })),
            "call {n}"
        );
        let io = up.into_io();
        assert_eq!(io.calls.len(), n);
        if n <= 2 {
            assert_eq!(io.disk.data[slots.clone()], base[slots.clone()]);
        }
        assert_eq!(block(&open(&io.disk.data), 0), b"AAAAAAAA");
    }
    let mut up = noted(&base, Some(1));
    assert!(up.commit_journal().is_err());
    assert_eq!(up.into_io().disk.data, base);
}

#[test]
fn crash_at_the_slot_leaves_one_of_two_versions() {
    let base = build_archive(8, &[(b"AAAAAAAA".to_vec(), false, 8)]);
    let mut up = update(&base);
    up.set_block(0, b"BBBBBBBB", false, 8).unwrap();
    up.commit().unwrap();
    let after = image(up);
    for written in 0..=SB_LEN as usize {
        let mut left = after.clone();
        let at = SB_B_OFFSET as usize + written;
        let end = (SB_B_OFFSET + SB_LEN) as usize;
        left[at..end].copy_from_slice(&base[at..end]);
        let got = block(&open(&left), 0);
        assert!(got == b"AAAAAAAA" || got == b"BBBBBBBB", "{written} bytes");
        if written == SB_LEN as usize {
            assert_eq!(got, b"BBBBBBBB");
        }
    }
}

#[test]
fn history_of_changes_reads_back_as_last_written() {
    let base = build_archive(
        4,
        &[(b"aaaa".to_vec(), true, 4), (b"bbbb".to_vec(), false, 4)],
    );
    let mut up = update(&base);
    up.set_block(0, b"first", false, 8).unwrap();
    up.set_block(4, b"last", false, 20).unwrap();
    up.commit().unwrap();
    up.set_block(0, b"second", true, 20).unwrap();
    up.truncate(5, 20);
    up.set_head_cache(b"hh".to_vec(), true, 2);
    up.commit().unwrap();
    let bytes = image(up);
    let again = update(&bytes);
    assert_eq!(again.chunk_count(), 5);
    assert_eq!(again.chunk_size(), 4);
    assert_eq!(again.uncompressed_size(), 20);
    assert_eq!(again.head_cache_rawlen(), 2);
    let r = open(&bytes);
    let chunk = |i: u64| -> (Vec<u8>, bool) {
        let (stored, entry) = r.read_block(i).unwrap().unwrap();
        (stored, entry.is_verbatim())
    };
    assert_eq!(chunk(0), (b"second".to_vec(), true));
    assert_eq!(chunk(1), (b"bbbb".to_vec(), false));
    assert_eq!(chunk(2), (vec![0; 4], true));
    assert_eq!(chunk(3), (vec![0; 4], true));
    assert_eq!(chunk(4), (b"last".to_vec(), false));
}
