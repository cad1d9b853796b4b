use scrollz::chunk::{block_range, offset_in_block};
use scrollz::inode_table::{InodeTable, ROOT_INO};
use scrollz::metrics::Metrics;
use scrollz::read::{ChunkData, ReadSession, ReadStart};

#[test]
fn small_range_within_one_block_maps_to_same_block() {
    assert_eq!(block_range(0, 100, 65536), (0, 0));
    assert_eq!(block_range(100, 200, 65536), (0, 0));
}

#[test]
fn cross_block_range_covers_correct_block_span() {
    assert_eq!(block_range(65500, 100, 65536), (0, 1));
    assert_eq!(block_range(131072, 1, 65536), (2, 2));
}

#[test]
fn zero_length_range_degenerates_to_containing_block() {
    assert_eq!(block_range(70000, 0, 65536), (1, 1));
}

#[test]
fn intra_block_offset_modulo_correct() {
    assert_eq!(offset_in_block(65536, 65536), 0);
    assert_eq!(offset_in_block(65600, 65536), 64);
}

#[test]
fn write_prometheus_reflects_recorded_counts_and_peak() {
    let mut m = Metrics::new();
    m.record_commit_ok(3);
    m.record_commit_failed();
    m.observe_flushing_bytes(4096);
    m.observe_flushing_bytes(1024);

    let mut out = String::new();
    m.write_prometheus(&mut out);

    assert!(out.contains("scrollz_commit_ok_total 1"), "{out}");
    assert!(out.contains("scrollz_blocks_flushed_total 3"), "{out}");
    assert!(out.contains("scrollz_commit_failed_total 1"), "{out}");
    assert!(out.contains("scrollz_flushing_bytes_peak 4096"), "{out}");
    assert!(out.contains("# TYPE scrollz_commit_ok_total counter"));
    assert!(out.contains("# TYPE scrollz_flushing_bytes_peak gauge"));
    assert!(out.contains("# HELP scrollz_blocks_flushed_total"));
}

#[test]
fn write_prometheus_reflects_fuse_per_op_counters() {
    let mut m = Metrics::new();
    m.record_read(100);
    m.record_write(50);
    m.record_fsync();
    m.record_fuse_error();

    let mut out = String::new();
    m.write_prometheus(&mut out);

    assert!(out.contains("scrollz_fuse_read_ops_total 1"), "{out}");
    assert!(out.contains("scrollz_fuse_read_bytes_total 100"), "{out}");
    assert!(out.contains("scrollz_fuse_write_ops_total 1"), "{out}");
    assert!(out.contains("scrollz_fuse_write_bytes_total 50"), "{out}");
    assert!(out.contains("scrollz_fuse_fsync_ops_total 1"), "{out}");
    assert!(out.contains("scrollz_fuse_errors_total 1"), "{out}");
    assert!(out.contains("# TYPE scrollz_fuse_read_ops_total counter"));
    assert!(out.contains("# TYPE scrollz_fuse_read_bytes_total counter"));
    assert!(out.contains("# TYPE scrollz_fuse_write_ops_total counter"));
    assert!(out.contains("# TYPE scrollz_fuse_write_bytes_total counter"));
    assert!(out.contains("# TYPE scrollz_fuse_fsync_ops_total counter"));
    assert!(out.contains("# TYPE scrollz_fuse_errors_total counter"));
}

#[test]
fn fuse_read_write_counters_accumulate() {
    let mut m = Metrics::new();
    m.record_read(10);
    m.record_read(30);
    m.record_write(5);
    m.record_write(7);
    let mut out = String::new();
    m.write_prometheus(&mut out);
    assert!(out.contains("scrollz_fuse_read_ops_total 2"), "{out}");
    assert!(out.contains("scrollz_fuse_read_bytes_total 40"), "{out}");
    assert!(out.contains("scrollz_fuse_write_ops_total 2"), "{out}");
    assert!(out.contains("scrollz_fuse_write_bytes_total 12"), "{out}");
}

#[test]
fn write_prometheus_reflects_blockcache_hit_rate_counters() {
    let mut m = Metrics::new();
    m.record_cache_hit();
    m.record_cache_hit();
    m.record_cache_miss();

    let mut out = String::new();
    m.write_prometheus(&mut out);

    assert!(out.contains("scrollz_blockcache_hits_total 2"), "{out}");
    assert!(out.contains("scrollz_blockcache_misses_total 1"), "{out}");
    assert!(out.contains("# TYPE scrollz_blockcache_hits_total counter"));
    assert!(out.contains("# TYPE scrollz_blockcache_misses_total counter"));
    assert!(out.contains("# HELP scrollz_blockcache_hits_total"));
    assert!(out.contains("# HELP scrollz_blockcache_misses_total"));
}

#[test]
fn write_prometheus_reflects_seal_counter() {
    let mut m = Metrics::new();
    m.record_seal();
    m.record_seal();
    m.record_seal();

    assert_eq!(m.seals(), 3);

    let mut out = String::new();
    m.write_prometheus(&mut out);

    assert!(out.contains("scrollz_seals_total 3"), "{out}");
    assert!(out.contains("# TYPE scrollz_seals_total counter"));
    assert!(out.contains("# HELP scrollz_seals_total"));
}

#[test]
fn multiple_commits_accumulate() {
    let mut m = Metrics::new();
    m.record_commit_ok(2);
    m.record_commit_ok(5);
    let mut out = String::new();
    m.write_prometheus(&mut out);
    assert!(out.contains("scrollz_commit_ok_total 2"), "{out}");
    assert!(out.contains("scrollz_blocks_flushed_total 7"), "{out}");
}

fn metric_line_value<'a>(out: &'a str, prefix: &str) -> Option<&'a str> {
    out.lines()
        .find(|l| l.starts_with(prefix) && !l.starts_with('#'))
        .and_then(|l| l.rsplit(' ').next())
}

#[test]
fn histogram_cumulative_buckets_are_monotonic_and_inf_equals_count() {
    let mut m = Metrics::new();
    m.observe_read_latency_us(30);
    m.observe_read_latency_us(300);
    m.observe_read_latency_us(3000);
    m.observe_read_latency_us(300_000);

    let mut out = String::new();
    m.write_prometheus(&mut out);

    let name = "scrollz_read_latency_seconds";
    let bucket_les = [
        "0.00005", "0.0001", "0.00025", "0.0005", "0.001", "0.0025", "0.005", "0.01", "0.025",
        "0.05", "0.1", "+Inf",
    ];
    let mut prev: u64 = 0;
    let mut cum_values = Vec::new();
    for le in bucket_les {
        let prefix = format!("{name}_bucket{{le=\"{le}\"}} ");
        let v: u64 = metric_line_value(&out, &prefix)
            .unwrap_or_else(|| panic!("no bucket le={le}:\n{out}"))
            .parse()
            .unwrap();
        assert!(v >= prev, "le={le}: {v} < {prev}\n{out}");
        prev = v;
        cum_values.push(v);
    }

    let count: u64 = metric_line_value(&out, &format!("{name}_count "))
        .expect("_count")
        .parse()
        .unwrap();
    assert_eq!(count, 4, "{out}");

    let inf = *cum_values.last().unwrap();
    assert_eq!(inf, count, "{out}");

    assert_eq!(cum_values[0], 1, "{out}");
    assert_eq!(cum_values[3], 2, "{out}");
    assert_eq!(cum_values[6], 3, "{out}");
    assert_eq!(cum_values[10], 3, "{out}");
    assert_eq!(cum_values[11], 4, "{out}");

    let sum: f64 = metric_line_value(&out, &format!("{name}_sum "))
        .expect("_sum")
        .parse()
        .unwrap();
    assert!((sum - 0.303_33).abs() < 1e-6, "{sum}\n{out}");

    assert!(out.contains(&format!("# TYPE {name} histogram")));
    assert!(out.contains(&format!("# HELP {name} ")));
}

#[test]
fn histogram_write_and_fsync_latencies_are_independent() {
    let mut m = Metrics::new();
    m.observe_write_latency_us(100);
    m.observe_write_latency_us(100);
    m.observe_fsync_latency_us(2000);

    let mut out = String::new();
    m.write_prometheus(&mut out);

    assert_eq!(
        metric_line_value(&out, "scrollz_write_latency_seconds_count "),
        Some("2"),
        "{out}"
    );
    assert_eq!(
        metric_line_value(&out, "scrollz_fsync_latency_seconds_count "),
        Some("1"),
        "{out}"
    );
    assert_eq!(
        metric_line_value(&out, "scrollz_read_latency_seconds_count "),
        Some("0"),
        "{out}"
    );
    assert_eq!(
        metric_line_value(&out, "scrollz_read_latency_seconds_bucket{le=\"+Inf\"} "),
        Some("0"),
        "{out}"
    );
}

#[test]
fn histogram_boundary_value_falls_in_bucket_at_or_below() {
    let mut m = Metrics::new();
    m.observe_read_latency_us(50);
    m.observe_read_latency_us(100_000);

    let mut out = String::new();
    m.write_prometheus(&mut out);

    let name = "scrollz_read_latency_seconds";
    assert_eq!(
        metric_line_value(&out, &format!("{name}_bucket{{le=\"0.00005\"}} ")),
        Some("1"),
    );
    assert_eq!(
        metric_line_value(&out, &format!("{name}_bucket{{le=\"0.1\"}} ")),
        Some("2"),
    );
    assert_eq!(
        metric_line_value(&out, &format!("{name}_bucket{{le=\"+Inf\"}} ")),
        Some("2"),
    );
}

#[test]
fn write_prometheus_reflects_shadow_backend_counters() {
    let mut m = Metrics::new();
    m.record_shadow_commit();
    m.record_shadow_commit();
    m.record_reader_hit();
    m.record_reader_hit();
    m.record_reader_hit();
    m.record_reader_miss();
    m.record_tail_append();

    let mut out = String::new();
    m.write_prometheus(&mut out);

    assert!(out.contains("scrollz_shadow_commits_total 2"), "{out}");
    assert!(out.contains("scrollz_shadow_reader_hits_total 3"), "{out}");
    assert!(out.contains("scrollz_shadow_reader_misses_total 1"), "{out}");
    assert!(out.contains("scrollz_shadow_tail_appends_total 1"), "{out}");
    assert!(out.contains("# TYPE scrollz_shadow_commits_total counter"));
    assert!(out.contains("# TYPE scrollz_shadow_reader_hits_total counter"));
    assert!(out.contains("# TYPE scrollz_shadow_reader_misses_total counter"));
    assert!(out.contains("# TYPE scrollz_shadow_tail_appends_total counter"));
    assert!(out.contains("# HELP scrollz_shadow_commits_total"));
}

#[test]
fn sum_of_latencies_is_told_in_seconds() {
    let mut m = Metrics::new();
    m.observe_fsync_latency_us(1_500_000);
    m.observe_fsync_latency_us(500_000);
    let mut out = String::new();
    m.write_prometheus(&mut out);
    assert_eq!(
        metric_line_value(&out, "scrollz_fsync_latency_seconds_sum "),
        Some("2")
    );
    m.observe_fsync_latency_us(1);
    let mut out = String::new();
    m.write_prometheus(&mut out);
    assert_eq!(
        metric_line_value(&out, "scrollz_fsync_latency_seconds_sum "),
        Some("2.000001")
    );
}

#[test]
fn root_inode_preset_to_1_and_path_empty() {
    let t = InodeTable::new();
    assert_eq!(t.path_of(ROOT_INO), Some(Vec::new()));
    assert_eq!(t.len(), 1);
}

#[test]
fn assigns_monotonically_increasing_ino_to_children() {
    let mut t = InodeTable::new();
    let a = t.lookup_or_insert(ROOT_INO, b"a.txt").unwrap();
    let b = t.lookup_or_insert(ROOT_INO, b"b.txt").unwrap();
    assert_eq!(a, 2);
    assert_eq!(b, 3);
    assert_eq!(t.path_of(a), Some(b"a.txt".to_vec()));
}

#[test]
fn repeated_lookup_same_path_reuses_ino_and_accumulates_refcount() {
    let mut t = InodeTable::new();
    let first = t.lookup_or_insert(ROOT_INO, b"x").unwrap();
    let second = t.lookup_or_insert(ROOT_INO, b"x").unwrap();
    assert_eq!(first, second);
    assert_eq!(t.lookup_count_of(first), Some(2));
}

#[test]
fn forget_to_zero_removes_from_table_except_root() {
    let mut t = InodeTable::new();
    let ino = t.lookup_or_insert(ROOT_INO, b"y").unwrap();
    assert!(t.forget(ino, 1));
    assert_eq!(t.path_of(ino), None);
    assert!(!t.forget(ROOT_INO, 100));
    assert_eq!(t.path_of(ROOT_INO), Some(Vec::new()));
}

#[test]
fn forget_partial_refcount_keeps_entry() {
    let mut t = InodeTable::new();
    let ino = t.lookup_or_insert(ROOT_INO, b"z").unwrap();
    t.lookup_or_insert(ROOT_INO, b"z").unwrap();
    assert!(!t.forget(ino, 1));
    assert_eq!(t.lookup_count_of(ino), Some(1));
}

#[test]
fn nested_path_joined_correctly() {
    let mut t = InodeTable::new();
    let dir = t.lookup_or_insert(ROOT_INO, b"sub").unwrap();
    let file = t.lookup_or_insert(dir, b"inner.txt").unwrap();
    assert_eq!(t.path_of(file), Some(b"sub/inner.txt".to_vec()));
}

#[test]
fn rename_path_updates_mapping() {
    let mut t = InodeTable::new();
    let ino = t.lookup_or_insert(ROOT_INO, b"old").unwrap();
    t.rename_path(b"old", b"new");
    assert_eq!(t.path_of(ino), Some(b"new".to_vec()));
}

#[test]
fn unknown_parent_has_no_children() {
    let mut t = InodeTable::new();
    assert_eq!(t.lookup_or_insert(9, b"x"), None);
    assert!(!t.forget(9, 1));
    assert!(!t.is_empty());
}

fn session(size: u64, chunk_size: u32, offset: u64, len: u32) -> ReadSession {
    match ReadSession::start(Some((size, chunk_size)), offset, len) {
        ReadStart::Session(s) => s,
        _ => panic!("nothing to read"),
    }
}

fn chunk(content: &[u8], chunk_size: usize, idx: u64) -> Vec<u8> {
    let from = idx as usize * chunk_size;
    content[from..(from + chunk_size).min(content.len())].to_vec()
}

#[test]
fn read_spans_chunks_byte_for_byte() {
    let content: Vec<u8> = (0..100u8).collect();
    let mut s = session(100, 16, 10, 50);
    assert_eq!(s.range(), (10, 50));
    while let Some((idx, _)) = s.need() {
        s.feed(&ChunkData::Stored(chunk(&content, 16, idx))).unwrap();
    }
    assert_eq!(s.finish(), &content[10..60]);
}

#[test]
fn read_beyond_the_end_is_cut_and_nothing_is_read_behind_it() {
    let content: Vec<u8> = (0..100u8).collect();
    let mut s = session(100, 16, 90, 50);
    while let Some((idx, _)) = s.need() {
        s.feed(&ChunkData::Stored(chunk(&content, 16, idx))).unwrap();
    }
    assert_eq!(s.finish(), &content[90..100]);
    assert!(matches!(
        ReadSession::start(Some((100, 16)), 100, 1),
        ReadStart::Empty
    ));
    assert!(matches!(
        ReadSession::start(Some((100, 16)), 0, 0),
        ReadStart::Empty
    ));
    assert!(matches!(ReadSession::start(None, 0, 1), ReadStart::NoFile));
}

#[test]
fn holes_and_short_tails_read_as_zeros() {
    let mut s = session(40, 16, 0, 40);
    assert_eq!(s.need(), Some((0, true)));
    s.feed(&ChunkData::Hole).unwrap();
    assert_eq!(s.need(), Some((1, true)));
    s.feed(&ChunkData::Stored(vec![7; 16])).unwrap();
    assert_eq!(s.need(), Some((2, false)));
    s.feed(&ChunkData::Tail(vec![9; 3])).unwrap();
    assert_eq!(s.need(), None);
    let mut want = vec![0u8; 16];
    want.extend_from_slice(&[7; 16]);
    want.extend_from_slice(&[9, 9, 9, 0, 0, 0, 0, 0]);
    assert_eq!(s.finish(), want);
}

#[test]
fn stored_chunk_that_is_too_short_is_an_error() {
    let mut s = session(40, 16, 0, 40);
    assert!(s.feed(&ChunkData::Stored(vec![1; 15])).is_err());
}

#[test]
fn head_cache_answers_what_it_covers() {
    let content: Vec<u8> = (0..100u8).collect();
    let s = session(100, 16, 5, 20);
    assert_eq!(s.from_head(&content[..32]), Some(content[5..25].to_vec()));
    assert_eq!(s.from_head(&content[..24]), None);
}

#[test]
fn forgetting_the_file_that_was_replaced_leaves_the_one_that_took_its_path() {
    let mut t = InodeTable::new();
    assert_eq!(t.lookup_or_insert(ROOT_INO, b"a"), Some(2));
    assert_eq!(t.lookup_or_insert(ROOT_INO, b"b"), Some(3));
    t.rename_path(b"a", b"b");
    assert!(t.forget(3, 1));
    assert_eq!(t.path_of(2), Some(b"b".to_vec()));
    assert_eq!(t.lookup_or_insert(ROOT_INO, b"b"), Some(2));
    assert_eq!(t.lookup_count_of(2), Some(2));
    t.rename_path(b"b", b"c");
    assert_eq!(t.path_of(2), Some(b"c".to_vec()));
    assert_eq!(t.lookup_count_of(2), Some(2));
    assert_eq!(t.lookup_or_insert(ROOT_INO, b"c"), Some(2));
    assert_eq!(t.lookup_or_insert(ROOT_INO, b"b"), Some(4));
    assert_eq!(t.len(), 3);
}

#[test]
fn known_path_leads_to_a_file_that_has_it() {
    let mut t = InodeTable::new();
    t.lookup_or_insert(ROOT_INO, b"a").unwrap();
    t.lookup_or_insert(ROOT_INO, b"b").unwrap();
    t.rename_path(b"a", b"b");
    assert_eq!(t.lookup_or_insert(ROOT_INO, b"b"), Some(2));
    t.rename_path(b"b", b"c");
    assert_eq!(t.path_of(3), Some(b"b".to_vec()));
    t.rename_path(b"b", b"d");
    assert_eq!(t.path_of(3), Some(b"d".to_vec()));
    t.rename_path(b"x", b"y");
    assert_eq!(t.len(), 3);
    assert_eq!(t.lookup_or_insert(ROOT_INO, b"d"), Some(3));
}

#[test]
fn defaults_are_what_new_gives() {
    let mut t = InodeTable::default();
    assert_eq!(t.path_of(ROOT_INO), Some(Vec::new()));
    assert_eq!(t.lookup_count_of(ROOT_INO), Some(1));
    assert_eq!(t.lookup_or_insert(ROOT_INO, b"a"), Some(2));
    let (mut a, mut b) = (String::new(), String::new());
    Metrics::default().write_prometheus(&mut a);
    Metrics::new().write_prometheus(&mut b);
    assert_eq!(a, b);
    assert!(a.contains("scrollz_commit_ok_total 0"));
}
