//! Counters and latency histograms, and their Prometheus text.
use vstd::prelude::*;
use vstd::string::*;

use crate::text;

verus! {

/// Upper bounds of the latency buckets in microseconds.
pub const LATENCY_BUCKETS_US: [u64; 11] = [
    50,
    100,
    250,
    500,
    1_000,
    2_500,
    5_000,
    10_000,
    25_000,
    50_000,
    100_000,
];

/// The sum of two counters, as a counter holds it.
pub open spec fn wrapped(a: u64, b: u64) -> u64 {
    ((a + b) % 0x1_0000_0000_0000_0000) as u64
}

/// A latency histogram.
#[derive(Debug, Clone, Copy)]
pub struct Histogram {
    buckets: [u64; 11],
    overflow: u64,
    sum_us: u64,
    count: u64,
}

/// What a latency histogram holds.
#[verifier::ext_equal]
pub struct HistogramView {
    /// Observations per bucket, each in the first bucket whose bound it does not exceed.
    pub buckets: Seq<u64>,
    /// Observations past the last bound.
    pub overflow: u64,
    /// Sum of all observations in microseconds.
    pub sum_us: u64,
    /// Number of observations.
    pub count: u64,
}

impl View for Histogram {
    type V = HistogramView;

    closed spec fn view(&self) -> HistogramView {
        HistogramView {
            buckets: self.buckets@,
            overflow: self.overflow,
            sum_us: self.sum_us,
            count: self.count,
        }
    }
}

/// The first bucket from `i` on whose bound is not exceeded; the number of buckets where every
/// bound is.
pub open spec fn bucket_from(us: u64, i: int) -> int
    decreases 11 - i,
{
    if i >= 11 {
        11
    } else if us <= LATENCY_BUCKETS_US@[i] {
        i
    } else {
        bucket_from(us, i + 1)
    }
}

/// The sum of the first `n` buckets.
pub open spec fn bucket_sum(buckets: Seq<u64>, n: int) -> nat
    decreases n,
{
    if n <= 0 {
        0
    } else {
        bucket_sum(buckets, n - 1) + buckets[n - 1] as nat
    }
}

/// What a bucket line tells: how many observations are no greater than the bound of bucket
/// `n - 1`, as a counter holds it.
pub open spec fn cumulative(buckets: Seq<u64>, n: int) -> u64
    decreases n,
{
    if n <= 0 {
        0
    } else {
        wrapped(cumulative(buckets, n - 1), buckets[n - 1])
    }
}

/// The line of a bucket.
#[verifier::opaque]
pub open spec fn bucket_line(name: Seq<char>, bound_us: u64, n: u64) -> Seq<char> {
    name + "_bucket{le=\""@ + text::millionths(bound_us as nat) + "\"} "@ + text::decimal(
        n as nat,
    ) + "\n"@
}

/// The line of a number.
#[verifier::opaque]
pub open spec fn number_line(name: Seq<char>, suffix: Seq<char>, n: u64) -> Seq<char> {
    name + suffix + text::decimal(n as nat) + "\n"@
}

/// The line of a time in seconds.
#[verifier::opaque]
pub open spec fn seconds_line(name: Seq<char>, suffix: Seq<char>, us: u64) -> Seq<char> {
    name + suffix + text::millionths(us as nat) + "\n"@
}

/// The two lines that say what a metric is.
#[verifier::opaque]
pub open spec fn head_lines(name: Seq<char>, typ: Seq<char>, help: Seq<char>) -> Seq<char> {
    "# HELP "@ + name + " "@ + help + "\n# TYPE "@ + name + " "@ + typ + "\n"@
}

/// The lines of the first `n` buckets.
pub open spec fn bucket_lines(name: Seq<char>, buckets: Seq<u64>, n: int) -> Seq<char>
    decreases n,
{
    if n <= 0 {
        Seq::empty()
    } else {
        bucket_lines(name, buckets, n - 1) + bucket_line(
            name,
            LATENCY_BUCKETS_US@[n - 1],
            cumulative(buckets, n),
        )
    }
}

/// The Prometheus text of a histogram.
pub open spec fn histogram_text(h: HistogramView, name: Seq<char>, help: Seq<char>) -> Seq<char> {
    head_lines(name, "histogram"@, help) + bucket_lines(name, h.buckets, 11) + number_line(
        name,
        "_bucket{le=\"+Inf\"} "@,
        h.total(),
    ) + seconds_line(name, "_sum "@, h.sum_us) + number_line(name, "_count "@, h.count)
}

impl HistogramView {
    /// A histogram without an observation.
    pub open spec fn empty() -> HistogramView {
        HistogramView { buckets: Seq::new(11, |i: int| 0u64), overflow: 0, sum_us: 0, count: 0 }
    }

    /// What the line of the unbounded bucket tells.
    pub open spec fn total(&self) -> u64 {
        wrapped(cumulative(self.buckets, 11), self.overflow)
    }

    /// Every observation is in one bucket or past the last bound.
    pub open spec fn wf(&self) -> bool {
        &&& self.buckets.len() == 11
        &&& self.total() == self.count
    }

    /// The histogram after an observation.
    pub open spec fn observed(&self, us: u64) -> HistogramView {
        let i = bucket_from(us, 0);
        HistogramView {
            buckets: if i < 11 {
                self.buckets.update(i, wrapped(self.buckets[i], 1))
            } else {
                self.buckets
            },
            overflow: if i < 11 {
                self.overflow
            } else {
                wrapped(self.overflow, 1)
            },
            sum_us: wrapped(self.sum_us, us),
            count: wrapped(self.count, 1),
        }
    }
}

proof fn bucket_from_bounds(us: u64, i: int)
    requires
        0 <= i <= 11,
    ensures
        i <= bucket_from(us, i) <= 11,
    decreases 11 - i,
{
    if i < 11 {
        bucket_from_bounds(us, i + 1);
    }
}

/// An observation counts in the first bucket whose bound it does not exceed.
pub proof fn bucket_is_first(us: u64, i: int)
    requires
        0 <= i < 11,
    ensures
        bucket_from(us, 0) == i <==> us <= LATENCY_BUCKETS_US@[i] && forall|j: int|
            0 <= j < i ==> us > #[trigger] LATENCY_BUCKETS_US@[j],
{
    bucket_is_first_from(us, 0, i);
}

proof fn bucket_is_first_from(us: u64, from: int, i: int)
    requires
        0 <= from <= i < 11,
    ensures
        bucket_from(us, from) == i <==> us <= LATENCY_BUCKETS_US@[i] && forall|j: int|
            from <= j < i ==> us > #[trigger] LATENCY_BUCKETS_US@[j],
    decreases i - from,
{
    bucket_from_bounds(us, from + 1);
    if from < i {
        bucket_is_first_from(us, from + 1, i);
        assert(us > LATENCY_BUCKETS_US@[from] || us <= LATENCY_BUCKETS_US@[from]);
    }
}

proof fn cumulative_is_sum(b: Seq<u64>, n: int)
    requires
        0 <= n <= b.len(),
    ensures
        cumulative(b, n) == bucket_sum(b, n) % 0x1_0000_0000_0000_0000,
    decreases n,
{
    if n > 0 {
        cumulative_is_sum(b, n - 1);
    }
}

proof fn bucket_sum_update(b: Seq<u64>, i: int, v: u64, n: int)
    requires
        0 <= i < b.len(),
        0 <= n <= b.len(),
    ensures
        bucket_sum(b.update(i, v), n) == bucket_sum(b, n) + (if i < n {
            v - b[i]
        } else {
            0
        }),
    decreases n,
{
    if n > 0 {
        bucket_sum_update(b, i, v, n - 1);
    }
}

proof fn total_is_sum(h: HistogramView)
    requires
        h.buckets.len() == 11,
    ensures
        h.total() == (bucket_sum(h.buckets, 11) + h.overflow) % 0x1_0000_0000_0000_0000,
{
    cumulative_is_sum(h.buckets, 11);
}

/// Adding one to any part of a sum adds one to the sum, wrapped or not.
proof fn wrapped_part(sum: int, sum2: int, a: u64, count: u64)
    requires
        sum2 == sum + wrapped(a, 1) - a,
        sum % 0x1_0000_0000_0000_0000 == count,
    ensures
        sum2 % 0x1_0000_0000_0000_0000 == wrapped(count, 1),
{
}

/// Observing keeps it that the unbounded bucket tells as many as were counted.
pub proof fn observing_keeps_total(h: HistogramView, us: u64)
    requires
        h.wf(),
    ensures
        h.observed(us).wf(),
{
    let i = bucket_from(us, 0);
    bucket_from_bounds(us, 0);
    let next = h.observed(us);
    total_is_sum(h);
    total_is_sum(next);
    let sum = bucket_sum(h.buckets, 11) + h.overflow;
    let sum2 = bucket_sum(next.buckets, 11) + next.overflow;
    if i < 11 {
        bucket_sum_update(h.buckets, i, wrapped(h.buckets[i], 1), 11);
        wrapped_part(sum, sum2, h.buckets[i], h.count);
    } else {
        wrapped_part(sum, sum2, h.overflow, h.count);
    }
}

/// The line of the unbounded bucket and the line of the count tell the same number.
pub proof fn unbounded_bucket_equals_count(h: HistogramView)
    requires
        h.wf(),
    ensures
        text::decimal(h.total() as nat) == text::decimal(h.count as nat),
{
}

/// The bucket lines do not decrease, as long as no counter has wrapped.
pub proof fn buckets_are_monotone(h: HistogramView, m: int, n: int)
    requires
        0 <= m <= n <= 11,
        h.buckets.len() == 11,
        bucket_sum(h.buckets, 11) + h.overflow <= u64::MAX,
    ensures
        cumulative(h.buckets, m) <= cumulative(h.buckets, n) <= h.total(),
    decreases n - m,
{
    cumulative_is_sum(h.buckets, m);
    cumulative_is_sum(h.buckets, n);
    cumulative_is_sum(h.buckets, 11);
    bucket_sum_monotone(h.buckets, m, n);
    bucket_sum_monotone(h.buckets, n, 11);
}

proof fn bucket_sum_monotone(b: Seq<u64>, m: int, n: int)
    requires
        0 <= m <= n <= b.len(),
    ensures
        bucket_sum(b, m) <= bucket_sum(b, n),
    decreases n - m,
{
    if m < n {
        bucket_sum_monotone(b, m, n - 1);
    }
}

impl Histogram {
    /// A histogram without an observation.
    pub fn new() -> (h: Histogram)
        ensures
            h@ == HistogramView::empty(),
            h@.wf(),
    {
        let h: Histogram = Histogram { buckets: [0; 11], overflow: 0, sum_us: 0, count: 0 };
        assert(h@.buckets =~= HistogramView::empty().buckets);
        proof {
            cumulative_is_sum(h@.buckets, 11);
            empty_sum(h@.buckets, 11);
        }
        h
    }

    /// Counts an observation in the first bucket whose bound it does not exceed.
    pub fn observe_us(&mut self, us: u64)
        requires
            old(self)@.wf(),
        ensures
            final(self)@ == old(self)@.observed(us),
            final(self)@.wf(),
    {
        let ghost before = self@;
        proof {
            observing_keeps_total(self@, us);
            bucket_from_bounds(us, 0);
        }
        let mut i: usize = 0;
        while i < 11 && us > LATENCY_BUCKETS_US[i]
            invariant
                i <= 11,
                bucket_from(us, 0) == bucket_from(us, i as int),
            decreases 11 - i,
        {
            i = i + 1;
        }
        if i < 11 {
            self.buckets[i] = self.buckets[i].wrapping_add(1);
        } else {
            self.overflow = self.overflow.wrapping_add(1);
        }
        self.sum_us = self.sum_us.wrapping_add(us);
        self.count = self.count.wrapping_add(1);
        assert(self@.buckets =~= before.observed(us).buckets);
    }

    /// Appends the histogram's Prometheus text.
    pub fn write_prometheus(&self, out: &mut String, name: &str, help: &str)
        requires
            self@.wf(),
        ensures
            final(out)@ == old(out)@ + histogram_text(self@, name@, help@),
    {
        let ghost before = out@;
        push_head(out, name, "histogram", help);
        let ghost head = head_lines(name@, "histogram"@, help@);
        let mut cum: u64 = 0;
        let mut i: usize = 0;
        assert(before + head + bucket_lines(name@, self@.buckets, 0) =~= before + head);
        while i < 11
            invariant
                i <= 11,
                self@.buckets.len() == 11,
                cum == cumulative(self@.buckets, i as int),
                out@ == before + head + bucket_lines(name@, self@.buckets, i as int),
            decreases 11 - i,
        {
            let ghost listed = bucket_lines(name@, self@.buckets, i as int);
            cum = cum.wrapping_add(self.buckets[i]);
            let bound: u64 = LATENCY_BUCKETS_US[i];
            push_bucket(out, name, bound, cum);
            i = i + 1;
            assert(before + head + listed + bucket_line(name@, bound, cum) =~= before + head + (
            listed + bucket_line(name@, bound, cum)));
        }
        cum = cum.wrapping_add(self.overflow);
        push_number(out, name, "_bucket{le=\"+Inf\"} ", cum);
        push_seconds(out, name, "_sum ", self.sum_us);
        push_number(out, name, "_count ", self.count);
        assert(out@ =~= before + histogram_text(self@, name@, help@));
    }
}

fn push_head(out: &mut String, name: &str, typ: &str, help: &str)
    ensures
        final(out)@ == old(out)@ + head_lines(name@, typ@, help@),
{
    reveal(head_lines);
    let ghost before = out@;
    out.append("# HELP ");
    out.append(name);
    out.append(" ");
    out.append(help);
    out.append("\n# TYPE ");
    out.append(name);
    out.append(" ");
    out.append(typ);
    out.append("\n");
    assert(out@ =~= before + head_lines(name@, typ@, help@));
}

fn push_bucket(out: &mut String, name: &str, bound_us: u64, n: u64)
    ensures
        final(out)@ == old(out)@ + bucket_line(name@, bound_us, n),
{
    reveal(bucket_line);
    let ghost before = out@;
    out.append(name);
    out.append("_bucket{le=\"");
    text::push_millionths(out, bound_us);
    out.append("\"} ");
    text::push_decimal(out, n);
    out.append("\n");
    assert(out@ =~= before + bucket_line(name@, bound_us, n));
}

fn push_number(out: &mut String, name: &str, suffix: &str, n: u64)
    ensures
        final(out)@ == old(out)@ + number_line(name@, suffix@, n),
{
    reveal(number_line);
    let ghost before = out@;
    out.append(name);
    out.append(suffix);
    text::push_decimal(out, n);
    out.append("\n");
    assert(out@ =~= before + number_line(name@, suffix@, n));
}

fn push_seconds(out: &mut String, name: &str, suffix: &str, us: u64)
    ensures
        final(out)@ == old(out)@ + seconds_line(name@, suffix@, us),
{
    reveal(seconds_line);
    let ghost before = out@;
    out.append(name);
    out.append(suffix);
    text::push_millionths(out, us);
    out.append("\n");
    assert(out@ =~= before + seconds_line(name@, suffix@, us));
}

proof fn empty_sum(b: Seq<u64>, n: int)
    requires
        0 <= n <= b.len(),
        forall|i: int| 0 <= i < b.len() ==> b[i] == 0,
    ensures
        bucket_sum(b, n) == 0,
    decreases n,
{
    if n > 0 {
        empty_sum(b, n - 1);
    }
}

impl Default for Histogram {
    fn default() -> (h: Histogram)
        ensures
            h@ == HistogramView::empty(),
            h@.wf(),
    {
        Histogram::new()
    }
}

/// The metrics of the whole program.
#[derive(Debug, Clone, Copy)]
pub struct Metrics {
    /// Commits that succeeded.
    pub commit_ok: u64,
    /// Commits that failed and whose content was merged back.
    pub commit_failed: u64,
    /// Blocks written to the backend.
    pub blocks_flushed: u64,
    /// Most bytes seen in the flushing buffer.
    pub flushing_bytes_peak: u64,
    /// Reads that succeeded.
    pub fuse_read_ops: u64,
    /// Bytes returned by reads.
    pub fuse_read_bytes: u64,
    /// Writes that succeeded.
    pub fuse_write_ops: u64,
    /// Bytes taken by writes.
    pub fuse_write_bytes: u64,
    /// Barriers that succeeded.
    pub fuse_fsync_ops: u64,
    /// Operations that returned an error.
    pub fuse_errors: u64,
    /// Blocks found in the block cache.
    pub blockcache_hits: u64,
    /// Blocks not found in the block cache.
    pub blockcache_misses: u64,
    /// Tails sealed into a block.
    pub seals: u64,
    /// Sessions that the shadow tree committed.
    pub shadow_commits: u64,
    /// Readers found in the reader cache.
    pub shadow_reader_hits: u64,
    /// Readers not found in the reader cache.
    pub shadow_reader_misses: u64,
    /// Journal records that the shadow tree appended.
    pub shadow_tail_appends: u64,
    /// How long reads took.
    pub read_latency: Histogram,
    /// How long writes took.
    pub write_latency: Histogram,
    /// How long barriers took.
    pub fsync_latency: Histogram,
}

/// The Prometheus text of a single number.
pub open spec fn metric_text(name: Seq<char>, typ: Seq<char>, help: Seq<char>, val: u64) -> Seq<
    char,
> {
    head_lines(name, typ, help) + number_line(name, " "@, val)
}

fn emit(out: &mut String, name: &str, typ: &str, help: &str, val: u64)
    ensures
        final(out)@ == old(out)@ + metric_text(name@, typ@, help@, val),
{
    let ghost before = out@;
    push_head(out, name, typ, help);
    push_number(out, name, " ", val);
    assert(out@ =~= before + metric_text(name@, typ@, help@, val));
}

/// The Prometheus text of the counters.
pub open spec fn counters_text(m: Metrics) -> Seq<char> {
    metric_text("scrollz_commit_ok_total"@, "counter"@, "container 提交成功次数"@, m.commit_ok)
    + metric_text("scrollz_commit_failed_total"@, "counter"@, "提交失败并合并回 active（避免数据丢失）次数"@, m.commit_failed)
    + metric_text("scrollz_blocks_flushed_total"@, "counter"@, "累计落后端的块数"@, m.blocks_flushed)
    + metric_text("scrollz_flushing_bytes_peak"@, "gauge"@, "flushing 缓冲字节峰值"@, m.flushing_bytes_peak)
    + metric_text("scrollz_fuse_read_ops_total"@, "counter"@, "FUSE read 成功次数"@, m.fuse_read_ops)
    + metric_text("scrollz_fuse_read_bytes_total"@, "counter"@, "FUSE read 累计返回字节数"@, m.fuse_read_bytes)
    + metric_text("scrollz_fuse_write_ops_total"@, "counter"@, "FUSE write 成功次数"@, m.fuse_write_ops)
    + metric_text("scrollz_fuse_write_bytes_total"@, "counter"@, "FUSE write 累计写入字节数"@, m.fuse_write_bytes)
    + metric_text("scrollz_fuse_fsync_ops_total"@, "counter"@, "fsync+flush 同步操作次数"@, m.fuse_fsync_ops)
    + metric_text("scrollz_fuse_errors_total"@, "counter"@, "read/write/fsync/flush 返回错误次数"@, m.fuse_errors)
    + metric_text("scrollz_blockcache_hits_total"@, "counter"@, "block_cache 命中（read_range 内部块免整块解压）次数"@, m.blockcache_hits)
    + metric_text("scrollz_blockcache_misses_total"@, "counter"@, "block_cache 未命中（read_range 内部块走 Store + 解压）次数"@, m.blockcache_misses)
    + metric_text("scrollz_seals_total"@, "counter"@, "尾块封块/重压落后端次数"@, m.seals)
    + metric_text("scrollz_shadow_commits_total"@, "counter"@, "ShadowStore（布局 S）脏会话提交次数"@, m.shadow_commits)
    + metric_text("scrollz_shadow_reader_hits_total"@, "counter"@, "ShadowStore ArchiveReader 缓存命中（免重解析 footer/index）次数"@, m.shadow_reader_hits)
    + metric_text("scrollz_shadow_reader_misses_total"@, "counter"@, "ShadowStore ArchiveReader 缓存未命中（打开并解析新 reader）次数"@, m.shadow_reader_misses)
    + metric_text("scrollz_shadow_tail_appends_total"@, "counter"@, "ShadowStore 尾日志增量追加（append_tail）次数"@, m.shadow_tail_appends)
}

/// The Prometheus text of all metrics.
pub open spec fn prometheus_text(m: Metrics) -> Seq<char> {
    counters_text(m)
    + histogram_text(m.read_latency@, "scrollz_read_latency_seconds"@, "FUSE read handler 端到端延迟（秒）"@)
    + histogram_text(m.write_latency@, "scrollz_write_latency_seconds"@, "FUSE write handler 端到端延迟（秒）"@)
    + histogram_text(m.fsync_latency@, "scrollz_fsync_latency_seconds"@, "FUSE fsync/flush handler 端到端延迟（秒）"@)
}

impl Metrics {
    /// The histograms count every observation once.
    pub open spec fn wf(&self) -> bool {
        self.read_latency@.wf() && self.write_latency@.wf() && self.fsync_latency@.wf()
    }

    /// Metrics of nothing yet.
    pub fn new() -> (m: Metrics)
        ensures
            m.wf(),
            m.commit_ok == 0,
            m.commit_failed == 0,
            m.blocks_flushed == 0,
            m.flushing_bytes_peak == 0,
            m.fuse_read_ops == 0,
            m.fuse_read_bytes == 0,
            m.fuse_write_ops == 0,
            m.fuse_write_bytes == 0,
            m.fuse_fsync_ops == 0,
            m.fuse_errors == 0,
            m.blockcache_hits == 0,
            m.blockcache_misses == 0,
            m.seals == 0,
            m.shadow_commits == 0,
            m.shadow_reader_hits == 0,
            m.shadow_reader_misses == 0,
            m.shadow_tail_appends == 0,
            m.read_latency@ == HistogramView::empty(),
            m.write_latency@ == HistogramView::empty(),
            m.fsync_latency@ == HistogramView::empty(),
    {
        Metrics {
            commit_ok: 0,
            commit_failed: 0,
            blocks_flushed: 0,
            flushing_bytes_peak: 0,
            fuse_read_ops: 0,
            fuse_read_bytes: 0,
            fuse_write_ops: 0,
            fuse_write_bytes: 0,
            fuse_fsync_ops: 0,
            fuse_errors: 0,
            blockcache_hits: 0,
            blockcache_misses: 0,
            seals: 0,
            shadow_commits: 0,
            shadow_reader_hits: 0,
            shadow_reader_misses: 0,
            shadow_tail_appends: 0,
            read_latency: Histogram::new(),
            write_latency: Histogram::new(),
            fsync_latency: Histogram::new(),
        }
    }

    /// A commit succeeded and wrote that many blocks.
    pub fn record_commit_ok(&mut self, blocks: u64)
        ensures
            *final(self) == (Metrics {
                commit_ok: wrapped(old(self).commit_ok, 1),
                blocks_flushed: wrapped(old(self).blocks_flushed, blocks),
                ..*old(self)
            }),
    {
        self.commit_ok = self.commit_ok.wrapping_add(1);
        self.blocks_flushed = self.blocks_flushed.wrapping_add(blocks);
    }

    /// A commit failed; its content waits for the next one.
    pub fn record_commit_failed(&mut self)
        ensures
            *final(self) == (Metrics {
                commit_failed: wrapped(old(self).commit_failed, 1),
                ..*old(self)
            }),
    {
        self.commit_failed = self.commit_failed.wrapping_add(1);
    }

    /// A read returned that many bytes.
    pub fn record_read(&mut self, bytes: u64)
        ensures
            *final(self) == (Metrics {
                fuse_read_ops: wrapped(old(self).fuse_read_ops, 1),
                fuse_read_bytes: wrapped(old(self).fuse_read_bytes, bytes),
                ..*old(self)
            }),
    {
        self.fuse_read_ops = self.fuse_read_ops.wrapping_add(1);
        self.fuse_read_bytes = self.fuse_read_bytes.wrapping_add(bytes);
    }

    /// A write took that many bytes.
    pub fn record_write(&mut self, bytes: u64)
        ensures
            *final(self) == (Metrics {
                fuse_write_ops: wrapped(old(self).fuse_write_ops, 1),
                fuse_write_bytes: wrapped(old(self).fuse_write_bytes, bytes),
                ..*old(self)
            }),
    {
        self.fuse_write_ops = self.fuse_write_ops.wrapping_add(1);
        self.fuse_write_bytes = self.fuse_write_bytes.wrapping_add(bytes);
    }

    /// A barrier succeeded.
    pub fn record_fsync(&mut self)
        ensures
            *final(self) == (Metrics {
                fuse_fsync_ops: wrapped(old(self).fuse_fsync_ops, 1),
                ..*old(self)
            }),
    {
        self.fuse_fsync_ops = self.fuse_fsync_ops.wrapping_add(1);
    }

    /// An operation returned an error.
    pub fn record_fuse_error(&mut self)
        ensures
            *final(self) == (Metrics {
                fuse_errors: wrapped(old(self).fuse_errors, 1),
                ..*old(self)
            }),
    {
        self.fuse_errors = self.fuse_errors.wrapping_add(1);
    }

    /// A block was found in the block cache.
    pub fn record_cache_hit(&mut self)
        ensures
            *final(self) == (Metrics {
                blockcache_hits: wrapped(old(self).blockcache_hits, 1),
                ..*old(self)
            }),
    {
        self.blockcache_hits = self.blockcache_hits.wrapping_add(1);
    }

    /// A block was not found in the block cache.
    pub fn record_cache_miss(&mut self)
        ensures
            *final(self) == (Metrics {
                blockcache_misses: wrapped(old(self).blockcache_misses, 1),
                ..*old(self)
            }),
    {
        self.blockcache_misses = self.blockcache_misses.wrapping_add(1);
    }

    /// A tail was sealed.
    pub fn record_seal(&mut self)
        ensures
            *final(self) == (Metrics {
                seals: wrapped(old(self).seals, 1),
                ..*old(self)
            }),
    {
        self.seals = self.seals.wrapping_add(1);
    }

    /// The shadow tree committed a session.
    pub fn record_shadow_commit(&mut self)
        ensures
            *final(self) == (Metrics {
                shadow_commits: wrapped(old(self).shadow_commits, 1),
                ..*old(self)
            }),
    {
        self.shadow_commits = self.shadow_commits.wrapping_add(1);
    }

    /// A reader was found in the reader cache.
    pub fn record_reader_hit(&mut self)
        ensures
            *final(self) == (Metrics {
                shadow_reader_hits: wrapped(old(self).shadow_reader_hits, 1),
                ..*old(self)
            }),
    {
        self.shadow_reader_hits = self.shadow_reader_hits.wrapping_add(1);
    }

    /// A reader was not found in the reader cache.
    pub fn record_reader_miss(&mut self)
        ensures
            *final(self) == (Metrics {
                shadow_reader_misses: wrapped(old(self).shadow_reader_misses, 1),
                ..*old(self)
            }),
    {
        self.shadow_reader_misses = self.shadow_reader_misses.wrapping_add(1);
    }

    /// The shadow tree appended a journal record.
    pub fn record_tail_append(&mut self)
        ensures
            *final(self) == (Metrics {
                shadow_tail_appends: wrapped(old(self).shadow_tail_appends, 1),
                ..*old(self)
            }),
    {
        self.shadow_tail_appends = self.shadow_tail_appends.wrapping_add(1);
    }

    /// Number of sealed tails.
    pub fn seals(&self) -> (n: u64)
        ensures
            n == self.seals,
    {
        self.seals
    }

    /// The flushing buffer holds that many bytes; the peak only rises.
    pub fn observe_flushing_bytes(&mut self, bytes: u64)
        ensures
            *final(self) == (Metrics {
                flushing_bytes_peak: if bytes > old(self).flushing_bytes_peak {
                    bytes
                } else {
                    old(self).flushing_bytes_peak
                },
                ..*old(self)
            }),
    {
        if bytes > self.flushing_bytes_peak {
            self.flushing_bytes_peak = bytes;
        }
    }

    /// Observes how long reads took, in microseconds.
    pub fn observe_read_latency_us(&mut self, us: u64)
        requires
            old(self).wf(),
        ensures
            final(self).wf(),
            *final(self) == (Metrics { read_latency: final(self).read_latency, ..*old(self) }),
            final(self).read_latency@ == old(self).read_latency@.observed(us),
    {
        self.read_latency.observe_us(us);
    }

    /// Observes how long writes took, in microseconds.
    pub fn observe_write_latency_us(&mut self, us: u64)
        requires
            old(self).wf(),
        ensures
            final(self).wf(),
            *final(self) == (Metrics { write_latency: final(self).write_latency, ..*old(self) }),
            final(self).write_latency@ == old(self).write_latency@.observed(us),
    {
        self.write_latency.observe_us(us);
    }

    /// Observes how long barriers took, in microseconds.
    pub fn observe_fsync_latency_us(&mut self, us: u64)
        requires
            old(self).wf(),
        ensures
            final(self).wf(),
            *final(self) == (Metrics { fsync_latency: final(self).fsync_latency, ..*old(self) }),
            final(self).fsync_latency@ == old(self).fsync_latency@.observed(us),
    {
        self.fsync_latency.observe_us(us);
    }

    /// Appends the Prometheus text of all metrics.
    #[verifier::spinoff_prover]
    #[verifier::rlimit(60)]
    pub fn write_prometheus(&self, out: &mut String)
        requires
            self.wf(),
        ensures
            final(out)@ == old(out)@ + prometheus_text(*self),
    {
        let ghost before = out@;
        emit(
            out,
            "scrollz_commit_ok_total",
            "counter",
            "container 提交成功次数",
            self.commit_ok,
        );
        let ghost t1 = metric_text("scrollz_commit_ok_total"@, "counter"@, "container 提交成功次数"@, self.commit_ok);
        assert(out@ =~= before + t1);
        emit(
            out,
            "scrollz_commit_failed_total",
            "counter",
            "提交失败并合并回 active（避免数据丢失）次数",
            self.commit_failed,
        );
        let ghost t2 = t1 + metric_text(
            "scrollz_commit_failed_total"@,
            "counter"@,
            "提交失败并合并回 active（避免数据丢失）次数"@,
            self.commit_failed,
        );
        assert(out@ =~= before + t2);
        emit(
            out,
            "scrollz_blocks_flushed_total",
            "counter",
            "累计落后端的块数",
            self.blocks_flushed,
        );
        let ghost t3 = t2 + metric_text(
            "scrollz_blocks_flushed_total"@,
            "counter"@,
            "累计落后端的块数"@,
            self.blocks_flushed,
        );
        assert(out@ =~= before + t3);
        emit(
            out,
            "scrollz_flushing_bytes_peak",
            "gauge",
            "flushing 缓冲字节峰值",
            self.flushing_bytes_peak,
        );
        let ghost t4 = t3 + metric_text(
            "scrollz_flushing_bytes_peak"@,
            "gauge"@,
            "flushing 缓冲字节峰值"@,
            self.flushing_bytes_peak,
        );
        assert(out@ =~= before + t4);
        emit(
            out,
            "scrollz_fuse_read_ops_total",
            "counter",
            "FUSE read 成功次数",
            self.fuse_read_ops,
        );
        let ghost t5 = t4 + metric_text(
            "scrollz_fuse_read_ops_total"@,
            "counter"@,
            "FUSE read 成功次数"@,
            self.fuse_read_ops,
        );
        assert(out@ =~= before + t5);
        emit(
            out,
            "scrollz_fuse_read_bytes_total",
            "counter",
            "FUSE read 累计返回字节数",
            self.fuse_read_bytes,
        );
        let ghost t6 = t5 + metric_text(
            "scrollz_fuse_read_bytes_total"@,
            "counter"@,
            "FUSE read 累计返回字节数"@,
            self.fuse_read_bytes,
        );
        assert(out@ =~= before + t6);
        emit(
            out,
            "scrollz_fuse_write_ops_total",
            "counter",
            "FUSE write 成功次数",
            self.fuse_write_ops,
        );
        let ghost t7 = t6 + metric_text(
            "scrollz_fuse_write_ops_total"@,
            "counter"@,
            "FUSE write 成功次数"@,
            self.fuse_write_ops,
        );
        assert(out@ =~= before + t7);
        emit(
            out,
            "scrollz_fuse_write_bytes_total",
            "counter",
            "FUSE write 累计写入字节数",
            self.fuse_write_bytes,
        );
        let ghost t8 = t7 + metric_text(
            "scrollz_fuse_write_bytes_total"@,
            "counter"@,
            "FUSE write 累计写入字节数"@,
            self.fuse_write_bytes,
        );
        assert(out@ =~= before + t8);
        emit(
            out,
            "scrollz_fuse_fsync_ops_total",
            "counter",
            "fsync+flush 同步操作次数",
            self.fuse_fsync_ops,
        );
        let ghost t9 = t8 + metric_text(
            "scrollz_fuse_fsync_ops_total"@,
            "counter"@,
            "fsync+flush 同步操作次数"@,
            self.fuse_fsync_ops,
        );
        assert(out@ =~= before + t9);
        emit(
            out,
            "scrollz_fuse_errors_total",
            "counter",
            "read/write/fsync/flush 返回错误次数",
            self.fuse_errors,
        );
        let ghost t10 = t9 + metric_text(
            "scrollz_fuse_errors_total"@,
            "counter"@,
            "read/write/fsync/flush 返回错误次数"@,
            self.fuse_errors,
        );
        assert(out@ =~= before + t10);
        emit(
            out,
            "scrollz_blockcache_hits_total",
            "counter",
            "block_cache 命中（read_range 内部块免整块解压）次数",
            self.blockcache_hits,
        );
        let ghost t11 = t10 + metric_text(
            "scrollz_blockcache_hits_total"@,
            "counter"@,
            "block_cache 命中（read_range 内部块免整块解压）次数"@,
            self.blockcache_hits,
        );
        assert(out@ =~= before + t11);
        emit(
            out,
            "scrollz_blockcache_misses_total",
            "counter",
            "block_cache 未命中（read_range 内部块走 Store + 解压）次数",
            self.blockcache_misses,
        );
        let ghost t12 = t11 + metric_text(
            "scrollz_blockcache_misses_total"@,
            "counter"@,
            "block_cache 未命中（read_range 内部块走 Store + 解压）次数"@,
            self.blockcache_misses,
        );
        assert(out@ =~= before + t12);
        emit(
            out,
            "scrollz_seals_total",
            "counter",
            "尾块封块/重压落后端次数",
            self.seals,
        );
        let ghost t13 = t12 + metric_text(
            "scrollz_seals_total"@,
            "counter"@,
            "尾块封块/重压落后端次数"@,
            self.seals,
        );
        assert(out@ =~= before + t13);
        emit(
            out,
            "scrollz_shadow_commits_total",
            "counter",
            "ShadowStore（布局 S）脏会话提交次数",
            self.shadow_commits,
        );
        let ghost t14 = t13 + metric_text(
            "scrollz_shadow_commits_total"@,
            "counter"@,
            "ShadowStore（布局 S）脏会话提交次数"@,
            self.shadow_commits,
        );
        assert(out@ =~= before + t14);
        emit(
            out,
            "scrollz_shadow_reader_hits_total",
            "counter",
            "ShadowStore ArchiveReader 缓存命中（免重解析 footer/index）次数",
            self.shadow_reader_hits,
        );
        let ghost t15 = t14 + metric_text(
            "scrollz_shadow_reader_hits_total"@,
            "counter"@,
            "ShadowStore ArchiveReader 缓存命中（免重解析 footer/index）次数"@,
            self.shadow_reader_hits,
        );
        assert(out@ =~= before + t15);
        emit(
            out,
            "scrollz_shadow_reader_misses_total",
            "counter",
            "ShadowStore ArchiveReader 缓存未命中（打开并解析新 reader）次数",
            self.shadow_reader_misses,
        );
        let ghost t16 = t15 + metric_text(
            "scrollz_shadow_reader_misses_total"@,
            "counter"@,
            "ShadowStore ArchiveReader 缓存未命中（打开并解析新 reader）次数"@,
            self.shadow_reader_misses,
        );
        assert(out@ =~= before + t16);
        emit(
            out,
            "scrollz_shadow_tail_appends_total",
            "counter",
            "ShadowStore 尾日志增量追加（append_tail）次数",
            self.shadow_tail_appends,
        );
        let ghost t17 = t16 + metric_text(
            "scrollz_shadow_tail_appends_total"@,
            "counter"@,
            "ShadowStore 尾日志增量追加（append_tail）次数"@,
            self.shadow_tail_appends,
        );
        assert(out@ =~= before + t17);
        assert(t17 == counters_text(*self));
        self.read_latency.write_prometheus(
            out,
            "scrollz_read_latency_seconds",
            "FUSE read handler 端到端延迟（秒）",
        );
        let ghost t18 = t17 + histogram_text(
            self.read_latency@,
            "scrollz_read_latency_seconds"@,
            "FUSE read handler 端到端延迟（秒）"@,
        );
        assert(out@ =~= before + t18);
        self.write_latency.write_prometheus(
            out,
            "scrollz_write_latency_seconds",
            "FUSE write handler 端到端延迟（秒）",
        );
        let ghost t19 = t18 + histogram_text(
            self.write_latency@,
            "scrollz_write_latency_seconds"@,
            "FUSE write handler 端到端延迟（秒）"@,
        );
        assert(out@ =~= before + t19);
        self.fsync_latency.write_prometheus(
            out,
            "scrollz_fsync_latency_seconds",
            "FUSE fsync/flush handler 端到端延迟（秒）",
        );
        let ghost t20 = t19 + histogram_text(
            self.fsync_latency@,
            "scrollz_fsync_latency_seconds"@,
            "FUSE fsync/flush handler 端到端延迟（秒）"@,
        );
        assert(out@ =~= before + t20);
    }
}

impl Default for Metrics {
    fn default() -> (m: Metrics)
        ensures
            m.wf(),
            m.commit_ok == 0,
            m.commit_failed == 0,
            m.blocks_flushed == 0,
            m.flushing_bytes_peak == 0,
            m.fuse_read_ops == 0,
            m.fuse_read_bytes == 0,
            m.fuse_write_ops == 0,
            m.fuse_write_bytes == 0,
            m.fuse_fsync_ops == 0,
            m.fuse_errors == 0,
            m.blockcache_hits == 0,
            m.blockcache_misses == 0,
            m.seals == 0,
            m.shadow_commits == 0,
            m.shadow_reader_hits == 0,
            m.shadow_reader_misses == 0,
            m.shadow_tail_appends == 0,
            m.read_latency@ == HistogramView::empty(),
            m.write_latency@ == HistogramView::empty(),
            m.fsync_latency@ == HistogramView::empty(),
    {
        Metrics::new()
    }
}

/// Counters add up until they come round.
pub proof fn counters_add_up(a: u64, b: u64)
    ensures
        a + b <= u64::MAX ==> wrapped(a, b) == a + b,
        a + b > u64::MAX ==> wrapped(a, b) == a + b - u64::MAX - 1,
{
}

/// An observation is counted once, in the bucket with the least bound that it does not exceed or past
/// the last bound, and every other bucket stays; its time is added, and the number grows by one.
pub proof fn observation_is_counted_once(h: HistogramView, us: u64, j: int)
    requires
        h.wf(),
        0 <= j < 11,
        h.count < u64::MAX,
        h.overflow < u64::MAX,
        h.buckets[j] < u64::MAX,
        h.sum_us + us <= u64::MAX,
    ensures
        ({
            let w = h.observed(us);
            let here = us <= LATENCY_BUCKETS_US@[j] && (j == 0 || us > LATENCY_BUCKETS_US@[j - 1]);
            &&& w.count == h.count + 1
            &&& w.sum_us == h.sum_us + us
            &&& w.buckets.len() == 11
            &&& here ==> w.buckets[j] == h.buckets[j] + 1
            &&& !here ==> w.buckets[j] == h.buckets[j]
            &&& us > 100_000 ==> w.overflow == h.overflow + 1
            &&& us <= 100_000 ==> w.overflow == h.overflow
        }),
{
    bounds_grow();
    bucket_from_bounds(us, 0);
    bucket_is_first(us, j);
    bucket_is_first(us, 10);
    let i = bucket_from(us, 0);
    if i < 11 {
        bucket_is_first(us, i);
    } else if us <= 100_000 {
        last_bound_catches(us, 0);
    }
    if us <= LATENCY_BUCKETS_US@[j] && (j == 0 || us > LATENCY_BUCKETS_US@[j - 1]) {
        assert forall|k: int| 0 <= k < j implies us > #[trigger] LATENCY_BUCKETS_US@[k] by {
            assert(LATENCY_BUCKETS_US@[k] <= LATENCY_BUCKETS_US@[j - 1]);
        }
    } else if i == j && j > 0 {
        assert(us > LATENCY_BUCKETS_US@[j - 1]);
    }
}

proof fn last_bound_catches(us: u64, from: int)
    requires
        us <= 100_000,
        0 <= from <= 10,
    ensures
        bucket_from(us, from) < 11,
    decreases 11 - from,
{
    if from < 10 {
        last_bound_catches(us, from + 1);
    }
}

/// The bounds of the buckets grow, from fifty microseconds to a tenth of a second.
pub proof fn bounds_grow()
    ensures
        LATENCY_BUCKETS_US@.len() == 11,
        LATENCY_BUCKETS_US@ == seq![
            50u64,
            100,
            250,
            500,
            1_000,
            2_500,
            5_000,
            10_000,
            25_000,
            50_000,
            100_000,
        ],
        forall|i: int, j: int|
            0 <= i < j < 11 ==> #[trigger] LATENCY_BUCKETS_US@[i] < #[trigger] LATENCY_BUCKETS_US@[j],
{
}

/// The line of a bucket tells how many observations do not exceed its bound: those of all buckets up
/// to it.
pub proof fn bucket_tells_all_up_to_it(b: Seq<u64>, n: int)
    requires
        0 <= n < b.len(),
        bucket_sum(b, n + 1) <= u64::MAX,
    ensures
        cumulative(b, 0) == 0,
        cumulative(b, n + 1) == cumulative(b, n) + b[n],
        cumulative(b, n + 1) == bucket_sum(b, n + 1),
{
    cumulative_is_sum(b, n);
    cumulative_is_sum(b, n + 1);
    bucket_sum_monotone(b, n, n + 1);
}
proof fn stands_in_sum(a: Seq<char>, b: Seq<char>, part: Seq<char>)
    ensures
        text::stands_in(a, part) || text::stands_in(b, part) ==> text::stands_in(a + b, part),
{
    if text::stands_in(a, part) {
        let i = choose|i: int|
            0 <= i && i + part.len() <= a.len() && #[trigger] a.subrange(i, i + part.len())
                == part;
        assert((a + b).subrange(i, i + part.len()) =~= part);
    } else if text::stands_in(b, part) {
        let i = choose|i: int|
            0 <= i && i + part.len() <= b.len() && #[trigger] b.subrange(i, i + part.len())
                == part;
        let at = i + a.len();
        assert((a + b).subrange(at, at + part.len()) =~= part);
    }
}

/// The line that tells a counter of that name.
pub open spec fn told(name: Seq<char>, n: u64) -> Seq<char> {
    name + seq![' '] + text::decimal(n as nat) + seq!['\n']
}

proof fn metric_is_told(name: Seq<char>, typ: Seq<char>, help: Seq<char>, n: u64)
    ensures
        text::stands_in(metric_text(name, typ, help, n), told(name, n)),
{
    reveal(number_line);
    reveal_strlit(" ");
    reveal_strlit("\n");
    let line = number_line(name, " "@, n);
    assert(" "@ =~= seq![' ']);
    assert("\n"@ =~= seq!['\n']);
    assert(line =~= told(name, n));
    assert(line.subrange(0int, 0int + told(name, n).len()) =~= told(name, n));
    stands_in_sum(head_lines(name, typ, help), line, told(name, n));
}

proof fn sum_keeps_what_stands(a: Seq<char>, b: Seq<char>)
    ensures
        forall|part: Seq<char>|
            text::stands_in(a, part) || text::stands_in(b, part) ==> #[trigger] text::stands_in(a + b, part),
{
    assert forall|part: Seq<char>| text::stands_in(a, part) || text::stands_in(b, part) implies
        #[trigger] text::stands_in(a + b, part) by {
        stands_in_sum(a, b, part);
    }
}

/// A histogram's text tells how many observations there were, and for each bucket how many did not
/// exceed its bound.
pub proof fn histogram_is_told(h: HistogramView, name: Seq<char>, help: Seq<char>)
    ensures
        text::stands_in(histogram_text(h, name, help), told(name + "_count"@, h.count)),
        forall|n: int|
            0 < n <= 11 ==> text::stands_in(
                histogram_text(h, name, help),
                #[trigger] bucket_line(name, LATENCY_BUCKETS_US@[n - 1], cumulative(h.buckets, n)),
            ),
{
    reveal(number_line);
    reveal_strlit(" ");
    reveal_strlit("\n");
    reveal_strlit("_count ");
    reveal_strlit("_count");
    let head = head_lines(name, "histogram"@, help);
    let buckets = bucket_lines(name, h.buckets, 11);
    let all = number_line(name, "_bucket{le=\"+Inf\"} "@, h.total());
    let sum = seconds_line(name, "_sum "@, h.sum_us);
    let count = number_line(name, "_count "@, h.count);
    assert("_count "@ =~= "_count"@ + seq![' ']);
    assert("\n"@ =~= seq!['\n']);
    assert(count =~= told(name + "_count"@, h.count));
    assert(count.subrange(0int, 0int + count.len()) =~= count);
    assert(text::stands_in(count, count));
    sum_keeps_what_stands(head, buckets);
    sum_keeps_what_stands(head + buckets, all);
    sum_keeps_what_stands(head + buckets + all, sum);
    sum_keeps_what_stands(head + buckets + all + sum, count);
    assert forall|n: int| 0 < n <= 11 implies text::stands_in(
        histogram_text(h, name, help),
        #[trigger] bucket_line(name, LATENCY_BUCKETS_US@[n - 1], cumulative(h.buckets, n)),
    ) by {
        bucket_stands(name, h.buckets, 11, n);
        let line = bucket_line(name, LATENCY_BUCKETS_US@[n - 1], cumulative(h.buckets, n));
        assert(text::stands_in(buckets, line));
        assert(text::stands_in(head + buckets, line));
        assert(text::stands_in(head + buckets + all, line));
        assert(text::stands_in(head + buckets + all + sum, line));
    }
}

proof fn bucket_stands(name: Seq<char>, b: Seq<u64>, n: int, k: int)
    requires
        0 < k <= n <= 11,
    ensures
        text::stands_in(
            bucket_lines(name, b, n),
            bucket_line(name, LATENCY_BUCKETS_US@[k - 1], cumulative(b, k)),
        ),
    decreases n,
{
    let line = bucket_line(name, LATENCY_BUCKETS_US@[k - 1], cumulative(b, k));
    let last = bucket_line(name, LATENCY_BUCKETS_US@[n - 1], cumulative(b, n));
    if k < n {
        bucket_stands(name, b, n - 1, k);
    } else {
        assert(last.subrange(0int, 0int + last.len()) =~= last);
        assert(text::stands_in(last, line));
    }
    stands_in_sum(bucket_lines(name, b, n - 1), last, line);
}

/// The line of a bucket holds its bound in seconds and the number.
pub proof fn bucket_line_tells_bound_and_number(name: Seq<char>, bound_us: u64, n: u64)
    ensures
        bucket_line(name, bound_us, n) == name + "_bucket{le=\""@ + text::millionths(
            bound_us as nat,
        ) + "\"} "@ + text::decimal(n as nat) + "\n"@,
        seconds_line(name, "_sum "@, n) == name + "_sum "@ + text::millionths(n as nat) + "\n"@,
{
    reveal(bucket_line);
    reveal(seconds_line);
}

/// Every figure is told under its own name.
pub proof fn every_figure_is_told(m: Metrics)
    ensures
        text::stands_in(prometheus_text(m), told("scrollz_commit_ok_total"@, m.commit_ok)),
        text::stands_in(prometheus_text(m), told("scrollz_commit_failed_total"@, m.commit_failed)),
        text::stands_in(prometheus_text(m), told("scrollz_blocks_flushed_total"@, m.blocks_flushed)),
        text::stands_in(prometheus_text(m), told("scrollz_flushing_bytes_peak"@, m.flushing_bytes_peak)),
        text::stands_in(prometheus_text(m), told("scrollz_fuse_read_ops_total"@, m.fuse_read_ops)),
        text::stands_in(prometheus_text(m), told("scrollz_fuse_read_bytes_total"@, m.fuse_read_bytes)),
        text::stands_in(prometheus_text(m), told("scrollz_fuse_write_ops_total"@, m.fuse_write_ops)),
        text::stands_in(prometheus_text(m), told("scrollz_fuse_write_bytes_total"@, m.fuse_write_bytes)),
        text::stands_in(prometheus_text(m), told("scrollz_fuse_fsync_ops_total"@, m.fuse_fsync_ops)),
        text::stands_in(prometheus_text(m), told("scrollz_fuse_errors_total"@, m.fuse_errors)),
        text::stands_in(prometheus_text(m), told("scrollz_blockcache_hits_total"@, m.blockcache_hits)),
        text::stands_in(prometheus_text(m), told("scrollz_blockcache_misses_total"@, m.blockcache_misses)),
        text::stands_in(prometheus_text(m), told("scrollz_seals_total"@, m.seals)),
        text::stands_in(prometheus_text(m), told("scrollz_shadow_commits_total"@, m.shadow_commits)),
        text::stands_in(prometheus_text(m), told("scrollz_shadow_reader_hits_total"@, m.shadow_reader_hits)),
        text::stands_in(prometheus_text(m), told("scrollz_shadow_reader_misses_total"@, m.shadow_reader_misses)),
        text::stands_in(prometheus_text(m), told("scrollz_shadow_tail_appends_total"@, m.shadow_tail_appends)),
        text::stands_in(prometheus_text(m), told("scrollz_read_latency_seconds"@ + "_count"@, m.read_latency@.count)),
        text::stands_in(prometheus_text(m), told("scrollz_write_latency_seconds"@ + "_count"@, m.write_latency@.count)),
        text::stands_in(prometheus_text(m), told("scrollz_fsync_latency_seconds"@ + "_count"@, m.fsync_latency@.count)),
{
    let t0 = metric_text("scrollz_commit_ok_total"@, "counter"@, "container 提交成功次数"@, m.commit_ok);
    metric_is_told("scrollz_commit_ok_total"@, "counter"@, "container 提交成功次数"@, m.commit_ok);
    let t1 = metric_text("scrollz_commit_failed_total"@, "counter"@, "提交失败并合并回 active（避免数据丢失）次数"@, m.commit_failed);
    metric_is_told("scrollz_commit_failed_total"@, "counter"@, "提交失败并合并回 active（避免数据丢失）次数"@, m.commit_failed);
    let t2 = metric_text("scrollz_blocks_flushed_total"@, "counter"@, "累计落后端的块数"@, m.blocks_flushed);
    metric_is_told("scrollz_blocks_flushed_total"@, "counter"@, "累计落后端的块数"@, m.blocks_flushed);
    let t3 = metric_text("scrollz_flushing_bytes_peak"@, "gauge"@, "flushing 缓冲字节峰值"@, m.flushing_bytes_peak);
    metric_is_told("scrollz_flushing_bytes_peak"@, "gauge"@, "flushing 缓冲字节峰值"@, m.flushing_bytes_peak);
    let t4 = metric_text("scrollz_fuse_read_ops_total"@, "counter"@, "FUSE read 成功次数"@, m.fuse_read_ops);
    metric_is_told("scrollz_fuse_read_ops_total"@, "counter"@, "FUSE read 成功次数"@, m.fuse_read_ops);
    let t5 = metric_text("scrollz_fuse_read_bytes_total"@, "counter"@, "FUSE read 累计返回字节数"@, m.fuse_read_bytes);
    metric_is_told("scrollz_fuse_read_bytes_total"@, "counter"@, "FUSE read 累计返回字节数"@, m.fuse_read_bytes);
    let t6 = metric_text("scrollz_fuse_write_ops_total"@, "counter"@, "FUSE write 成功次数"@, m.fuse_write_ops);
    metric_is_told("scrollz_fuse_write_ops_total"@, "counter"@, "FUSE write 成功次数"@, m.fuse_write_ops);
    let t7 = metric_text("scrollz_fuse_write_bytes_total"@, "counter"@, "FUSE write 累计写入字节数"@, m.fuse_write_bytes);
    metric_is_told("scrollz_fuse_write_bytes_total"@, "counter"@, "FUSE write 累计写入字节数"@, m.fuse_write_bytes);
    let t8 = metric_text("scrollz_fuse_fsync_ops_total"@, "counter"@, "fsync+flush 同步操作次数"@, m.fuse_fsync_ops);
    metric_is_told("scrollz_fuse_fsync_ops_total"@, "counter"@, "fsync+flush 同步操作次数"@, m.fuse_fsync_ops);
    let t9 = metric_text("scrollz_fuse_errors_total"@, "counter"@, "read/write/fsync/flush 返回错误次数"@, m.fuse_errors);
    metric_is_told("scrollz_fuse_errors_total"@, "counter"@, "read/write/fsync/flush 返回错误次数"@, m.fuse_errors);
    let t10 = metric_text("scrollz_blockcache_hits_total"@, "counter"@, "block_cache 命中（read_range 内部块免整块解压）次数"@, m.blockcache_hits);
    metric_is_told("scrollz_blockcache_hits_total"@, "counter"@, "block_cache 命中（read_range 内部块免整块解压）次数"@, m.blockcache_hits);
    let t11 = metric_text("scrollz_blockcache_misses_total"@, "counter"@, "block_cache 未命中（read_range 内部块走 Store + 解压）次数"@, m.blockcache_misses);
    metric_is_told("scrollz_blockcache_misses_total"@, "counter"@, "block_cache 未命中（read_range 内部块走 Store + 解压）次数"@, m.blockcache_misses);
    let t12 = metric_text("scrollz_seals_total"@, "counter"@, "尾块封块/重压落后端次数"@, m.seals);
    metric_is_told("scrollz_seals_total"@, "counter"@, "尾块封块/重压落后端次数"@, m.seals);
    let t13 = metric_text("scrollz_shadow_commits_total"@, "counter"@, "ShadowStore（布局 S）脏会话提交次数"@, m.shadow_commits);
    metric_is_told("scrollz_shadow_commits_total"@, "counter"@, "ShadowStore（布局 S）脏会话提交次数"@, m.shadow_commits);
    let t14 = metric_text("scrollz_shadow_reader_hits_total"@, "counter"@, "ShadowStore ArchiveReader 缓存命中（免重解析 footer/index）次数"@, m.shadow_reader_hits);
    metric_is_told("scrollz_shadow_reader_hits_total"@, "counter"@, "ShadowStore ArchiveReader 缓存命中（免重解析 footer/index）次数"@, m.shadow_reader_hits);
    let t15 = metric_text("scrollz_shadow_reader_misses_total"@, "counter"@, "ShadowStore ArchiveReader 缓存未命中（打开并解析新 reader）次数"@, m.shadow_reader_misses);
    metric_is_told("scrollz_shadow_reader_misses_total"@, "counter"@, "ShadowStore ArchiveReader 缓存未命中（打开并解析新 reader）次数"@, m.shadow_reader_misses);
    let t16 = metric_text("scrollz_shadow_tail_appends_total"@, "counter"@, "ShadowStore 尾日志增量追加（append_tail）次数"@, m.shadow_tail_appends);
    metric_is_told("scrollz_shadow_tail_appends_total"@, "counter"@, "ShadowStore 尾日志增量追加（append_tail）次数"@, m.shadow_tail_appends);
    let s0 = t0;
    let s1 = s0 + t1;
    sum_keeps_what_stands(s0, t1);
    let s2 = s1 + t2;
    sum_keeps_what_stands(s1, t2);
    let s3 = s2 + t3;
    sum_keeps_what_stands(s2, t3);
    let s4 = s3 + t4;
    sum_keeps_what_stands(s3, t4);
    let s5 = s4 + t5;
    sum_keeps_what_stands(s4, t5);
    let s6 = s5 + t6;
    sum_keeps_what_stands(s5, t6);
    let s7 = s6 + t7;
    sum_keeps_what_stands(s6, t7);
    let s8 = s7 + t8;
    sum_keeps_what_stands(s7, t8);
    let s9 = s8 + t9;
    sum_keeps_what_stands(s8, t9);
    let s10 = s9 + t10;
    sum_keeps_what_stands(s9, t10);
    let s11 = s10 + t11;
    sum_keeps_what_stands(s10, t11);
    let s12 = s11 + t12;
    sum_keeps_what_stands(s11, t12);
    let s13 = s12 + t13;
    sum_keeps_what_stands(s12, t13);
    let s14 = s13 + t14;
    sum_keeps_what_stands(s13, t14);
    let s15 = s14 + t15;
    sum_keeps_what_stands(s14, t15);
    let s16 = s15 + t16;
    sum_keeps_what_stands(s15, t16);
    assert(s16 == counters_text(m));
    let h0 = histogram_text(m.read_latency@, "scrollz_read_latency_seconds"@, "FUSE read handler 端到端延迟（秒）"@);
    histogram_is_told(m.read_latency@, "scrollz_read_latency_seconds"@, "FUSE read handler 端到端延迟（秒）"@);
    let h1 = histogram_text(m.write_latency@, "scrollz_write_latency_seconds"@, "FUSE write handler 端到端延迟（秒）"@);
    histogram_is_told(m.write_latency@, "scrollz_write_latency_seconds"@, "FUSE write handler 端到端延迟（秒）"@);
    let h2 = histogram_text(m.fsync_latency@, "scrollz_fsync_latency_seconds"@, "FUSE fsync/flush handler 端到端延迟（秒）"@);
    histogram_is_told(m.fsync_latency@, "scrollz_fsync_latency_seconds"@, "FUSE fsync/flush handler 端到端延迟（秒）"@);
    let p0 = s16 + h0;
    sum_keeps_what_stands(s16, h0);
    let p1 = p0 + h1;
    sum_keeps_what_stands(p0, h1);
    let p2 = p1 + h2;
    sum_keeps_what_stands(p1, h2);
    assert(p2 == prometheus_text(m));
}

/// A figure is told with a line of help and a line of its kind before it; a histogram ends with all
/// its observations, what they add up to, and how many there were.
pub proof fn figure_has_its_head(
    name: Seq<char>,
    typ: Seq<char>,
    help: Seq<char>,
    n: u64,
    h: HistogramView,
)
    ensures
        metric_text(name, typ, help, n) == "# HELP "@ + name + " "@ + help + "\n# TYPE "@ + name
            + " "@ + typ + "\n"@ + told(name, n),
        ({
            let head = "# HELP "@ + name + " "@ + help + "\n# TYPE "@ + name + " "@ + "histogram"@
                + "\n"@;
            let end = name + "_bucket{le=\"+Inf\"} "@ + text::decimal(h.total() as nat) + "\n"@ + name
                + "_sum "@ + text::millionths(h.sum_us as nat) + "\n"@ + name + "_count "@
                + text::decimal(h.count as nat) + "\n"@;
            let all = histogram_text(h, name, help);
            &&& all.len() >= head.len() + end.len()
            &&& all.subrange(0, head.len() as int) == head
            &&& all.subrange(all.len() - end.len(), all.len() as int) == end
        }),
{
    reveal(number_line);
    reveal(seconds_line);
    reveal(head_lines);
    reveal_strlit(" ");
    reveal_strlit("\n");
    assert(" "@ =~= seq![' ']);
    assert("\n"@ =~= seq!['\n']);
    assert(number_line(name, " "@, n) =~= told(name, n));
    let head = head_lines(name, "histogram"@, help);
    let buckets = bucket_lines(name, h.buckets, 11);
    let a = number_line(name, "_bucket{le=\"+Inf\"} "@, h.total());
    let b = seconds_line(name, "_sum "@, h.sum_us);
    let c = number_line(name, "_count "@, h.count);
    let end = name + "_bucket{le=\"+Inf\"} "@ + text::decimal(h.total() as nat) + "\n"@ + name
        + "_sum "@ + text::millionths(h.sum_us as nat) + "\n"@ + name + "_count "@ + text::decimal(
        h.count as nat,
    ) + "\n"@;
    assert(a + b + c =~= end);
    let all = histogram_text(h, name, help);
    assert(all =~= head + buckets + end);
    assert(all.subrange(0, head.len() as int) =~= head);
    assert(all.subrange(all.len() - end.len(), all.len() as int) =~= end);
}

/// A new histogram has counted nothing, in no bucket.
pub proof fn new_histogram_has_counted_nothing(i: int)
    ensures
        ({
            let h = HistogramView::empty();
            &&& h.count == 0 && h.sum_us == 0 && h.overflow == 0
            &&& h.buckets.len() == 11
            &&& 0 <= i < 11 ==> h.buckets[i] == 0
        }),
{
}

} // verus!
