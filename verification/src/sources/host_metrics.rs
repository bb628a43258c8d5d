//! Host metrics: CPU, memory, disks, disk I/O, network and load, under the
//! names that node_exporter gives them.

use vstd::prelude::*;

use crate::config;
use crate::config::HostMetricsConfig;
use crate::number;
use crate::signal;
use crate::signal::MetricKind;
use crate::signal::MetricSample;
use crate::signal::MetricView;
use crate::signal::Reading;
use crate::signal::ReadingView;
use crate::strmap::Labels;
use crate::text;
use vstd::slice::slice_subrange;

verus! {

/// Host metrics.
#[derive(Debug)]
pub struct HostMetricsSource {
    cfg: HostMetricsConfig,
}

impl HostMetricsSource {
    /// The configuration.
    pub closed spec fn cfg(&self) -> HostMetricsConfig {
        self.cfg
    }

    pub fn new(cfg: HostMetricsConfig) -> (r: Self)
        ensures
            r.cfg() == cfg,
    {
        HostMetricsSource { cfg }
    }

    /// The configuration.
    pub fn config(&self) -> (r: &HostMetricsConfig)
        ensures
            *r == self.cfg(),
    {
        &self.cfg
    }

    /// The seconds between two collections.
    pub fn interval_secs(&self) -> (r: u64)
        ensures
            r == (match config::duration(self.cfg().interval@) {
                Some(n) => n,
                None => 15,
            }),
    {
        config::duration_or(self.cfg.interval.as_str(), 15)
    }

    /// The collectors to run, in order: those that are configured, or all.
    pub fn collectors(&self) -> (r: Vec<Collector>)
        ensures
            collector_views(r@) == (if self.cfg().collectors@.len() == 0 {
                all_collectors()
            } else {
                text::texts(self.cfg().collectors@).map_values(|n: Seq<char>| named(n))
            }),
    {
        let mut out: Vec<Collector> = Vec::new();
        if self.cfg.collectors.len() == 0 {
            out.push(Collector::Cpu);
            out.push(Collector::Memory);
            out.push(Collector::Disk);
            out.push(Collector::DiskIo);
            out.push(Collector::Network);
            out.push(Collector::Load);
            assert(collector_views(out@) =~= all_collectors());
            return out;
        }
        let mut i: usize = 0;
        while i < self.cfg.collectors.len()
            invariant
                i <= self.cfg.collectors@.len(),
                out@.len() == i,
                forall|j: int|
                    0 <= j < i ==> (#[trigger] out@[j])@ == named(self.cfg.collectors@[j]@),
            decreases self.cfg.collectors@.len() - i,
        {
            out.push(collector_named(self.cfg.collectors[i].as_str()));
            i = i + 1;
        }
        assert(collector_views(out@) =~= text::texts(self.cfg().collectors@).map_values(
            |n: Seq<char>| named(n),
        ));
        out
    }
}

/// A group of metrics.
#[derive(Debug)]
pub enum Collector {
    Cpu,
    Memory,
    Disk,
    DiskIo,
    Network,
    Load,
    /// A name that stands for no collector.
    Unknown(String),
}

/// What a `Collector` holds.
pub enum CollectorView {
    Cpu,
    Memory,
    Disk,
    DiskIo,
    Network,
    Load,
    Unknown(Seq<char>),
}

impl View for Collector {
    type V = CollectorView;

    open spec fn view(&self) -> CollectorView {
        match self {
            Collector::Cpu => CollectorView::Cpu,
            Collector::Memory => CollectorView::Memory,
            Collector::Disk => CollectorView::Disk,
            Collector::DiskIo => CollectorView::DiskIo,
            Collector::Network => CollectorView::Network,
            Collector::Load => CollectorView::Load,
            Collector::Unknown(name) => CollectorView::Unknown(name@),
        }
    }
}

/// What the collectors of a row hold.
pub open spec fn collector_views(s: Seq<Collector>) -> Seq<CollectorView> {
    s.map_values(|c: Collector| c@)
}

/// All collectors.
pub open spec fn all_collectors() -> Seq<CollectorView> {
    seq![
        CollectorView::Cpu,
        CollectorView::Memory,
        CollectorView::Disk,
        CollectorView::DiskIo,
        CollectorView::Network,
        CollectorView::Load,
    ]
}

/// The collector that goes by a name.
pub open spec fn named(name: Seq<char>) -> CollectorView {
    if name == "cpu"@ {
        CollectorView::Cpu
    } else if name == "memory"@ {
        CollectorView::Memory
    } else if name == "disk"@ {
        CollectorView::Disk
    } else if name == "diskio"@ {
        CollectorView::DiskIo
    } else if name == "network"@ {
        CollectorView::Network
    } else if name == "load"@ {
        CollectorView::Load
    } else {
        CollectorView::Unknown(name)
    }
}

/// The collector that goes by a name.
pub fn collector_named(name: &str) -> (r: Collector)
    ensures
        r@ == named(name@),
{
    if text::str_eq(name, "cpu") {
        Collector::Cpu
    } else if text::str_eq(name, "memory") {
        Collector::Memory
    } else if text::str_eq(name, "disk") {
        Collector::Disk
    } else if text::str_eq(name, "diskio") {
        Collector::DiskIo
    } else if text::str_eq(name, "network") {
        Collector::Network
    } else if text::str_eq(name, "load") {
        Collector::Load
    } else {
        Collector::Unknown(name.to_owned())
    }
}

// ---------------------------------------------------------------------------
// Helper
// ---------------------------------------------------------------------------

/// A sample with these parts.
pub open spec fn metric_of(
    name: Seq<char>,
    labels: Map<Seq<char>, Seq<char>>,
    value: ReadingView,
    timestamp_ms: i64,
    kind: MetricKind,
) -> MetricView {
    MetricView { name, labels, value, timestamp_ms, kind }
}

/// A sample with these parts.
pub fn metric(
    name: &str,
    labels: Labels,
    value: Reading,
    timestamp_ms: i64,
    kind: MetricKind,
) -> (r: MetricSample)
    ensures
        r@ == metric_of(name@, labels@, value@, timestamp_ms, kind),
{
    MetricSample { name: name.to_owned(), labels, value, timestamp_ms, kind }
}

fn push_metric(
    out: &mut Vec<MetricSample>,
    name: &str,
    labels: &Labels,
    value: Reading,
    ts: i64,
    kind: MetricKind,
)
    ensures
        signal::metric_views(final(out)@) == signal::metric_views(old(out)@).push(
            metric_of(name@, labels@, value@, ts, kind),
        ),
{
    let ghost start = signal::metric_views(out@);
    let s = metric(name, labels.clone(), value, ts, kind);
    out.push(s);
    assert(signal::metric_views(out@) =~= start.push(s@));
}

/// The samples, or none where there are no samples.
pub open spec fn some_unless_empty(s: Seq<MetricView>) -> Option<Seq<MetricView>> {
    if s.len() == 0 {
        None
    } else {
        Some(s)
    }
}

/// What the samples hold, where there are any.
pub open spec fn opt_metrics(r: Option<Vec<MetricSample>>) -> Option<Seq<MetricView>> {
    match r {
        Some(v) => Some(signal::metric_views(v@)),
        None => None,
    }
}

fn unless_empty(out: Vec<MetricSample>) -> (r: Option<Vec<MetricSample>>)
    ensures
        opt_metrics(r) == some_unless_empty(signal::metric_views(out@)),
{
    if out.len() == 0 {
        None
    } else {
        Some(out)
    }
}

// ---------------------------------------------------------------------------
// CPU: `node_cpu_seconds_total{cpu,mode}`, a counter. On Linux it is read from
// /proc/stat, on Windows from the processor times of the kernel.
// ---------------------------------------------------------------------------

/// The mode in a column of /proc/stat.
pub open spec fn mode(column: int) -> Seq<char> {
    if column == 0 {
        "user"@
    } else if column == 1 {
        "nice"@
    } else if column == 2 {
        "system"@
    } else if column == 3 {
        "idle"@
    } else if column == 4 {
        "iowait"@
    } else if column == 5 {
        "irq"@
    } else if column == 6 {
        "softirq"@
    } else {
        "steal"@
    }
}

fn mode_name(column: usize) -> (r: &'static str)
    ensures
        r@ == mode(column as int),
{
    if column == 0 {
        "user"
    } else if column == 1 {
        "nice"
    } else if column == 2 {
        "system"
    } else if column == 3 {
        "idle"
    } else if column == 4 {
        "iowait"
    } else if column == 5 {
        "irq"
    } else if column == 6 {
        "softirq"
    } else {
        "steal"
    }
}

/// A text without the prefix, as often as it stands at its start.
pub open spec fn without_prefixes(s: Seq<char>, prefix: Seq<char>) -> Seq<char>
    decreases s.len(),
{
    if prefix.len() > 0 && text::begins(s, prefix) {
        without_prefixes(s.skip(prefix.len() as int), prefix)
    } else {
        s
    }
}

fn strip_prefixes<'a>(s: &'a [char], prefix: &str) -> (r: &'a [char])
    requires
        prefix@.len() > 0,
    ensures
        r@ == without_prefixes(s@, prefix@),
{
    let p = text::chars_of(prefix);
    let n: usize = p.len();
    let mut rest = s;
    while text::starts_with(rest, prefix)
        invariant
            n == prefix@.len(),
            n > 0,
            without_prefixes(rest@, prefix@) == without_prefixes(s@, prefix@),
        decreases rest@.len(),
    {
        let next = slice_subrange(rest, n, rest.len());
        assert(next@ =~= rest@.skip(n as int));
        rest = next;
    }
    rest
}

/// A number as it is written, or zero where it is none.
pub open spec fn number_or_zero(s: Seq<char>) -> Seq<char> {
    if number::is_float(s) {
        s
    } else {
        "0"@
    }
}

fn literal_or_zero(s: &[char]) -> (r: String)
    ensures
        r@ == number_or_zero(s@),
{
    if number::float_literal(s) {
        text::string_of(s)
    } else {
        "0".to_owned()
    }
}

/// The labels of a CPU in a mode.
pub open spec fn cpu_labels(
    extra: Map<Seq<char>, Seq<char>>,
    cpu: Seq<char>,
    mode: Seq<char>,
) -> Map<Seq<char>, Seq<char>> {
    extra.insert("cpu"@, cpu).insert("mode"@, mode)
}

fn make_cpu_labels(extra: &Labels, cpu: String, mode: &str) -> (r: Labels)
    ensures
        r@ == cpu_labels(extra@, cpu@, mode@),
{
    let mut labels = extra.clone();
    let _ = labels.insert("cpu".to_owned(), cpu);
    let _ = labels.insert("mode".to_owned(), mode.to_owned());
    labels
}

/// The samples of the first `n` columns of a CPU's row: times in hundredths
/// of a second.
pub open spec fn columns(
    words: Seq<Seq<char>>,
    n: int,
    ts: i64,
    extra: Map<Seq<char>, Seq<char>>,
) -> Seq<MetricView> {
    Seq::new(
        n as nat,
        |k: int|
            metric_of(
                "node_cpu_seconds_total"@,
                cpu_labels(extra, without_prefixes(words[0], "cpu"@), mode(k)),
                ReadingView::Scaled { literal: number_or_zero(words[k + 1]), times: 1, per: 100 },
                ts,
                MetricKind::Counter,
            ),
    )
}

/// The number of columns of a row that stand for modes.
pub open spec fn column_count(words: Seq<Seq<char>>) -> int {
    if words.len() > 8 {
        8
    } else {
        words.len() - 1
    }
}

/// The samples of a line of /proc/stat. Only the rows of single CPUs have
/// some: the row of their sum, and those of other things, have none.
pub open spec fn stat_line(
    line: Seq<char>,
    ts: i64,
    extra: Map<Seq<char>, Seq<char>>,
) -> Seq<MetricView> {
    let words = text::words(line);
    if !text::begins(line, "cpu"@) || words.len() == 0 || words[0] == "cpu"@ {
        Seq::empty()
    } else {
        columns(words, column_count(words), ts, extra)
    }
}

pub open spec fn stat_lines(
    lines: Seq<Seq<char>>,
    ts: i64,
    extra: Map<Seq<char>, Seq<char>>,
) -> Seq<MetricView>
    decreases lines.len(),
{
    if lines.len() == 0 {
        Seq::empty()
    } else {
        stat_lines(lines.drop_last(), ts, extra) + stat_line(lines.last(), ts, extra)
    }
}

/// Nothing is lost of a line that begins with "cpu" for want of words: it has
/// a first one.
proof fn lemma_cpu_line_has_a_word(line: Seq<char>)
    requires
        text::begins(line, "cpu"@),
    ensures
        text::words(line).len() > 0,
{
    reveal_strlit("cpu");
    assert(line.take(3)[0] == 'c');
    text::lemma_word_len(line);
}

fn push_stat_line(out: &mut Vec<MetricSample>, line: &[char], ts: i64, extra: &Labels)
    ensures
        signal::metric_views(final(out)@) == signal::metric_views(old(out)@) + stat_line(
            line@,
            ts,
            extra@,
        ),
{
    let ghost start = signal::metric_views(out@);
    assert(start + Seq::<MetricView>::empty() =~= start);
    if !text::starts_with(line, "cpu") {
        return;
    }
    let words = text::words_of(line);
    let ghost all = text::words(line@);
    proof {
        lemma_cpu_line_has_a_word(line@);
        reveal_strlit("cpu");
    }
    assert(all[0] == words@[0]@);
    let label = text::string_of(words[0]);
    if text::str_eq(label.as_str(), "cpu") {
        return;
    }
    let cpu = text::string_of(strip_prefixes(words[0], "cpu"));
    let n: usize = if words.len() > 8 {
        8
    } else {
        words.len() - 1
    };
    let mut k: usize = 0;
    assert(start + columns(all, 0, ts, extra@) =~= start);
    while k < n
        invariant
            k <= n,
            n < words@.len(),
            n <= 8,
            all == text::each_text(words@),
            cpu@ == without_prefixes(all[0], "cpu"@),
            signal::metric_views(out@) == start + columns(all, k as int, ts, extra@),
        decreases n - k,
    {
        assert(all[k + 1] == words@[k + 1]@);
        let labels = make_cpu_labels(extra, cpu.clone(), mode_name(k));
        push_metric(
            out,
            "node_cpu_seconds_total",
            &labels,
            Reading::Scaled { literal: literal_or_zero(words[k + 1]), times: 1, per: 100 },
            ts,
            MetricKind::Counter,
        );
        assert(signal::metric_views(out@) =~= start + columns(all, k + 1, ts, extra@));
        k = k + 1;
    }
}

/// CPU times from the text of /proc/stat; none where it names no CPU.
pub fn parse_proc_stat(stat: &str, ts: i64, extra: &Labels) -> (r: Option<Vec<MetricSample>>)
    ensures
        opt_metrics(r) == some_unless_empty(stat_lines(text::lines(stat@), ts, extra@)),
{
    let chars = text::chars_of(stat);
    let rows = text::lines_of(chars.as_slice());
    let ghost all = text::lines(stat@);
    let mut out: Vec<MetricSample> = Vec::new();
    let mut i: usize = 0;
    assert(signal::metric_views(out@) =~= stat_lines(all.take(0), ts, extra@));
    while i < rows.len()
        invariant
            i <= rows@.len(),
            all == text::each_text(rows@),
            signal::metric_views(out@) == stat_lines(all.take(i as int), ts, extra@),
        decreases rows@.len() - i,
    {
        assert(all.take(i + 1).drop_last() =~= all.take(i as int));
        assert(all.take(i + 1).last() == rows@[i as int]@);
        push_stat_line(&mut out, rows[i], ts, extra);
        i = i + 1;
    }
    assert(all.take(i as int) =~= all);
    unless_empty(out)
}

/// The times of a CPU since the start, in units of 100 nanoseconds. The kernel
/// time holds the idle time.
#[derive(Debug, Clone, Copy)]
pub struct ProcessorTimes {
    pub idle: i64,
    pub kernel: i64,
    pub user: i64,
}

impl ProcessorTimes {
    /// Whether the kernel time without the idle time is a 64-bit number.
    pub open spec fn in_range(self) -> bool {
        i64::MIN <= self.kernel - self.idle <= i64::MAX
    }

    /// Whether the kernel time without the idle time is a 64-bit number.
    pub fn fits(&self) -> (r: bool)
        ensures
            r == self.in_range(),
    {
        self.kernel.checked_sub(self.idle).is_some()
    }
}

/// The time in the kernel without the idle time, and no less than none.
pub open spec fn system_time(t: ProcessorTimes) -> int {
    if t.kernel >= t.idle {
        t.kernel - t.idle
    } else {
        0
    }
}

/// A time in units of 100 nanoseconds as seconds of a CPU in a mode.
pub open spec fn processor_sample(
    cpu: int,
    mode: Seq<char>,
    units: i64,
    ts: i64,
    extra: Map<Seq<char>, Seq<char>>,
) -> MetricView {
    metric_of(
        "node_cpu_seconds_total"@,
        cpu_labels(extra, number::dec(cpu as nat), mode),
        ReadingView::Ratio { units, per: 10_000_000 },
        ts,
        MetricKind::Counter,
    )
}

/// The samples of each CPU: idle, user and system.
pub open spec fn processor_samples(
    times: Seq<ProcessorTimes>,
    ts: i64,
    extra: Map<Seq<char>, Seq<char>>,
) -> Seq<MetricView>
    decreases times.len(),
{
    if times.len() == 0 {
        Seq::empty()
    } else {
        let i = times.len() - 1;
        let t = times[i];
        processor_samples(times.drop_last(), ts, extra) + seq![
            processor_sample(i, "idle"@, t.idle, ts, extra),
            processor_sample(i, "user"@, t.user, ts, extra),
            processor_sample(i, "system"@, system_time(t) as i64, ts, extra),
        ]
    }
}

fn push_processor(
    out: &mut Vec<MetricSample>,
    cpu: usize,
    mode: &str,
    units: i64,
    ts: i64,
    extra: &Labels,
)
    ensures
        signal::metric_views(final(out)@) == signal::metric_views(old(out)@).push(
            processor_sample(cpu as int, mode@, units, ts, extra@),
        ),
{
    let labels = make_cpu_labels(extra, number::dec_u64(cpu as u64), mode);
    push_metric(
        out,
        "node_cpu_seconds_total",
        &labels,
        Reading::Ratio { units, per: 10_000_000 },
        ts,
        MetricKind::Counter,
    );
}

/// CPU times from the processor times of the kernel; none where there are no
/// processors.
pub fn processor_metrics(times: &Vec<ProcessorTimes>, ts: i64, extra: &Labels) -> (r: Option<
    Vec<MetricSample>,
>)
    requires
        forall|i: int| 0 <= i < times@.len() ==> (#[trigger] times@[i]).in_range(),
    ensures
        opt_metrics(r) == some_unless_empty(processor_samples(times@, ts, extra@)),
{
    let mut out: Vec<MetricSample> = Vec::new();
    let mut i: usize = 0;
    assert(signal::metric_views(out@) =~= processor_samples(times@.take(0), ts, extra@));
    while i < times.len()
        invariant
            i <= times@.len(),
            forall|j: int| 0 <= j < times@.len() ==> (#[trigger] times@[j]).in_range(),
            signal::metric_views(out@) == processor_samples(times@.take(i as int), ts, extra@),
        decreases times@.len() - i,
    {
        let ghost before = signal::metric_views(out@);
        let t = times[i];
        assert(times@[i as int].in_range());
        assert(times@.take(i + 1).drop_last() =~= times@.take(i as int));
        assert(times@.take(i + 1)[i as int] == t);
        let apart: i64 = t.kernel - t.idle;
        let system: i64 = if apart > 0 {
            apart
        } else {
            0
        };
        push_processor(&mut out, i, "idle", t.idle, ts, extra);
        push_processor(&mut out, i, "user", t.user, ts, extra);
        push_processor(&mut out, i, "system", system, ts, extra);
        assert(signal::metric_views(out@) =~= processor_samples(
            times@.take(i + 1),
            ts,
            extra@,
        ));
        i = i + 1;
    }
    assert(times@.take(i as int) =~= times@);
    unless_empty(out)
}

// ---------------------------------------------------------------------------
// Memory: `node_memory_<Field>_bytes`.
// ---------------------------------------------------------------------------

/// The memory of the host, in bytes.
#[derive(Debug, Clone, Copy)]
pub struct MemoryInfo {
    pub total: u64,
    pub available: u64,
    pub free: u64,
    pub total_swap: u64,
    pub used_swap: u64,
}

/// A gauge of a number of bytes.
pub open spec fn bytes_gauge(
    name: Seq<char>,
    labels: Map<Seq<char>, Seq<char>>,
    bytes: u64,
    ts: i64,
) -> MetricView {
    metric_of(name, labels, ReadingView::Count(bytes), ts, MetricKind::Gauge)
}

/// The swap space that is free, and no less than none.
pub open spec fn free_swap(info: MemoryInfo) -> int {
    if info.total_swap >= info.used_swap {
        info.total_swap - info.used_swap
    } else {
        0
    }
}

/// The samples of the memory.
pub open spec fn memory_samples(
    info: MemoryInfo,
    ts: i64,
    extra: Map<Seq<char>, Seq<char>>,
) -> Seq<MetricView> {
    seq![
        bytes_gauge("node_memory_MemTotal_bytes"@, extra, info.total, ts),
        bytes_gauge("node_memory_MemAvailable_bytes"@, extra, info.available, ts),
        bytes_gauge("node_memory_MemFree_bytes"@, extra, info.free, ts),
        bytes_gauge("node_memory_SwapTotal_bytes"@, extra, info.total_swap, ts),
        bytes_gauge("node_memory_SwapFree_bytes"@, extra, free_swap(info) as u64, ts),
    ]
}

pub fn memory_metrics(info: &MemoryInfo, ts: i64, extra: &Labels) -> (r: Vec<MetricSample>)
    ensures
        signal::metric_views(r@) == memory_samples(*info, ts, extra@),
{
    let mut out: Vec<MetricSample> = Vec::new();
    assert(signal::metric_views(out@) =~= Seq::empty());
    let free: u64 = if info.total_swap >= info.used_swap {
        info.total_swap - info.used_swap
    } else {
        0
    };
    let gauge = MetricKind::Gauge;
    push_metric(
        &mut out,
        "node_memory_MemTotal_bytes",
        extra,
        Reading::Count(info.total),
        ts,
        gauge,
    );
    push_metric(
        &mut out,
        "node_memory_MemAvailable_bytes",
        extra,
        Reading::Count(info.available),
        ts,
        gauge,
    );
    push_metric(&mut out, "node_memory_MemFree_bytes", extra, Reading::Count(info.free), ts, gauge);
    push_metric(
        &mut out,
        "node_memory_SwapTotal_bytes",
        extra,
        Reading::Count(info.total_swap),
        ts,
        gauge,
    );
    push_metric(&mut out, "node_memory_SwapFree_bytes", extra, Reading::Count(free), ts, gauge);
    assert(signal::metric_views(out@) =~= memory_samples(*info, ts, extra@));
    out
}

// ---------------------------------------------------------------------------
// Filesystem capacity
// ---------------------------------------------------------------------------

/// A mounted filesystem; its sizes are in bytes.
#[derive(Debug)]
pub struct DiskInfo {
    pub device: String,
    pub mountpoint: String,
    pub total: u64,
    pub available: u64,
}

/// The samples of a filesystem: its size, what is available and what is used.
pub open spec fn disk_row(
    disk: DiskInfo,
    ts: i64,
    extra: Map<Seq<char>, Seq<char>>,
) -> Seq<MetricView> {
    let labels = extra.insert("device"@, disk.device@).insert("mountpoint"@, disk.mountpoint@);
    seq![
        bytes_gauge("node_filesystem_size_bytes"@, labels, disk.total, ts),
        bytes_gauge("node_filesystem_avail_bytes"@, labels, disk.available, ts),
        metric_of(
            "node_filesystem_used_bytes"@,
            labels,
            ReadingView::Gap { of: disk.total, less: disk.available },
            ts,
            MetricKind::Gauge,
        ),
    ]
}

/// The samples of the filesystems.
pub open spec fn disk_samples(
    disks: Seq<DiskInfo>,
    ts: i64,
    extra: Map<Seq<char>, Seq<char>>,
) -> Seq<MetricView>
    decreases disks.len(),
{
    if disks.len() == 0 {
        Seq::empty()
    } else {
        disk_samples(disks.drop_last(), ts, extra) + disk_row(disks.last(), ts, extra)
    }
}

pub fn disk_metrics(disks: &Vec<DiskInfo>, ts: i64, extra: &Labels) -> (r: Vec<MetricSample>)
    ensures
        signal::metric_views(r@) == disk_samples(disks@, ts, extra@),
{
    let mut out: Vec<MetricSample> = Vec::new();
    let mut i: usize = 0;
    assert(signal::metric_views(out@) =~= disk_samples(disks@.take(0), ts, extra@));
    while i < disks.len()
        invariant
            i <= disks@.len(),
            signal::metric_views(out@) == disk_samples(disks@.take(i as int), ts, extra@),
        decreases disks@.len() - i,
    {
        let ghost next = disks@.take(i + 1);
        assert(next.drop_last() =~= disks@.take(i as int));
        let disk = &disks[i];
        assert(next.last() == disk);
        let mut labels = extra.clone();
        let _ = labels.insert("device".to_owned(), disk.device.clone());
        let _ = labels.insert("mountpoint".to_owned(), disk.mountpoint.clone());
        let gauge = MetricKind::Gauge;
        push_metric(
            &mut out,
            "node_filesystem_size_bytes",
            &labels,
            Reading::Count(disk.total),
            ts,
            gauge,
        );
        push_metric(
            &mut out,
            "node_filesystem_avail_bytes",
            &labels,
            Reading::Count(disk.available),
            ts,
            gauge,
        );
        push_metric(
            &mut out,
            "node_filesystem_used_bytes",
            &labels,
            Reading::Gap { of: disk.total, less: disk.available },
            ts,
            gauge,
        );
        assert(signal::metric_views(out@) =~= disk_samples(next, ts, extra@));
        i = i + 1;
    }
    assert(disks@.take(i as int) =~= disks@);
    out
}

// ---------------------------------------------------------------------------
// Disk I/O: counters, on Linux from /proc/diskstats.
// ---------------------------------------------------------------------------

/// Whether a device is a partition or a pseudo device, whose counters are left
/// out to keep the cardinality bounded.
pub open spec fn is_ignored(device: Seq<char>) -> bool {
    ||| text::begins(device, "loop"@)
    ||| text::begins(device, "ram"@)
    ||| text::begins(device, "dm-"@)
    ||| text::begins(device, "sr"@)
    ||| text::begins(device, "sd"@) && device.len() > 0 && number::is_digit(device.last())
    ||| text::begins(device, "nvme"@) && text::find_char(device, 'p') is Some
    ||| text::begins(device, "mmcblk"@) && text::find_char(device, 'p') is Some
}

/// Whether a device is a partition or a pseudo device.
pub fn ignored(device: &[char]) -> (r: bool)
    ensures
        r == is_ignored(device@),
{
    if text::starts_with(device, "loop") || text::starts_with(device, "ram") || text::starts_with(
        device,
        "dm-",
    ) || text::starts_with(device, "sr") {
        return true;
    }
    if text::starts_with(device, "sd") && device.len() > 0 && number::digit(
        device[device.len() - 1],
    ) {
        return true;
    }
    if text::starts_with(device, "nvme") || text::starts_with(device, "mmcblk") {
        return text::find_char_at(device, 'p', 0).is_some();
    }
    false
}

/// The counters of a device: bytes read and written, reads and writes.
pub open spec fn io_row(
    device: Seq<char>,
    values: (ReadingView, ReadingView, ReadingView, ReadingView),
    ts: i64,
    extra: Map<Seq<char>, Seq<char>>,
) -> Seq<MetricView> {
    let labels = extra.insert("device"@, device);
    let counter = MetricKind::Counter;
    seq![
        metric_of("node_disk_read_bytes_total"@, labels, values.0, ts, counter),
        metric_of("node_disk_written_bytes_total"@, labels, values.1, ts, counter),
        metric_of("node_disk_reads_completed_total"@, labels, values.2, ts, counter),
        metric_of("node_disk_writes_completed_total"@, labels, values.3, ts, counter),
    ]
}

fn push_io_row(
    out: &mut Vec<MetricSample>,
    device: String,
    values: (Reading, Reading, Reading, Reading),
    ts: i64,
    extra: &Labels,
)
    ensures
        signal::metric_views(final(out)@) == signal::metric_views(old(out)@) + io_row(
            device@,
            (values.0@, values.1@, values.2@, values.3@),
            ts,
            extra@,
        ),
{
    let ghost start = signal::metric_views(out@);
    let ghost row = io_row(device@, (values.0@, values.1@, values.2@, values.3@), ts, extra@);
    let mut labels = extra.clone();
    let _ = labels.insert("device".to_owned(), device);
    let counter = MetricKind::Counter;
    push_metric(out, "node_disk_read_bytes_total", &labels, values.0, ts, counter);
    push_metric(out, "node_disk_written_bytes_total", &labels, values.1, ts, counter);
    push_metric(out, "node_disk_reads_completed_total", &labels, values.2, ts, counter);
    push_metric(out, "node_disk_writes_completed_total", &labels, values.3, ts, counter);
    assert(signal::metric_views(out@) =~= start + row);
}

/// A field of /proc/diskstats, `times` over; zero where it is no number.
pub open spec fn field(words: Seq<Seq<char>>, i: int, times: u64) -> ReadingView {
    ReadingView::Scaled { literal: number_or_zero(words[i]), times, per: 1 }
}

/// The samples of a line of /proc/diskstats: its third field names the device,
/// the fourth and eighth count reads and writes, the sixth and tenth sectors
/// of 512 bytes.
pub open spec fn diskstats_line(
    line: Seq<char>,
    ts: i64,
    extra: Map<Seq<char>, Seq<char>>,
) -> Seq<MetricView> {
    let words = text::words(line);
    if words.len() < 14 || is_ignored(words[2]) {
        Seq::empty()
    } else {
        io_row(
            words[2],
            (field(words, 5, 512), field(words, 9, 512), field(words, 3, 1), field(words, 7, 1)),
            ts,
            extra,
        )
    }
}

pub open spec fn diskstats_lines(
    lines: Seq<Seq<char>>,
    ts: i64,
    extra: Map<Seq<char>, Seq<char>>,
) -> Seq<MetricView>
    decreases lines.len(),
{
    if lines.len() == 0 {
        Seq::empty()
    } else {
        diskstats_lines(lines.drop_last(), ts, extra) + diskstats_line(lines.last(), ts, extra)
    }
}

fn read_field(words: &Vec<&[char]>, i: usize, times: u64) -> (r: Reading)
    requires
        i < words@.len(),
    ensures
        r@ == field(text::each_text(words@), i as int, times),
{
    assert(text::each_text(words@)[i as int] == words@[i as int]@);
    Reading::Scaled { literal: literal_or_zero(words[i]), times, per: 1 }
}

/// The counters of the block devices from the text of /proc/diskstats.
pub fn parse_diskstats(stats: &str, ts: i64, extra: &Labels) -> (r: Vec<MetricSample>)
    ensures
        signal::metric_views(r@) == diskstats_lines(text::lines(stats@), ts, extra@),
{
    let chars = text::chars_of(stats);
    let rows = text::lines_of(chars.as_slice());
    let ghost all = text::lines(stats@);
    let mut out: Vec<MetricSample> = Vec::new();
    let mut i: usize = 0;
    assert(signal::metric_views(out@) =~= diskstats_lines(all.take(0), ts, extra@));
    while i < rows.len()
        invariant
            i <= rows@.len(),
            all == text::each_text(rows@),
            signal::metric_views(out@) == diskstats_lines(all.take(i as int), ts, extra@),
        decreases rows@.len() - i,
    {
        let ghost before = signal::metric_views(out@);
        assert(all.take(i + 1).drop_last() =~= all.take(i as int));
        assert(all.take(i + 1).last() == rows@[i as int]@);
        assert(before + Seq::<MetricView>::empty() =~= before);
        let words = text::words_of(rows[i]);
        if words.len() >= 14 {
            assert(text::each_text(words@)[2] == words@[2]@);
            if !ignored(words[2]) {
                let values = (
                    read_field(&words, 5, 512),
                    read_field(&words, 9, 512),
                    read_field(&words, 3, 1),
                    read_field(&words, 7, 1),
                );
                push_io_row(&mut out, text::string_of(words[2]), values, ts, extra);
            }
        }
        i = i + 1;
    }
    assert(all.take(i as int) =~= all);
    out
}

/// The counters of a physical drive since the start.
#[derive(Debug, Clone, Copy)]
pub struct DriveCounters {
    pub index: u32,
    pub bytes_read: i64,
    pub bytes_written: i64,
    pub reads: u32,
    pub writes: u32,
}

/// The samples of a physical drive.
pub open spec fn drive_row(
    d: DriveCounters,
    ts: i64,
    extra: Map<Seq<char>, Seq<char>>,
) -> Seq<MetricView> {
    io_row(
        "PhysicalDrive"@ + number::dec(d.index as nat),
        (
            ReadingView::Ratio { units: d.bytes_read, per: 1 },
            ReadingView::Ratio { units: d.bytes_written, per: 1 },
            ReadingView::Count(d.reads as u64),
            ReadingView::Count(d.writes as u64),
        ),
        ts,
        extra,
    )
}

/// The samples of the physical drives.
pub open spec fn drive_samples(
    drives: Seq<DriveCounters>,
    ts: i64,
    extra: Map<Seq<char>, Seq<char>>,
) -> Seq<MetricView>
    decreases drives.len(),
{
    if drives.len() == 0 {
        Seq::empty()
    } else {
        drive_samples(drives.drop_last(), ts, extra) + drive_row(drives.last(), ts, extra)
    }
}

pub fn drive_metrics(drives: &Vec<DriveCounters>, ts: i64, extra: &Labels) -> (r: Vec<MetricSample>)
    ensures
        signal::metric_views(r@) == drive_samples(drives@, ts, extra@),
{
    let mut out: Vec<MetricSample> = Vec::new();
    let mut i: usize = 0;
    assert(signal::metric_views(out@) =~= drive_samples(drives@.take(0), ts, extra@));
    while i < drives.len()
        invariant
            i <= drives@.len(),
            signal::metric_views(out@) == drive_samples(drives@.take(i as int), ts, extra@),
        decreases drives@.len() - i,
    {
        let d = drives[i];
        assert(drives@.take(i + 1).drop_last() =~= drives@.take(i as int));
        assert(drives@.take(i + 1).last() == d);
        let name = text::cat2("PhysicalDrive", number::dec_u64(d.index as u64).as_str());
        let values = (
            Reading::Ratio { units: d.bytes_read, per: 1 },
            Reading::Ratio { units: d.bytes_written, per: 1 },
            Reading::Count(d.reads as u64),
            Reading::Count(d.writes as u64),
        );
        push_io_row(&mut out, name, values, ts, extra);
        i = i + 1;
    }
    assert(drives@.take(i as int) =~= drives@);
    out
}

// ---------------------------------------------------------------------------
// Network
// ---------------------------------------------------------------------------

/// What went through a network interface since the start.
#[derive(Debug)]
pub struct InterfaceCounters {
    pub name: String,
    pub received: u64,
    pub transmitted: u64,
    pub packets_received: u64,
    pub packets_transmitted: u64,
}

/// The samples of a network interface; the loopback interface has none.
pub open spec fn interface_row(
    c: InterfaceCounters,
    ts: i64,
    extra: Map<Seq<char>, Seq<char>>,
) -> Seq<MetricView> {
    if c.name@ == "lo"@ || c.name@ == "loopback"@ {
        Seq::empty()
    } else {
        let labels = extra.insert("device"@, c.name@);
        let counter = MetricKind::Counter;
        seq![
            metric_of(
                "node_network_receive_bytes_total"@,
                labels,
                ReadingView::Count(c.received),
                ts,
                counter,
            ),
            metric_of(
                "node_network_transmit_bytes_total"@,
                labels,
                ReadingView::Count(c.transmitted),
                ts,
                counter,
            ),
            metric_of(
                "node_network_receive_packets_total"@,
                labels,
                ReadingView::Count(c.packets_received),
                ts,
                counter,
            ),
            metric_of(
                "node_network_transmit_packets_total"@,
                labels,
                ReadingView::Count(c.packets_transmitted),
                ts,
                counter,
            ),
        ]
    }
}

/// The samples of the network interfaces.
pub open spec fn network_samples(
    interfaces: Seq<InterfaceCounters>,
    ts: i64,
    extra: Map<Seq<char>, Seq<char>>,
) -> Seq<MetricView>
    decreases interfaces.len(),
{
    if interfaces.len() == 0 {
        Seq::empty()
    } else {
        network_samples(interfaces.drop_last(), ts, extra) + interface_row(
            interfaces.last(),
            ts,
            extra,
        )
    }
}

pub fn network_metrics(interfaces: &Vec<InterfaceCounters>, ts: i64, extra: &Labels) -> (r: Vec<
    MetricSample,
>)
    ensures
        signal::metric_views(r@) == network_samples(interfaces@, ts, extra@),
{
    let mut out: Vec<MetricSample> = Vec::new();
    let mut i: usize = 0;
    assert(signal::metric_views(out@) =~= network_samples(interfaces@.take(0), ts, extra@));
    while i < interfaces.len()
        invariant
            i <= interfaces@.len(),
            signal::metric_views(out@) == network_samples(interfaces@.take(i as int), ts, extra@),
        decreases interfaces@.len() - i,
    {
        let ghost next = interfaces@.take(i + 1);
        let c = &interfaces[i];
        assert(next.drop_last() =~= interfaces@.take(i as int));
        assert(next.last() == c);
        let name = c.name.as_str();
        if !text::str_eq(name, "lo") && !text::str_eq(name, "loopback") {
            let mut labels = extra.clone();
            let _ = labels.insert("device".to_owned(), c.name.clone());
            let counter = MetricKind::Counter;
            push_metric(
                &mut out,
                "node_network_receive_bytes_total",
                &labels,
                Reading::Count(c.received),
                ts,
                counter,
            );
            push_metric(
                &mut out,
                "node_network_transmit_bytes_total",
                &labels,
                Reading::Count(c.transmitted),
                ts,
                counter,
            );
            push_metric(
                &mut out,
                "node_network_receive_packets_total",
                &labels,
                Reading::Count(c.packets_received),
                ts,
                counter,
            );
            push_metric(
                &mut out,
                "node_network_transmit_packets_total",
                &labels,
                Reading::Count(c.packets_transmitted),
                ts,
                counter,
            );
        }
        assert(signal::metric_views(out@) =~= network_samples(next, ts, extra@));
        i = i + 1;
    }
    assert(interfaces@.take(i as int) =~= interfaces@);
    out
}

// ---------------------------------------------------------------------------
// Load average
// ---------------------------------------------------------------------------

/// The samples of the load averages, which are doubles by their bits.
pub open spec fn load_samples(
    one: u64,
    five: u64,
    fifteen: u64,
    ts: i64,
    extra: Map<Seq<char>, Seq<char>>,
) -> Seq<MetricView> {
    let gauge = MetricKind::Gauge;
    seq![
        metric_of("node_load1"@, extra, ReadingView::Bits(one), ts, gauge),
        metric_of("node_load5"@, extra, ReadingView::Bits(five), ts, gauge),
        metric_of("node_load15"@, extra, ReadingView::Bits(fifteen), ts, gauge),
    ]
}

pub fn load_metrics(one: u64, five: u64, fifteen: u64, ts: i64, extra: &Labels) -> (r: Vec<
    MetricSample,
>)
    ensures
        signal::metric_views(r@) == load_samples(one, five, fifteen, ts, extra@),
{
    let mut out: Vec<MetricSample> = Vec::new();
    assert(signal::metric_views(out@) =~= Seq::empty());
    let gauge = MetricKind::Gauge;
    push_metric(&mut out, "node_load1", extra, Reading::Bits(one), ts, gauge);
    push_metric(&mut out, "node_load5", extra, Reading::Bits(five), ts, gauge);
    push_metric(&mut out, "node_load15", extra, Reading::Bits(fifteen), ts, gauge);
    assert(signal::metric_views(out@) =~= load_samples(one, five, fifteen, ts, extra@));
    out
}

// ---------------------------------------------------------------------------
// Laws
// ---------------------------------------------------------------------------

/// Partitions and pseudo devices never reach the output: each sample of
/// /proc/diskstats is of a device that is not ignored.
pub proof fn law_ignored_devices_are_left_out(
    lines: Seq<Seq<char>>,
    ts: i64,
    extra: Map<Seq<char>, Seq<char>>,
    i: int,
)
    requires
        0 <= i < diskstats_lines(lines, ts, extra).len(),
    ensures
        diskstats_lines(lines, ts, extra)[i].labels.contains_key("device"@),
        !is_ignored(diskstats_lines(lines, ts, extra)[i].labels["device"@]),
    decreases lines.len(),
{
    let before = diskstats_lines(lines.drop_last(), ts, extra);
    if i < before.len() {
        law_ignored_devices_are_left_out(lines.drop_last(), ts, extra, i);
    }
}

/// Every CPU time is a counter of one name that says its CPU and its mode.
pub proof fn law_cpu_times_are_labelled(
    lines: Seq<Seq<char>>,
    ts: i64,
    extra: Map<Seq<char>, Seq<char>>,
    i: int,
)
    requires
        0 <= i < stat_lines(lines, ts, extra).len(),
    ensures
        ({
            let m = stat_lines(lines, ts, extra)[i];
            &&& m.name == "node_cpu_seconds_total"@
            &&& m.kind == MetricKind::Counter
            &&& m.labels.contains_key("cpu"@)
            &&& m.labels.contains_key("mode"@)
        }),
    decreases lines.len(),
{
    let before = stat_lines(lines.drop_last(), ts, extra);
    if i < before.len() {
        law_cpu_times_are_labelled(lines.drop_last(), ts, extra, i);
    }
}

/// The sample is among the samples.
pub open spec fn holds_sample(
    samples: Seq<MetricView>,
    name: Seq<char>,
    labels: Map<Seq<char>, Seq<char>>,
    value: ReadingView,
    ts: i64,
    kind: MetricKind,
) -> bool {
    samples.contains(MetricView { name, labels, value, timestamp_ms: ts, kind })
}

/// Each collector goes by its name; without a configuration all of them are run.
pub proof fn law_collectors_go_by_their_names(name: Seq<char>)
    ensures
        named("cpu"@) == CollectorView::Cpu,
        named("memory"@) == CollectorView::Memory,
        named("disk"@) == CollectorView::Disk,
        named("diskio"@) == CollectorView::DiskIo,
        named("network"@) == CollectorView::Network,
        named("load"@) == CollectorView::Load,
        name != "cpu"@ && name != "memory"@ && name != "disk"@ && name != "diskio"@ && name
            != "network"@ && name != "load"@ ==> named(name) == CollectorView::Unknown(name),
        all_collectors().len() == 6,
        all_collectors().contains(CollectorView::Cpu),
        all_collectors().contains(CollectorView::Memory),
        all_collectors().contains(CollectorView::Disk),
        all_collectors().contains(CollectorView::DiskIo),
        all_collectors().contains(CollectorView::Network),
        all_collectors().contains(CollectorView::Load),
{
    reveal_strlit("cpu");
    reveal_strlit("memory");
    reveal_strlit("disk");
    reveal_strlit("diskio");
    reveal_strlit("network");
    reveal_strlit("load");
    assert("cpu"@.len() == 3 && "memory"@.len() == 6 && "disk"@.len() == 4);
    assert("diskio"@.len() == 6 && "network"@.len() == 7 && "load"@.len() == 4);
    assert("memory"@[0] == 'm' && "diskio"@[0] == 'd' && "disk"@[0] == 'd' && "load"@[0] == 'l');
    let all = all_collectors();
    assert(all[0] is Cpu && all[1] is Memory && all[2] is Disk);
    assert(all[3] is DiskIo && all[4] is Network && all[5] is Load);
}

/// Lines and devices are read one after the other, and none is lost: what two
/// rows come to is what the one comes to and then the other.
pub proof fn law_every_row_is_read(
    a: Seq<Seq<char>>,
    b: Seq<Seq<char>>,
    ts: i64,
    extra: Map<Seq<char>, Seq<char>>,
)
    ensures
        stat_lines(a + b, ts, extra) == stat_lines(a, ts, extra) + stat_lines(b, ts, extra),
        diskstats_lines(a + b, ts, extra) == diskstats_lines(a, ts, extra) + diskstats_lines(
            b,
            ts,
            extra,
        ),
        forall|line: Seq<char>| #[trigger]
            stat_lines(seq![line], ts, extra) == stat_line(line, ts, extra),
        forall|line: Seq<char>| #[trigger]
            diskstats_lines(seq![line], ts, extra) == diskstats_line(line, ts, extra),
    decreases b.len(),
{
    if b.len() == 0 {
        assert(a + b =~= a);
        assert(stat_lines(b, ts, extra) =~= Seq::empty());
        assert(diskstats_lines(b, ts, extra) =~= Seq::empty());
    } else {
        assert((a + b).drop_last() =~= a + b.drop_last());
        assert((a + b).last() == b.last());
        law_every_row_is_read(a, b.drop_last(), ts, extra);
    }
    assert(stat_lines(a + b, ts, extra) =~= stat_lines(a, ts, extra) + stat_lines(b, ts, extra));
    assert(diskstats_lines(a + b, ts, extra) =~= diskstats_lines(a, ts, extra) + diskstats_lines(
        b,
        ts,
        extra,
    ));
    assert forall|line: Seq<char>| #[trigger]
        stat_lines(seq![line], ts, extra) == stat_line(line, ts, extra) by {
        assert(seq![line].drop_last() =~= Seq::empty());
        assert(seq![line].last() == line);
        assert(stat_lines(seq![line].drop_last(), ts, extra) =~= Seq::empty());
        assert(stat_lines(seq![line], ts, extra) =~= stat_line(line, ts, extra));
    }
    assert forall|line: Seq<char>| #[trigger]
        diskstats_lines(seq![line], ts, extra) == diskstats_line(line, ts, extra) by {
        assert(seq![line].drop_last() =~= Seq::empty());
        assert(seq![line].last() == line);
        assert(diskstats_lines(seq![line].drop_last(), ts, extra) =~= Seq::empty());
        assert(diskstats_lines(seq![line], ts, extra) =~= diskstats_line(line, ts, extra));
    }
}

/// The row of a CPU makes one counter for each of its columns, up to the eighth:
/// the time in that column's mode, in hundredths of a second. The row of the sum
/// of all CPUs makes none, and neither does a row of anything else.
pub proof fn law_every_column_of_a_cpu_is_reported(
    line: Seq<char>,
    ts: i64,
    extra: Map<Seq<char>, Seq<char>>,
    n: Seq<char>,
)
    ensures
        ({
            let words = text::words(line);
            let samples = stat_line(line, ts, extra);
            &&& !text::begins(line, "cpu"@) ==> samples.len() == 0
            &&& words.len() > 0 && words[0] == "cpu"@ ==> samples.len() == 0
            &&& text::begins(line, "cpu"@) && words.len() > 0 && words[0] == "cpu"@ + n && n.len()
                > 0 && !text::begins(n, "cpu"@) ==> {
                &&& words.len() <= 9 ==> samples.len() == words.len() - 1
                &&& words.len() > 9 ==> samples.len() == 8
                &&& forall|k: int|
                    0 <= k < samples.len() ==> {
                        &&& (#[trigger] samples[k]).name == "node_cpu_seconds_total"@
                        &&& samples[k].labels == extra.insert("cpu"@, n).insert("mode"@, mode(k))
                        &&& samples[k].kind == MetricKind::Counter
                        &&& samples[k].timestamp_ms == ts
                        &&& samples[k].value == ReadingView::Scaled {
                            literal: if number::is_float(words[k + 1]) {
                                words[k + 1]
                            } else {
                                "0"@
                            },
                            times: 1,
                            per: 100,
                        }
                    }
            }
        }),
{
    reveal_strlit("cpu");
    let words = text::words(line);
    if words.len() > 0 && words[0] == "cpu"@ + n && n.len() > 0 && !text::begins(n, "cpu"@) {
        let w = "cpu"@ + n;
        assert(w.subrange(0, 3) =~= "cpu"@);
        assert(text::begins(w, "cpu"@));
        assert(w.skip(3) =~= n);
        assert(without_prefixes(n, "cpu"@) == n);
        assert(without_prefixes(w, "cpu"@) == n);
        assert(w.len() > 3);
    }
}

/// The columns of a CPU's row have their modes.
pub proof fn law_columns_have_their_modes(column: int)
    ensures
        mode(0) == "user"@,
        mode(1) == "nice"@,
        mode(2) == "system"@,
        mode(3) == "idle"@,
        mode(4) == "iowait"@,
        mode(5) == "irq"@,
        mode(6) == "softirq"@,
        mode(7) == "steal"@,
{
}

/// Each processor reports its idle, its user and its system time, in units of
/// 100 nanoseconds; the system time is the kernel's without the idle time.
pub proof fn law_every_processor_is_reported(
    times: Seq<ProcessorTimes>,
    ts: i64,
    extra: Map<Seq<char>, Seq<char>>,
    i: int,
)
    requires
        0 <= i < times.len(),
    ensures
        processor_samples(times, ts, extra).len() == 3 * times.len(),
        ({
            let samples = processor_samples(times, ts, extra);
            let cpu = number::dec(i as nat);
            let t = times[i];
            let name = "node_cpu_seconds_total"@;
            &&& holds_sample(
                samples,
                name,
                extra.insert("cpu"@, cpu).insert("mode"@, "idle"@),
                ReadingView::Ratio { units: t.idle, per: 10_000_000 },
                ts,
                MetricKind::Counter,
            )
            &&& holds_sample(
                samples,
                name,
                extra.insert("cpu"@, cpu).insert("mode"@, "user"@),
                ReadingView::Ratio { units: t.user, per: 10_000_000 },
                ts,
                MetricKind::Counter,
            )
            &&& holds_sample(
                samples,
                name,
                extra.insert("cpu"@, cpu).insert("mode"@, "system"@),
                ReadingView::Ratio {
                    units: if t.kernel >= t.idle {
                        (t.kernel - t.idle) as i64
                    } else {
                        0
                    },
                    per: 10_000_000,
                },
                ts,
                MetricKind::Counter,
            )
        }),
    decreases times.len(),
{
    let samples = processor_samples(times, ts, extra);
    let front = processor_samples(times.drop_last(), ts, extra);
    if times.len() == 1 {
        assert(times.drop_last() =~= Seq::empty());
    }
    lemma_three_of_each(times.drop_last(), ts, extra);
    if i == times.len() - 1 {
        assert(samples[3 * i].value == ReadingView::Ratio { units: times[i].idle, per: 10_000_000 });
        assert(samples[3 * i + 1].value == ReadingView::Ratio {
            units: times[i].user,
            per: 10_000_000,
        });
        assert(samples[3 * i + 2].value == ReadingView::Ratio {
            units: system_time(times[i]) as i64,
            per: 10_000_000,
        });
    } else {
        law_every_processor_is_reported(times.drop_last(), ts, extra, i);
        assert(times.drop_last()[i] == times[i]);
        assert forall|m: MetricView| front.contains(m) implies #[trigger] samples.contains(m) by {
            let j = choose|j: int| 0 <= j < front.len() && front[j] == m;
            assert(samples[j] == m);
        }
    }
}

proof fn lemma_three_of_each(
    times: Seq<ProcessorTimes>,
    ts: i64,
    extra: Map<Seq<char>, Seq<char>>,
)
    ensures
        processor_samples(times, ts, extra).len() == 3 * times.len(),
    decreases times.len(),
{
    if times.len() > 0 {
        lemma_three_of_each(times.drop_last(), ts, extra);
    }
}

/// The memory is reported in bytes: the total, what is available and what is
/// free, and the swap space and what is free of it.
pub proof fn law_the_memory_is_reported(
    info: MemoryInfo,
    ts: i64,
    extra: Map<Seq<char>, Seq<char>>,
)
    ensures
        ({
            let samples = memory_samples(info, ts, extra);
            let gauge = MetricKind::Gauge;
            &&& samples.len() == 5
            &&& holds_sample(
                samples,
                "node_memory_MemTotal_bytes"@,
                extra,
                ReadingView::Count(info.total),
                ts,
                gauge,
            )
            &&& holds_sample(
                samples,
                "node_memory_MemAvailable_bytes"@,
                extra,
                ReadingView::Count(info.available),
                ts,
                gauge,
            )
            &&& holds_sample(
                samples,
                "node_memory_MemFree_bytes"@,
                extra,
                ReadingView::Count(info.free),
                ts,
                gauge,
            )
            &&& holds_sample(
                samples,
                "node_memory_SwapTotal_bytes"@,
                extra,
                ReadingView::Count(info.total_swap),
                ts,
                gauge,
            )
            &&& holds_sample(
                samples,
                "node_memory_SwapFree_bytes"@,
                extra,
                ReadingView::Count(
                    if info.total_swap >= info.used_swap {
                        (info.total_swap - info.used_swap) as u64
                    } else {
                        0
                    },
                ),
                ts,
                gauge,
            )
        }),
{
    let samples = memory_samples(info, ts, extra);
    assert(samples[0].value == ReadingView::Count(info.total));
    assert(samples[1].value == ReadingView::Count(info.available));
    assert(samples[2].value == ReadingView::Count(info.free));
    assert(samples[3].value == ReadingView::Count(info.total_swap));
    assert(samples[4].value == ReadingView::Count(free_swap(info) as u64));
}

/// Every filesystem reports its size, what is available and what is used, under
/// its device and its mount point.
pub proof fn law_every_filesystem_is_reported(
    disks: Seq<DiskInfo>,
    ts: i64,
    extra: Map<Seq<char>, Seq<char>>,
    i: int,
)
    requires
        0 <= i < disks.len(),
    ensures
        disk_samples(disks, ts, extra).len() == 3 * disks.len(),
        ({
            let samples = disk_samples(disks, ts, extra);
            let d = disks[i];
            let labels = extra.insert("device"@, d.device@).insert("mountpoint"@, d.mountpoint@);
            let gauge = MetricKind::Gauge;
            &&& holds_sample(
                samples,
                "node_filesystem_size_bytes"@,
                labels,
                ReadingView::Count(d.total),
                ts,
                gauge,
            )
            &&& holds_sample(
                samples,
                "node_filesystem_avail_bytes"@,
                labels,
                ReadingView::Count(d.available),
                ts,
                gauge,
            )
            &&& holds_sample(
                samples,
                "node_filesystem_used_bytes"@,
                labels,
                ReadingView::Gap { of: d.total, less: d.available },
                ts,
                gauge,
            )
        }),
    decreases disks.len(),
{
    let samples = disk_samples(disks, ts, extra);
    let front = disk_samples(disks.drop_last(), ts, extra);
    let row = disk_row(disks.last(), ts, extra);
    assert(samples == front + row);
    assert forall|m: MetricView| front.contains(m) || row.contains(m) implies #[trigger]
        samples.contains(m) by {
        if front.contains(m) {
            let j = choose|j: int| 0 <= j < front.len() && front[j] == m;
            assert(samples[j] == m);
        } else {
            let j = choose|j: int| 0 <= j < row.len() && row[j] == m;
            assert(samples[front.len() + j] == m);
        }
    }
    if disks.len() > 1 {
        law_every_filesystem_is_reported(
            disks.drop_last(),
            ts,
            extra,
            if i < disks.len() - 1 {
                i
            } else {
                0
            },
        );
    } else {
        assert(disks.drop_last() =~= Seq::empty());
        assert(front =~= Seq::empty());
    }
    if i < disks.len() - 1 {
        assert(disks.drop_last()[i] == disks[i]);
    } else {
        assert(row.contains(row[0]) && row.contains(row[1]) && row.contains(row[2]));
    }
}

/// A device reports the bytes read and written, and the reads and the writes, as
/// counters under its name.
pub proof fn law_a_device_reports_its_counters(
    device: Seq<char>,
    values: (ReadingView, ReadingView, ReadingView, ReadingView),
    ts: i64,
    extra: Map<Seq<char>, Seq<char>>,
)
    ensures
        ({
            let samples = io_row(device, values, ts, extra);
            let labels = extra.insert("device"@, device);
            let counter = MetricKind::Counter;
            &&& samples.len() == 4
            &&& holds_sample(
                samples,
                "node_disk_read_bytes_total"@,
                labels,
                values.0,
                ts,
                counter,
            )
            &&& holds_sample(
                samples,
                "node_disk_written_bytes_total"@,
                labels,
                values.1,
                ts,
                counter,
            )
            &&& holds_sample(
                samples,
                "node_disk_reads_completed_total"@,
                labels,
                values.2,
                ts,
                counter,
            )
            &&& holds_sample(
                samples,
                "node_disk_writes_completed_total"@,
                labels,
                values.3,
                ts,
                counter,
            )
        }),
{
    let samples = io_row(device, values, ts, extra);
    assert(samples[0].value == values.0);
    assert(samples[1].value == values.1);
    assert(samples[2].value == values.2);
    assert(samples[3].value == values.3);
}

/// A line of /proc/diskstats reports the device in its third field: sectors of
/// 512 bytes read and written, and the reads and writes that were completed. A
/// line that is too short, or of a device that is left out, reports nothing.
pub proof fn law_a_diskstats_line_reports_its_device(
    line: Seq<char>,
    ts: i64,
    extra: Map<Seq<char>, Seq<char>>,
)
    ensures
        ({
            let words = text::words(line);
            let literal = |k: int|
                if number::is_float(words[k]) {
                    words[k]
                } else {
                    "0"@
                };
            &&& words.len() < 14 || is_ignored(words[2]) ==> diskstats_line(line, ts, extra).len()
                == 0
            &&& words.len() >= 14 && !is_ignored(words[2]) ==> diskstats_line(line, ts, extra)
                == io_row(
                words[2],
                (
                    ReadingView::Scaled { literal: literal(5), times: 512, per: 1 },
                    ReadingView::Scaled { literal: literal(9), times: 512, per: 1 },
                    ReadingView::Scaled { literal: literal(3), times: 1, per: 1 },
                    ReadingView::Scaled { literal: literal(7), times: 1, per: 1 },
                ),
                ts,
                extra,
            )
        }),
{
}

/// Loop devices, RAM disks, mapped and optical devices are left out.
pub proof fn law_pseudo_devices_are_left_out(rest: Seq<char>)
    ensures
        is_ignored("loop"@ + rest),
        is_ignored("ram"@ + rest),
        is_ignored("dm-"@ + rest),
        is_ignored("sr"@ + rest),
{
    lemma_begins("loop"@, rest);
    lemma_begins("ram"@, rest);
    lemma_begins("dm-"@, rest);
    lemma_begins("sr"@, rest);
}

/// Of an `sd` disk the partitions are left out, which end in a digit, and the
/// disk itself is not.
pub proof fn law_sd_partitions_are_left_out(rest: Seq<char>, d: char)
    ensures
        '0' <= d <= '9' ==> is_ignored("sd"@ + rest + seq![d]),
        !('0' <= d <= '9') ==> !is_ignored("sd"@ + rest + seq![d]),
{
    let sd = "sd"@ + rest + seq![d];
    assert(sd =~= "sd"@ + (rest + seq![d]));
    lemma_begins("sd"@, rest + seq![d]);
    assert(sd.last() == d);
    assert(sd.len() >= 2 && sd[0] == 's' && sd[1] == 'd') by {
        reveal_strlit("sd");
    }
    lemma_begins_with(sd, 's', 'd');
}

/// Of an `nvme` or `mmcblk` disk the partitions are left out, which have a `p` in
/// their names, and the disk itself is not.
pub proof fn law_flash_partitions_are_left_out(rest: Seq<char>)
    ensures
        is_ignored("nvme"@ + rest) <==> rest.contains('p'),
        is_ignored("mmcblk"@ + rest) <==> rest.contains('p'),
{
    let nvme = "nvme"@ + rest;
    lemma_begins("nvme"@, rest);
    assert(nvme.len() >= 2 && nvme[0] == 'n' && nvme[1] == 'v' && !"nvme"@.contains('p')) by {
        reveal_strlit("nvme");
    }
    lemma_begins_with(nvme, 'n', 'v');
    lemma_holds_p("nvme"@, rest);
    let mmc = "mmcblk"@ + rest;
    lemma_begins("mmcblk"@, rest);
    assert(mmc.len() >= 2 && mmc[0] == 'm' && mmc[1] == 'm' && !"mmcblk"@.contains('p')) by {
        reveal_strlit("mmcblk");
    }
    lemma_begins_with(mmc, 'm', 'm');
    lemma_holds_p("mmcblk"@, rest);
}

/// Disks of other names are never left out.
pub proof fn law_other_disks_are_reported(device: Seq<char>)
    requires
        device.len() >= 2,
        device[0] != 'l',
        device[0] != 'r',
        device[0] != 'd',
        device[0] != 's',
        device[0] != 'n',
        device[0] != 'm',
    ensures
        !is_ignored(device),
{
    lemma_begins_with(device, device[0], device[1]);
    assert(text::begins(device, "sr"@) ==> device[0] == 's') by {
        reveal_strlit("sr");
        if text::begins(device, "sr"@) {
            assert(device.subrange(0, 2)[0] == device[0]);
        }
    }
}

proof fn lemma_begins(prefix: Seq<char>, rest: Seq<char>)
    ensures
        text::begins(prefix + rest, prefix),
{
    assert((prefix + rest).subrange(0, prefix.len() as int) =~= prefix);
}

proof fn lemma_begins_with(s: Seq<char>, x: char, y: char)
    requires
        s.len() >= 2,
        s[0] == x,
        s[1] == y,
    ensures
        text::begins(s, "loop"@) ==> x == 'l',
        text::begins(s, "ram"@) ==> x == 'r',
        text::begins(s, "dm-"@) ==> x == 'd',
        text::begins(s, "sr"@) ==> y == 'r',
        text::begins(s, "sd"@) ==> x == 's',
        text::begins(s, "nvme"@) ==> x == 'n',
        text::begins(s, "mmcblk"@) ==> x == 'm',
{
    reveal_strlit("loop");
    reveal_strlit("ram");
    reveal_strlit("dm-");
    reveal_strlit("sr");
    reveal_strlit("sd");
    reveal_strlit("nvme");
    reveal_strlit("mmcblk");
    if text::begins(s, "loop"@) {
        assert(s.subrange(0, 4)[0] == s[0]);
    }
    if text::begins(s, "ram"@) {
        assert(s.subrange(0, 3)[0] == s[0]);
    }
    if text::begins(s, "dm-"@) {
        assert(s.subrange(0, 3)[0] == s[0]);
    }
    if text::begins(s, "sr"@) {
        assert(s.subrange(0, 2)[1] == s[1]);
    }
    if text::begins(s, "sd"@) {
        assert(s.subrange(0, 2)[0] == s[0]);
    }
    if text::begins(s, "nvme"@) {
        assert(s.subrange(0, 4)[0] == s[0]);
    }
    if text::begins(s, "mmcblk"@) {
        assert(s.subrange(0, 6)[0] == s[0]);
    }
}

proof fn lemma_holds_p(head: Seq<char>, rest: Seq<char>)
    requires
        !head.contains('p'),
    ensures
        text::find_char(head + rest, 'p') is Some <==> rest.contains('p'),
{
    let s = head + rest;
    text::lemma_find_char_from(s, 'p', 0);
    if rest.contains('p') {
        let i = choose|i: int| 0 <= i < rest.len() && rest[i] == 'p';
        assert(s[head.len() + i] == 'p');
    }
    if text::find_char(s, 'p') is Some {
        let i = text::find_char(s, 'p')->0;
        if i < head.len() {
            assert(head[i] == 'p');
        } else {
            assert(rest[i - head.len()] == 'p');
        }
    }
}

/// Every physical drive reports its counters under its number.
pub proof fn law_every_drive_is_reported(
    a: Seq<DriveCounters>,
    b: Seq<DriveCounters>,
    ts: i64,
    extra: Map<Seq<char>, Seq<char>>,
)
    ensures
        drive_samples(a + b, ts, extra) == drive_samples(a, ts, extra) + drive_samples(b, ts, extra),
        forall|d: DriveCounters| #[trigger]
            drive_samples(seq![d], ts, extra) == io_row(
                "PhysicalDrive"@ + number::dec(d.index as nat),
                (
                    ReadingView::Ratio { units: d.bytes_read, per: 1 },
                    ReadingView::Ratio { units: d.bytes_written, per: 1 },
                    ReadingView::Count(d.reads as u64),
                    ReadingView::Count(d.writes as u64),
                ),
                ts,
                extra,
            ),
    decreases b.len(),
{
    if b.len() == 0 {
        assert(a + b =~= a);
        assert(drive_samples(b, ts, extra) =~= Seq::empty());
    } else {
        assert((a + b).drop_last() =~= a + b.drop_last());
        assert((a + b).last() == b.last());
        law_every_drive_is_reported(a, b.drop_last(), ts, extra);
    }
    assert(drive_samples(a + b, ts, extra) =~= drive_samples(a, ts, extra) + drive_samples(
        b,
        ts,
        extra,
    ));
    assert forall|d: DriveCounters| #[trigger]
        drive_samples(seq![d], ts, extra) == drive_row(d, ts, extra) by {
        assert(seq![d].drop_last() =~= Seq::empty());
        assert(seq![d].last() == d);
        assert(drive_samples(seq![d].drop_last(), ts, extra) =~= Seq::empty());
        assert(drive_samples(seq![d], ts, extra) =~= drive_row(d, ts, extra));
    }
}

/// Every network interface but the loopback reports the bytes and the packets
/// that it received and transmitted, as counters under its name.
pub proof fn law_every_interface_is_reported(
    interfaces: Seq<InterfaceCounters>,
    ts: i64,
    extra: Map<Seq<char>, Seq<char>>,
    i: int,
)
    requires
        0 <= i < interfaces.len(),
        interfaces[i].name@ != "lo"@,
        interfaces[i].name@ != "loopback"@,
    ensures
        ({
            let samples = network_samples(interfaces, ts, extra);
            let c = interfaces[i];
            let labels = extra.insert("device"@, c.name@);
            let counter = MetricKind::Counter;
            &&& holds_sample(
                samples,
                "node_network_receive_bytes_total"@,
                labels,
                ReadingView::Count(c.received),
                ts,
                counter,
            )
            &&& holds_sample(
                samples,
                "node_network_transmit_bytes_total"@,
                labels,
                ReadingView::Count(c.transmitted),
                ts,
                counter,
            )
            &&& holds_sample(
                samples,
                "node_network_receive_packets_total"@,
                labels,
                ReadingView::Count(c.packets_received),
                ts,
                counter,
            )
            &&& holds_sample(
                samples,
                "node_network_transmit_packets_total"@,
                labels,
                ReadingView::Count(c.packets_transmitted),
                ts,
                counter,
            )
        }),
    decreases interfaces.len(),
{
    let samples = network_samples(interfaces, ts, extra);
    let front = network_samples(interfaces.drop_last(), ts, extra);
    let row = interface_row(interfaces.last(), ts, extra);
    assert(samples == front + row);
    assert forall|m: MetricView| front.contains(m) || row.contains(m) implies #[trigger]
        samples.contains(m) by {
        if front.contains(m) {
            let j = choose|j: int| 0 <= j < front.len() && front[j] == m;
            assert(samples[j] == m);
        } else {
            let j = choose|j: int| 0 <= j < row.len() && row[j] == m;
            assert(samples[front.len() + j] == m);
        }
    }
    if i < interfaces.len() - 1 {
        law_every_interface_is_reported(interfaces.drop_last(), ts, extra, i);
        assert(interfaces.drop_last()[i] == interfaces[i]);
    } else {
        assert(row.len() == 4);
        assert(row.contains(row[0]) && row.contains(row[1]));
        assert(row.contains(row[2]) && row.contains(row[3]));
    }
}

/// Interfaces are reported in order, four samples each, and the loopback with
/// none.
pub proof fn law_interfaces_are_reported_in_order(
    a: Seq<InterfaceCounters>,
    b: Seq<InterfaceCounters>,
    ts: i64,
    extra: Map<Seq<char>, Seq<char>>,
)
    ensures
        network_samples(a + b, ts, extra) == network_samples(a, ts, extra) + network_samples(
            b,
            ts,
            extra,
        ),
        forall|c: InterfaceCounters| #[trigger]
            network_samples(seq![c], ts, extra).len() == (if c.name@ == "lo"@ || c.name@
                == "loopback"@ {
                0nat
            } else {
                4
            }),
    decreases b.len(),
{
    if b.len() == 0 {
        assert(a + b =~= a);
        assert(network_samples(b, ts, extra) =~= Seq::empty());
    } else {
        assert((a + b).drop_last() =~= a + b.drop_last());
        assert((a + b).last() == b.last());
        law_interfaces_are_reported_in_order(a, b.drop_last(), ts, extra);
    }
    assert(network_samples(a + b, ts, extra) =~= network_samples(a, ts, extra) + network_samples(
        b,
        ts,
        extra,
    ));
    assert forall|c: InterfaceCounters| #[trigger]
        network_samples(seq![c], ts, extra).len() == interface_row(c, ts, extra).len() by {
        assert(seq![c].drop_last() =~= Seq::empty());
        assert(seq![c].last() == c);
        assert(network_samples(seq![c].drop_last(), ts, extra) =~= Seq::empty());
    }
}

/// The three load averages are reported, each under its own name.
pub proof fn law_the_load_is_reported(
    one: u64,
    five: u64,
    fifteen: u64,
    ts: i64,
    extra: Map<Seq<char>, Seq<char>>,
)
    ensures
        ({
            let samples = load_samples(one, five, fifteen, ts, extra);
            let gauge = MetricKind::Gauge;
            &&& samples.len() == 3
            &&& holds_sample(samples, "node_load1"@, extra, ReadingView::Bits(one), ts, gauge)
            &&& holds_sample(samples, "node_load5"@, extra, ReadingView::Bits(five), ts, gauge)
            &&& holds_sample(samples, "node_load15"@, extra, ReadingView::Bits(fifteen), ts, gauge)
        }),
{
    let samples = load_samples(one, five, fifteen, ts, extra);
    assert(samples[0].value == ReadingView::Bits(one));
    assert(samples[1].value == ReadingView::Bits(five));
    assert(samples[2].value == ReadingView::Bits(fifteen));
}

/// There are samples where there is one, and a collector holds what it is.
pub proof fn law_no_samples_are_none(
    s: Seq<MetricView>,
    v: Vec<MetricSample>,
    t: ProcessorTimes,
    row: Seq<Collector>,
    name: String,
)
    ensures
        s.len() > 0 ==> some_unless_empty(s) == Some(s),
        s.len() == 0 ==> some_unless_empty(s) is None,
        opt_metrics(Some(v)) == Some(signal::metric_views(v@)),
        opt_metrics(None) is None,
        t.in_range() <==> i64::MIN <= t.kernel - t.idle <= i64::MAX,
        collector_views(row).len() == row.len(),
        forall|i: int| 0 <= i < row.len() ==> #[trigger] collector_views(row)[i] == row[i]@,
        Collector::Cpu@ == CollectorView::Cpu,
        Collector::Memory@ == CollectorView::Memory,
        Collector::Disk@ == CollectorView::Disk,
        Collector::DiskIo@ == CollectorView::DiskIo,
        Collector::Network@ == CollectorView::Network,
        Collector::Load@ == CollectorView::Load,
        Collector::Unknown(name)@ == CollectorView::Unknown(name@),
{
}

} // verus!
