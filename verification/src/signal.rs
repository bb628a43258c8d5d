//! The signals that flow through the agent: metric samples and log lines.

use vstd::prelude::*;

use crate::number;
pub use crate::strmap::Labels;

verus! {

/// The value of a measurement, as it was reported: a number in the form in
/// which its source gave it. A double is made of it where it is sent out.
#[derive(Debug)]
pub enum Reading {
    /// A double, by its IEEE 754 bits.
    Bits(u64),
    /// A whole number.
    Count(u64),
    /// `units` parts, `per` of which make one.
    Ratio { units: i64, per: u64 },
    /// `of` without `less`.
    Gap { of: u64, less: u64 },
    /// The number that `literal` stands for, `times` over, in parts of `per`.
    Scaled { literal: String, times: u64, per: u64 },
}

/// What a `Reading` holds.
pub enum ReadingView {
    Bits(u64),
    Count(u64),
    Ratio { units: i64, per: u64 },
    Gap { of: u64, less: u64 },
    Scaled { literal: Seq<char>, times: u64, per: u64 },
}

impl View for Reading {
    type V = ReadingView;

    open spec fn view(&self) -> ReadingView {
        match self {
            Reading::Bits(b) => ReadingView::Bits(*b),
            Reading::Count(n) => ReadingView::Count(*n),
            Reading::Ratio { units, per } => ReadingView::Ratio { units: *units, per: *per },
            Reading::Gap { of, less } => ReadingView::Gap { of: *of, less: *less },
            Reading::Scaled { literal, times, per } => ReadingView::Scaled {
                literal: literal@,
                times: *times,
                per: *per,
            },
        }
    }
}

impl Clone for Reading {
    fn clone(&self) -> (r: Self)
        ensures
            r@ == self@,
    {
        match self {
            Reading::Bits(b) => Reading::Bits(*b),
            Reading::Count(n) => Reading::Count(*n),
            Reading::Ratio { units, per } => Reading::Ratio { units: *units, per: *per },
            Reading::Gap { of, less } => Reading::Gap { of: *of, less: *less },
            Reading::Scaled { literal, times, per } => Reading::Scaled {
                literal: literal.clone(),
                times: *times,
                per: *per,
            },
        }
    }
}

/// What a metric counts.
#[derive(Debug, Clone, Copy, PartialEq, Eq, Structural)]
pub enum MetricKind {
    Gauge,
    Counter,
    Histogram,
}

impl Default for MetricKind {
    fn default() -> (r: Self)
        ensures
            r == MetricKind::Gauge,
    {
        MetricKind::Gauge
    }
}

/// A single numeric measurement.
#[derive(Debug)]
pub struct MetricSample {
    /// Metric name (Prometheus naming conventions: snake_case, no unit suffix needed)
    pub name: String,
    /// Key-value label set
    pub labels: Labels,
    /// Value
    pub value: Reading,
    /// Unix milliseconds
    pub timestamp_ms: i64,
    /// Metric kind, used when building OTLP payloads
    pub kind: MetricKind,
}

/// What a `MetricSample` holds.
pub struct MetricView {
    pub name: Seq<char>,
    pub labels: Map<Seq<char>, Seq<char>>,
    pub value: ReadingView,
    pub timestamp_ms: i64,
    pub kind: MetricKind,
}

impl View for MetricSample {
    type V = MetricView;

    open spec fn view(&self) -> MetricView {
        MetricView {
            name: self.name@,
            labels: self.labels@,
            value: self.value@,
            timestamp_ms: self.timestamp_ms,
            kind: self.kind,
        }
    }
}

impl Clone for MetricSample {
    fn clone(&self) -> (r: Self)
        ensures
            r@ == self@,
    {
        MetricSample {
            name: self.name.clone(),
            labels: self.labels.clone(),
            value: self.value.clone(),
            timestamp_ms: self.timestamp_ms,
            kind: self.kind,
        }
    }
}

/// A single log line.
#[derive(Debug)]
pub struct LogEntry {
    /// Stream labels (Loki-style)
    pub labels: Labels,
    /// The log line
    pub line: String,
    /// Unix nanoseconds
    pub timestamp_ns: i64,
}

/// What a `LogEntry` holds.
pub struct LogView {
    pub labels: Map<Seq<char>, Seq<char>>,
    pub line: Seq<char>,
    pub timestamp_ns: i64,
}

impl View for LogEntry {
    type V = LogView;

    open spec fn view(&self) -> LogView {
        LogView { labels: self.labels@, line: self.line@, timestamp_ns: self.timestamp_ns }
    }
}

impl Clone for LogEntry {
    fn clone(&self) -> (r: Self)
        ensures
            r@ == self@,
    {
        LogEntry {
            labels: self.labels.clone(),
            line: self.line.clone(),
            timestamp_ns: self.timestamp_ns,
        }
    }
}

/// Unified signal type flowing through the agent pipeline.
#[derive(Debug)]
pub enum Signal {
    Metric(MetricSample),
    Log(LogEntry),
}

/// What a `Signal` holds.
pub enum SignalView {
    Metric(MetricView),
    Log(LogView),
}

impl SignalView {
    /// The label set.
    pub open spec fn labels(self) -> Map<Seq<char>, Seq<char>> {
        match self {
            SignalView::Metric(m) => m.labels,
            SignalView::Log(l) => l.labels,
        }
    }

    /// The same signal with another label set.
    pub open spec fn with_labels(self, labels: Map<Seq<char>, Seq<char>>) -> SignalView {
        match self {
            SignalView::Metric(m) => SignalView::Metric(MetricView { labels, ..m }),
            SignalView::Log(l) => SignalView::Log(LogView { labels, ..l }),
        }
    }
}

impl View for Signal {
    type V = SignalView;

    open spec fn view(&self) -> SignalView {
        match self {
            Signal::Metric(m) => SignalView::Metric(m@),
            Signal::Log(l) => SignalView::Log(l@),
        }
    }
}

impl Clone for Signal {
    fn clone(&self) -> (r: Self)
        ensures
            r@ == self@,
    {
        match self {
            Signal::Metric(m) => Signal::Metric(m.clone()),
            Signal::Log(l) => Signal::Log(l.clone()),
        }
    }
}

/// What a signal holds, where there is one.
pub open spec fn opt_signal(s: Option<Signal>) -> Option<SignalView> {
    match s {
        Some(v) => Some(v@),
        None => None,
    }
}

/// What the signals of a row hold.
pub open spec fn signal_views(signals: Seq<Signal>) -> Seq<SignalView> {
    signals.map_values(|s: Signal| s@)
}

/// What the samples of a row hold.
pub open spec fn metric_views(samples: Seq<MetricSample>) -> Seq<MetricView> {
    samples.map_values(|s: MetricSample| s@)
}

/// What the log entries of a row hold.
pub open spec fn log_views(entries: Seq<LogEntry>) -> Seq<LogView> {
    entries.map_values(|e: LogEntry| e@)
}

// ---------------------------------------------------------------------------
// Clock
// ---------------------------------------------------------------------------

/// `std::time::SystemTime::now` and `duration_since` of `UNIX_EPOCH`, as whole
/// seconds and the nanoseconds within the second; none where the clock stands
/// before the epoch. Nothing is said of the seconds: they are the clock's. The
/// nanoseconds stay below one second.
#[verifier::external_body]
fn since_epoch() -> (r: Option<(u64, u32)>)
    ensures
        is_reading(r),
{
    let d = std::time::SystemTime::now().duration_since(std::time::UNIX_EPOCH).ok();
    d.map(|d| (d.as_secs(), d.subsec_nanos()))
}

/// A reading of the clock: the seconds since the epoch and the nanoseconds
/// within the second, or none where the clock stands before the epoch.
pub open spec fn is_reading(r: Option<(u64, u32)>) -> bool {
    r matches Some((_, nanos)) ==> nanos < 1_000_000_000
}

/// The nanoseconds since the epoch that a reading stands for. A clock before
/// the epoch counts as zero.
pub open spec fn reading_ns(r: Option<(u64, u32)>) -> int {
    match r {
        Some((secs, nanos)) => secs * 1_000_000_000 + nanos,
        None => 0,
    }
}

/// The milliseconds of a reading, as a 64-bit number that wraps.
pub open spec fn millis_spec(r: Option<(u64, u32)>) -> i64 {
    (reading_ns(r) / 1_000_000) as i64
}

/// The nanoseconds of a reading, as a 64-bit number that wraps.
pub open spec fn nanos_spec(r: Option<(u64, u32)>) -> i64 {
    reading_ns(r) as i64
}

fn count_ns(r: Option<(u64, u32)>) -> (n: u128)
    ensures
        n == reading_ns(r),
{
    match r {
        Some((secs, nanos)) => (secs as u128) * 1_000_000_000 + nanos as u128,
        None => 0,
    }
}

/// The milliseconds of a reading of the clock.
pub fn millis_of(r: Option<(u64, u32)>) -> (ms: i64)
    ensures
        ms == millis_spec(r),
{
    (count_ns(r) / 1_000_000) as i64
}

/// The nanoseconds of a reading of the clock.
pub fn nanos_of(r: Option<(u64, u32)>) -> (ns: i64)
    ensures
        ns == nanos_spec(r),
{
    count_ns(r) as i64
}

/// Convenience: current Unix milliseconds.
pub fn now_ms() -> (r: i64)
    ensures
        exists|reading: Option<(u64, u32)>|
            is_reading(reading) && r == #[trigger] millis_spec(reading),
{
    millis_of(since_epoch())
}

/// Convenience: current Unix nanoseconds.
pub fn now_ns() -> (r: i64)
    ensures
        exists|reading: Option<(u64, u32)>|
            is_reading(reading) && r == #[trigger] nanos_spec(reading),
{
    nanos_of(since_epoch())
}

/// Of one reading of the clock, the milliseconds are the whole milliseconds of
/// the nanoseconds, and both count from the epoch, as long as the nanoseconds
/// fit into 64 bits. A clock before the epoch gives zero for both.
pub proof fn law_milliseconds_are_those_of_the_nanoseconds(r: Option<(u64, u32)>)
    requires
        is_reading(r),
        reading_ns(r) <= i64::MAX,
    ensures
        nanos_spec(r) == reading_ns(r),
        millis_spec(r) == nanos_spec(r) / 1_000_000,
        r is None ==> nanos_spec(r) == 0 && millis_spec(r) == 0,
        r matches Some((secs, nanos)) ==> millis_spec(r) == secs * 1000 + nanos as int / 1_000_000,
{
}

/// Nanoseconds as milliseconds, rounded toward zero.
pub open spec fn ns_to_ms(ns: i64) -> int {
    number::trunc_div(ns as int, 1_000_000)
}

/// A signal's labels are those that it carries, and with other labels it is the
/// same signal but for them.
pub proof fn law_other_labels_change_nothing_else(
    s: SignalView,
    labels: Map<Seq<char>, Seq<char>>,
)
    ensures
        s.with_labels(labels).labels() == labels,
        s.with_labels(s.labels()) == s,
        s matches SignalView::Metric(m) ==> s.labels() == m.labels && (s.with_labels(labels) matches
            SignalView::Metric(n) && n.name == m.name && n.value == m.value && n.timestamp_ms
            == m.timestamp_ms && n.kind == m.kind),
        s matches SignalView::Log(l) ==> s.labels() == l.labels && (s.with_labels(labels) matches
            SignalView::Log(n) && n.line == l.line && n.timestamp_ns == l.timestamp_ns),
{
}

/// Milliseconds are whole millions of nanoseconds, rounded toward zero.
pub proof fn law_nanoseconds_are_rounded_toward_zero(ns: i64)
    ensures
        ({
            let left = ns - ns_to_ms(ns) * 1_000_000;
            &&& -1_000_000 < left < 1_000_000
            &&& ns >= 0 ==> left >= 0
            &&& ns <= 0 ==> left <= 0
        }),
{
    number::law_division_rounds_toward_zero(ns as int, 1_000_000);
}

/// What a signal holds is what its parts say: nothing of it is left out of
/// account. A row of signals holds them one by one.
pub proof fn law_signals_hold_all_of_their_parts(
    m: MetricSample,
    l: LogEntry,
    samples: Seq<MetricSample>,
    entries: Seq<LogEntry>,
    signals: Seq<Signal>,
)
    ensures
        m@.name == m.name@,
        m@.labels == m.labels@,
        m@.value == m.value@,
        m@.timestamp_ms == m.timestamp_ms,
        m@.kind == m.kind,
        l@.labels == l.labels@,
        l@.line == l.line@,
        l@.timestamp_ns == l.timestamp_ns,
        Signal::Metric(m)@ == SignalView::Metric(m@),
        Signal::Log(l)@ == SignalView::Log(l@),
        metric_views(samples).len() == samples.len(),
        forall|i: int| 0 <= i < samples.len() ==> #[trigger] metric_views(samples)[i] == samples[i]@,
        log_views(entries).len() == entries.len(),
        forall|i: int| 0 <= i < entries.len() ==> #[trigger] log_views(entries)[i] == entries[i]@,
        signal_views(signals).len() == signals.len(),
        forall|i: int| 0 <= i < signals.len() ==> #[trigger] signal_views(signals)[i] == signals[i]@,
        forall|s: Signal| #[trigger] opt_signal(Some(s)) == Some(s@),
        opt_signal(None) is None,
{
}

/// A reading holds the number in the form in which it was given.
pub proof fn law_readings_hold_their_numbers(
    bits: u64,
    literal: String,
    units: i64,
    a: u64,
    b: u64,
)
    ensures
        Reading::Bits(bits)@ == ReadingView::Bits(bits),
        Reading::Count(a)@ == ReadingView::Count(a),
        (Reading::Ratio { units, per: a })@ == (ReadingView::Ratio { units, per: a }),
        (Reading::Gap { of: a, less: b })@ == (ReadingView::Gap { of: a, less: b }),
        (Reading::Scaled { literal, times: a, per: b })@ == (ReadingView::Scaled {
            literal: literal@,
            times: a,
            per: b,
        }),
{
}

} // verus!
