//! Docker containers: their resource usage and their logs, as the `docker`
//! command prints them.

use vstd::prelude::*;

use crate::clock;
use crate::config;
use crate::config::DockerLogsConfig;
use crate::config::DockerStatsConfig;
use crate::json;
use crate::json::Json;
use crate::json::JsonView;
use crate::number;
use crate::pattern;
use crate::pattern::Pattern;
use crate::signal;
use crate::signal::LogEntry;
use crate::signal::LogView;
use crate::signal::MetricKind;
use crate::signal::MetricSample;
use crate::signal::MetricView;
use crate::signal::Reading;
use crate::signal::ReadingView;
use crate::strmap::Labels;
use crate::strmap::StrMap;
use crate::text;
use vstd::slice::slice_subrange;

verus! {

// ===========================================================================
// docker_stats: container resource usage via `docker stats --no-stream`
// ===========================================================================

/// Container resource usage.
#[derive(Debug)]
pub struct DockerStatsSource {
    cfg: DockerStatsConfig,
}

impl DockerStatsSource {
    /// The configuration.
    pub closed spec fn cfg(&self) -> DockerStatsConfig {
        self.cfg
    }

    pub fn new(cfg: DockerStatsConfig) -> (r: Self)
        ensures
            r.cfg() == cfg,
    {
        DockerStatsSource { cfg }
    }

    /// The configuration.
    pub fn config(&self) -> (r: &DockerStatsConfig)
        ensures
            *r == self.cfg(),
    {
        &self.cfg
    }

    /// The seconds between two polls.
    pub fn interval_secs(&self) -> (r: u64)
        ensures
            r == (match config::duration(self.cfg().interval@) {
                Some(n) => n,
                None => 15,
            }),
    {
        config::duration_or(self.cfg.interval.as_str(), 15)
    }

    /// The samples of what `docker stats` printed, with the extra labels, which
    /// count over the containers' own.
    pub fn samples(&self, stdout: &str, ts: i64) -> (r: Vec<MetricSample>)
        ensures
            signal::metric_views(r@) == stats_of(stdout@, ts).map_values(
                |m: MetricView|
                    MetricView {
                        labels: m.labels.union_prefer_right(self.cfg().extra_labels@),
                        ..m
                    },
            ),
    {
        let plain = parse_stats(stdout, ts);
        let ghost views = signal::metric_views(plain@);
        let mut out: Vec<MetricSample> = Vec::new();
        let mut i: usize = 0;
        while i < plain.len()
            invariant
                i <= plain@.len(),
                views == signal::metric_views(plain@),
                out@.len() == i,
                forall|j: int|
                    0 <= j < i ==> (#[trigger] out@[j])@ == (MetricView {
                        labels: plain@[j]@.labels.union_prefer_right(self.cfg.extra_labels@),
                        ..plain@[j]@
                    }),
            decreases plain@.len() - i,
        {
            let mut s = plain[i].clone();
            let mut labels = Labels::new();
            std::mem::swap(&mut labels, &mut s.labels);
            labels.extend(&self.cfg.extra_labels);
            s.labels = labels;
            out.push(s);
            i = i + 1;
        }
        assert(signal::metric_views(out@) =~= views.map_values(
            |m: MetricView|
                MetricView {
                    labels: m.labels.union_prefer_right(self.cfg().extra_labels@),
                    ..m
                },
        ));
        out
    }
}

// ---------------------------------------------------------------------------
// Model
// ---------------------------------------------------------------------------

/// A number as it is written, if it is one.
pub open spec fn literal(s: Seq<char>) -> Option<ReadingView> {
    if number::is_float(s) {
        Some(ReadingView::Scaled { literal: s, times: 1, per: 1 })
    } else {
        None
    }
}

/// The number of a percentage like "12.34%".
pub open spec fn percent(s: Seq<char>) -> Option<ReadingView> {
    literal(text::trim(text::trim_end_char(text::trim(s), '%')))
}

/// An ASCII letter.
pub open spec fn is_letter(c: char) -> bool {
    'a' <= c <= 'z' || 'A' <= c <= 'Z'
}

/// The position of the first letter, or the end.
pub open spec fn first_letter(s: Seq<char>, from: int) -> int
    decreases s.len() - from,
{
    if from < 0 || from >= s.len() || is_letter(s[from]) {
        from
    } else {
        first_letter(s, from + 1)
    }
}

/// The number of bytes that a unit stands for.
pub open spec fn unit_bytes(unit: Seq<char>) -> Option<u64> {
    if unit.len() == 0 || unit == "B"@ {
        Some(1)
    } else if unit == "kB"@ {
        Some(1_000)
    } else if unit == "KiB"@ {
        Some(1_024)
    } else if unit == "MB"@ {
        Some(1_000_000)
    } else if unit == "MiB"@ {
        Some(1_048_576)
    } else if unit == "GB"@ {
        Some(1_000_000_000)
    } else if unit == "GiB"@ {
        Some(1_073_741_824)
    } else if unit == "TB"@ {
        Some(1_000_000_000_000)
    } else if unit == "TiB"@ {
        Some(1_099_511_627_776)
    } else {
        None
    }
}

/// A size like "12MiB" in bytes: a number, and a unit that begins with the
/// first letter.
pub open spec fn bytes(s: Seq<char>) -> Option<ReadingView> {
    let t = text::trim(s);
    let at = first_letter(t, 0);
    let num = text::trim(t.take(at));
    match unit_bytes(text::trim(t.skip(at))) {
        Some(factor) => if number::is_float(num) {
            Some(ReadingView::Scaled { literal: num, times: factor, per: 1 })
        } else {
            None
        },
        None => None,
    }
}

/// A pair like "12MiB / 1GiB" in bytes.
pub open spec fn mem_usage(s: Seq<char>) -> Option<(ReadingView, ReadingView)> {
    match text::split_once(s, '/') {
        Some((used, limit)) => match (bytes(text::trim(used)), bytes(text::trim(limit))) {
            (Some(u), Some(l)) => Some((u, l)),
            _ => None,
        },
        None => None,
    }
}

/// A gauge.
pub open spec fn gauge(
    name: Seq<char>,
    labels: Map<Seq<char>, Seq<char>>,
    value: ReadingView,
    ts: i64,
) -> MetricView {
    MetricView { name, labels, value, timestamp_ms: ts, kind: MetricKind::Gauge }
}

/// A gauge, if there is a value for it.
pub open spec fn gauge_if(
    name: Seq<char>,
    labels: Map<Seq<char>, Seq<char>>,
    value: Option<ReadingView>,
    ts: i64,
) -> Seq<MetricView> {
    match value {
        Some(v) => seq![gauge(name, labels, v, ts)],
        None => Seq::empty(),
    }
}

/// The text of a field; empty where there is none.
pub open spec fn text_or_empty(v: JsonView, key: Seq<char>) -> Seq<char> {
    match v.text_field(key) {
        Some(t) => t,
        None => Seq::empty(),
    }
}

/// What a text field says as a percentage.
pub open spec fn percent_field(v: JsonView, key: Seq<char>) -> Option<ReadingView> {
    match v.text_field(key) {
        Some(t) => percent(t),
        None => None,
    }
}

/// The number of processes.
pub open spec fn pids_field(v: JsonView) -> Option<ReadingView> {
    match v.text_field("PIDs"@) {
        Some(t) => literal(text::trim(t)),
        None => None,
    }
}

/// The gauges of the memory in use and its limit.
pub open spec fn memory_gauges(
    v: JsonView,
    labels: Map<Seq<char>, Seq<char>>,
    ts: i64,
) -> Seq<MetricView> {
    match v.text_field("MemUsage"@) {
        Some(t) => match mem_usage(t) {
            Some((used, limit)) => seq![
                gauge("container_memory_usage_bytes"@, labels, used, ts),
                gauge("container_spec_memory_limit_bytes"@, labels, limit, ts),
            ],
            None => Seq::empty(),
        },
        None => Seq::empty(),
    }
}

/// The samples of a container; one without a name has none.
pub open spec fn container_samples(v: JsonView, ts: i64) -> Seq<MetricView> {
    let name = text_or_empty(v, "Name"@);
    if name.len() == 0 {
        Seq::empty()
    } else {
        let labels = Map::<Seq<char>, Seq<char>>::empty().insert("name"@, name).insert(
            "id"@,
            text_or_empty(v, "ID"@),
        );
        gauge_if("container_cpu_usage_percent"@, labels, percent_field(v, "CPUPerc"@), ts)
            + gauge_if("container_memory_usage_percent"@, labels, percent_field(v, "MemPerc"@), ts)
            + memory_gauges(v, labels, ts) + gauge_if("container_pids"@, labels, pids_field(v), ts)
    }
}

/// The samples of a line of `docker stats`; a line that is blank or no JSON
/// has none.
pub open spec fn line_samples(line: Seq<char>, ts: i64) -> Seq<MetricView> {
    let t = text::trim(line);
    if t.len() == 0 {
        Seq::empty()
    } else {
        match json::json_parse(t) {
            Some(v) => container_samples(v, ts),
            None => Seq::empty(),
        }
    }
}

pub open spec fn lines_samples(lines: Seq<Seq<char>>, ts: i64) -> Seq<MetricView>
    decreases lines.len(),
{
    if lines.len() == 0 {
        Seq::empty()
    } else {
        lines_samples(lines.drop_last(), ts) + line_samples(lines.last(), ts)
    }
}

/// The samples of what `docker stats` printed.
pub open spec fn stats_of(stdout: Seq<char>, ts: i64) -> Seq<MetricView> {
    lines_samples(text::lines(stdout), ts)
}

// ---------------------------------------------------------------------------
// Parsing
// ---------------------------------------------------------------------------

/// What an optional reading holds.
pub open spec fn opt_reading(r: Option<Reading>) -> Option<ReadingView> {
    match r {
        Some(v) => Some(v@),
        None => None,
    }
}

fn read_literal(s: &[char]) -> (r: Option<Reading>)
    ensures
        opt_reading(r) == literal(s@),
{
    if number::float_literal(s) {
        Some(Reading::Scaled { literal: text::string_of(s), times: 1, per: 1 })
    } else {
        None
    }
}

/// Parse a percentage string like "12.34%" into 12.34.
pub fn parse_percent(s: &str) -> (r: Option<Reading>)
    ensures
        opt_reading(r) == percent(s@),
{
    let chars = text::chars_of(s);
    let t = text::trimmed(text::trimmed_end_char(text::trimmed(chars.as_slice()), '%'));
    read_literal(t)
}

fn factor_of(unit: &[char]) -> (r: Option<u64>)
    ensures
        r == unit_bytes(unit@),
{
    if unit.len() == 0 {
        return Some(1);
    }
    let s = text::string_of(unit);
    let u = s.as_str();
    if text::str_eq(u, "B") {
        Some(1)
    } else if text::str_eq(u, "kB") {
        Some(1_000)
    } else if text::str_eq(u, "KiB") {
        Some(1_024)
    } else if text::str_eq(u, "MB") {
        Some(1_000_000)
    } else if text::str_eq(u, "MiB") {
        Some(1_048_576)
    } else if text::str_eq(u, "GB") {
        Some(1_000_000_000)
    } else if text::str_eq(u, "GiB") {
        Some(1_073_741_824)
    } else if text::str_eq(u, "TB") {
        Some(1_000_000_000_000)
    } else if text::str_eq(u, "TiB") {
        Some(1_099_511_627_776)
    } else {
        None
    }
}

fn read_size(s: &[char]) -> (r: Option<Reading>)
    ensures
        opt_reading(r) == bytes(s@),
{
    let t = text::trimmed(s);
    let mut at: usize = 0;
    while at < t.len() && !(('a' <= t[at] && t[at] <= 'z') || ('A' <= t[at] && t[at] <= 'Z'))
        invariant
            at <= t@.len(),
            first_letter(t@, 0) == first_letter(t@, at as int),
        decreases t@.len() - at,
    {
        at = at + 1;
    }
    let head = slice_subrange(t, 0, at);
    let tail = slice_subrange(t, at, t.len());
    assert(head@ =~= t@.take(at as int));
    assert(tail@ =~= t@.skip(at as int));
    let num = text::trimmed(head);
    match factor_of(text::trimmed(tail)) {
        Some(factor) => {
            if number::float_literal(num) {
                Some(Reading::Scaled { literal: text::string_of(num), times: factor, per: 1 })
            } else {
                None
            }
        },
        None => None,
    }
}

/// Parse a human-readable size like "12MiB", "1.5GB", "512kB" into bytes.
pub fn parse_bytes(s: &str) -> (r: Option<Reading>)
    ensures
        opt_reading(r) == bytes(s@),
{
    let chars = text::chars_of(s);
    read_size(chars.as_slice())
}

/// Parse a "used / limit" pair like "12MiB / 1GiB" into bytes.
pub fn parse_mem_usage(s: &str) -> (r: Option<(Reading, Reading)>)
    ensures
        match r {
            Some((u, l)) => mem_usage(s@) == Some((u@, l@)),
            None => mem_usage(s@) is None,
        },
{
    let chars = text::chars_of(s);
    match text::split_at_char(chars.as_slice(), '/') {
        Some((used, limit)) => {
            let u = match read_size(text::trimmed(used)) {
                Some(v) => v,
                None => {
                    return None;
                },
            };
            match read_size(text::trimmed(limit)) {
                Some(l) => Some((u, l)),
                None => None,
            }
        },
        None => None,
    }
}

fn text_of(v: &Json, key: &str) -> (r: String)
    ensures
        r@ == text_or_empty(v@, key@),
{
    match v.get_str(key) {
        Some(t) => t.clone(),
        None => String::new(),
    }
}

fn push_gauge(
    out: &mut Vec<MetricSample>,
    name: &str,
    labels: &Labels,
    value: Option<Reading>,
    ts: i64,
)
    ensures
        signal::metric_views(final(out)@) == signal::metric_views(old(out)@) + gauge_if(
            name@,
            labels@,
            opt_reading(value),
            ts,
        ),
{
    let ghost start = signal::metric_views(out@);
    if let Some(v) = value {
        let s = MetricSample {
            name: name.to_owned(),
            labels: labels.clone(),
            value: v,
            timestamp_ms: ts,
            kind: MetricKind::Gauge,
        };
        out.push(s);
        assert(signal::metric_views(out@) =~= start + seq![s@]);
    } else {
        assert(start + Seq::empty() =~= start);
    }
}

fn read_percent_field(v: &Json, key: &str) -> (r: Option<Reading>)
    ensures
        opt_reading(r) == percent_field(v@, key@),
{
    match v.get_str(key) {
        Some(t) => parse_percent(t.as_str()),
        None => None,
    }
}

/// The samples of a container, from its JSON.
pub fn read_container(v: &Json, ts: i64) -> (r: Vec<MetricSample>)
    ensures
        signal::metric_views(r@) == container_samples(v@, ts),
{
    let mut out: Vec<MetricSample> = Vec::new();
    assert(signal::metric_views(out@) =~= Seq::empty());
    let name = text_of(v, "Name");
    if name.as_str().is_empty() {
        return out;
    }
    let mut labels = Labels::new();
    let _ = labels.insert("name".to_owned(), name);
    let _ = labels.insert("id".to_owned(), text_of(v, "ID"));
    push_gauge(
        &mut out,
        "container_cpu_usage_percent",
        &labels,
        read_percent_field(v, "CPUPerc"),
        ts,
    );
    assert(signal::metric_views(out@) =~= gauge_if(
        "container_cpu_usage_percent"@,
        labels@,
        percent_field(v@, "CPUPerc"@),
        ts,
    ));
    push_gauge(
        &mut out,
        "container_memory_usage_percent",
        &labels,
        read_percent_field(v, "MemPerc"),
        ts,
    );
    let ghost before = signal::metric_views(out@);
    if let Some(t) = v.get_str("MemUsage") {
        if let Some((used, limit)) = parse_mem_usage(t.as_str()) {
            push_gauge(&mut out, "container_memory_usage_bytes", &labels, Some(used), ts);
            push_gauge(&mut out, "container_spec_memory_limit_bytes", &labels, Some(limit), ts);
        }
    }
    assert(signal::metric_views(out@) =~= before + memory_gauges(v@, labels@, ts));
    let pids = match v.get_str("PIDs") {
        Some(t) => {
            let chars = text::chars_of(t.as_str());
            read_literal(text::trimmed(chars.as_slice()))
        },
        None => None,
    };
    push_gauge(&mut out, "container_pids", &labels, pids, ts);
    out
}

/// The samples of what `docker stats` printed, one container to a line. Lines
/// that are no JSON are passed over.
pub fn parse_stats(stdout: &str, ts: i64) -> (r: Vec<MetricSample>)
    ensures
        signal::metric_views(r@) == stats_of(stdout@, ts),
{
    let chars = text::chars_of(stdout);
    let rows = text::lines_of(chars.as_slice());
    let ghost all = text::lines(stdout@);
    let mut out: Vec<MetricSample> = Vec::new();
    let mut i: usize = 0;
    assert(signal::metric_views(out@) =~= lines_samples(all.take(0), ts));
    while i < rows.len()
        invariant
            i <= rows@.len(),
            all == text::each_text(rows@),
            signal::metric_views(out@) == lines_samples(all.take(i as int), ts),
        decreases rows@.len() - i,
    {
        let ghost next = all.take(i + 1);
        let ghost before = signal::metric_views(out@);
        assert(next.drop_last() =~= all.take(i as int));
        assert(next.last() == rows@[i as int]@);
        let t = text::trimmed(rows[i]);
        if t.len() > 0 {
            let line = text::string_of(t);
            if let Some(v) = json::parse(line.as_str()) {
                let mut samples = read_container(&v, ts);
                let ghost found = samples@;
                let ghost so_far = out@;
                out.append(&mut samples);
                assert(out@ =~= so_far + found);
                assert(signal::metric_views(out@) =~= before + container_samples(v@, ts));
            }
        }
        assert(signal::metric_views(out@) =~= lines_samples(next, ts));
        i = i + 1;
    }
    assert(all.take(i as int) =~= all);
    out
}

// ===========================================================================
// docker_logs: per-container log tail via `docker logs --since --timestamps`
// ===========================================================================

// ---------------------------------------------------------------------------
// Model
// ---------------------------------------------------------------------------

/// Whether a container's logs are collected: all are where there is no
/// expression for their names.
pub open spec fn is_wanted(filter: Option<Seq<char>>, name: Seq<char>) -> bool {
    match filter {
        Some(p) => pattern::regex_matches(p, name),
        None => true,
    }
}

/// The containers of the lines of `docker ps`: an id and a name each.
pub open spec fn containers_in(
    lines: Seq<Seq<char>>,
    filter: Option<Seq<char>>,
) -> Seq<(Seq<char>, Seq<char>)>
    decreases lines.len(),
{
    if lines.len() == 0 {
        Seq::empty()
    } else {
        let before = containers_in(lines.drop_last(), filter);
        match text::split_once(text::trim(lines.last()), '|') {
            Some((id, name)) => if is_wanted(filter, name) {
                before.push((id, name))
            } else {
                before
            },
            None => before,
        }
    }
}

/// The log lines among the lines of `docker logs`: a time and a message each.
/// Blank lines, and those without a space, are passed over.
pub open spec fn messages_in(lines: Seq<Seq<char>>) -> Seq<(Seq<char>, Seq<char>)>
    decreases lines.len(),
{
    if lines.len() == 0 {
        Seq::empty()
    } else {
        let before = messages_in(lines.drop_last());
        if text::is_blank(lines.last()) {
            before
        } else {
            match text::split_once(lines.last(), ' ') {
                Some(m) => before.push(m),
                None => before,
            }
        }
    }
}

/// Whether a line is new, given the time of the newest line that was emitted
/// before.
pub open spec fn is_new(cursor: Option<Seq<char>>, time: Seq<char>) -> bool {
    match cursor {
        Some(c) => text::precedes(c, time),
        None => true,
    }
}

/// The lines that are new. Each is held against the cursor as it stood before
/// the lines were read: they come from two streams, one behind the other, so
/// that their times need not rise.
pub open spec fn new_messages(
    messages: Seq<(Seq<char>, Seq<char>)>,
    cursor: Option<Seq<char>>,
) -> Seq<(Seq<char>, Seq<char>)>
    decreases messages.len(),
{
    if messages.len() == 0 {
        Seq::empty()
    } else {
        let before = new_messages(messages.drop_last(), cursor);
        if is_new(cursor, messages.last().0) {
            before.push(messages.last())
        } else {
            before
        }
    }
}

/// The time of the newest line, those before the cursor included.
pub open spec fn newest(
    messages: Seq<(Seq<char>, Seq<char>)>,
    cursor: Option<Seq<char>>,
) -> Option<Seq<char>>
    decreases messages.len(),
{
    if messages.len() == 0 {
        cursor
    } else {
        let c = newest(messages.drop_last(), cursor);
        if is_new(c, messages.last().0) {
            Some(messages.last().0)
        } else {
            c
        }
    }
}

/// The time of the last line that was emitted for a container.
pub open spec fn cursor_of(
    cursors: Map<Seq<char>, Seq<char>>,
    id: Seq<char>,
) -> Option<Seq<char>> {
    if cursors.contains_key(id) {
        Some(cursors[id])
    } else {
        None
    }
}

/// The times of the last lines with that of a container set, if there is one.
pub open spec fn with_cursor(
    cursors: Map<Seq<char>, Seq<char>>,
    id: Seq<char>,
    cursor: Option<Seq<char>>,
) -> Map<Seq<char>, Seq<char>> {
    match cursor {
        Some(c) => cursors.insert(id, c),
        None => cursors,
    }
}

/// A log line as a log entry; `now` is its time where it carries none.
pub open spec fn log_of(
    time_ns: Option<i64>,
    message: Seq<char>,
    id: Seq<char>,
    name: Seq<char>,
    extra: Map<Seq<char>, Seq<char>>,
    now: i64,
) -> LogView {
    LogView {
        labels: extra.insert("source"@, "docker"@).insert("container"@, name).insert(
            "container_id"@,
            text::head(id, 12),
        ),
        line: message,
        timestamp_ns: match time_ns {
            Some(ns) => ns,
            None => now,
        },
    }
}

/// The log entries of a row of log lines.
pub open spec fn logs_of(
    messages: Seq<(Seq<char>, Seq<char>)>,
    id: Seq<char>,
    name: Seq<char>,
    extra: Map<Seq<char>, Seq<char>>,
    now: i64,
) -> Seq<LogView> {
    messages.map_values(
        |m: (Seq<char>, Seq<char>)|
            log_of(clock::rfc3339_nanos(m.0), m.1, id, name, extra, now),
    )
}

// ---------------------------------------------------------------------------
// Laws
// ---------------------------------------------------------------------------

/// Nothing is emitted twice: of lines that were all seen before, none is new.
pub proof fn law_seen_lines_are_not_emitted_again(
    messages: Seq<(Seq<char>, Seq<char>)>,
    cursor: Seq<char>,
)
    requires
        forall|i: int|
            0 <= i < messages.len() ==> !text::precedes(cursor, (#[trigger] messages[i]).0),
    ensures
        new_messages(messages, Some(cursor)).len() == 0,
        newest(messages, Some(cursor)) == Some(cursor),
    decreases messages.len(),
{
    if messages.len() > 0 {
        let init = messages.drop_last();
        assert forall|i: int| 0 <= i < init.len() implies !text::precedes(
            cursor,
            (#[trigger] init[i]).0,
        ) by {
            assert(init[i] == messages[i]);
        }
        law_seen_lines_are_not_emitted_again(init, cursor);
        assert(messages.last() == messages[messages.len() - 1]);
    }
}

/// No line is lost: one that is newer than every line emitted before is
/// emitted, whatever stands before it in what was read.
pub proof fn law_new_lines_are_emitted(
    messages: Seq<(Seq<char>, Seq<char>)>,
    cursor: Option<Seq<char>>,
    i: int,
)
    requires
        0 <= i < messages.len(),
        is_new(cursor, messages[i].0),
    ensures
        new_messages(messages, cursor).contains(messages[i]),
    decreases messages.len(),
{
    let init = messages.drop_last();
    let before = new_messages(init, cursor);
    let after = new_messages(messages, cursor);
    if i < init.len() {
        law_new_lines_are_emitted(init, cursor, i);
        let at = choose|at: int| 0 <= at < before.len() && before[at] == messages[i];
        assert(after[at] == messages[i]);
    } else {
        assert(after[before.len() as int] == messages[i]);
    }
}

/// The cursor only moves forward, and afterwards no line that was read is
/// ahead of it.
pub proof fn law_cursor_moves_forward(
    messages: Seq<(Seq<char>, Seq<char>)>,
    cursor: Option<Seq<char>>,
)
    ensures
        ({
            let after = newest(messages, cursor);
            &&& cursor matches Some(c) ==> after matches Some(a) && !text::precedes(a, c)
            &&& forall|i: int|
                #![trigger messages[i]]
                0 <= i < messages.len() ==> after is Some && !text::precedes(
                    after->0,
                    messages[i].0,
                )
        }),
    decreases messages.len(),
{
    if messages.len() > 0 {
        let init = messages.drop_last();
        let last = messages.last().0;
        law_cursor_moves_forward(init, cursor);
        let mid = newest(init, cursor);
        let after = newest(messages, cursor);
        text::lemma_precedes_total(last, last);
        if let Some(m) = mid {
            text::lemma_precedes_total(m, last);
            if text::precedes(m, last) {
                if let Some(c) = cursor {
                    if text::precedes(last, c) {
                        text::lemma_precedes_transitive(m, last, c);
                    }
                }
            }
        }
        assert forall|i: int| #![trigger messages[i]] 0 <= i < messages.len() implies after is Some
            && !text::precedes(after->0, messages[i].0) by {
            if i < init.len() {
                assert(init[i] == messages[i]);
                let m = mid->0;
                if text::precedes(m, last) && text::precedes(last, messages[i].0) {
                    text::lemma_precedes_transitive(m, last, messages[i].0);
                }
            }
        }
    } else if let Some(c) = cursor {
        text::lemma_precedes_total(c, c);
    }
}

// ---------------------------------------------------------------------------
// Parsing
// ---------------------------------------------------------------------------

/// The texts of a row of pairs.
pub open spec fn pair_texts(s: Seq<(String, String)>) -> Seq<(Seq<char>, Seq<char>)> {
    s.map_values(|p: (String, String)| (p.0@, p.1@))
}

/// The containers that `docker ps` listed, an id and a name each.
pub fn parse_containers(stdout: &str, filter: &Option<Pattern>) -> (r: Vec<(String, String)>)
    ensures
        pair_texts(r@) == containers_in(
            text::lines(stdout@),
            match filter {
                Some(p) => Some(p@),
                None => None,
            },
        ),
{
    let ghost f = match filter {
        Some(p) => Some(p@),
        None => None,
    };
    let chars = text::chars_of(stdout);
    let rows = text::lines_of(chars.as_slice());
    let ghost all = text::lines(stdout@);
    let mut out: Vec<(String, String)> = Vec::new();
    let mut i: usize = 0;
    assert(pair_texts(out@) =~= containers_in(all.take(0), f));
    while i < rows.len()
        invariant
            i <= rows@.len(),
            all == text::each_text(rows@),
            f == (match filter {
                Some(p) => Some(p@),
                None => None,
            }),
            pair_texts(out@) == containers_in(all.take(i as int), f),
        decreases rows@.len() - i,
    {
        let ghost next = all.take(i + 1);
        let ghost before = pair_texts(out@);
        assert(next.drop_last() =~= all.take(i as int));
        assert(next.last() == rows@[i as int]@);
        if let Some((id, name)) = text::split_at_char(text::trimmed(rows[i]), '|') {
            let name = text::string_of(name);
            let wanted = match filter {
                Some(re) => re.is_match(name.as_str()),
                None => true,
            };
            if wanted {
                let id = text::string_of(id);
                out.push((id, name));
                assert(pair_texts(out@) =~= before.push((id@, name@)));
            }
        }
        i = i + 1;
    }
    assert(all.take(i as int) =~= all);
    out
}

/// The log lines that `docker logs` printed, a time and a message each.
pub fn parse_messages(combined: &str) -> (r: Vec<(String, String)>)
    ensures
        pair_texts(r@) == messages_in(text::lines(combined@)),
{
    let chars = text::chars_of(combined);
    let rows = text::lines_of(chars.as_slice());
    let ghost all = text::lines(combined@);
    let mut out: Vec<(String, String)> = Vec::new();
    let mut i: usize = 0;
    assert(pair_texts(out@) =~= messages_in(all.take(0)));
    while i < rows.len()
        invariant
            i <= rows@.len(),
            all == text::each_text(rows@),
            pair_texts(out@) == messages_in(all.take(i as int)),
        decreases rows@.len() - i,
    {
        let ghost next = all.take(i + 1);
        let ghost before = pair_texts(out@);
        assert(next.drop_last() =~= all.take(i as int));
        assert(next.last() == rows@[i as int]@);
        let t = text::trimmed(rows[i]);
        if t.len() > 0 {
            if let Some((time, message)) = text::split_at_char(rows[i], ' ') {
                let time = text::string_of(time);
                let message = text::string_of(message);
                out.push((time, message));
                assert(pair_texts(out@) =~= before.push((time@, message@)));
            }
        }
        i = i + 1;
    }
    assert(all.take(i as int) =~= all);
    out
}

fn newer(cursor: &Option<String>, time: &str) -> (r: bool)
    ensures
        r == is_new(text::opt_text(*cursor), time@),
{
    match cursor {
        Some(c) => {
            let seen = text::chars_of(c.as_str());
            let here = text::chars_of(time);
            text::before(seen.as_slice(), here.as_slice())
        },
        None => true,
    }
}

/// A log line as a log entry, given its time if it carries one; `now` is its
/// time, in nanoseconds, where it does not.
pub fn make_log_at(
    time_ns: Option<i64>,
    message: &str,
    id: &str,
    name: &str,
    extra: &Labels,
    now: i64,
) -> (r: LogEntry)
    ensures
        r@ == log_of(time_ns, message@, id@, name@, extra@, now),
{
    let mut labels = extra.clone();
    let _ = labels.insert("source".to_owned(), "docker".to_owned());
    let _ = labels.insert("container".to_owned(), name.to_owned());
    let _ = labels.insert("container_id".to_owned(), text::head_of(id, 12));
    let timestamp_ns: i64 = match time_ns {
        Some(ns) => ns,
        None => now,
    };
    LogEntry { labels, line: message.to_owned(), timestamp_ns }
}

/// A log line as a log entry; `now` is its time, in nanoseconds, where its own
/// cannot be read.
pub fn make_log(
    ts_rfc3339: &str,
    message: &str,
    id: &str,
    name: &str,
    extra: &Labels,
    now: i64,
) -> (r: LogEntry)
    ensures
        r@ == log_of(clock::rfc3339_nanos(ts_rfc3339@), message@, id@, name@, extra@, now),
{
    let time_ns: Option<i64> = clock::parse_nanos(ts_rfc3339);
    make_log_at(time_ns, message, id, name, extra, now)
}

/// Container logs, with the time of the last line emitted for each container.
#[derive(Debug)]
pub struct DockerLogsSource {
    cfg: DockerLogsConfig,
    name_re: Option<Pattern>,
    // container id to RFC3339 timestamp of the last line that was emitted
    cursors: StrMap<String>,
}

impl DockerLogsSource {
    /// The configuration.
    pub closed spec fn cfg(&self) -> DockerLogsConfig {
        self.cfg
    }

    /// The expression for the names of the containers.
    pub closed spec fn filter(&self) -> Option<Seq<char>> {
        match self.name_re {
            Some(p) => Some(p@),
            None => None,
        }
    }

    /// The time of the last line emitted for each container.
    pub closed spec fn cursors(&self) -> Map<Seq<char>, Seq<char>> {
        self.cursors@
    }

    /// An expression that does not compile counts as none.
    pub fn new(cfg: DockerLogsConfig) -> (r: Self)
        ensures
            r.cfg() == cfg,
            r.filter() == pattern::compiled(cfg.name_filter),
            r.cursors() == Map::<Seq<char>, Seq<char>>::empty(),
    {
        let name_re = pattern::compile_option(&cfg.name_filter);
        DockerLogsSource { cfg, name_re, cursors: StrMap::new() }
    }

    /// The configuration.
    pub fn config(&self) -> (r: &DockerLogsConfig)
        ensures
            *r == self.cfg(),
    {
        &self.cfg
    }

    /// The seconds between two polls.
    pub fn interval_secs(&self) -> (r: u64)
        ensures
            r == (match config::duration(self.cfg().interval@) {
                Some(n) => n,
                None => 5,
            }),
    {
        config::duration_or(self.cfg.interval.as_str(), 5)
    }

    /// The containers whose logs are collected.
    pub fn containers(&self, stdout: &str) -> (r: Vec<(String, String)>)
        ensures
            pair_texts(r@) == containers_in(text::lines(stdout@), self.filter()),
    {
        parse_containers(stdout, &self.name_re)
    }

    /// From when on the logs of a container are asked for: from its last line
    /// on, or else for one interval.
    pub fn since(&self, id: &str, interval_secs: u64) -> (r: String)
        ensures
            match cursor_of(self.cursors(), id@) {
                Some(c) => r@ == c,
                None => r@ == number::dec(interval_secs as nat) + "s"@,
            },
    {
        match self.cursors.get(id) {
            Some(c) => c.clone(),
            None => text::cat2(number::dec_u64(interval_secs).as_str(), "s"),
        }
    }

    /// The log entries of the lines that are new in what `docker logs` printed
    /// for a container; `now` is the time of those whose own cannot be read.
    pub fn collect(&mut self, id: &str, name: &str, combined: &str, now: i64) -> (r: Vec<LogEntry>)
        ensures
            ({
                let messages = messages_in(text::lines(combined@));
                let cursor = cursor_of(old(self).cursors(), id@);
                &&& signal::log_views(r@) == logs_of(
                    new_messages(messages, cursor),
                    id@,
                    name@,
                    old(self).cfg().extra_labels@,
                    now,
                )
                &&& final(self).cursors() == with_cursor(
                    old(self).cursors(),
                    id@,
                    newest(messages, cursor),
                )
            }),
            final(self).cfg() == old(self).cfg(),
            final(self).filter() == old(self).filter(),
    {
        let messages = parse_messages(combined);
        let ghost all = pair_texts(messages@);
        let ghost start = cursor_of(self.cursors(), id@);
        let start_cursor: Option<String> = match self.cursors.get(id) {
            Some(c) => Some(c.clone()),
            None => None,
        };
        let mut cursor: Option<String> = text::copy_option(&start_cursor);
        let mut out: Vec<LogEntry> = Vec::new();
        let mut i: usize = 0;
        assert(signal::log_views(out@) =~= logs_of(
            new_messages(all.take(0), start),
            id@,
            name@,
            self.cfg.extra_labels@,
            now,
        ));
        while i < messages.len()
            invariant
                i <= messages@.len(),
                all == pair_texts(messages@),
                *self == *old(self),
                text::opt_text(start_cursor) == start,
                text::opt_text(cursor) == newest(all.take(i as int), start),
                signal::log_views(out@) == logs_of(
                    new_messages(all.take(i as int), start),
                    id@,
                    name@,
                    self.cfg.extra_labels@,
                    now,
                ),
            decreases messages@.len() - i,
        {
            let ghost next = all.take(i + 1);
            let ghost so_far = new_messages(all.take(i as int), start);
            let ghost before = signal::log_views(out@);
            assert(next.drop_last() =~= all.take(i as int));
            assert(next.last() == all[i as int]);
            let time = &messages[i].0;
            if newer(&start_cursor, time.as_str()) {
                let entry = make_log(
                    time.as_str(),
                    messages[i].1.as_str(),
                    id,
                    name,
                    &self.cfg.extra_labels,
                    now,
                );
                out.push(entry);
                assert(signal::log_views(out@) =~= before.push(entry@));
                assert(logs_of(
                    so_far.push(all[i as int]),
                    id@,
                    name@,
                    self.cfg.extra_labels@,
                    now,
                ) =~= before.push(entry@));
            }
            if newer(&cursor, time.as_str()) {
                cursor = Some(time.clone());
            }
            i = i + 1;
        }
        assert(all.take(i as int) =~= all);
        if let Some(c) = cursor {
            let _ = self.cursors.insert(id.to_owned(), c);
        }
        out
    }
}

// ---------------------------------------------------------------------------
// Laws
// ---------------------------------------------------------------------------

/// Among the samples there is just one of that name, and it has that value;
/// where there is no value, there is no sample of that name.
pub open spec fn reports_once(
    samples: Seq<MetricView>,
    name: Seq<char>,
    value: Option<ReadingView>,
) -> bool {
    match value {
        Some(v) => exists|i: int|
            {
                &&& 0 <= i < samples.len()
                &&& (#[trigger] samples[i]).name == name
                &&& samples[i].value == v
                &&& forall|j: int|
                    0 <= j < samples.len() && (#[trigger] samples[j]).name == name ==> j == i
            },
        None => forall|j: int| 0 <= j < samples.len() ==> (#[trigger] samples[j]).name != name,
    }
}

/// Of a container with a name every reading that can be read is reported, just
/// once: its share of the processors and of the memory, the bytes in use and
/// their limit, and the number of processes. Each is a gauge of the time given,
/// labelled with the container's name and id. Nothing else is reported, and
/// nothing at all of a container without a name.
pub proof fn law_every_reading_of_a_container_is_reported(v: JsonView, ts: i64)
    ensures
        ({
            let samples = container_samples(v, ts);
            let named = v.text_field("Name"@) is Some && v.text_field("Name"@)->0.len() > 0;
            &&& !named ==> samples.len() == 0
            &&& named ==> {
                &&& forall|i: int|
                    0 <= i < samples.len() ==> {
                        &&& (#[trigger] samples[i]).kind == MetricKind::Gauge
                        &&& samples[i].timestamp_ms == ts
                        &&& samples[i].labels.contains_key("name"@)
                        &&& samples[i].labels["name"@] == v.text_field("Name"@)->0
                        &&& samples[i].labels.contains_key("id"@)
                        &&& samples[i].labels["id"@] == (match v.text_field("ID"@) {
                            Some(id) => id,
                            None => Seq::<char>::empty(),
                        })
                        &&& forall|k: Seq<char>| #[trigger]
                            samples[i].labels.contains_key(k) ==> k == "name"@ || k == "id"@
                    }
                &&& reports_once(
                    samples,
                    "container_cpu_usage_percent"@,
                    match v.text_field("CPUPerc"@) {
                        Some(t) => percent(t),
                        None => None,
                    },
                )
                &&& reports_once(
                    samples,
                    "container_memory_usage_percent"@,
                    match v.text_field("MemPerc"@) {
                        Some(t) => percent(t),
                        None => None,
                    },
                )
                &&& reports_once(
                    samples,
                    "container_memory_usage_bytes"@,
                    match v.text_field("MemUsage"@) {
                        Some(t) => match mem_usage(t) {
                            Some((used, _)) => Some(used),
                            None => None,
                        },
                        None => None,
                    },
                )
                &&& reports_once(
                    samples,
                    "container_spec_memory_limit_bytes"@,
                    match v.text_field("MemUsage"@) {
                        Some(t) => match mem_usage(t) {
                            Some((_, limit)) => Some(limit),
                            None => None,
                        },
                        None => None,
                    },
                )
                &&& reports_once(
                    samples,
                    "container_pids"@,
                    match v.text_field("PIDs"@) {
                        Some(t) => if number::is_float(text::trim(t)) {
                            Some(
                                ReadingView::Scaled { literal: text::trim(t), times: 1, per: 1 },
                            )
                        } else {
                            None
                        },
                        None => None,
                    },
                )
                &&& samples.len() <= 5
            }
        }),
{
    let samples = container_samples(v, ts);
    let name = text_or_empty(v, "Name"@);
    if name.len() > 0 {
        let labels = Map::<Seq<char>, Seq<char>>::empty().insert("name"@, name).insert(
            "id"@,
            text_or_empty(v, "ID"@),
        );
        let cpu = gauge_if(
            "container_cpu_usage_percent"@,
            labels,
            percent_field(v, "CPUPerc"@),
            ts,
        );
        let share = gauge_if(
            "container_memory_usage_percent"@,
            labels,
            percent_field(v, "MemPerc"@),
            ts,
        );
        let memory = memory_gauges(v, labels, ts);
        let pids = gauge_if("container_pids"@, labels, pids_field(v), ts);
        let usage = match v.text_field("MemUsage"@) {
            Some(t) => mem_usage(t),
            None => None,
        };
        let used = match usage {
            Some((u, _)) => Some(u),
            None => None,
        };
        let limit = match usage {
            Some((_, l)) => Some(l),
            None => None,
        };
        let uses = gauge_if("container_memory_usage_bytes"@, labels, used, ts);
        let limits = gauge_if("container_spec_memory_limit_bytes"@, labels, limit, ts);
        assert(memory =~= uses + limits);
        assert(samples == cpu + share + (uses + limits) + pids);
        lemma_five_readings(
            cpu,
            share,
            uses,
            limits,
            pids,
            percent_field(v, "CPUPerc"@),
            percent_field(v, "MemPerc"@),
            used,
            limit,
            pids_field(v),
        );
        lemma_all_alike(cpu, share, labels, ts);
        lemma_all_alike(cpu + share, memory, labels, ts);
        lemma_all_alike(cpu + share + memory, pids, labels, ts);
        assert("name"@ != "id"@) by {
            reveal_strlit("name");
            reveal_strlit("id");
            assert("name"@.len() != "id"@.len());
        }
    }
}

proof fn lemma_five_readings(
    cpu: Seq<MetricView>,
    share: Seq<MetricView>,
    uses: Seq<MetricView>,
    limits: Seq<MetricView>,
    pids: Seq<MetricView>,
    cpu_value: Option<ReadingView>,
    share_value: Option<ReadingView>,
    used: Option<ReadingView>,
    limit: Option<ReadingView>,
    pids_value: Option<ReadingView>,
)
    requires
        is_reading(cpu, "container_cpu_usage_percent"@, cpu_value),
        is_reading(share, "container_memory_usage_percent"@, share_value),
        is_reading(uses, "container_memory_usage_bytes"@, used),
        is_reading(limits, "container_spec_memory_limit_bytes"@, limit),
        is_reading(pids, "container_pids"@, pids_value),
    ensures
        ({
            let all = cpu + share + (uses + limits) + pids;
            &&& reports_once(all, "container_cpu_usage_percent"@, cpu_value)
            &&& reports_once(all, "container_memory_usage_percent"@, share_value)
            &&& reports_once(all, "container_memory_usage_bytes"@, used)
            &&& reports_once(all, "container_spec_memory_limit_bytes"@, limit)
            &&& reports_once(all, "container_pids"@, pids_value)
        }),
{
    lemma_gauge_names();
    let none = Seq::<MetricView>::empty();
    let all = cpu + share + (uses + limits) + pids;
    assert(all =~= none + cpu + (share + uses + limits + pids));
    assert(all =~= cpu + share + (uses + limits + pids));
    assert(all =~= (cpu + share) + uses + (limits + pids));
    assert(all =~= (cpu + share + uses) + limits + pids);
    assert(all =~= (cpu + share + uses + limits) + pids + none);
    lemma_reported(
        none,
        cpu,
        share + uses + limits + pids,
        "container_cpu_usage_percent"@,
        cpu_value,
    );
    lemma_reported(
        cpu,
        share,
        uses + limits + pids,
        "container_memory_usage_percent"@,
        share_value,
    );
    lemma_reported(cpu + share, uses, limits + pids, "container_memory_usage_bytes"@, used);
    lemma_reported(
        cpu + share + uses,
        limits,
        pids,
        "container_spec_memory_limit_bytes"@,
        limit,
    );
    lemma_reported(cpu + share + uses + limits, pids, none, "container_pids"@, pids_value);
}

spec fn is_reading(
    samples: Seq<MetricView>,
    name: Seq<char>,
    value: Option<ReadingView>,
) -> bool {
    match value {
        Some(v) => samples.len() == 1 && samples[0].name == name && samples[0].value == v,
        None => samples.len() == 0,
    }
}

proof fn lemma_all_alike(
    a: Seq<MetricView>,
    b: Seq<MetricView>,
    labels: Map<Seq<char>, Seq<char>>,
    ts: i64,
)
    requires
        forall|i: int|
            0 <= i < a.len() ==> (#[trigger] a[i]).labels == labels && a[i].kind
                == MetricKind::Gauge && a[i].timestamp_ms == ts,
        forall|i: int|
            0 <= i < b.len() ==> (#[trigger] b[i]).labels == labels && b[i].kind
                == MetricKind::Gauge && b[i].timestamp_ms == ts,
    ensures
        forall|i: int|
            0 <= i < (a + b).len() ==> (#[trigger] (a + b)[i]).labels == labels && (a
                + b)[i].kind == MetricKind::Gauge && (a + b)[i].timestamp_ms == ts,
{
}

proof fn lemma_reported(
    before: Seq<MetricView>,
    mid: Seq<MetricView>,
    after: Seq<MetricView>,
    name: Seq<char>,
    value: Option<ReadingView>,
)
    requires
        forall|i: int| 0 <= i < before.len() ==> (#[trigger] before[i]).name != name,
        forall|i: int| 0 <= i < after.len() ==> (#[trigger] after[i]).name != name,
        is_reading(mid, name, value),
    ensures
        reports_once(before + mid + after, name, value),
{
    let all = before + mid + after;
    let n = before.len() as int;
    if value is Some {
        assert(all[n] == mid[0]);
    }
}

proof fn lemma_gauge_names()
    ensures
        "container_cpu_usage_percent"@ != "container_memory_usage_percent"@,
        "container_cpu_usage_percent"@ != "container_memory_usage_bytes"@,
        "container_cpu_usage_percent"@ != "container_spec_memory_limit_bytes"@,
        "container_cpu_usage_percent"@ != "container_pids"@,
        "container_memory_usage_percent"@ != "container_memory_usage_bytes"@,
        "container_memory_usage_percent"@ != "container_spec_memory_limit_bytes"@,
        "container_memory_usage_percent"@ != "container_pids"@,
        "container_memory_usage_bytes"@ != "container_spec_memory_limit_bytes"@,
        "container_memory_usage_bytes"@ != "container_pids"@,
        "container_spec_memory_limit_bytes"@ != "container_pids"@,
{
    reveal_strlit("container_cpu_usage_percent");
    reveal_strlit("container_memory_usage_percent");
    reveal_strlit("container_memory_usage_bytes");
    reveal_strlit("container_spec_memory_limit_bytes");
    reveal_strlit("container_pids");
    assert("container_cpu_usage_percent"@.len() == 27);
    assert("container_memory_usage_percent"@.len() == 30);
    assert("container_memory_usage_bytes"@.len() == 28);
    assert("container_spec_memory_limit_bytes"@.len() == 33);
    assert("container_pids"@.len() == 14);
}

/// A percentage is the number before its percent sign, which white space may
/// stand around; what is no number is no percentage.
pub proof fn law_a_percentage_is_its_number(before: Seq<char>, num: Seq<char>, after: Seq<char>)
    requires
        text::all_white(before),
        text::all_white(after),
        num.len() > 0,
        !text::is_white(num[0]),
        !text::is_white(num.last()),
        num.last() != '%',
    ensures
        number::is_float(num) ==> percent(before + num + seq!['%'] + after) == Some(
            ReadingView::Scaled { literal: num, times: 1, per: 1 },
        ),
        number::is_float(num) ==> percent(num) == Some(
            ReadingView::Scaled { literal: num, times: 1, per: 1 },
        ),
        !number::is_float(num) ==> percent(before + num + seq!['%'] + after) is None,
        percent(before + num + after) == percent(num),
{
    let s = num + seq!['%'];
    assert(s[0] == num[0]);
    assert(s.last() == '%');
    assert(before + num + seq!['%'] + after =~= before + s + after);
    text::law_trim_takes_white_space_off_both_ends(before, s, after);
    text::law_trim_takes_white_space_off_both_ends(before, num, after);
    text::law_trim_end_char_takes_the_run_off(num, seq!['%'], '%');
    text::law_trim_end_char_takes_the_run_off(num, Seq::empty(), '%');
    text::law_trim_takes_white_space_off_both_ends(Seq::empty(), num, Seq::empty());
    assert(Seq::<char>::empty() + num + Seq::<char>::empty() =~= num);
    assert(num + Seq::<char>::empty() =~= num);
}

/// A size is its number in the unit that follows: bytes where there is none,
/// powers of 1000 for `kB`, `MB`, `GB` and `TB`, and powers of 1024 for `KiB`,
/// `MiB`, `GiB` and `TiB`.
pub proof fn law_a_size_is_its_number_in_its_unit(num: Seq<char>)
    requires
        number::is_float(num),
        num.len() > 0,
        !text::is_white(num[0]),
        !text::is_white(num.last()),
        forall|i: int| 0 <= i < num.len() ==> !is_letter(#[trigger] num[i]),
    ensures
        bytes(num) == Some(ReadingView::Scaled { literal: num, times: 1, per: 1 }),
        bytes(num + "B"@) == Some(ReadingView::Scaled { literal: num, times: 1, per: 1 }),
        bytes(num + "kB"@) == Some(ReadingView::Scaled { literal: num, times: 1_000, per: 1 }),
        bytes(num + "KiB"@) == Some(ReadingView::Scaled { literal: num, times: 1_024, per: 1 }),
        bytes(num + "MB"@) == Some(ReadingView::Scaled { literal: num, times: 1_000_000, per: 1 }),
        bytes(num + "MiB"@) == Some(
            ReadingView::Scaled { literal: num, times: 1_048_576, per: 1 },
        ),
        bytes(num + "GB"@) == Some(
            ReadingView::Scaled { literal: num, times: 1_000_000_000, per: 1 },
        ),
        bytes(num + "GiB"@) == Some(
            ReadingView::Scaled { literal: num, times: 1_073_741_824, per: 1 },
        ),
        bytes(num + "TB"@) == Some(
            ReadingView::Scaled { literal: num, times: 1_000_000_000_000, per: 1 },
        ),
        bytes(num + "TiB"@) == Some(
            ReadingView::Scaled { literal: num, times: 1_099_511_627_776, per: 1 },
        ),
{
    reveal_strlit("B");
    reveal_strlit("kB");
    reveal_strlit("KiB");
    reveal_strlit("MB");
    reveal_strlit("MiB");
    reveal_strlit("GB");
    reveal_strlit("GiB");
    reveal_strlit("TB");
    reveal_strlit("TiB");
    assert("kB"@[0] == 'k' && "MB"@[0] == 'M' && "GB"@[0] == 'G' && "TB"@[0] == 'T');
    assert("KiB"@[0] == 'K' && "MiB"@[0] == 'M' && "GiB"@[0] == 'G' && "TiB"@[0] == 'T');
    assert("B"@.len() == 1 && "kB"@.len() == 2 && "KiB"@.len() == 3);
    assert("MB"@.len() == 2 && "MiB"@.len() == 3 && "GB"@.len() == 2 && "GiB"@.len() == 3);
    assert("TB"@.len() == 2 && "TiB"@.len() == 3);
    lemma_size_parts(num, Seq::empty());
    assert(num + Seq::<char>::empty() =~= num);
    lemma_size_parts(num, "B"@);
    lemma_size_parts(num, "kB"@);
    lemma_size_parts(num, "KiB"@);
    lemma_size_parts(num, "MB"@);
    lemma_size_parts(num, "MiB"@);
    lemma_size_parts(num, "GB"@);
    lemma_size_parts(num, "GiB"@);
    lemma_size_parts(num, "TB"@);
    lemma_size_parts(num, "TiB"@);
}

proof fn lemma_size_parts(num: Seq<char>, unit: Seq<char>)
    requires
        num.len() > 0,
        !text::is_white(num[0]),
        !text::is_white(num.last()),
        forall|i: int| 0 <= i < num.len() ==> !is_letter(#[trigger] num[i]),
        unit.len() > 0 ==> is_letter(unit[0]) && !text::is_white(unit.last()),
    ensures
        bytes(num + unit) == (match unit_bytes(unit) {
            Some(factor) => if number::is_float(num) {
                Some(ReadingView::Scaled { literal: num, times: factor, per: 1 })
            } else {
                None
            },
            None => None,
        }),
{
    let none = Seq::<char>::empty();
    let s = num + unit;
    let n = num.len() as int;
    assert(s[0] == num[0]);
    assert(s.last() == if unit.len() > 0 {
        unit.last()
    } else {
        num.last()
    });
    text::law_trim_takes_white_space_off_both_ends(none, s, none);
    assert(none + s + none =~= s);
    assert forall|i: int| 0 <= i < n implies !is_letter(#[trigger] s[i]) by {
        assert(s[i] == num[i]);
    }
    lemma_first_letter_is(s, 0, n);
    assert(s.take(n) =~= num);
    assert(s.skip(n) =~= unit);
    text::law_trim_takes_white_space_off_both_ends(none, num, none);
    assert(none + num + none =~= num);
    text::law_trim_takes_white_space_off_both_ends(none, unit, none);
    assert(none + unit + none =~= unit);
}

proof fn lemma_first_letter_is(s: Seq<char>, from: int, at: int)
    requires
        0 <= from <= at <= s.len(),
        forall|i: int| from <= i < at ==> !is_letter(#[trigger] s[i]),
        at < s.len() ==> is_letter(s[at]),
    ensures
        first_letter(s, from) == at,
    decreases at - from,
{
    if from < at {
        lemma_first_letter_is(s, from + 1, at);
    }
}

/// What stands before the slash is the memory in use, and what follows it is
/// the limit; there is neither unless both can be read.
pub proof fn law_memory_usage_is_the_use_and_the_limit(used: Seq<char>, limit: Seq<char>)
    requires
        forall|i: int| 0 <= i < used.len() ==> #[trigger] used[i] != '/',
    ensures
        match (bytes(text::trim(used)), bytes(text::trim(limit))) {
            (Some(u), Some(l)) => mem_usage(used + seq!['/'] + limit) == Some((u, l)),
            _ => mem_usage(used + seq!['/'] + limit) is None,
        },
        mem_usage(used) is None,
{
    text::law_split_once_splits_at_the_first(used, '/', limit);
}

/// Containers are reported one after the other, each from its own line: what two
/// rows of lines report is what the one reports and then the other. A line that
/// is JSON reports what its container does, and any other line nothing.
pub proof fn law_every_line_is_reported(
    a: Seq<Seq<char>>,
    b: Seq<Seq<char>>,
    line: Seq<char>,
    ts: i64,
)
    ensures
        lines_samples(a + b, ts) == lines_samples(a, ts) + lines_samples(b, ts),
        !text::is_blank(line) && json::json_parse(text::trim(line)) is Some ==> lines_samples(
            seq![line],
            ts,
        ) == container_samples(json::json_parse(text::trim(line))->0, ts),
        text::is_blank(line) || json::json_parse(text::trim(line)) is None ==> lines_samples(
            seq![line],
            ts,
        ).len() == 0,
        forall|stdout: Seq<char>| #[trigger]
            stats_of(stdout, ts) == lines_samples(text::lines(stdout), ts),
    decreases b.len(),
{
    if b.len() == 0 {
        assert(a + b =~= a);
        assert(lines_samples(a, ts) + lines_samples(b, ts) =~= lines_samples(a, ts));
    } else {
        assert((a + b).drop_last() =~= a + b.drop_last());
        assert((a + b).last() == b.last());
        law_every_line_is_reported(a, b.drop_last(), line, ts);
        assert(lines_samples(a + b, ts) =~= lines_samples(a, ts) + lines_samples(b, ts));
    }
    let one = seq![line];
    assert(one.drop_last() =~= Seq::empty());
    assert(lines_samples(one.drop_last(), ts) =~= Seq::empty());
    assert(one.last() == line);
    assert(lines_samples(one, ts) =~= line_samples(line, ts));
}

/// Every container that `docker ps` lists is collected, in that order, if there
/// is no expression for the names or the expression matches its name.
pub proof fn law_every_listed_container_is_collected(
    a: Seq<Seq<char>>,
    b: Seq<Seq<char>>,
    filter: Option<Seq<char>>,
    id: Seq<char>,
    name: Seq<char>,
)
    requires
        id.len() > 0,
        name.len() > 0,
        !text::is_white(id[0]),
        !text::is_white(name.last()),
        forall|i: int| 0 <= i < id.len() ==> #[trigger] id[i] != '|',
    ensures
        containers_in(a + b, filter) == containers_in(a, filter) + containers_in(b, filter),
        filter is None || pattern::regex_matches(filter->0, name) ==> containers_in(
            seq![id + seq!['|'] + name],
            filter,
        ) == seq![(id, name)],
        filter is Some && !pattern::regex_matches(filter->0, name) ==> containers_in(
            seq![id + seq!['|'] + name],
            filter,
        ).len() == 0,
        !text::is_white(id.last()) ==> containers_in(seq![id], filter).len() == 0,
    decreases b.len(),
{
    if b.len() == 0 {
        assert(a + b =~= a);
        assert(containers_in(a, filter) + containers_in(b, filter) =~= containers_in(a, filter));
    } else {
        assert((a + b).drop_last() =~= a + b.drop_last());
        assert((a + b).last() == b.last());
        law_every_listed_container_is_collected(a, b.drop_last(), filter, id, name);
        assert(containers_in(a + b, filter) =~= containers_in(a, filter) + containers_in(
            b,
            filter,
        ));
    }
    let none = Seq::<char>::empty();
    let line = id + seq!['|'] + name;
    assert(line[0] == id[0]);
    assert(line.last() == name.last());
    text::law_trim_takes_white_space_off_both_ends(none, line, none);
    assert(none + line + none =~= line);
    text::law_split_once_splits_at_the_first(id, '|', name);
    let one = seq![line];
    assert(one.drop_last() =~= Seq::empty());
    assert(one.last() == line);
    assert(containers_in(one.drop_last(), filter) =~= Seq::empty());
    if is_wanted(filter, name) {
        assert(containers_in(one, filter) =~= seq![(id, name)]);
    }
    let bare = seq![id];
    assert(bare.drop_last() =~= Seq::empty());
    assert(bare.last() == id);
    if !text::is_white(id.last()) {
        text::law_trim_takes_white_space_off_both_ends(none, id, none);
        assert(none + id + none =~= id);
    }
}

/// Every log line is read, in order: what stands before its first space is its
/// time, and what follows is its message.
pub proof fn law_every_log_line_is_read(
    a: Seq<Seq<char>>,
    b: Seq<Seq<char>>,
    time: Seq<char>,
    message: Seq<char>,
)
    requires
        time.len() > 0,
        !text::is_white(time[0]),
        forall|i: int| 0 <= i < time.len() ==> #[trigger] time[i] != ' ',
    ensures
        messages_in(a + b) == messages_in(a) + messages_in(b),
        messages_in(seq![time + seq![' '] + message]) == seq![(time, message)],
        messages_in(seq![time]).len() == 0,
        forall|line: Seq<char>|
            text::all_white(line) ==> #[trigger] messages_in(seq![line]).len() == 0,
    decreases b.len(),
{
    if b.len() == 0 {
        assert(a + b =~= a);
        assert(messages_in(a) + messages_in(b) =~= messages_in(a));
    } else {
        assert((a + b).drop_last() =~= a + b.drop_last());
        assert((a + b).last() == b.last());
        law_every_log_line_is_read(a, b.drop_last(), time, message);
        assert(messages_in(a + b) =~= messages_in(a) + messages_in(b));
    }
    let line = time + seq![' '] + message;
    assert(line[0] == time[0]);
    text::law_blank_is_all_white_space(line);
    text::law_blank_is_all_white_space(time);
    text::law_split_once_splits_at_the_first(time, ' ', message);
    let one = seq![line];
    assert(one.drop_last() =~= Seq::empty());
    assert(one.last() == line);
    assert(messages_in(one.drop_last()) =~= Seq::empty());
    assert(messages_in(one) =~= seq![(time, message)]);
    let bare = seq![time];
    assert(bare.drop_last() =~= Seq::empty());
    assert(bare.last() == time);
    assert forall|l: Seq<char>| text::all_white(l) implies #[trigger] messages_in(seq![l]).len()
        == 0 by {
        text::law_blank_is_all_white_space(l);
        assert(seq![l].drop_last() =~= Seq::empty());
        assert(seq![l].last() == l);
        assert(messages_in(seq![l].drop_last()) =~= Seq::empty());
    }
}

/// The lines that are emitted are just those that are newer than the cursor, in
/// the order in which they were read; where there is no cursor, all are.
pub proof fn law_the_emitted_lines_are_the_newer_ones(
    messages: Seq<(Seq<char>, Seq<char>)>,
    cursor: Option<Seq<char>>,
)
    ensures
        cursor is None ==> new_messages(messages, cursor) == messages,
        cursor matches Some(c) ==> new_messages(messages, cursor) == messages.filter(
            |m: (Seq<char>, Seq<char>)| text::precedes(c, m.0),
        ),
        newest(messages, cursor) matches Some(t) ==> cursor == Some(t) || exists|i: int|
            0 <= i < messages.len() && (#[trigger] messages[i]).0 == t,
        messages.len() == 0 ==> newest(messages, cursor) == cursor,
    decreases messages.len(),
{
    reveal(Seq::filter);
    if messages.len() > 0 {
        let front = messages.drop_last();
        law_the_emitted_lines_are_the_newer_ones(front, cursor);
        assert(front.push(messages.last()) =~= messages);
        assert(messages[messages.len() - 1] == messages.last());
        assert forall|i: int| 0 <= i < front.len() implies #[trigger] front[i] == messages[i] by {}
        if cursor is None {
            assert(new_messages(messages, cursor) =~= messages);
        }
        if let Some(t) = newest(messages, cursor) {
            if !is_new(newest(front, cursor), messages.last().0) && cursor != Some(t) {
                let i = choose|i: int| 0 <= i < front.len() && (#[trigger] front[i]).0 == t;
                assert(messages[i].0 == t);
            }
        }
    } else {
        assert(messages =~= Seq::empty());
    }
}

/// A log entry of a container carries the message as its line, the container's
/// name and the first twelve characters of its id, and the extra labels under
/// other names; its time is its own, or else the clock's.
pub proof fn law_container_logs_are_labelled(
    time_ns: Option<i64>,
    message: Seq<char>,
    id: Seq<char>,
    name: Seq<char>,
    extra: Map<Seq<char>, Seq<char>>,
    now: i64,
)
    ensures
        ({
            let e = log_of(time_ns, message, id, name, extra, now);
            &&& e.line == message
            &&& e.labels.contains_key("source"@) && e.labels["source"@] == "docker"@
            &&& e.labels.contains_key("container"@) && e.labels["container"@] == name
            &&& e.labels.contains_key("container_id"@)
            &&& id.len() <= 12 ==> e.labels["container_id"@] == id
            &&& id.len() > 12 ==> e.labels["container_id"@] == id.take(12)
            &&& forall|k: Seq<char>|
                k != "source"@ && k != "container"@ && k != "container_id"@ ==> (
                #[trigger] e.labels.contains_key(k) <==> extra.contains_key(k))
            &&& forall|k: Seq<char>|
                k != "source"@ && k != "container"@ && k != "container_id"@
                    && extra.contains_key(k) ==> #[trigger] e.labels[k] == extra[k]
            &&& time_ns matches Some(ns) ==> e.timestamp_ns == ns
            &&& time_ns is None ==> e.timestamp_ns == now
        }),
        forall|messages: Seq<(Seq<char>, Seq<char>)>, i: int|
            0 <= i < messages.len() ==> #[trigger] logs_of(messages, id, name, extra, now)[i]
                == log_of(
                clock::rfc3339_nanos(messages[i].0),
                messages[i].1,
                id,
                name,
                extra,
                now,
            ),
        forall|messages: Seq<(Seq<char>, Seq<char>)>| #[trigger]
            logs_of(messages, id, name, extra, now).len() == messages.len(),
{
    reveal_strlit("source");
    reveal_strlit("container");
    reveal_strlit("container_id");
    assert("source"@.len() == 6 && "container"@.len() == 9 && "container_id"@.len() == 12);
}

/// Each container has its own cursor: setting one leaves the others, and what is
/// read of it afterwards is what was set.
pub proof fn law_each_container_has_its_own_cursor(
    cursors: Map<Seq<char>, Seq<char>>,
    id: Seq<char>,
    other: Seq<char>,
    cursor: Option<Seq<char>>,
)
    ensures
        cursor is Some ==> cursor_of(with_cursor(cursors, id, cursor), id) == cursor,
        cursor is None ==> with_cursor(cursors, id, cursor) == cursors,
        other != id ==> cursor_of(with_cursor(cursors, id, cursor), other) == cursor_of(
            cursors,
            other,
        ),
        cursors.contains_key(id) ==> cursor_of(cursors, id) == Some(cursors[id]),
        !cursors.contains_key(id) ==> cursor_of(cursors, id) is None,
{
}

/// A size in a unit that is not known is no size, and white space may stand
/// between the number and its unit.
pub proof fn law_unknown_units_are_no_sizes(num: Seq<char>, unit: Seq<char>)
    requires
        num.len() > 0,
        !text::is_white(num[0]),
        !text::is_white(num.last()),
        forall|i: int| 0 <= i < num.len() ==> !is_letter(#[trigger] num[i]),
        unit.len() > 0,
        is_letter(unit[0]),
        !text::is_white(unit.last()),
    ensures
        unit != "B"@ && unit != "kB"@ && unit != "KiB"@ && unit != "MB"@ && unit != "MiB"@ && unit
            != "GB"@ && unit != "GiB"@ && unit != "TB"@ && unit != "TiB"@ ==> bytes(num + unit)
            is None,
        !number::is_float(num) ==> bytes(num + unit) is None,
        bytes(num + seq![' '] + unit) == bytes(num + unit),
{
    lemma_size_parts(num, unit);
    let none = Seq::<char>::empty();
    let s = num + seq![' '] + unit;
    let n = num.len() as int;
    assert(s[0] == num[0]);
    assert(s.last() == unit.last());
    text::law_trim_takes_white_space_off_both_ends(none, s, none);
    assert(none + s + none =~= s);
    assert forall|i: int| 0 <= i < n + 1 implies !is_letter(#[trigger] s[i]) by {
        if i < n {
            assert(s[i] == num[i]);
        }
    }
    assert(s[n + 1] == unit[0]);
    lemma_first_letter_is(s, 0, n + 1);
    assert(s.take(n + 1) =~= none + num + seq![' ']);
    assert(s.skip(n + 1) =~= unit);
    text::law_trim_takes_white_space_off_both_ends(none, num, seq![' ']);
    assert(unit[0] != ' ' && !text::is_white(unit[0]));
    text::law_trim_takes_white_space_off_both_ends(none, unit, none);
    assert(none + unit + none =~= unit);
}

/// A row of pairs holds them one by one, and a reading that may be absent is that
/// of the value, where there is one.
pub proof fn law_rows_hold_every_pair(s: Seq<(String, String)>, r: Reading)
    ensures
        pair_texts(s).len() == s.len(),
        forall|i: int|
            0 <= i < s.len() ==> (#[trigger] pair_texts(s)[i]).0 == s[i].0@ && pair_texts(s)[i].1
                == s[i].1@,
        opt_reading(Some(r)) == Some(r@),
        opt_reading(None) is None,
{
}

} // verus!
