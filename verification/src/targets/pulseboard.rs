//! The PulseBoard workspace: metrics as OTLP JSON, logs as Loki pushes.

use vstd::prelude::*;

use crate::config::PulseBoardTargetConfig;
use crate::enrollment::AgentCredentials;
use crate::fingerprint;
use crate::number;
use crate::payload;
use crate::payload::Payload;
use crate::payload::PayloadView;
use crate::payload::Post;
use crate::payload::PostView;
use crate::signal;
use crate::signal::LogEntry;
use crate::signal::LogView;
use crate::signal::MetricKind;
use crate::signal::MetricSample;
use crate::signal::MetricView;
use crate::signal::Signal;
use crate::signal::SignalView;
use crate::strmap::Labels;
use crate::text;

verus! {

/// What the agent says of itself in every metrics payload.
#[derive(Debug)]
pub struct AgentIdentity {
    pub version: String,
    pub hostname: String,
    pub agent_id: String,
}

/// What an `AgentIdentity` holds.
pub struct IdentityView {
    pub version: Seq<char>,
    pub hostname: Seq<char>,
    pub agent_id: Seq<char>,
}

impl View for AgentIdentity {
    type V = IdentityView;

    open spec fn view(&self) -> IdentityView {
        IdentityView {
            version: self.version@,
            hostname: self.hostname@,
            agent_id: self.agent_id@,
        }
    }
}

// ---------------------------------------------------------------------------
// OTLP model
// ---------------------------------------------------------------------------

/// An attribute with a text for its value.
pub open spec fn attr_of(k: Seq<char>, v: Seq<char>) -> PayloadView {
    PayloadView::Record(
        seq![
            ("key"@, PayloadView::Text(k)),
            ("value"@, PayloadView::Record(seq![("stringValue"@, PayloadView::Text(v))])),
        ],
    )
}

/// A label set as attributes, in the order of the keys.
pub open spec fn attrs_of(labels: Map<Seq<char>, Seq<char>>) -> PayloadView {
    PayloadView::List(
        fingerprint::listing(labels).map_values(|p: (Seq<char>, Seq<char>)| attr_of(p.0, p.1)),
    )
}

/// A sample's time in nanoseconds.
pub open spec fn time_ns(m: MetricView) -> int {
    m.timestamp_ms * 1_000_000
}

/// A sample as a data point.
pub open spec fn point_of(m: MetricView) -> PayloadView {
    PayloadView::Record(
        seq![
            ("attributes"@, attrs_of(m.labels)),
            ("timeUnixNano"@, PayloadView::Text(number::dec_int(time_ns(m)))),
            ("asDouble"@, PayloadView::Number(m.value)),
        ],
    )
}

/// The data points of the samples of one name and kind, in their order.
pub open spec fn points_of(
    metrics: Seq<MetricView>,
    name: Seq<char>,
    kind: MetricKind,
) -> Seq<PayloadView>
    decreases metrics.len(),
{
    if metrics.len() == 0 {
        Seq::empty()
    } else if metrics.last().name == name && metrics.last().kind == kind {
        points_of(metrics.drop_last(), name, kind).push(point_of(metrics.last()))
    } else {
        points_of(metrics.drop_last(), name, kind)
    }
}

/// The names and kinds of the samples, in the order in which they first occur.
pub open spec fn groups_of(metrics: Seq<MetricView>) -> Seq<(Seq<char>, MetricKind)>
    decreases metrics.len(),
{
    if metrics.len() == 0 {
        Seq::empty()
    } else {
        let before = groups_of(metrics.drop_last());
        let own = (metrics.last().name, metrics.last().kind);
        if before.contains(own) {
            before
        } else {
            before.push(own)
        }
    }
}

/// A metric with its data points.
pub open spec fn metric_of(name: Seq<char>, kind: MetricKind, points: Seq<PayloadView>) -> PayloadView {
    match kind {
        MetricKind::Counter => PayloadView::Record(
            seq![
                ("name"@, PayloadView::Text(name)),
                (
                    "sum"@,
                    PayloadView::Record(
                        seq![
                            ("dataPoints"@, PayloadView::List(points)),
                            ("aggregationTemporality"@, PayloadView::Integer(2)),
                            ("isMonotonic"@, PayloadView::Bool(true)),
                        ],
                    ),
                ),
            ],
        ),
        _ => PayloadView::Record(
            seq![
                ("name"@, PayloadView::Text(name)),
                ("gauge"@, PayloadView::Record(seq![("dataPoints"@, PayloadView::List(points))])),
            ],
        ),
    }
}

/// The metrics with their data points.
pub open spec fn grouped(metrics: Seq<MetricView>) -> Seq<PayloadView> {
    groups_of(metrics).map_values(
        |g: (Seq<char>, MetricKind)| metric_of(g.0, g.1, points_of(metrics, g.0, g.1)),
    )
}

/// What the agent stamps on every payload.
pub open spec fn resource_of(id: IdentityView) -> PayloadView {
    PayloadView::Record(
        seq![
            (
                "attributes"@,
                PayloadView::List(
                    seq![
                        attr_of("service.name"@, "pulseagent"@),
                        attr_of("agent.version"@, id.version),
                        attr_of("host.name"@, id.hostname),
                        attr_of("instance"@, id.hostname),
                        attr_of("agent.id"@, id.agent_id),
                    ],
                ),
            ),
        ],
    )
}

/// The OTLP payload of a row of samples.
pub open spec fn otlp_of(metrics: Seq<MetricView>, id: IdentityView) -> PayloadView {
    PayloadView::Record(
        seq![
            (
                "resourceMetrics"@,
                PayloadView::List(
                    seq![
                        PayloadView::Record(
                            seq![
                                ("resource"@, resource_of(id)),
                                (
                                    "scopeMetrics"@,
                                    PayloadView::List(
                                        seq![
                                            PayloadView::Record(
                                                seq![
                                                    (
                                                        "scope"@,
                                                        PayloadView::Record(
                                                            seq![
                                                                (
                                                                    "name"@,
                                                                    PayloadView::Text(
                                                                        "pulseagent"@,
                                                                    ),
                                                                ),
                                                                (
                                                                    "version"@,
                                                                    PayloadView::Text(id.version),
                                                                ),
                                                            ],
                                                        ),
                                                    ),
                                                    (
                                                        "metrics"@,
                                                        PayloadView::List(grouped(metrics)),
                                                    ),
                                                ],
                                            ),
                                        ],
                                    ),
                                ),
                            ],
                        ),
                    ],
                ),
            ),
        ],
    )
}

/// The times of the samples fit into 64 bits of nanoseconds.
pub open spec fn times_in_range(metrics: Seq<MetricView>) -> bool {
    forall|i: int|
        0 <= i < metrics.len() ==> i64::MIN <= time_ns(#[trigger] metrics[i]) <= i64::MAX
}

// ---------------------------------------------------------------------------
// Loki model
// ---------------------------------------------------------------------------

/// The label sets of the streams, in the order in which they first occur.
pub open spec fn streams_of(logs: Seq<LogView>) -> Seq<Map<Seq<char>, Seq<char>>>
    decreases logs.len(),
{
    if logs.len() == 0 {
        Seq::empty()
    } else if streams_of(logs.drop_last()).contains(logs.last().labels) {
        streams_of(logs.drop_last())
    } else {
        streams_of(logs.drop_last()).push(logs.last().labels)
    }
}

/// A log entry as a value of its stream.
pub open spec fn value_of(l: LogView) -> PayloadView {
    PayloadView::List(
        seq![
            PayloadView::Text(number::dec_int(l.timestamp_ns as int)),
            PayloadView::Text(l.line),
        ],
    )
}

/// The values of a stream, in the order of its entries: those with its labels.
pub open spec fn values_of(
    logs: Seq<LogView>,
    labels: Map<Seq<char>, Seq<char>>,
) -> Seq<PayloadView>
    decreases logs.len(),
{
    if logs.len() == 0 {
        Seq::empty()
    } else if logs.last().labels == labels {
        values_of(logs.drop_last(), labels).push(value_of(logs.last()))
    } else {
        values_of(logs.drop_last(), labels)
    }
}

/// A label set as a JSON object.
pub open spec fn labels_record(labels: Map<Seq<char>, Seq<char>>) -> PayloadView {
    PayloadView::Record(
        fingerprint::listing(labels).map_values(
            |p: (Seq<char>, Seq<char>)| (p.0, PayloadView::Text(p.1)),
        ),
    )
}

/// A stream with its values.
pub open spec fn stream_of(
    logs: Seq<LogView>,
    labels: Map<Seq<char>, Seq<char>>,
) -> PayloadView {
    PayloadView::Record(
        seq![
            ("stream"@, labels_record(labels)),
            ("values"@, PayloadView::List(values_of(logs, labels))),
        ],
    )
}

/// The Loki push of a row of log entries.
pub open spec fn loki_of(logs: Seq<LogView>) -> PayloadView {
    PayloadView::Record(
        seq![
            (
                "streams"@,
                PayloadView::List(
                    streams_of(logs).map_values(
                        |labels: Map<Seq<char>, Seq<char>>| stream_of(logs, labels),
                    ),
                ),
            ),
        ],
    )
}

// ---------------------------------------------------------------------------
// Batches
// ---------------------------------------------------------------------------

/// The samples of a batch.
pub open spec fn metrics_in(batch: Seq<SignalView>) -> Seq<MetricView>
    decreases batch.len(),
{
    if batch.len() == 0 {
        Seq::empty()
    } else {
        match batch.last() {
            SignalView::Metric(m) => metrics_in(batch.drop_last()).push(m),
            SignalView::Log(_) => metrics_in(batch.drop_last()),
        }
    }
}

/// The log entries of a batch.
pub open spec fn logs_in(batch: Seq<SignalView>) -> Seq<LogView>
    decreases batch.len(),
{
    if batch.len() == 0 {
        Seq::empty()
    } else {
        match batch.last() {
            SignalView::Metric(_) => logs_in(batch.drop_last()),
            SignalView::Log(l) => logs_in(batch.drop_last()).push(l),
        }
    }
}

/// Whether metrics are sent.
pub open spec fn sends_metrics(cfg: Option<PulseBoardTargetConfig>) -> bool {
    cfg matches Some(c) ==> c.otlp_metrics
}

/// Whether logs are sent.
pub open spec fn sends_logs(cfg: Option<PulseBoardTargetConfig>) -> bool {
    cfg matches Some(c) ==> c.loki_logs
}

/// The requests of a batch: the metrics first, then the logs.
pub open spec fn requests_of(
    base_url: Seq<char>,
    api_key: Seq<char>,
    with_metrics: bool,
    with_logs: bool,
    batch: Seq<SignalView>,
    id: IdentityView,
) -> Seq<PostView> {
    let metrics = metrics_in(batch);
    let logs = logs_in(batch);
    (if with_metrics && metrics.len() > 0 {
        seq![
            PostView {
                url: payload::url_of(base_url, "/v1/metrics"@),
                bearer: Some(api_key),
                body: otlp_of(metrics, id),
            },
        ]
    } else {
        Seq::empty()
    }) + (if with_logs && logs.len() > 0 {
        seq![
            PostView {
                url: payload::url_of(base_url, "/loki/api/v1/push"@),
                bearer: Some(api_key),
                body: loki_of(logs),
            },
        ]
    } else {
        Seq::empty()
    })
}

// ---------------------------------------------------------------------------
// Laws
// ---------------------------------------------------------------------------

/// Every signal of a batch is a metric or a log, and counts as one of them.
pub proof fn law_batch_is_metrics_and_logs(batch: Seq<SignalView>)
    ensures
        metrics_in(batch).len() + logs_in(batch).len() == batch.len(),
    decreases batch.len(),
{
    if batch.len() > 0 {
        law_batch_is_metrics_and_logs(batch.drop_last());
    }
}

/// No sample is lost: each is a data point of the metric of its name and kind,
/// and that metric is listed.
pub proof fn law_every_sample_is_shipped(metrics: Seq<MetricView>, i: int)
    requires
        0 <= i < metrics.len(),
    ensures
        groups_of(metrics).contains((metrics[i].name, metrics[i].kind)),
        points_of(metrics, metrics[i].name, metrics[i].kind).contains(point_of(metrics[i])),
    decreases metrics.len(),
{
    let init = metrics.drop_last();
    let (name, kind) = (metrics[i].name, metrics[i].kind);
    law_each_metric_is_listed_once(metrics);
    if i < init.len() {
        law_every_sample_is_shipped(init, i);
        let before = points_of(init, name, kind);
        let at = choose|j: int| 0 <= j < before.len() && before[j] == point_of(metrics[i]);
        assert(points_of(metrics, name, kind)[at] == point_of(metrics[i]));
    } else {
        let points = points_of(metrics, name, kind);
        assert(points[points.len() - 1] == point_of(metrics[i]));
    }
}

/// Each metric has one entry: no name is listed twice with one kind, and the
/// names and kinds listed are those of the samples.
pub proof fn law_each_metric_is_listed_once(metrics: Seq<MetricView>)
    ensures
        groups_of(metrics).no_duplicates(),
        forall|i: int|
            #![trigger metrics[i]]
            0 <= i < metrics.len() ==> groups_of(metrics).contains(
                (metrics[i].name, metrics[i].kind),
            ),
        forall|g: (Seq<char>, MetricKind)| #[trigger]
            groups_of(metrics).contains(g) ==> exists|i: int|
                0 <= i < metrics.len() && (#[trigger] metrics[i]).name == g.0 && metrics[i].kind
                    == g.1,
    decreases metrics.len(),
{
    if metrics.len() > 0 {
        let init = metrics.drop_last();
        let last = (metrics.last().name, metrics.last().kind);
        let before = groups_of(init);
        law_each_metric_is_listed_once(init);
        if !before.contains(last) {
            let after = before.push(last);
            assert forall|a: int, b: int|
                0 <= a < after.len() && 0 <= b < after.len() && a != b implies after[a]
                != after[b] by {
                if a == before.len() {
                    assert(before.contains(after[b]));
                } else if b == before.len() {
                    assert(before.contains(after[a]));
                } else {
                    assert(before[a] != before[b]);
                }
            }
        }
        assert forall|i: int| #![trigger metrics[i]] 0 <= i < metrics.len() implies groups_of(
            metrics,
        ).contains((metrics[i].name, metrics[i].kind)) by {
            let own = (metrics[i].name, metrics[i].kind);
            if i < init.len() {
                assert(init[i] == metrics[i]);
                let at = choose|at: int| 0 <= at < before.len() && before[at] == own;
                assert(groups_of(metrics)[at] == own);
            } else if !before.contains(last) {
                assert(groups_of(metrics)[before.len() as int] == last);
            }
        }
        assert forall|g: (Seq<char>, MetricKind)| #[trigger]
            groups_of(metrics).contains(g) implies exists|i: int|
            0 <= i < metrics.len() && (#[trigger] metrics[i]).name == g.0 && metrics[i].kind
                == g.1 by {
            if before.contains(g) {
                let i = choose|i: int|
                    0 <= i < init.len() && (#[trigger] init[i]).name == g.0 && init[i].kind == g.1;
                assert(metrics[i].name == g.0);
            } else {
                assert(metrics[metrics.len() - 1].name == g.0);
            }
        }
    }
}

/// Each label set has one stream: none is listed twice, and those listed are
/// those of the log entries.
pub proof fn law_each_stream_is_listed_once(logs: Seq<LogView>)
    ensures
        streams_of(logs).no_duplicates(),
        forall|i: int|
            #![trigger logs[i]]
            0 <= i < logs.len() ==> streams_of(logs).contains(logs[i].labels),
        forall|labels: Map<Seq<char>, Seq<char>>| #[trigger]
            streams_of(logs).contains(labels) ==> exists|i: int|
                0 <= i < logs.len() && (#[trigger] logs[i]).labels == labels,
    decreases logs.len(),
{
    if logs.len() > 0 {
        let init = logs.drop_last();
        let last = logs.last().labels;
        let before = streams_of(init);
        law_each_stream_is_listed_once(init);
        if !before.contains(last) {
            let after = before.push(last);
            assert forall|a: int, b: int|
                0 <= a < after.len() && 0 <= b < after.len() && a != b implies after[a]
                != after[b] by {
                if a == before.len() {
                    assert(before.contains(after[b]));
                } else if b == before.len() {
                    assert(before.contains(after[a]));
                } else {
                    assert(before[a] != before[b]);
                }
            }
        }
        assert forall|i: int| #![trigger logs[i]] 0 <= i < logs.len() implies streams_of(
            logs,
        ).contains(logs[i].labels) by {
            if i < init.len() {
                assert(init[i] == logs[i]);
                let at = choose|at: int| 0 <= at < before.len() && before[at] == logs[i].labels;
                assert(streams_of(logs)[at] == logs[i].labels);
            } else if !before.contains(last) {
                assert(streams_of(logs)[before.len() as int] == last);
            }
        }
        assert forall|labels: Map<Seq<char>, Seq<char>>| #[trigger]
            streams_of(logs).contains(labels) implies exists|i: int|
            0 <= i < logs.len() && (#[trigger] logs[i]).labels == labels by {
            if before.contains(labels) {
                let i = choose|i: int| 0 <= i < init.len() && (#[trigger] init[i]).labels == labels;
                assert(logs[i].labels == labels);
            } else {
                assert(logs[logs.len() - 1].labels == labels);
            }
        }
    }
}

/// No log line is lost: each is a value of the stream of its labels, and its
/// stream is listed.
pub proof fn law_every_line_is_shipped(logs: Seq<LogView>, i: int)
    requires
        0 <= i < logs.len(),
    ensures
        streams_of(logs).contains(logs[i].labels),
        values_of(logs, logs[i].labels).contains(value_of(logs[i])),
    decreases logs.len(),
{
    let init = logs.drop_last();
    let labels = logs[i].labels;
    law_each_stream_is_listed_once(logs);
    if i < init.len() {
        law_every_line_is_shipped(init, i);
        let values = values_of(init, labels);
        let at = choose|j: int| 0 <= j < values.len() && values[j] == value_of(logs[i]);
        assert(values_of(logs, labels)[at] == value_of(logs[i]));
    } else {
        let values = values_of(logs, labels);
        assert(values[values.len() - 1] == value_of(logs[i]));
    }
}

/// Log lines are shipped under their own labels only: every value of a stream
/// is that of an entry with just the stream's labels.
pub proof fn law_lines_are_shipped_under_their_labels(
    logs: Seq<LogView>,
    labels: Map<Seq<char>, Seq<char>>,
    k: int,
)
    requires
        0 <= k < values_of(logs, labels).len(),
    ensures
        exists|i: int|
            0 <= i < logs.len() && (#[trigger] logs[i]).labels == labels && value_of(logs[i])
                == values_of(logs, labels)[k],
    decreases logs.len(),
{
    if logs.len() > 0 {
        let init = logs.drop_last();
        let before = values_of(init, labels);
        if k < before.len() {
            law_lines_are_shipped_under_their_labels(init, labels, k);
            let i = choose|i: int|
                0 <= i < init.len() && (#[trigger] init[i]).labels == labels && value_of(init[i])
                    == before[k];
            assert(logs[i].labels == labels && value_of(logs[i]) == values_of(logs, labels)[k]);
        } else {
            assert(logs[logs.len() - 1].labels == labels);
        }
    }
}

/// The samples of a batch are its metrics, and the entries its logs, each in the
/// order of the batch.
pub proof fn law_a_batch_is_parted_in_order(a: Seq<SignalView>, b: Seq<SignalView>)
    ensures
        metrics_in(a + b) == metrics_in(a) + metrics_in(b),
        logs_in(a + b) == logs_in(a) + logs_in(b),
        forall|m: MetricView| #[trigger] metrics_in(seq![SignalView::Metric(m)]) == seq![m],
        forall|m: MetricView| #[trigger] logs_in(seq![SignalView::Metric(m)]).len() == 0,
        forall|l: LogView| #[trigger] logs_in(seq![SignalView::Log(l)]) == seq![l],
        forall|l: LogView| #[trigger] metrics_in(seq![SignalView::Log(l)]).len() == 0,
    decreases b.len(),
{
    if b.len() == 0 {
        assert(a + b =~= a);
        assert(metrics_in(a) + metrics_in(b) =~= metrics_in(a));
        assert(logs_in(a) + logs_in(b) =~= logs_in(a));
    } else {
        assert((a + b).drop_last() =~= a + b.drop_last());
        assert((a + b).last() == b.last());
        law_a_batch_is_parted_in_order(a, b.drop_last());
        assert(metrics_in(a + b) =~= metrics_in(a) + metrics_in(b));
        assert(logs_in(a + b) =~= logs_in(a) + logs_in(b));
    }
    assert forall|s: SignalView| #[trigger] metrics_in(seq![s]) == (match s {
        SignalView::Metric(m) => seq![m],
        SignalView::Log(_) => Seq::empty(),
    }) && logs_in(seq![s]) == (match s {
        SignalView::Metric(_) => Seq::empty(),
        SignalView::Log(l) => seq![l],
    }) by {
        assert(seq![s].drop_last() =~= Seq::empty());
        assert(seq![s].last() == s);
        assert(metrics_in(seq![s].drop_last()) =~= Seq::empty());
        assert(logs_in(seq![s].drop_last()) =~= Seq::empty());
        assert(metrics_in(seq![s]) =~= (match s {
            SignalView::Metric(m) => seq![m],
            SignalView::Log(_) => Seq::empty(),
        }));
        assert(logs_in(seq![s]) =~= (match s {
            SignalView::Metric(_) => Seq::empty(),
            SignalView::Log(l) => seq![l],
        }));
    }
    assert forall|l: LogView| #[trigger] logs_in(seq![SignalView::Log(l)]) == seq![l] by {
        assert(metrics_in(seq![SignalView::Log(l)]).len() == 0);
    }
    assert forall|m: MetricView| #[trigger] logs_in(seq![SignalView::Metric(m)]).len() == 0 by {
        assert(metrics_in(seq![SignalView::Metric(m)]) == seq![m]);
    }
}

/// A metric lists the data points of all samples of its name and kind, and no
/// others, in the order of the samples; a stream lists the values of all entries
/// with its labels, and no others, in the order of the entries.
pub proof fn law_points_and_values_are_those_of_their_group(
    metrics: Seq<MetricView>,
    name: Seq<char>,
    kind: MetricKind,
    logs: Seq<LogView>,
    labels: Map<Seq<char>, Seq<char>>,
)
    ensures
        points_of(metrics, name, kind) == metrics.filter(
            |m: MetricView| m.name == name && m.kind == kind,
        ).map_values(|m: MetricView| point_of(m)),
        values_of(logs, labels) == logs.filter(|l: LogView| l.labels == labels).map_values(
            |l: LogView| value_of(l),
        ),
    decreases metrics.len() + logs.len(),
{
    reveal(Seq::filter);
    let own = |m: MetricView| m.name == name && m.kind == kind;
    let same = |l: LogView| l.labels == labels;
    if metrics.len() > 0 {
        law_points_and_values_are_those_of_their_group(
            metrics.drop_last(),
            name,
            kind,
            logs,
            labels,
        );
        assert(points_of(metrics, name, kind) =~= metrics.filter(own).map_values(
            |m: MetricView| point_of(m),
        ));
    } else {
        assert(points_of(metrics, name, kind) =~= metrics.filter(own).map_values(
            |m: MetricView| point_of(m),
        ));
        if logs.len() > 0 {
            law_points_and_values_are_those_of_their_group(
                metrics,
                name,
                kind,
                logs.drop_last(),
                labels,
            );
        }
        assert(values_of(logs, labels) =~= logs.filter(same).map_values(|l: LogView| value_of(l)));
    }
}

/// A data point carries the sample's labels, its time in nanoseconds as text and
/// its value; a value of a stream carries the entry's time in nanoseconds, as
/// text, and its line.
pub proof fn law_points_and_values_carry_what_was_measured(m: MetricView, l: LogView)
    ensures
        point_of(m) == PayloadView::Record(
            seq![
                ("attributes"@, attrs_of(m.labels)),
                (
                    "timeUnixNano"@,
                    PayloadView::Text(number::dec_int(m.timestamp_ms as int * 1_000_000)),
                ),
                ("asDouble"@, PayloadView::Number(m.value)),
            ],
        ),
        value_of(l) == PayloadView::List(
            seq![
                PayloadView::Text(number::dec_int(l.timestamp_ns as int)),
                PayloadView::Text(l.line),
            ],
        ),
{
}

/// Every label of a label set is sent, with its value and just once, and nothing
/// but labels is: as an attribute of a data point, and as a field of a stream.
pub proof fn law_every_label_is_shipped(labels: Map<Seq<char>, Seq<char>>)
    requires
        labels.dom().finite(),
    ensures
        attrs_of(labels) matches PayloadView::List(attrs) && {
            &&& forall|k: Seq<char>| #[trigger]
                labels.contains_key(k) ==> attrs.contains(
                    PayloadView::Record(
                        seq![
                            ("key"@, PayloadView::Text(k)),
                            (
                                "value"@,
                                PayloadView::Record(
                                    seq![("stringValue"@, PayloadView::Text(labels[k]))],
                                ),
                            ),
                        ],
                    ),
                )
            &&& attrs.len() == labels.dom().len()
        },
        labels_record(labels) matches PayloadView::Record(fields) && {
            &&& forall|k: Seq<char>| #[trigger]
                labels.contains_key(k) ==> fields.contains((k, PayloadView::Text(labels[k])))
            &&& fields.len() == labels.dom().len()
        },
{
    fingerprint::law_labels_have_a_listing(labels);
    let s = fingerprint::listing(labels);
    fingerprint::law_a_listing_holds_every_pair(s, labels);
    let attrs = s.map_values(|p: (Seq<char>, Seq<char>)| attr_of(p.0, p.1));
    let fields = s.map_values(|p: (Seq<char>, Seq<char>)| (p.0, PayloadView::Text(p.1)));
    assert forall|k: Seq<char>| #[trigger] labels.contains_key(k) implies attrs.contains(
        attr_of(k, labels[k]),
    ) && fields.contains((k, PayloadView::Text(labels[k]))) by {
        let i = choose|i: int| 0 <= i < s.len() && s[i] == (k, labels[k]);
        assert(attrs[i] == attr_of(k, labels[k]));
        assert(fields[i] == (k, PayloadView::Text(labels[k])));
    }
    let keys = s.map_values(|p: (Seq<char>, Seq<char>)| p.0);
    assert(keys.no_duplicates());
    keys.unique_seq_to_set();
    assert(keys.to_set() =~= labels.dom()) by {
        assert forall|k: Seq<char>| labels.contains_key(k) implies keys.contains(k) by {
            let i = choose|i: int| 0 <= i < s.len() && s[i] == (k, labels[k]);
            assert(keys[i] == k);
        }
    }
}

/// Counters are sent as cumulative, monotonic sums, and other metrics as gauges.
pub proof fn law_counters_are_sums(name: Seq<char>, points: Seq<PayloadView>)
    ensures
        metric_of(name, MetricKind::Counter, points) == PayloadView::Record(
            seq![
                ("name"@, PayloadView::Text(name)),
                (
                    "sum"@,
                    PayloadView::Record(
                        seq![
                            ("dataPoints"@, PayloadView::List(points)),
                            ("aggregationTemporality"@, PayloadView::Integer(2)),
                            ("isMonotonic"@, PayloadView::Bool(true)),
                        ],
                    ),
                ),
            ],
        ),
        forall|kind: MetricKind|
            kind != MetricKind::Counter ==> #[trigger] metric_of(name, kind, points)
                == PayloadView::Record(
                seq![
                    ("name"@, PayloadView::Text(name)),
                    (
                        "gauge"@,
                        PayloadView::Record(seq![("dataPoints"@, PayloadView::List(points))]),
                    ),
                ],
            ),
{
}

/// Every payload says which agent sent it: its version, its host and its id.
pub proof fn law_payloads_name_the_agent(id: IdentityView)
    ensures
        resource_of(id) == PayloadView::Record(
            seq![
                (
                    "attributes"@,
                    PayloadView::List(
                        seq![
                            attr_of("service.name"@, "pulseagent"@),
                            attr_of("agent.version"@, id.version),
                            attr_of("host.name"@, id.hostname),
                            attr_of("instance"@, id.hostname),
                            attr_of("agent.id"@, id.agent_id),
                        ],
                    ),
                ),
            ],
        ),
{
}

/// Every metric that is listed is in the payload, with all of its data points,
/// and every stream in the push, with its labels and all of its values.
pub proof fn law_every_group_is_shipped(metrics: Seq<MetricView>, logs: Seq<LogView>)
    ensures
        grouped(metrics).len() == groups_of(metrics).len(),
        forall|i: int|
            0 <= i < groups_of(metrics).len() ==> #[trigger] grouped(metrics)[i] == metric_of(
                groups_of(metrics)[i].0,
                groups_of(metrics)[i].1,
                points_of(metrics, groups_of(metrics)[i].0, groups_of(metrics)[i].1),
            ),
        loki_of(logs) matches PayloadView::Record(fields) && fields.len() == 1 && fields[0].0
            == "streams"@ && (fields[0].1 matches PayloadView::List(streams) && streams.len()
            == streams_of(logs).len() && forall|i: int|
            0 <= i < streams.len() ==> #[trigger] streams[i] == PayloadView::Record(
                seq![
                    ("stream"@, labels_record(streams_of(logs)[i])),
                    ("values"@, PayloadView::List(values_of(logs, streams_of(logs)[i]))),
                ],
            )),
{
}

/// A batch is sent as at most one request for its metrics and one for its logs,
/// in this order and with the agent's key. A request is left out where its kind
/// is switched off or the batch holds none of it.
pub proof fn law_a_batch_is_sent_whole(
    base_url: Seq<char>,
    api_key: Seq<char>,
    with_metrics: bool,
    with_logs: bool,
    batch: Seq<SignalView>,
    id: IdentityView,
)
    ensures
        ({
            let requests = requests_of(base_url, api_key, with_metrics, with_logs, batch, id);
            let m = with_metrics && metrics_in(batch).len() > 0;
            let l = with_logs && logs_in(batch).len() > 0;
            let last = requests.len() - 1;
            &&& requests.len() == (if m {
                1int
            } else {
                0
            }) + (if l {
                1int
            } else {
                0
            })
            &&& m ==> {
                &&& requests[0].url == payload::url_of(base_url, "/v1/metrics"@)
                &&& requests[0].bearer == Some(api_key)
                &&& requests[0].body == otlp_of(metrics_in(batch), id)
            }
            &&& l ==> {
                &&& requests[last].url == payload::url_of(base_url, "/loki/api/v1/push"@)
                &&& requests[last].bearer == Some(api_key)
                &&& requests[last].body == loki_of(logs_in(batch))
            }
        }),
{
}

/// Both kinds are sent unless the configuration switches them off.
pub proof fn law_both_kinds_are_sent_unless_switched_off(cfg: Option<PulseBoardTargetConfig>)
    ensures
        cfg is None ==> sends_metrics(cfg) && sends_logs(cfg),
        cfg matches Some(c) ==> sends_metrics(cfg) == c.otlp_metrics && sends_logs(cfg)
            == c.loki_logs,
{
}

// ---------------------------------------------------------------------------
// OTLP JSON payload builder
// ---------------------------------------------------------------------------

fn attr(k: &str, v: &str) -> (r: Payload)
    ensures
        r@ == attr_of(k@, v@),
{
    payload::record2(
        "key",
        payload::text_of(k),
        "value",
        payload::record1("stringValue", payload::text_of(v)),
    )
}

fn attributes(labels: &Labels) -> (r: Payload)
    ensures
        r@ == attrs_of(labels@),
{
    let pairs = fingerprint::sorted(labels);
    let ghost s = fingerprint::pair_texts(pairs@);
    let mut out: Vec<Payload> = Vec::new();
    let mut i: usize = 0;
    while i < pairs.len()
        invariant
            i <= pairs@.len(),
            s == fingerprint::pair_texts(pairs@),
            out@.len() == i,
            forall|j: int| 0 <= j < i ==> (#[trigger] out@[j])@ == attr_of(s[j].0, s[j].1),
        decreases pairs@.len() - i,
    {
        out.push(attr(pairs[i].0.as_str(), pairs[i].1.as_str()));
        i = i + 1;
    }
    assert(payload::payload_views(out@) =~= s.map_values(
        |p: (Seq<char>, Seq<char>)| attr_of(p.0, p.1),
    ));
    payload::list_of(out)
}

fn data_point(m: &MetricSample) -> (r: Payload)
    requires
        i64::MIN <= time_ns(m@) <= i64::MAX,
    ensures
        r@ == point_of(m@),
{
    let ns: i64 = m.timestamp_ms * 1_000_000;
    payload::record3(
        "attributes",
        attributes(&m.labels),
        "timeUnixNano",
        Payload::Text(number::dec_i64(ns)),
        "asDouble",
        Payload::Number(m.value.clone()),
    )
}

/// Whether the times of the samples fit into 64 bits of nanoseconds.
pub fn times_fit(metrics: &Vec<MetricSample>) -> (r: bool)
    ensures
        r == times_in_range(signal::metric_views(metrics@)),
{
    let ghost views = signal::metric_views(metrics@);
    let mut i: usize = 0;
    while i < metrics.len()
        invariant
            i <= metrics@.len(),
            views == signal::metric_views(metrics@),
            forall|j: int|
                0 <= j < i ==> i64::MIN <= time_ns(#[trigger] views[j]) <= i64::MAX,
        decreases metrics@.len() - i,
    {
        let ms: i64 = metrics[i].timestamp_ms;
        assert(views[i as int].timestamp_ms == ms);
        if ms > 9_223_372_036_854 || ms < -9_223_372_036_854 {
            assert(!(i64::MIN <= time_ns(views[i as int]) <= i64::MAX));
            return false;
        }
        i = i + 1;
    }
    true
}

/// What a row of names and kinds holds.
spec fn group_views(s: Seq<(String, MetricKind)>) -> Seq<(Seq<char>, MetricKind)> {
    s.map_values(|g: (String, MetricKind)| (g.0@, g.1))
}

fn has_group(groups: &Vec<(String, MetricKind)>, name: &str, kind: MetricKind) -> (r: bool)
    ensures
        r == group_views(groups@).contains((name@, kind)),
{
    let ghost views = group_views(groups@);
    let mut i: usize = 0;
    while i < groups.len()
        invariant
            i <= groups@.len(),
            views == group_views(groups@),
            forall|j: int| 0 <= j < i ==> (#[trigger] views[j]) != (name@, kind),
        decreases groups@.len() - i,
    {
        assert(views[i as int] == (groups@[i as int].0@, groups@[i as int].1));
        if groups[i].1 == kind && text::str_eq(groups[i].0.as_str(), name) {
            return true;
        }
        i = i + 1;
    }
    false
}

fn metric_groups(metrics: &Vec<MetricSample>) -> (r: Vec<(String, MetricKind)>)
    ensures
        group_views(r@) == groups_of(signal::metric_views(metrics@)),
{
    let ghost views = signal::metric_views(metrics@);
    let mut out: Vec<(String, MetricKind)> = Vec::new();
    let mut i: usize = 0;
    assert(group_views(out@) =~= groups_of(views.take(0)));
    while i < metrics.len()
        invariant
            i <= metrics@.len(),
            views == signal::metric_views(metrics@),
            group_views(out@) == groups_of(views.take(i as int)),
        decreases metrics@.len() - i,
    {
        let ghost next = views.take(i + 1);
        let ghost before = group_views(out@);
        assert(next.drop_last() =~= views.take(i as int));
        assert(next.last() == metrics@[i as int]@);
        let kind = metrics[i].kind;
        if !has_group(&out, metrics[i].name.as_str(), kind) {
            out.push((metrics[i].name.clone(), kind));
            assert(group_views(out@) =~= before.push((metrics@[i as int].name@, kind)));
        }
        i = i + 1;
    }
    assert(views.take(i as int) =~= views);
    out
}

fn metric_entry(metrics: &Vec<MetricSample>, name: &str, kind: MetricKind) -> (r: Payload)
    requires
        times_in_range(signal::metric_views(metrics@)),
    ensures
        r@ == metric_of(name@, kind, points_of(signal::metric_views(metrics@), name@, kind)),
{
    let ghost views = signal::metric_views(metrics@);
    let mut points: Vec<Payload> = Vec::new();
    let mut i: usize = 0;
    assert(payload::payload_views(points@) =~= points_of(views.take(0), name@, kind));
    while i < metrics.len()
        invariant
            i <= metrics@.len(),
            views == signal::metric_views(metrics@),
            times_in_range(views),
            payload::payload_views(points@) == points_of(views.take(i as int), name@, kind),
        decreases metrics@.len() - i,
    {
        let ghost next = views.take(i + 1);
        let ghost before = payload::payload_views(points@);
        assert(next.drop_last() =~= views.take(i as int));
        assert(next.last() == views[i as int]);
        if metrics[i].kind == kind && text::str_eq(metrics[i].name.as_str(), name) {
            assert(i64::MIN <= time_ns(views[i as int]) <= i64::MAX);
            points.push(data_point(&metrics[i]));
            assert(payload::payload_views(points@) =~= before.push(point_of(views[i as int])));
        }
        i = i + 1;
    }
    assert(views.take(i as int) =~= views);
    let list = payload::list_of(points);
    match kind {
        MetricKind::Counter => payload::record2(
            "name",
            payload::text_of(name),
            "sum",
            payload::record3(
                "dataPoints",
                list,
                "aggregationTemporality",
                Payload::Integer(2),
                "isMonotonic",
                Payload::Bool(true),
            ),
        ),
        _ => payload::record2(
            "name",
            payload::text_of(name),
            "gauge",
            payload::record1("dataPoints", list),
        ),
    }
}

fn resource(id: &AgentIdentity) -> (r: Payload)
    ensures
        r@ == resource_of(id@),
{
    let mut attrs: Vec<Payload> = Vec::new();
    attrs.push(attr("service.name", "pulseagent"));
    attrs.push(attr("agent.version", id.version.as_str()));
    attrs.push(attr("host.name", id.hostname.as_str()));
    attrs.push(attr("instance", id.hostname.as_str()));
    attrs.push(attr("agent.id", id.agent_id.as_str()));
    assert(payload::payload_views(attrs@) =~= seq![
        attr_of("service.name"@, "pulseagent"@),
        attr_of("agent.version"@, id@.version),
        attr_of("host.name"@, id@.hostname),
        attr_of("instance"@, id@.hostname),
        attr_of("agent.id"@, id@.agent_id),
    ]);
    payload::record1("attributes", payload::list_of(attrs))
}

fn list1(p: Payload) -> (r: Payload)
    ensures
        r@ == PayloadView::List(seq![p@]),
{
    let mut v: Vec<Payload> = Vec::new();
    v.push(p);
    assert(payload::payload_views(v@) =~= seq![p@]);
    payload::list_of(v)
}

/// Builds the OTLP payload. The samples are grouped by name and kind, the
/// groups in the order in which they first occur.
pub fn build_otlp_metrics(metrics: &Vec<MetricSample>, id: &AgentIdentity) -> (r: Payload)
    requires
        times_in_range(signal::metric_views(metrics@)),
    ensures
        r@ == otlp_of(signal::metric_views(metrics@), id@),
{
    let ghost views = signal::metric_views(metrics@);
    let groups = metric_groups(metrics);
    let mut entries: Vec<Payload> = Vec::new();
    let mut i: usize = 0;
    while i < groups.len()
        invariant
            i <= groups@.len(),
            views == signal::metric_views(metrics@),
            times_in_range(views),
            entries@.len() == i,
            forall|j: int|
                0 <= j < i ==> (#[trigger] entries@[j])@ == metric_of(
                    groups@[j].0@,
                    groups@[j].1,
                    points_of(views, groups@[j].0@, groups@[j].1),
                ),
        decreases groups@.len() - i,
    {
        entries.push(metric_entry(metrics, groups[i].0.as_str(), groups[i].1));
        i = i + 1;
    }
    assert(payload::payload_views(entries@) =~= grouped(views)) by {
        assert forall|j: int| 0 <= j < entries@.len() implies #[trigger] payload::payload_views(
            entries@,
        )[j] == grouped(views)[j] by {
            assert(group_views(groups@)[j] == (groups@[j].0@, groups@[j].1));
        }
    }
    let scope = payload::record2(
        "name",
        payload::text_of("pulseagent"),
        "version",
        payload::text_of(id.version.as_str()),
    );
    let scoped = payload::record2("scope", scope, "metrics", payload::list_of(entries));
    let whole = payload::record2("resource", resource(id), "scopeMetrics", list1(scoped));
    payload::record1("resourceMetrics", list1(whole))
}

// ---------------------------------------------------------------------------
// Loki push payload builder
// ---------------------------------------------------------------------------

fn label_record(labels: &Labels) -> (r: Payload)
    ensures
        r@ == labels_record(labels@),
{
    let pairs = fingerprint::sorted(labels);
    let ghost s = fingerprint::pair_texts(pairs@);
    let mut fields: Vec<(String, Payload)> = Vec::new();
    let mut i: usize = 0;
    while i < pairs.len()
        invariant
            i <= pairs@.len(),
            s == fingerprint::pair_texts(pairs@),
            fields@.len() == i,
            forall|j: int|
                0 <= j < i ==> (#[trigger] fields@[j]).0@ == s[j].0 && fields@[j].1@
                    == PayloadView::Text(s[j].1),
        decreases pairs@.len() - i,
    {
        fields.push((pairs[i].0.clone(), payload::text_of(pairs[i].1.as_str())));
        i = i + 1;
    }
    let r = Payload::Record(fields);
    assert(r@->Record_0 =~= s.map_values(
        |p: (Seq<char>, Seq<char>)| (p.0, PayloadView::Text(p.1)),
    ));
    r
}

/// What a row of label sets holds.
spec fn label_maps(s: Seq<&Labels>) -> Seq<Map<Seq<char>, Seq<char>>> {
    s.map_values(|l: &Labels| l@)
}

fn has_labels(streams: &Vec<&Labels>, labels: &Labels) -> (r: bool)
    ensures
        r == label_maps(streams@).contains(labels@),
{
    let ghost maps = label_maps(streams@);
    let mut i: usize = 0;
    while i < streams.len()
        invariant
            i <= streams@.len(),
            maps == label_maps(streams@),
            forall|j: int| 0 <= j < i ==> (#[trigger] maps[j]) != labels@,
        decreases streams@.len() - i,
    {
        assert(maps[i as int] == streams@[i as int]@);
        if fingerprint::same_labels(streams[i], labels) {
            return true;
        }
        i = i + 1;
    }
    false
}

fn stream_labels(logs: &Vec<LogEntry>) -> (r: Vec<&Labels>)
    ensures
        label_maps(r@) == streams_of(signal::log_views(logs@)),
{
    let ghost views = signal::log_views(logs@);
    let mut out: Vec<&Labels> = Vec::new();
    let mut i: usize = 0;
    assert(label_maps(out@) =~= streams_of(views.take(0)));
    while i < logs.len()
        invariant
            i <= logs@.len(),
            views == signal::log_views(logs@),
            label_maps(out@) == streams_of(views.take(i as int)),
        decreases logs@.len() - i,
    {
        let ghost next = views.take(i + 1);
        let ghost before = label_maps(out@);
        assert(next.drop_last() =~= views.take(i as int));
        assert(next.last() == logs@[i as int]@);
        if !has_labels(&out, &logs[i].labels) {
            out.push(&logs[i].labels);
            assert(label_maps(out@) =~= before.push(logs@[i as int].labels@));
        }
        i = i + 1;
    }
    assert(views.take(i as int) =~= views);
    out
}

fn log_value(l: &LogEntry) -> (r: Payload)
    ensures
        r@ == value_of(l@),
{
    let mut v: Vec<Payload> = Vec::new();
    v.push(Payload::Text(number::dec_i64(l.timestamp_ns)));
    v.push(payload::text_of(l.line.as_str()));
    assert(payload::payload_views(v@) =~= seq![
        PayloadView::Text(number::dec_int(l@.timestamp_ns as int)),
        PayloadView::Text(l@.line),
    ]);
    payload::list_of(v)
}

fn stream_entry(logs: &Vec<LogEntry>, labels: &Labels) -> (r: Payload)
    ensures
        r@ == stream_of(signal::log_views(logs@), labels@),
{
    let ghost views = signal::log_views(logs@);
    let mut values: Vec<Payload> = Vec::new();
    let mut i: usize = 0;
    assert(payload::payload_views(values@) =~= values_of(views.take(0), labels@));
    while i < logs.len()
        invariant
            i <= logs@.len(),
            views == signal::log_views(logs@),
            payload::payload_views(values@) == values_of(views.take(i as int), labels@),
        decreases logs@.len() - i,
    {
        let ghost next = views.take(i + 1);
        let ghost before = payload::payload_views(values@);
        assert(next.drop_last() =~= views.take(i as int));
        assert(next.last() == views[i as int]);
        if fingerprint::same_labels(&logs[i].labels, labels) {
            values.push(log_value(&logs[i]));
            assert(payload::payload_views(values@) =~= before.push(value_of(views[i as int])));
        }
        i = i + 1;
    }
    assert(views.take(i as int) =~= views);
    payload::record2("stream", label_record(labels), "values", payload::list_of(values))
}

/// Builds the Loki push. The entries are grouped by label set, the groups in
/// the order in which they first occur.
pub fn build_loki_push(logs: &Vec<LogEntry>) -> (r: Payload)
    ensures
        r@ == loki_of(signal::log_views(logs@)),
{
    let ghost views = signal::log_views(logs@);
    let labels = stream_labels(logs);
    let mut streams: Vec<Payload> = Vec::new();
    let mut i: usize = 0;
    while i < labels.len()
        invariant
            i <= labels@.len(),
            views == signal::log_views(logs@),
            streams@.len() == i,
            forall|j: int|
                0 <= j < i ==> (#[trigger] streams@[j])@ == stream_of(views, labels@[j]@),
        decreases labels@.len() - i,
    {
        streams.push(stream_entry(logs, labels[i]));
        i = i + 1;
    }
    assert(payload::payload_views(streams@) =~= streams_of(views).map_values(
        |l: Map<Seq<char>, Seq<char>>| stream_of(views, l),
    )) by {
        assert forall|j: int| 0 <= j < streams@.len() implies #[trigger] payload::payload_views(
            streams@,
        )[j] == stream_of(views, streams_of(views)[j]) by {
            assert(label_maps(labels@)[j] == labels@[j]@);
        }
    }
    payload::record1("streams", payload::list_of(streams))
}

// ---------------------------------------------------------------------------
// Target
// ---------------------------------------------------------------------------

/// The workspace that signals are shipped to.
#[derive(Debug)]
pub struct PulseBoardTarget {
    creds: AgentCredentials,
    cfg: Option<PulseBoardTargetConfig>,
}

impl PulseBoardTarget {
    /// The agent's credentials.
    pub closed spec fn creds(&self) -> AgentCredentials {
        self.creds
    }

    /// The target's configuration.
    pub closed spec fn cfg(&self) -> Option<PulseBoardTargetConfig> {
        self.cfg
    }

    pub fn new(creds: AgentCredentials, cfg: Option<PulseBoardTargetConfig>) -> (r: Self)
        ensures
            r.creds() == creds,
            r.cfg() == cfg,
    {
        PulseBoardTarget { creds, cfg }
    }

    /// Whether the times of a batch's samples fit into 64 bits of nanoseconds.
    pub fn can_flush(&self, batch: &Vec<Signal>) -> (r: bool)
        ensures
            r == times_in_range(metrics_in(signal::signal_views(batch@))),
    {
        let ghost views = signal::signal_views(batch@);
        let mut i: usize = 0;
        assert(metrics_in(views.take(0)).len() == 0);
        while i < batch.len()
            invariant
                i <= batch@.len(),
                views == signal::signal_views(batch@),
                times_in_range(metrics_in(views.take(i as int))),
            decreases batch@.len() - i,
        {
            let ghost next = views.take(i + 1);
            let ghost before = metrics_in(views.take(i as int));
            assert(next.drop_last() =~= views.take(i as int));
            assert(next.last() == views[i as int]);
            if let Signal::Metric(m) = &batch[i] {
                let ms: i64 = m.timestamp_ms;
                assert(metrics_in(next) == before.push(m@));
                if ms > 9_223_372_036_854 || ms < -9_223_372_036_854 {
                    proof {
                        lemma_metrics_in_prefix(views, i + 1);
                        let at = before.len() as int;
                        assert(metrics_in(next)[at] == m@);
                        assert(metrics_in(views)[at] == m@);
                        assert(!(i64::MIN <= time_ns(m@) <= i64::MAX));
                    }
                    return false;
                }
                assert forall|k: int| 0 <= k < metrics_in(next).len() implies i64::MIN <= time_ns(
                    #[trigger] metrics_in(next)[k],
                ) <= i64::MAX by {
                    if k < before.len() {
                        assert(metrics_in(next)[k] == before[k]);
                    }
                }
            }
            i = i + 1;
        }
        assert(views.take(i as int) =~= views);
        true
    }

    /// The requests that flush a batch of signals to PulseBoard, in the order
    /// in which they are to be sent.
    ///
    /// Metrics: OTLP JSON, POST /v1/metrics. Logs: Loki push, POST
    /// /loki/api/v1/push.
    pub fn flush(&self, batch: Vec<Signal>, version: &str, hostname: &str) -> (r: Vec<Post>)
        requires
            times_in_range(metrics_in(signal::signal_views(batch@))),
        ensures
            r@.map_values(|p: Post| p@) == requests_of(
                self.creds().base_url@,
                self.creds().api_key@,
                sends_metrics(self.cfg()),
                sends_logs(self.cfg()),
                signal::signal_views(batch@),
                IdentityView {
                    version: version@,
                    hostname: hostname@,
                    agent_id: self.creds().agent_id@,
                },
            ),
    {
        let ghost views = signal::signal_views(batch@);
        let id = AgentIdentity {
            version: version.to_owned(),
            hostname: hostname.to_owned(),
            agent_id: self.creds.agent_id.clone(),
        };
        let (metrics, logs) = split(batch);
        let with_metrics = match &self.cfg {
            Some(c) => c.otlp_metrics,
            None => true,
        };
        let with_logs = match &self.cfg {
            Some(c) => c.loki_logs,
            None => true,
        };
        let mut out: Vec<Post> = Vec::new();
        if with_metrics && metrics.len() > 0 {
            out.push(
                Post {
                    url: payload::url(self.creds.base_url.as_str(), "/v1/metrics"),
                    bearer: Some(self.creds.api_key.clone()),
                    body: build_otlp_metrics(&metrics, &id),
                },
            );
        }
        if with_logs && logs.len() > 0 {
            out.push(
                Post {
                    url: payload::url(self.creds.base_url.as_str(), "/loki/api/v1/push"),
                    bearer: Some(self.creds.api_key.clone()),
                    body: build_loki_push(&logs),
                },
            );
        }
        assert(signal::metric_views(metrics@).len() == metrics@.len());
        assert(signal::log_views(logs@).len() == logs@.len());
        assert(out@.map_values(|p: Post| p@) =~= requests_of(
            self.creds().base_url@,
            self.creds().api_key@,
            sends_metrics(self.cfg()),
            sends_logs(self.cfg()),
            views,
            id@,
        ));
        out
    }
}

proof fn lemma_metrics_in_prefix(batch: Seq<SignalView>, n: int)
    requires
        0 <= n <= batch.len(),
    ensures
        metrics_in(batch.take(n)).len() <= metrics_in(batch).len(),
        forall|k: int|
            0 <= k < metrics_in(batch.take(n)).len() ==> #[trigger] metrics_in(batch)[k]
                == metrics_in(batch.take(n))[k],
    decreases batch.len(),
{
    if n < batch.len() {
        lemma_metrics_in_prefix(batch.drop_last(), n);
        assert(batch.drop_last().take(n) =~= batch.take(n));
    } else {
        assert(batch.take(n) =~= batch);
    }
}

/// Parts a batch into its samples and its log entries.
pub fn split(batch: Vec<Signal>) -> (r: (Vec<MetricSample>, Vec<LogEntry>))
    ensures
        signal::metric_views(r.0@) == metrics_in(signal::signal_views(batch@)),
        signal::log_views(r.1@) == logs_in(signal::signal_views(batch@)),
{
    let ghost views = signal::signal_views(batch@);
    let mut metrics: Vec<MetricSample> = Vec::new();
    let mut logs: Vec<LogEntry> = Vec::new();
    let mut i: usize = 0;
    assert(signal::metric_views(metrics@) =~= metrics_in(views.take(0)));
    assert(signal::log_views(logs@) =~= logs_in(views.take(0)));
    while i < batch.len()
        invariant
            i <= batch@.len(),
            views == signal::signal_views(batch@),
            signal::metric_views(metrics@) == metrics_in(views.take(i as int)),
            signal::log_views(logs@) == logs_in(views.take(i as int)),
        decreases batch@.len() - i,
    {
        let ghost next = views.take(i + 1);
        let ghost before_metrics = signal::metric_views(metrics@);
        let ghost before_logs = signal::log_views(logs@);
        assert(next.drop_last() =~= views.take(i as int));
        assert(next.last() == views[i as int]);
        match &batch[i] {
            Signal::Metric(m) => {
                metrics.push(m.clone());
                assert(signal::metric_views(metrics@) =~= before_metrics.push(m@));
            },
            Signal::Log(l) => {
                logs.push(l.clone());
                assert(signal::log_views(logs@) =~= before_logs.push(l@));
            },
        }
        i = i + 1;
    }
    assert(views.take(i as int) =~= views);
    (metrics, logs)
}

/// What the agent says of itself is all that it holds, and times are in range
/// where their nanoseconds fit into 64 bits.
pub proof fn law_the_identity_holds_all_of_its_parts(id: AgentIdentity, metrics: Seq<MetricView>)
    ensures
        id@.version == id.version@,
        id@.hostname == id.hostname@,
        id@.agent_id == id.agent_id@,
        times_in_range(metrics) <==> forall|i: int|
            0 <= i < metrics.len() ==> i64::MIN <= (#[trigger] metrics[i]).timestamp_ms * 1_000_000
                <= i64::MAX,
{
    if times_in_range(metrics) {
        assert forall|i: int| 0 <= i < metrics.len() implies i64::MIN <= (
        #[trigger] metrics[i]).timestamp_ms * 1_000_000 <= i64::MAX by {
            assert(i64::MIN <= time_ns(metrics[i]) <= i64::MAX);
        }
    }
}

/// The payload of a row of samples is one resource, that of the agent, with one
/// scope, in which all of the metrics are listed.
pub proof fn law_the_payload_lists_all_metrics(metrics: Seq<MetricView>, id: IdentityView)
    ensures
        ({
            let scope = PayloadView::Record(
                seq![
                    ("name"@, PayloadView::Text("pulseagent"@)),
                    ("version"@, PayloadView::Text(id.version)),
                ],
            );
            let scoped = PayloadView::Record(
                seq![("scope"@, scope), ("metrics"@, PayloadView::List(grouped(metrics)))],
            );
            let whole = PayloadView::Record(
                seq![
                    ("resource"@, resource_of(id)),
                    ("scopeMetrics"@, PayloadView::List(seq![scoped])),
                ],
            );
            otlp_of(metrics, id) == PayloadView::Record(
                seq![("resourceMetrics"@, PayloadView::List(seq![whole]))],
            )
        }),
{
}

/// Metrics and streams are listed in the order in which they first occur: what
/// comes later is listed behind what came before.
pub proof fn law_groups_stand_in_the_order_of_their_first(
    metrics: Seq<MetricView>,
    m: MetricView,
    logs: Seq<LogView>,
    l: LogView,
)
    ensures
        groups_of(metrics).contains((m.name, m.kind)) ==> groups_of(metrics.push(m)) == groups_of(
            metrics,
        ),
        !groups_of(metrics).contains((m.name, m.kind)) ==> groups_of(metrics.push(m)) == groups_of(
            metrics,
        ).push((m.name, m.kind)),
        streams_of(logs).contains(l.labels) ==> streams_of(logs.push(l)) == streams_of(logs),
        !streams_of(logs).contains(l.labels) ==> streams_of(logs.push(l)) == streams_of(logs).push(
            l.labels,
        ),
        groups_of(Seq::empty()).len() == 0,
        streams_of(Seq::empty()).len() == 0,
{
    assert(metrics.push(m).drop_last() =~= metrics);
    assert(logs.push(l).drop_last() =~= logs);
}

} // verus!
