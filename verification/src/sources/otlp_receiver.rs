//! OTLP/HTTP JSON payloads, pushed to the agent by applications.

use vstd::prelude::*;

use crate::config::OtlpConfig;
use crate::json;
use crate::json::Json;
use crate::json::JsonView;
use crate::number;
use crate::signal;
use crate::signal::LogEntry;
use crate::signal::LogView;
use crate::signal::MetricKind;
use crate::signal::MetricSample;
use crate::signal::MetricView;
use crate::signal::Reading;
use crate::signal::ReadingView;
use crate::strmap::Labels;
use crate::text;

verus! {

/// In-process OTLP HTTP/JSON receiver.
///
/// Lets applications push OTLP directly to the agent (POST /v1/metrics,
/// /v1/logs, /v1/traces) instead of standing up a separate collector. The
/// agent then runs them through the same processor pipeline as every other
/// source.
#[derive(Debug)]
pub struct OtlpReceiverSource {
    cfg: OtlpConfig,
}

impl OtlpReceiverSource {
    /// The configuration.
    pub closed spec fn cfg(&self) -> OtlpConfig {
        self.cfg
    }

    pub fn new(cfg: OtlpConfig) -> (r: Self)
        ensures
            r.cfg() == cfg,
    {
        OtlpReceiverSource { cfg }
    }

    /// The port to listen on.
    pub fn port(&self) -> (r: u16)
        ensures
            r == self.cfg().port,
    {
        self.cfg.port
    }
}

// ---------------------------------------------------------------------------
// Model
// ---------------------------------------------------------------------------

/// An OTLP AnyValue as text.
pub open spec fn any_value(v: JsonView) -> Option<Seq<char>> {
    match v.text_field("stringValue"@) {
        Some(t) => Some(t),
        None => match v.field("boolValue"@) {
            Some(JsonView::Bool(b)) => Some(
                if b {
                    "true"@
                } else {
                    "false"@
                },
            ),
            _ => match v.field("intValue"@) {
                Some(i) => Some(i.plain()),
                None => match v.field("doubleValue"@) {
                    Some(d) => match d.as_double() {
                        Some((_, t)) => Some(t),
                        None => None,
                    },
                    None => None,
                },
            },
        },
    }
}

/// The value of an attribute.
pub open spec fn attr_value(a: JsonView) -> Option<Seq<char>> {
    match a.field("value"@) {
        Some(v) => any_value(v),
        None => None,
    }
}

/// The labels with the attributes put among them; an attribute without a key
/// or a value is passed over.
pub open spec fn with_attrs(
    labels: Map<Seq<char>, Seq<char>>,
    attrs: Seq<JsonView>,
) -> Map<Seq<char>, Seq<char>>
    decreases attrs.len(),
{
    if attrs.len() == 0 {
        labels
    } else {
        let before = with_attrs(labels, attrs.drop_last());
        match (attrs.last().text_field("key"@), attr_value(attrs.last())) {
            (Some(k), Some(v)) => before.insert(k, v),
            _ => before,
        }
    }
}

/// The labels of a resource.
pub open spec fn resource_labels(r: JsonView) -> Map<Seq<char>, Seq<char>> {
    match r.field("resource"@) {
        Some(res) => with_attrs(Map::empty(), res.list_field("attributes"@)),
        None => Map::empty(),
    }
}

/// The value of a data point, from `asDouble` or else from `asInt`, which is
/// a number or the text of one.
pub open spec fn point_value(dp: JsonView) -> Option<ReadingView> {
    match dp.field("asDouble"@) {
        Some(d) if d.as_bits() is Some => Some(ReadingView::Bits(d.as_bits()->0)),
        _ => match dp.field("asInt"@) {
            Some(JsonView::Text(t)) => if number::is_float(t) {
                Some(ReadingView::Scaled { literal: t, times: 1, per: 1 })
            } else {
                None
            },
            Some(i) if i.as_bits() is Some => Some(ReadingView::Bits(i.as_bits()->0)),
            _ => None,
        },
    }
}

/// The time that a text field holds in nanoseconds.
pub open spec fn time_field(v: JsonView) -> Option<int> {
    match v.text_field("timeUnixNano"@) {
        Some(t) => number::parse_int(t),
        None => None,
    }
}

/// The time of a data point in milliseconds; `now` where it has none.
pub open spec fn point_ms(dp: JsonView, now: i64) -> i64 {
    match time_field(dp) {
        Some(ns) => number::trunc_div(ns, 1_000_000) as i64,
        None => now,
    }
}

/// The samples of a row of data points; one without a value is passed over.
pub open spec fn points(
    dps: Seq<JsonView>,
    name: Seq<char>,
    kind: MetricKind,
    labels: Map<Seq<char>, Seq<char>>,
    now: i64,
) -> Seq<MetricView>
    decreases dps.len(),
{
    if dps.len() == 0 {
        Seq::empty()
    } else {
        let before = points(dps.drop_last(), name, kind, labels, now);
        let dp = dps.last();
        match point_value(dp) {
            Some(value) => before.push(
                MetricView {
                    name,
                    labels: with_attrs(labels, dp.list_field("attributes"@)),
                    value,
                    timestamp_ms: point_ms(dp, now),
                    kind,
                },
            ),
            None => before,
        }
    }
}

/// The samples of a metric: a gauge or a sum. One without a name, and
/// histograms and summaries, are passed over.
pub open spec fn metric_points(
    m: JsonView,
    labels: Map<Seq<char>, Seq<char>>,
    now: i64,
) -> Seq<MetricView> {
    match m.text_field("name"@) {
        None => Seq::empty(),
        Some(name) => match m.field("gauge"@) {
            Some(g) => points(g.list_field("dataPoints"@), name, MetricKind::Gauge, labels, now),
            None => match m.field("sum"@) {
                Some(s) => points(
                    s.list_field("dataPoints"@),
                    name,
                    MetricKind::Counter,
                    labels,
                    now,
                ),
                None => Seq::empty(),
            },
        },
    }
}

pub open spec fn metrics_points(
    ms: Seq<JsonView>,
    labels: Map<Seq<char>, Seq<char>>,
    now: i64,
) -> Seq<MetricView>
    decreases ms.len(),
{
    if ms.len() == 0 {
        Seq::empty()
    } else {
        metrics_points(ms.drop_last(), labels, now) + metric_points(ms.last(), labels, now)
    }
}

pub open spec fn scopes_points(
    scopes: Seq<JsonView>,
    labels: Map<Seq<char>, Seq<char>>,
    now: i64,
) -> Seq<MetricView>
    decreases scopes.len(),
{
    if scopes.len() == 0 {
        Seq::empty()
    } else {
        scopes_points(scopes.drop_last(), labels, now) + metrics_points(
            scopes.last().list_field("metrics"@),
            labels,
            now,
        )
    }
}

pub open spec fn resources_points(rs: Seq<JsonView>, now: i64) -> Seq<MetricView>
    decreases rs.len(),
{
    if rs.len() == 0 {
        Seq::empty()
    } else {
        resources_points(rs.drop_last(), now) + scopes_points(
            rs.last().list_field("scopeMetrics"@),
            resource_labels(rs.last()),
            now,
        )
    }
}

/// The samples of an OTLP metrics payload, in order; `now` is the time of
/// those that carry none.
pub open spec fn samples_of(body: JsonView, now: i64) -> Seq<MetricView> {
    resources_points(body.list_field("resourceMetrics"@), now)
}

/// A log record as a log entry.
pub open spec fn record_entry(
    rec: JsonView,
    labels: Map<Seq<char>, Seq<char>>,
    now: i64,
) -> LogView {
    let attrs = with_attrs(labels, rec.list_field("attributes"@));
    LogView {
        line: match rec.field("body"@) {
            Some(b) => match any_value(b) {
                Some(t) => t,
                None => Seq::empty(),
            },
            None => Seq::empty(),
        },
        labels: match rec.text_field("severityText"@) {
            Some(sev) => attrs.insert("level"@, text::lowercase(sev)),
            None => attrs,
        },
        timestamp_ns: match time_field(rec) {
            Some(ns) => ns as i64,
            None => now,
        },
    }
}

pub open spec fn records_entries(
    recs: Seq<JsonView>,
    labels: Map<Seq<char>, Seq<char>>,
    now: i64,
) -> Seq<LogView> {
    recs.map_values(|rec: JsonView| record_entry(rec, labels, now))
}

pub open spec fn scopes_entries(
    scopes: Seq<JsonView>,
    labels: Map<Seq<char>, Seq<char>>,
    now: i64,
) -> Seq<LogView>
    decreases scopes.len(),
{
    if scopes.len() == 0 {
        Seq::empty()
    } else {
        scopes_entries(scopes.drop_last(), labels, now) + records_entries(
            scopes.last().list_field("logRecords"@),
            labels,
            now,
        )
    }
}

pub open spec fn resources_entries(rs: Seq<JsonView>, now: i64) -> Seq<LogView>
    decreases rs.len(),
{
    if rs.len() == 0 {
        Seq::empty()
    } else {
        resources_entries(rs.drop_last(), now) + scopes_entries(
            rs.last().list_field("scopeLogs"@),
            resource_labels(rs.last()),
            now,
        )
    }
}

/// The log entries of an OTLP logs payload, in order; `now` is the time of
/// those that carry none.
pub open spec fn entries_of(body: JsonView, now: i64) -> Seq<LogView> {
    resources_entries(body.list_field("resourceLogs"@), now)
}

// ---------------------------------------------------------------------------
// Laws
// ---------------------------------------------------------------------------

/// A payload without resources holds no signals.
pub proof fn law_empty_payload_is_empty(body: JsonView, now: i64)
    requires
        body.field("resourceMetrics"@) is None,
        body.field("resourceLogs"@) is None,
    ensures
        samples_of(body, now).len() == 0,
        entries_of(body, now).len() == 0,
{
}

/// An attribute of a data point counts over one of the resource with the same
/// key.
pub proof fn law_point_attributes_count_over_resource_attributes(
    labels: Map<Seq<char>, Seq<char>>,
    attrs: Seq<JsonView>,
    a: JsonView,
    k: Seq<char>,
    v: Seq<char>,
)
    requires
        a.text_field("key"@) == Some(k),
        attr_value(a) == Some(v),
    ensures
        with_attrs(labels, attrs.push(a)).contains_key(k),
        with_attrs(labels, attrs.push(a))[k] == v,
{
    assert(attrs.push(a).drop_last() =~= attrs);
}

/// An AnyValue is what its first member says, of text, truth value, integer and
/// double in this order; without any of them it is nothing.
pub proof fn law_any_value_is_its_member_as_text(v: JsonView)
    ensures
        v.field("stringValue"@) matches Some(JsonView::Text(t)) ==> any_value(v) == Some(t),
        v.text_field("stringValue"@) is None ==> {
            &&& v.field("boolValue"@) == Some(JsonView::Bool(true)) ==> any_value(v) == Some(
                "true"@,
            )
            &&& v.field("boolValue"@) == Some(JsonView::Bool(false)) ==> any_value(v) == Some(
                "false"@,
            )
            &&& !(v.field("boolValue"@) matches Some(JsonView::Bool(_))) ==> {
                &&& v.field("intValue"@) matches Some(JsonView::Text(t)) ==> any_value(v) == Some(t)
                &&& v.field("intValue"@) matches Some(i) ==> any_value(v) == Some(i.plain())
                &&& v.field("intValue"@) is None ==> {
                    &&& v.field("doubleValue"@) matches Some(d) ==> (d.as_double() matches Some(
                        (_, t),
                    ) ==> any_value(v) == Some(t))
                    &&& v.field("doubleValue"@) is None ==> any_value(v) is None
                }
            }
        },
{
}

/// Each attribute that has a key and a value becomes a label with that value,
/// unless a later attribute has the same key; it counts over what the labels
/// held before.
pub proof fn law_every_attribute_becomes_a_label(
    labels: Map<Seq<char>, Seq<char>>,
    attrs: Seq<JsonView>,
    i: int,
    k: Seq<char>,
    value: JsonView,
    v: Seq<char>,
)
    requires
        0 <= i < attrs.len(),
        attrs[i].text_field("key"@) == Some(k),
        attrs[i].field("value"@) == Some(value),
        any_value(value) == Some(v),
        forall|j: int|
            i < j < attrs.len() ==> (#[trigger] attrs[j]).text_field("key"@) != Some(k),
    ensures
        with_attrs(labels, attrs).contains_key(k),
        with_attrs(labels, attrs)[k] == v,
    decreases attrs.len(),
{
    let front = attrs.drop_last();
    if i < attrs.len() - 1 {
        assert(attrs[attrs.len() - 1].text_field("key"@) != Some(k));
        assert forall|j: int| i < j < front.len() implies (#[trigger] front[j]).text_field("key"@)
            != Some(k) by {
            assert(front[j] == attrs[j]);
        }
        law_every_attribute_becomes_a_label(labels, front, i, k, value, v);
    }
}

/// Labels that no attribute names stay as they were, and nothing but the labels
/// and the attributes' keys is there.
pub proof fn law_other_labels_stay(
    labels: Map<Seq<char>, Seq<char>>,
    attrs: Seq<JsonView>,
    k: Seq<char>,
)
    requires
        forall|j: int| 0 <= j < attrs.len() ==> (#[trigger] attrs[j]).text_field("key"@) != Some(k),
    ensures
        with_attrs(labels, attrs).contains_key(k) <==> labels.contains_key(k),
        labels.contains_key(k) ==> with_attrs(labels, attrs)[k] == labels[k],
    decreases attrs.len(),
{
    if attrs.len() > 0 {
        let front = attrs.drop_last();
        assert(attrs[attrs.len() - 1].text_field("key"@) != Some(k));
        assert forall|j: int| 0 <= j < front.len() implies (#[trigger] front[j]).text_field("key"@)
            != Some(k) by {
            assert(front[j] == attrs[j]);
        }
        law_other_labels_stay(labels, front, k);
    }
}

/// An attribute without a key or without a value says nothing.
pub proof fn law_incomplete_attributes_say_nothing(
    labels: Map<Seq<char>, Seq<char>>,
    before: Seq<JsonView>,
    a: JsonView,
)
    requires
        a.text_field("key"@) is None || a.field("value"@) is None || any_value(
            a.field("value"@)->0,
        ) is None,
    ensures
        with_attrs(labels, before.push(a)) == with_attrs(labels, before),
{
    assert(before.push(a).drop_last() =~= before);
}

/// The labels of a resource are its attributes, and a resource that is not there
/// has none.
pub proof fn law_resource_labels_are_its_attributes(
    r: JsonView,
    i: int,
    k: Seq<char>,
    value: JsonView,
    v: Seq<char>,
)
    ensures
        r.field("resource"@) is None ==> resource_labels(r) == Map::<Seq<char>, Seq<char>>::empty(),
        r.field("resource"@) matches Some(res) ==> {
            let attrs = res.list_field("attributes"@);
            (0 <= i < attrs.len() && attrs[i].text_field("key"@) == Some(k) && attrs[i].field(
                "value"@,
            ) == Some(value) && any_value(value) == Some(v) && forall|j: int|
                i < j < attrs.len() ==> (#[trigger] attrs[j]).text_field("key"@) != Some(k))
                ==> resource_labels(r).contains_key(k) && resource_labels(r)[k] == v
        },
{
    if let Some(res) = r.field("resource"@) {
        let attrs = res.list_field("attributes"@);
        if 0 <= i < attrs.len() && attrs[i].text_field("key"@) == Some(k) && attrs[i].field(
            "value"@,
        ) == Some(value) && any_value(value) == Some(v) && forall|j: int|
            i < j < attrs.len() ==> (#[trigger] attrs[j]).text_field("key"@) != Some(k) {
            law_every_attribute_becomes_a_label(Map::empty(), attrs, i, k, value, v);
        }
    }
}

/// The line of a log record is its body, its time is its own if it has one, and
/// its labels are those of its resource and its own attributes, which count over
/// them; the severity, in lower case, is the level.
pub proof fn law_a_record_carries_its_attributes(
    rec: JsonView,
    resource: Map<Seq<char>, Seq<char>>,
    now: i64,
    i: int,
    k: Seq<char>,
    value: JsonView,
    v: Seq<char>,
)
    ensures
        ({
            let e = record_entry(rec, resource, now);
            let attrs = rec.list_field("attributes"@);
            let severity = rec.text_field("severityText"@);
            &&& rec.field("body"@) matches Some(b) ==> (any_value(b) matches Some(t) ==> e.line
                == t)
            &&& rec.field("body"@) is None || any_value(rec.field("body"@)->0) is None
                ==> e.line.len() == 0
            &&& severity matches Some(sev) ==> e.labels.contains_key("level"@) && e.labels["level"@]
                == text::lowercase(sev)
            &&& (0 <= i < attrs.len() && attrs[i].text_field("key"@) == Some(k) && attrs[i].field(
                "value"@,
            ) == Some(value) && any_value(value) == Some(v) && (k != "level"@ || severity is None)
                && forall|j: int|
                i < j < attrs.len() ==> (#[trigger] attrs[j]).text_field("key"@) != Some(k))
                ==> e.labels.contains_key(k) && e.labels[k] == v
            &&& ((forall|j: int|
                0 <= j < attrs.len() ==> (#[trigger] attrs[j]).text_field("key"@) != Some(k)) && (k
                != "level"@ || severity is None)) ==> (e.labels.contains_key(k)
                <==> resource.contains_key(k)) && (resource.contains_key(k) ==> e.labels[k]
                == resource[k])
            &&& rec.text_field("timeUnixNano"@) is None ==> e.timestamp_ns == now
            &&& rec.text_field("timeUnixNano"@) matches Some(t) ==> match number::parse_int(t) {
                Some(ns) => e.timestamp_ns == ns as i64,
                None => e.timestamp_ns == now,
            }
        }),
{
    let attrs = rec.list_field("attributes"@);
    if 0 <= i < attrs.len() && attrs[i].text_field("key"@) == Some(k) && attrs[i].field("value"@)
        == Some(value) && any_value(value) == Some(v) && forall|j: int|
        i < j < attrs.len() ==> (#[trigger] attrs[j]).text_field("key"@) != Some(k) {
        law_every_attribute_becomes_a_label(resource, attrs, i, k, value, v);
    }
    if forall|j: int|
        0 <= j < attrs.len() ==> (#[trigger] attrs[j]).text_field("key"@) != Some(k) {
        law_other_labels_stay(resource, attrs, k);
    }
}

/// Every log record of a payload becomes a log entry, whatever resource and
/// scope it stands in: its entry is labelled with the resource's attributes and
/// its own. There are no entries but those of records.
pub proof fn law_every_record_becomes_an_entry(body: JsonView, now: i64)
    ensures
        ({
            let rs = body.list_field("resourceLogs"@);
            let entries = entries_of(body, now);
            &&& forall|r: int, s: int, k: int|
                #![trigger rs[r].list_field("scopeLogs"@)[s].list_field("logRecords"@)[k]]
                0 <= r < rs.len() && 0 <= s < rs[r].list_field("scopeLogs"@).len() && 0 <= k
                    < rs[r].list_field("scopeLogs"@)[s].list_field("logRecords"@).len()
                    ==> entries.contains(
                    record_entry(
                        rs[r].list_field("scopeLogs"@)[s].list_field("logRecords"@)[k],
                        resource_labels(rs[r]),
                        now,
                    ),
                )
            &&& entries == resources_entries(rs, now)
        }),
{
    let rs = body.list_field("resourceLogs"@);
    assert forall|r: int, s: int, k: int|
        #![trigger rs[r].list_field("scopeLogs"@)[s].list_field("logRecords"@)[k]]
        0 <= r < rs.len() && 0 <= s < rs[r].list_field("scopeLogs"@).len() && 0 <= k
            < rs[r].list_field("scopeLogs"@)[s].list_field("logRecords"@).len() implies entries_of(
        body,
        now,
    ).contains(
        record_entry(
            rs[r].list_field("scopeLogs"@)[s].list_field("logRecords"@)[k],
            resource_labels(rs[r]),
            now,
        ),
    ) by {
        let labels = resource_labels(rs[r]);
        let scopes = rs[r].list_field("scopeLogs"@);
        let recs = scopes[s].list_field("logRecords"@);
        let e = record_entry(recs[k], labels, now);
        assert(records_entries(recs, labels, now)[k] == e);
        lemma_scope_entries_hold(scopes, labels, now, s, k);
        lemma_resource_entries_hold(rs, now, r, e);
    }
}

proof fn lemma_scope_entries_hold(
    scopes: Seq<JsonView>,
    labels: Map<Seq<char>, Seq<char>>,
    now: i64,
    s: int,
    k: int,
)
    requires
        0 <= s < scopes.len(),
        0 <= k < scopes[s].list_field("logRecords"@).len(),
    ensures
        scopes_entries(scopes, labels, now).contains(
            record_entry(scopes[s].list_field("logRecords"@)[k], labels, now),
        ),
    decreases scopes.len(),
{
    let front = scopes_entries(scopes.drop_last(), labels, now);
    let last = records_entries(scopes.last().list_field("logRecords"@), labels, now);
    let e = record_entry(scopes[s].list_field("logRecords"@)[k], labels, now);
    if s == scopes.len() - 1 {
        assert(last[k] == e);
        assert((front + last)[front.len() + k] == e);
    } else {
        lemma_scope_entries_hold(scopes.drop_last(), labels, now, s, k);
        let i = choose|i: int| 0 <= i < front.len() && front[i] == e;
        assert((front + last)[i] == e);
    }
}

proof fn lemma_resource_entries_hold(rs: Seq<JsonView>, now: i64, r: int, e: LogView)
    requires
        0 <= r < rs.len(),
        scopes_entries(rs[r].list_field("scopeLogs"@), resource_labels(rs[r]), now).contains(e),
    ensures
        resources_entries(rs, now).contains(e),
    decreases rs.len(),
{
    let front = resources_entries(rs.drop_last(), now);
    let last = scopes_entries(
        rs.last().list_field("scopeLogs"@),
        resource_labels(rs.last()),
        now,
    );
    if r == rs.len() - 1 {
        let i = choose|i: int| 0 <= i < last.len() && last[i] == e;
        assert((front + last)[front.len() + i] == e);
    } else {
        lemma_resource_entries_hold(rs.drop_last(), now, r, e);
        let i = choose|i: int| 0 <= i < front.len() && front[i] == e;
        assert((front + last)[i] == e);
    }
}

/// Of every log record of a payload, each attribute that has a key and a value,
/// the last of its key and other than the level that the severity sets, is a
/// label of one of the entries, next to the record's line.
pub proof fn law_record_attributes_reach_the_entries(
    body: JsonView,
    now: i64,
    r: int,
    s: int,
    n: int,
    i: int,
)
    requires
        0 <= r < body.list_field("resourceLogs"@).len(),
        0 <= s < body.list_field("resourceLogs"@)[r].list_field("scopeLogs"@).len(),
        0 <= n < body.list_field("resourceLogs"@)[r].list_field("scopeLogs"@)[s].list_field(
            "logRecords"@,
        ).len(),
    ensures
        ({
            let rec = body.list_field("resourceLogs"@)[r].list_field("scopeLogs"@)[s].list_field(
                "logRecords"@,
            )[n];
            let attrs = rec.list_field("attributes"@);
            let key = attrs[i].text_field("key"@);
            (0 <= i < attrs.len() && key is Some && attrs[i].field("value"@) is Some && any_value(
                attrs[i].field("value"@)->0,
            ) is Some && (key->0 != "level"@ || rec.text_field("severityText"@) is None) && forall|
                j: int,
            |
                i < j < attrs.len() ==> (#[trigger] attrs[j]).text_field("key"@) != key) ==> exists|
                m: int,
            |
                {
                    &&& 0 <= m < entries_of(body, now).len()
                    &&& (#[trigger] entries_of(body, now)[m]).labels.contains_key(key->0)
                    &&& entries_of(body, now)[m].labels[key->0] == any_value(
                        attrs[i].field("value"@)->0,
                    )->0
                    &&& rec.field("body"@) matches Some(b) ==> (any_value(b) matches Some(t)
                        ==> entries_of(body, now)[m].line == t)
                }
        }),
{
    let rs = body.list_field("resourceLogs"@);
    let rec = rs[r].list_field("scopeLogs"@)[s].list_field("logRecords"@)[n];
    let attrs = rec.list_field("attributes"@);
    let key = attrs[i].text_field("key"@);
    if 0 <= i < attrs.len() && key is Some && attrs[i].field("value"@) is Some && any_value(
        attrs[i].field("value"@)->0,
    ) is Some && (key->0 != "level"@ || rec.text_field("severityText"@) is None) && forall|j: int|
        i < j < attrs.len() ==> (#[trigger] attrs[j]).text_field("key"@) != key {
        let value = attrs[i].field("value"@)->0;
        let labels = resource_labels(rs[r]);
        law_every_record_becomes_an_entry(body, now);
        law_a_record_carries_its_attributes(
            rec,
            labels,
            now,
            i,
            key->0,
            value,
            any_value(value)->0,
        );
        let e = record_entry(rec, labels, now);
        let m = choose|m: int|
            0 <= m < entries_of(body, now).len() && entries_of(body, now)[m] == e;
        assert(entries_of(body, now)[m] == e);
    }
}

/// Log entries stand in the order of the resources, of the scopes within them
/// and of the records within these, and none is lost: what two rows make is what
/// the one makes and then the other.
pub proof fn law_entries_keep_the_order(
    a: Seq<JsonView>,
    b: Seq<JsonView>,
    labels: Map<Seq<char>, Seq<char>>,
    now: i64,
)
    ensures
        resources_entries(a + b, now) == resources_entries(a, now) + resources_entries(b, now),
        scopes_entries(a + b, labels, now) == scopes_entries(a, labels, now) + scopes_entries(
            b,
            labels,
            now,
        ),
        records_entries(a + b, labels, now) == records_entries(a, labels, now) + records_entries(
            b,
            labels,
            now,
        ),
        forall|r: JsonView| #[trigger]
            resources_entries(seq![r], now) == scopes_entries(
                r.list_field("scopeLogs"@),
                resource_labels(r),
                now,
            ),
        forall|s: JsonView| #[trigger]
            scopes_entries(seq![s], labels, now) == records_entries(
                s.list_field("logRecords"@),
                labels,
                now,
            ),
        records_entries(a, labels, now).len() == a.len(),
    decreases b.len(),
{
    if b.len() == 0 {
        assert(a + b =~= a);
        assert(resources_entries(b, now) =~= Seq::empty());
        assert(scopes_entries(b, labels, now) =~= Seq::empty());
    } else {
        assert((a + b).drop_last() =~= a + b.drop_last());
        assert((a + b).last() == b.last());
        law_entries_keep_the_order(a, b.drop_last(), labels, now);
    }
    assert(resources_entries(a + b, now) =~= resources_entries(a, now) + resources_entries(b, now));
    assert(scopes_entries(a + b, labels, now) =~= scopes_entries(a, labels, now) + scopes_entries(
        b,
        labels,
        now,
    ));
    assert(records_entries(a + b, labels, now) =~= records_entries(a, labels, now)
        + records_entries(b, labels, now));
    assert forall|r: JsonView| #[trigger]
        resources_entries(seq![r], now) == scopes_entries(
            r.list_field("scopeLogs"@),
            resource_labels(r),
            now,
        ) by {
        assert(seq![r].drop_last() =~= Seq::empty());
        assert(seq![r].last() == r);
        assert(resources_entries(seq![r].drop_last(), now) =~= Seq::empty());
        assert(resources_entries(seq![r], now) =~= scopes_entries(
            r.list_field("scopeLogs"@),
            resource_labels(r),
            now,
        ));
    }
    assert forall|s: JsonView| #[trigger]
        scopes_entries(seq![s], labels, now) == records_entries(
            s.list_field("logRecords"@),
            labels,
            now,
        ) by {
        assert(seq![s].drop_last() =~= Seq::empty());
        assert(seq![s].last() == s);
        assert(scopes_entries(seq![s].drop_last(), labels, now) =~= Seq::empty());
        assert(scopes_entries(seq![s], labels, now) =~= records_entries(
            s.list_field("logRecords"@),
            labels,
            now,
        ));
    }
}

/// Samples stand in the order of the resources, of the scopes within them, of
/// the metrics within these and of their data points, and none is lost: what two
/// rows make is what the one makes and then the other.
pub proof fn law_samples_keep_the_order(
    a: Seq<JsonView>,
    b: Seq<JsonView>,
    name: Seq<char>,
    kind: MetricKind,
    labels: Map<Seq<char>, Seq<char>>,
    now: i64,
)
    ensures
        resources_points(a + b, now) == resources_points(a, now) + resources_points(b, now),
        scopes_points(a + b, labels, now) == scopes_points(a, labels, now) + scopes_points(
            b,
            labels,
            now,
        ),
        metrics_points(a + b, labels, now) == metrics_points(a, labels, now) + metrics_points(
            b,
            labels,
            now,
        ),
        points(a + b, name, kind, labels, now) == points(a, name, kind, labels, now) + points(
            b,
            name,
            kind,
            labels,
            now,
        ),
    decreases b.len(),
{
    if b.len() == 0 {
        assert(a + b =~= a);
        assert(resources_points(b, now) =~= Seq::empty());
        assert(scopes_points(b, labels, now) =~= Seq::empty());
        assert(metrics_points(b, labels, now) =~= Seq::empty());
        assert(points(b, name, kind, labels, now) =~= Seq::empty());
    } else {
        assert((a + b).drop_last() =~= a + b.drop_last());
        assert((a + b).last() == b.last());
        law_samples_keep_the_order(a, b.drop_last(), name, kind, labels, now);
    }
    assert(resources_points(a + b, now) =~= resources_points(a, now) + resources_points(b, now));
    assert(scopes_points(a + b, labels, now) =~= scopes_points(a, labels, now) + scopes_points(
        b,
        labels,
        now,
    ));
    assert(metrics_points(a + b, labels, now) =~= metrics_points(a, labels, now) + metrics_points(
        b,
        labels,
        now,
    ));
    assert(points(a + b, name, kind, labels, now) =~= points(a, name, kind, labels, now) + points(
        b,
        name,
        kind,
        labels,
        now,
    ));
}

/// What stands alone in its row is read as it is: a resource by its scopes,
/// which carry its labels, a scope by its metrics, and a metric by its data
/// points. A gauge makes gauges and a sum counters; a metric without a name
/// makes nothing, and neither does one that is no gauge and no sum.
pub proof fn law_metrics_are_read_by_their_points(
    v: JsonView,
    labels: Map<Seq<char>, Seq<char>>,
    now: i64,
)
    ensures
        resources_points(seq![v], now) == scopes_points(
            v.list_field("scopeMetrics"@),
            resource_labels(v),
            now,
        ),
        scopes_points(seq![v], labels, now) == metrics_points(
            v.list_field("metrics"@),
            labels,
            now,
        ),
        v.text_field("name"@) is None ==> metrics_points(seq![v], labels, now).len() == 0,
        v.text_field("name"@) matches Some(name) ==> {
            &&& v.field("gauge"@) matches Some(g) ==> metrics_points(seq![v], labels, now)
                == points(g.list_field("dataPoints"@), name, MetricKind::Gauge, labels, now)
            &&& v.field("gauge"@) is None ==> (v.field("sum"@) matches Some(s) ==> metrics_points(
                seq![v],
                labels,
                now,
            ) == points(s.list_field("dataPoints"@), name, MetricKind::Counter, labels, now))
            &&& v.field("gauge"@) is None && v.field("sum"@) is None ==> metrics_points(
                seq![v],
                labels,
                now,
            ).len() == 0
        },
        samples_of(v, now) == resources_points(v.list_field("resourceMetrics"@), now),
{
    let one = seq![v];
    assert(one.drop_last() =~= Seq::empty());
    assert(one.last() == v);
    assert(resources_points(one.drop_last(), now) =~= Seq::empty());
    assert(scopes_points(one.drop_last(), labels, now) =~= Seq::empty());
    assert(metrics_points(one.drop_last(), labels, now) =~= Seq::empty());
    assert(resources_points(one, now) =~= scopes_points(
        v.list_field("scopeMetrics"@),
        resource_labels(v),
        now,
    ));
    assert(scopes_points(one, labels, now) =~= metrics_points(
        v.list_field("metrics"@),
        labels,
        now,
    ));
    assert(metrics_points(one, labels, now) =~= metric_points(v, labels, now));
}

/// A data point with a value makes one sample: of the metric's name and kind,
/// labelled with the resource's attributes and the point's own, which count over
/// them, at the point's time in milliseconds, or else at the time given. A point
/// without a value makes none.
pub proof fn law_a_point_makes_one_sample(
    dp: JsonView,
    name: Seq<char>,
    kind: MetricKind,
    labels: Map<Seq<char>, Seq<char>>,
    now: i64,
)
    ensures
        ({
            let made = points(seq![dp], name, kind, labels, now);
            match point_value(dp) {
                None => made.len() == 0,
                Some(value) => {
                    &&& made.len() == 1
                    &&& made[0].name == name
                    &&& made[0].kind == kind
                    &&& made[0].value == value
                    &&& made[0].labels == with_attrs(labels, dp.list_field("attributes"@))
                    &&& dp.text_field("timeUnixNano"@) is None ==> made[0].timestamp_ms == now
                    &&& dp.text_field("timeUnixNano"@) matches Some(t) ==> match number::parse_int(
                        t,
                    ) {
                        Some(ns) => made[0].timestamp_ms == number::trunc_div(ns, 1_000_000) as i64,
                        None => made[0].timestamp_ms == now,
                    }
                },
            }
        }),
{
    let one = seq![dp];
    assert(one.drop_last() =~= Seq::empty());
    assert(one.last() == dp);
    assert(points(one.drop_last(), name, kind, labels, now) =~= Seq::empty());
}

/// The value of a data point is its double, or else its integer, which may be a
/// number or the text of one.
pub proof fn law_a_point_has_the_value_it_says(dp: JsonView)
    ensures
        dp.field("asDouble"@) matches Some(d) ==> (d.as_bits() matches Some(b) ==> point_value(dp)
            == Some(ReadingView::Bits(b))),
        dp.field("asDouble"@) is None || dp.field("asDouble"@)->0.as_bits() is None ==> {
            &&& dp.field("asInt"@) is None ==> point_value(dp) is None
            &&& dp.field("asInt"@) matches Some(JsonView::Text(t)) ==> point_value(dp) == (
            if number::is_float(t) {
                Some(ReadingView::Scaled { literal: t, times: 1, per: 1 })
            } else {
                None
            })
            &&& dp.field("asInt"@) matches Some(i) ==> (i.as_bits() matches Some(b) ==> point_value(
                dp,
            ) == Some(ReadingView::Bits(b)))
        },
{
}

// ---------------------------------------------------------------------------
// OTLP JSON parsing
// ---------------------------------------------------------------------------

/// Flatten an OTLP AnyValue to a string.
pub fn otlp_any_value(v: &Json) -> (r: Option<String>)
    ensures
        text::opt_text(r) == any_value(v@),
{
    if let Some(s) = v.get_str("stringValue") {
        return Some(s.clone());
    }
    if let Some(b) = v.get("boolValue") {
        if let Some(value) = b.as_bool() {
            return Some(
                if value {
                    "true".to_owned()
                } else {
                    "false".to_owned()
                },
            );
        }
    }
    if let Some(i) = v.get("intValue") {
        return Some(i.plain());
    }
    if let Some(d) = v.get("doubleValue") {
        if let Some(n) = d.as_number() {
            if let Some(t) = n.double_text() {
                return Some(t.clone());
            }
        }
    }
    None
}

/// Puts the pairs of an OTLP attributes array among the labels.
pub fn attrs_to_labels(owner: &Json, labels: &mut Labels)
    ensures
        final(labels)@ == with_attrs(old(labels)@, owner@.list_field("attributes"@)),
{
    let attrs = match owner.get_array("attributes") {
        Some(a) => a,
        None => {
            return;
        },
    };
    let ghost all = json::json_views(attrs@);
    let mut i: usize = 0;
    while i < attrs.len()
        invariant
            i <= attrs@.len(),
            all == json::json_views(attrs@),
            labels@ == with_attrs(old(labels)@, all.take(i as int)),
        decreases attrs@.len() - i,
    {
        assert(all.take(i + 1).drop_last() =~= all.take(i as int));
        assert(all.take(i + 1).last() == attrs@[i as int]@);
        let key = attrs[i].get_str("key");
        let value = match attrs[i].get("value") {
            Some(v) => otlp_any_value(v),
            None => None,
        };
        if let Some(k) = key {
            if let Some(v) = value {
                let _ = labels.insert(k.clone(), v);
            }
        }
        i = i + 1;
    }
    assert(all.take(i as int) =~= all);
}

fn labels_of_resource(r: &Json) -> (labels: Labels)
    ensures
        labels@ == resource_labels(r@),
{
    let mut labels = Labels::new();
    if let Some(res) = r.get("resource") {
        attrs_to_labels(res, &mut labels);
    }
    labels
}

/// Read a numeric data-point value from either `asDouble` or `asInt`.
pub fn data_point_value(dp: &Json) -> (r: Option<Reading>)
    ensures
        match r {
            Some(v) => point_value(dp@) == Some(v@),
            None => point_value(dp@) is None,
        },
{
    if let Some(d) = dp.get("asDouble") {
        if let Some(n) = d.as_number() {
            if let Some(bits) = n.bits() {
                return Some(Reading::Bits(bits));
            }
        }
    }
    if let Some(i) = dp.get("asInt") {
        if let Some(t) = i.as_str() {
            let chars = text::chars_of(t.as_str());
            if number::float_literal(chars.as_slice()) {
                return Some(Reading::Scaled { literal: t.clone(), times: 1, per: 1 });
            }
            return None;
        }
        if let Some(n) = i.as_number() {
            if let Some(bits) = n.bits() {
                return Some(Reading::Bits(bits));
            }
        }
    }
    None
}

fn read_time(v: &Json) -> (r: Option<i64>)
    ensures
        match r {
            Some(ns) => time_field(v@) == Some(ns as int),
            None => time_field(v@) is None,
        },
{
    match v.get_str("timeUnixNano") {
        Some(t) => {
            let chars = text::chars_of(t.as_str());
            number::read_int(chars.as_slice())
        },
        None => None,
    }
}

/// The time of a data point in milliseconds; `now` where it has none.
pub fn data_point_ts_ms(dp: &Json, now: i64) -> (r: i64)
    ensures
        r == point_ms(dp@, now),
{
    match read_time(dp) {
        Some(ns) => number::div_toward_zero(ns, 1_000_000),
        None => now,
    }
}

fn push_points(
    out: &mut Vec<MetricSample>,
    owner: &Json,
    name: &String,
    kind: MetricKind,
    labels: &Labels,
    now: i64,
)
    ensures
        signal::metric_views(final(out)@) == signal::metric_views(old(out)@) + points(
            owner@.list_field("dataPoints"@),
            name@,
            kind,
            labels@,
            now,
        ),
{
    let ghost start = signal::metric_views(out@);
    let dps = match owner.get_array("dataPoints") {
        Some(d) => d,
        None => {
            assert(start + Seq::empty() =~= start);
            return;
        },
    };
    let ghost all = json::json_views(dps@);
    let mut i: usize = 0;
    assert(start + points(all.take(0), name@, kind, labels@, now) =~= start);
    while i < dps.len()
        invariant
            i <= dps@.len(),
            all == json::json_views(dps@),
            signal::metric_views(out@) == start + points(
                all.take(i as int),
                name@,
                kind,
                labels@,
                now,
            ),
        decreases dps@.len() - i,
    {
        let ghost next = all.take(i + 1);
        let ghost before = signal::metric_views(out@);
        assert(next.drop_last() =~= all.take(i as int));
        assert(next.last() == dps@[i as int]@);
        if let Some(value) = data_point_value(&dps[i]) {
            let mut own = labels.clone();
            attrs_to_labels(&dps[i], &mut own);
            let sample = MetricSample {
                name: name.clone(),
                labels: own,
                value,
                timestamp_ms: data_point_ts_ms(&dps[i], now),
                kind,
            };
            out.push(sample);
            assert(signal::metric_views(out@) =~= before.push(sample@));
        }
        assert(signal::metric_views(out@) =~= start + points(next, name@, kind, labels@, now));
        i = i + 1;
    }
    assert(all.take(i as int) =~= all);
}

fn push_metric(out: &mut Vec<MetricSample>, m: &Json, labels: &Labels, now: i64)
    ensures
        signal::metric_views(final(out)@) == signal::metric_views(old(out)@) + metric_points(
            m@,
            labels@,
            now,
        ),
{
    let ghost start = signal::metric_views(out@);
    if let Some(name) = m.get_str("name") {
        if let Some(g) = m.get("gauge") {
            push_points(out, g, name, MetricKind::Gauge, labels, now);
            return;
        }
        if let Some(s) = m.get("sum") {
            push_points(out, s, name, MetricKind::Counter, labels, now);
            return;
        }
    }
    assert(start + Seq::empty() =~= start);
}

fn push_metrics(out: &mut Vec<MetricSample>, scope: &Json, labels: &Labels, now: i64)
    ensures
        signal::metric_views(final(out)@) == signal::metric_views(old(out)@) + metrics_points(
            scope@.list_field("metrics"@),
            labels@,
            now,
        ),
{
    let ghost start = signal::metric_views(out@);
    let ms = match scope.get_array("metrics") {
        Some(m) => m,
        None => {
            assert(start + Seq::empty() =~= start);
            return;
        },
    };
    let ghost all = json::json_views(ms@);
    let mut i: usize = 0;
    assert(start + metrics_points(all.take(0), labels@, now) =~= start);
    while i < ms.len()
        invariant
            i <= ms@.len(),
            all == json::json_views(ms@),
            signal::metric_views(out@) == start + metrics_points(all.take(i as int), labels@, now),
        decreases ms@.len() - i,
    {
        let ghost next = all.take(i + 1);
        assert(next.drop_last() =~= all.take(i as int));
        assert(next.last() == ms@[i as int]@);
        push_metric(out, &ms[i], labels, now);
        assert(signal::metric_views(out@) =~= start + metrics_points(next, labels@, now));
        i = i + 1;
    }
    assert(all.take(i as int) =~= all);
}

fn push_scopes(out: &mut Vec<MetricSample>, r: &Json, labels: &Labels, now: i64)
    ensures
        signal::metric_views(final(out)@) == signal::metric_views(old(out)@) + scopes_points(
            r@.list_field("scopeMetrics"@),
            labels@,
            now,
        ),
{
    let ghost start = signal::metric_views(out@);
    let scopes = match r.get_array("scopeMetrics") {
        Some(s) => s,
        None => {
            assert(start + Seq::empty() =~= start);
            return;
        },
    };
    let ghost all = json::json_views(scopes@);
    let mut i: usize = 0;
    assert(start + scopes_points(all.take(0), labels@, now) =~= start);
    while i < scopes.len()
        invariant
            i <= scopes@.len(),
            all == json::json_views(scopes@),
            signal::metric_views(out@) == start + scopes_points(all.take(i as int), labels@, now),
        decreases scopes@.len() - i,
    {
        let ghost next = all.take(i + 1);
        assert(next.drop_last() =~= all.take(i as int));
        assert(next.last() == scopes@[i as int]@);
        push_metrics(out, &scopes[i], labels, now);
        assert(signal::metric_views(out@) =~= start + scopes_points(next, labels@, now));
        i = i + 1;
    }
    assert(all.take(i as int) =~= all);
}

/// The samples of an OTLP metrics payload; `now` is the time, in Unix
/// milliseconds, of those that carry none.
pub fn parse_otlp_metrics_at(body: &Json, now: i64) -> (r: Vec<MetricSample>)
    ensures
        signal::metric_views(r@) == samples_of(body@, now),
{
    let mut out: Vec<MetricSample> = Vec::new();
    assert(signal::metric_views(out@) =~= Seq::empty());
    let rs = match body.get_array("resourceMetrics") {
        Some(r) => r,
        None => {
            return out;
        },
    };
    let ghost all = json::json_views(rs@);
    let mut i: usize = 0;
    assert(resources_points(all.take(0), now) =~= Seq::empty());
    while i < rs.len()
        invariant
            i <= rs@.len(),
            all == json::json_views(rs@),
            signal::metric_views(out@) == resources_points(all.take(i as int), now),
        decreases rs@.len() - i,
    {
        let ghost next = all.take(i + 1);
        assert(next.drop_last() =~= all.take(i as int));
        assert(next.last() == rs@[i as int]@);
        let labels = labels_of_resource(&rs[i]);
        push_scopes(&mut out, &rs[i], &labels, now);
        i = i + 1;
    }
    assert(all.take(i as int) =~= all);
    out
}

/// The samples of an OTLP metrics payload. Those that carry no time get the
/// clock's.
pub fn parse_otlp_metrics(body: &Json) -> (r: Vec<MetricSample>)
    ensures
        exists|now: i64| signal::metric_views(r@) == #[trigger] samples_of(body@, now),
{
    parse_otlp_metrics_at(body, signal::now_ms())
}

fn log_entry(rec: &Json, resource: &Labels, now: i64) -> (r: LogEntry)
    ensures
        r@ == record_entry(rec@, resource@, now),
{
    let line = match rec.get("body") {
        Some(b) => match otlp_any_value(b) {
            Some(t) => t,
            None => String::new(),
        },
        None => String::new(),
    };
    let mut labels = resource.clone();
    attrs_to_labels(rec, &mut labels);
    if let Some(sev) = rec.get_str("severityText") {
        let _ = labels.insert("level".to_owned(), text::to_lowercase(sev.as_str()));
    }
    let timestamp_ns: i64 = match read_time(rec) {
        Some(ns) => ns,
        None => now,
    };
    let r = LogEntry { labels, line, timestamp_ns };
    assert(r@.line =~= record_entry(rec@, resource@, now).line);
    r
}

fn push_records(out: &mut Vec<LogEntry>, scope: &Json, labels: &Labels, now: i64)
    ensures
        signal::log_views(final(out)@) == signal::log_views(old(out)@) + records_entries(
            scope@.list_field("logRecords"@),
            labels@,
            now,
        ),
{
    let ghost start = signal::log_views(out@);
    let recs = match scope.get_array("logRecords") {
        Some(r) => r,
        None => {
            assert(start + records_entries(Seq::empty(), labels@, now) =~= start);
            return;
        },
    };
    let ghost all = json::json_views(recs@);
    let mut i: usize = 0;
    assert(start + records_entries(all.take(0), labels@, now) =~= start);
    while i < recs.len()
        invariant
            i <= recs@.len(),
            all == json::json_views(recs@),
            signal::log_views(out@) == start + records_entries(all.take(i as int), labels@, now),
        decreases recs@.len() - i,
    {
        let ghost before = signal::log_views(out@);
        let entry = log_entry(&recs[i], labels, now);
        out.push(entry);
        assert(signal::log_views(out@) =~= before.push(entry@));
        assert(signal::log_views(out@) =~= start + records_entries(
            all.take(i + 1),
            labels@,
            now,
        ));
        i = i + 1;
    }
    assert(all.take(i as int) =~= all);
}

fn push_log_scopes(out: &mut Vec<LogEntry>, r: &Json, labels: &Labels, now: i64)
    ensures
        signal::log_views(final(out)@) == signal::log_views(old(out)@) + scopes_entries(
            r@.list_field("scopeLogs"@),
            labels@,
            now,
        ),
{
    let ghost start = signal::log_views(out@);
    let scopes = match r.get_array("scopeLogs") {
        Some(s) => s,
        None => {
            assert(start + Seq::empty() =~= start);
            return;
        },
    };
    let ghost all = json::json_views(scopes@);
    let mut i: usize = 0;
    assert(start + scopes_entries(all.take(0), labels@, now) =~= start);
    while i < scopes.len()
        invariant
            i <= scopes@.len(),
            all == json::json_views(scopes@),
            signal::log_views(out@) == start + scopes_entries(all.take(i as int), labels@, now),
        decreases scopes@.len() - i,
    {
        let ghost next = all.take(i + 1);
        assert(next.drop_last() =~= all.take(i as int));
        assert(next.last() == scopes@[i as int]@);
        push_records(out, &scopes[i], labels, now);
        assert(signal::log_views(out@) =~= start + scopes_entries(next, labels@, now));
        i = i + 1;
    }
    assert(all.take(i as int) =~= all);
}

/// The log entries of an OTLP logs payload; `now` is the time, in Unix
/// nanoseconds, of those that carry none.
pub fn parse_otlp_logs_at(body: &Json, now: i64) -> (r: Vec<LogEntry>)
    ensures
        signal::log_views(r@) == entries_of(body@, now),
{
    let mut out: Vec<LogEntry> = Vec::new();
    assert(signal::log_views(out@) =~= Seq::empty());
    let rs = match body.get_array("resourceLogs") {
        Some(r) => r,
        None => {
            return out;
        },
    };
    let ghost all = json::json_views(rs@);
    let mut i: usize = 0;
    assert(resources_entries(all.take(0), now) =~= Seq::empty());
    while i < rs.len()
        invariant
            i <= rs@.len(),
            all == json::json_views(rs@),
            signal::log_views(out@) == resources_entries(all.take(i as int), now),
        decreases rs@.len() - i,
    {
        let ghost next = all.take(i + 1);
        assert(next.drop_last() =~= all.take(i as int));
        assert(next.last() == rs@[i as int]@);
        let labels = labels_of_resource(&rs[i]);
        push_log_scopes(&mut out, &rs[i], &labels, now);
        i = i + 1;
    }
    assert(all.take(i as int) =~= all);
    out
}

/// The log entries of an OTLP logs payload. Those that carry no time get the
/// clock's.
pub fn parse_otlp_logs(body: &Json) -> (r: Vec<LogEntry>)
    ensures
        exists|now: i64| signal::log_views(r@) == #[trigger] entries_of(body@, now),
{
    parse_otlp_logs_at(body, signal::now_ns())
}

/// A double that cannot be read is no value, of an attribute and of a data point.
pub proof fn law_unreadable_numbers_are_no_values(v: JsonView)
    ensures
        v.text_field("stringValue"@) is None && !(v.field("boolValue"@) matches Some(
            JsonView::Bool(_),
        )) && v.field("intValue"@) is None ==> (v.field("doubleValue"@) matches Some(d) ==> (
        d.as_double() is None ==> any_value(v) is None)),
        v.field("asDouble"@) is None ==> (v.field("asInt"@) matches Some(i) ==> (!(i is Text)
            && i.as_bits() is None ==> point_value(v) is None)),
{
}

} // verus!
