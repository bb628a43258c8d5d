//! What the agent ships as OTLP metrics is what its receiver reads.

use vstd::prelude::*;

use crate::fingerprint;
use crate::json::JsonView;
use crate::number;
use crate::payload;
use crate::payload::PayloadView;
use crate::signal::MetricKind;
use crate::signal::MetricView;
use crate::signal::ReadingView;
use crate::sources::otlp_receiver;
use crate::targets::pulseboard;
use crate::targets::pulseboard::IdentityView;

verus! {

/// The pairs put among the labels, one after the other.
pub open spec fn with_pairs(
    labels: Map<Seq<char>, Seq<char>>,
    pairs: Seq<(Seq<char>, Seq<char>)>,
) -> Map<Seq<char>, Seq<char>>
    decreases pairs.len(),
{
    if pairs.len() == 0 {
        labels
    } else {
        with_pairs(labels, pairs.drop_last()).insert(pairs.last().0, pairs.last().1)
    }
}

/// What the agent says of itself.
pub open spec fn resource_pairs(id: IdentityView) -> Seq<(Seq<char>, Seq<char>)> {
    seq![
        ("service.name"@, "pulseagent"@),
        ("agent.version"@, id.version),
        ("host.name"@, id.hostname),
        ("instance"@, id.hostname),
        ("agent.id"@, id.agent_id),
    ]
}

/// A sample as it is read: with more labels, under the names that its own
/// labels do not have, and with its value as a double.
pub open spec fn as_read(
    m: MetricView,
    more: Map<Seq<char>, Seq<char>>,
    doubles: spec_fn(ReadingView) -> u64,
) -> MetricView {
    MetricView {
        labels: more.union_prefer_right(m.labels),
        value: ReadingView::Bits(doubles(m.value)),
        ..m
    }
}

/// The samples, each as it is read.
pub open spec fn all_as_read(
    metrics: Seq<MetricView>,
    more: Map<Seq<char>, Seq<char>>,
    doubles: spec_fn(ReadingView) -> u64,
) -> Seq<MetricView> {
    metrics.map_values(|m: MetricView| as_read(m, more, doubles))
}

/// The samples of one name and kind, in their order.
pub open spec fn of_group(
    metrics: Seq<MetricView>,
    g: (Seq<char>, MetricKind),
) -> Seq<MetricView>
    decreases metrics.len(),
{
    if metrics.len() == 0 {
        Seq::empty()
    } else if metrics.last().name == g.0 && metrics.last().kind == g.1 {
        of_group(metrics.drop_last(), g).push(metrics.last())
    } else {
        of_group(metrics.drop_last(), g)
    }
}

/// The samples, group by group.
pub open spec fn gathered(
    metrics: Seq<MetricView>,
    groups: Seq<(Seq<char>, MetricKind)>,
) -> Seq<MetricView>
    decreases groups.len(),
{
    if groups.len() == 0 {
        Seq::empty()
    } else {
        gathered(metrics, groups.drop_last()) + of_group(metrics, groups.last())
    }
}

/// A sample that OTLP can carry: of a kind that OTLP tells apart, at a time that
/// fits into 64 bits of nanoseconds.
pub open spec fn is_plain(m: MetricView) -> bool {
    &&& m.kind == MetricKind::Gauge || m.kind == MetricKind::Counter
    &&& m.labels.dom().finite()
    &&& i64::MIN <= pulseboard::time_ns(m) <= i64::MAX
}

/// Samples that OTLP can carry.
pub open spec fn are_plain(metrics: Seq<MetricView>) -> bool {
    forall|i: int| 0 <= i < metrics.len() ==> is_plain(#[trigger] metrics[i])
}

// ---------------------------------------------------------------------------
// Fields
// ---------------------------------------------------------------------------

proof fn lemma_field(
    j: JsonView,
    fields: Seq<(Seq<char>, PayloadView)>,
    i: int,
    doubles: spec_fn(ReadingView) -> u64,
)
    requires
        payload::carries(j, PayloadView::Record(fields), doubles),
        0 <= i < fields.len(),
    ensures
        j.field(fields[i].0) is Some,
        payload::carries(j.field(fields[i].0)->0, fields[i].1, doubles),
{
    let p = PayloadView::Record(fields);
    assert(p->Record_0 == fields);
    assert(forall|k: int|
        0 <= k < fields.len() ==> match j.field((#[trigger] fields[k]).0) {
            Some(x) => payload::carries(x, fields[k].1, doubles),
            None => false,
        });
    let f = fields[i];
}

proof fn lemma_no_field(
    j: JsonView,
    fields: Seq<(Seq<char>, PayloadView)>,
    key: Seq<char>,
    doubles: spec_fn(ReadingView) -> u64,
)
    requires
        payload::carries(j, PayloadView::Record(fields), doubles),
        forall|i: int| 0 <= i < fields.len() ==> (#[trigger] fields[i]).0 != key,
    ensures
        j.field(key) is None,
{
    let p = PayloadView::Record(fields);
    assert(p->Record_0 == fields);
    assert(forall|k: Seq<char>| #[trigger]
        j.field(k) is Some ==> exists|i: int|
            0 <= i < fields.len() && (#[trigger] fields[i]).0 == k);
}

proof fn lemma_items(j: JsonView, items: Seq<PayloadView>, doubles: spec_fn(ReadingView) -> u64)
    requires
        payload::carries(j, PayloadView::List(items), doubles),
    ensures
        j.items() is Some,
        j.items()->0.len() == items.len(),
        forall|i: int|
            0 <= i < items.len() ==> payload::carries(
                j.items()->0[i],
                #[trigger] items[i],
                doubles,
            ),
{
    let p = PayloadView::List(items);
    assert(p->List_0 == items);
    let w = j.items()->0;
    assert(forall|i: int|
        0 <= i < items.len() ==> payload::carries(w[i], #[trigger] items[i], doubles));
}

// ---------------------------------------------------------------------------
// Attributes
// ---------------------------------------------------------------------------

proof fn lemma_attr(a: JsonView, k: Seq<char>, v: Seq<char>, doubles: spec_fn(ReadingView) -> u64)
    requires
        payload::carries(a, pulseboard::attr_of(k, v), doubles),
    ensures
        a.text_field("key"@) == Some(k),
        otlp_receiver::attr_value(a) == Some(v),
{
    let inner = seq![("stringValue"@, PayloadView::Text(v))];
    let fields = seq![("key"@, PayloadView::Text(k)), ("value"@, PayloadView::Record(inner))];
    lemma_field(a, fields, 0, doubles);
    lemma_field(a, fields, 1, doubles);
    let value = a.field("value"@)->0;
    lemma_field(value, inner, 0, doubles);
}

proof fn lemma_attrs(
    labels: Map<Seq<char>, Seq<char>>,
    attrs: Seq<JsonView>,
    pairs: Seq<(Seq<char>, Seq<char>)>,
    doubles: spec_fn(ReadingView) -> u64,
)
    requires
        attrs.len() == pairs.len(),
        forall|i: int|
            0 <= i < pairs.len() ==> payload::carries(
                attrs[i],
                pulseboard::attr_of((#[trigger] pairs[i]).0, pairs[i].1),
                doubles,
            ),
    ensures
        otlp_receiver::with_attrs(labels, attrs) == with_pairs(labels, pairs),
    decreases pairs.len(),
{
    if pairs.len() > 0 {
        let init = pairs.drop_last();
        assert forall|i: int| 0 <= i < init.len() implies payload::carries(
            attrs.drop_last()[i],
            pulseboard::attr_of((#[trigger] init[i]).0, init[i].1),
            doubles,
        ) by {
            assert(pairs[i] == init[i]);
        }
        lemma_attrs(labels, attrs.drop_last(), init, doubles);
        let last = pairs[pairs.len() - 1];
        lemma_attr(attrs.last(), last.0, last.1, doubles);
    }
}

proof fn lemma_with_listing(
    labels: Map<Seq<char>, Seq<char>>,
    pairs: Seq<(Seq<char>, Seq<char>)>,
    k: Seq<char>,
)
    ensures
        labels.contains_key(k) ==> with_pairs(labels, pairs).contains_key(k),
        (exists|i: int| 0 <= i < pairs.len() && (#[trigger] pairs[i]).0 == k) ==> with_pairs(
            labels,
            pairs,
        ).contains_key(k) && exists|i: int|
            0 <= i < pairs.len() && (#[trigger] pairs[i]).0 == k && with_pairs(labels, pairs)[k]
                == pairs[i].1,
        !(exists|i: int| 0 <= i < pairs.len() && (#[trigger] pairs[i]).0 == k) ==> (with_pairs(
            labels,
            pairs,
        ).contains_key(k) <==> labels.contains_key(k)) && (labels.contains_key(k) ==> with_pairs(
            labels,
            pairs,
        )[k] == labels[k]),
    decreases pairs.len(),
{
    if pairs.len() > 0 {
        let init = pairs.drop_last();
        lemma_with_listing(labels, init, k);
        assert forall|i: int| 0 <= i < init.len() implies #[trigger] init[i] == pairs[i] by {}
        let last = pairs[pairs.len() - 1];
        if last.0 == k {
            assert(pairs[pairs.len() - 1].0 == k);
        } else if exists|i: int| 0 <= i < pairs.len() && (#[trigger] pairs[i]).0 == k {
            let i = choose|i: int| 0 <= i < pairs.len() && (#[trigger] pairs[i]).0 == k;
            assert(init[i].0 == k);
            let at = choose|at: int|
                0 <= at < init.len() && (#[trigger] init[at]).0 == k && with_pairs(labels, init)[k]
                    == init[at].1;
            assert(pairs[at].0 == k);
        } else {
            assert(!(exists|i: int| 0 <= i < init.len() && (#[trigger] init[i]).0 == k)) by {
                if exists|i: int| 0 <= i < init.len() && (#[trigger] init[i]).0 == k {
                    let i = choose|i: int| 0 <= i < init.len() && (#[trigger] init[i]).0 == k;
                    assert(pairs[i].0 == k);
                }
            }
        }
    }
}

proof fn lemma_listing_is_union(
    labels: Map<Seq<char>, Seq<char>>,
    pairs: Seq<(Seq<char>, Seq<char>)>,
    m: Map<Seq<char>, Seq<char>>,
)
    requires
        fingerprint::lists(pairs, m),
    ensures
        with_pairs(labels, pairs) == labels.union_prefer_right(m),
{
    let left = with_pairs(labels, pairs);
    let right = labels.union_prefer_right(m);
    assert forall|k: Seq<char>|
        #![trigger left.contains_key(k)]
        #![trigger right.contains_key(k)]
        (left.contains_key(k) <==> right.contains_key(k)) && (left.contains_key(k) ==> left[k]
            == right[k]) by {
        lemma_with_listing(labels, pairs, k);
        if m.contains_key(k) {
            let i = choose|i: int| 0 <= i < pairs.len() && (#[trigger] pairs[i]).0 == k;
            assert(pairs[i].0 == k);
            let at = choose|at: int|
                0 <= at < pairs.len() && (#[trigger] pairs[at]).0 == k && left[k] == pairs[at].1;
            assert(m[pairs[at].0] == pairs[at].1);
        } else if exists|i: int| 0 <= i < pairs.len() && (#[trigger] pairs[i]).0 == k {
            let i = choose|i: int| 0 <= i < pairs.len() && (#[trigger] pairs[i]).0 == k;
            assert(m.contains_key(pairs[i].0));
        }
    }
    assert forall|k: Seq<char>| left.dom().contains(k) <==> right.dom().contains(k) by {
        assert(left.contains_key(k) <==> right.contains_key(k));
    }
    assert(left =~= right);
}

// ---------------------------------------------------------------------------
// Samples
// ---------------------------------------------------------------------------

proof fn lemma_point(
    dp: JsonView,
    m: MetricView,
    labels: Map<Seq<char>, Seq<char>>,
    now: i64,
    doubles: spec_fn(ReadingView) -> u64,
)
    requires
        payload::carries(dp, pulseboard::point_of(m), doubles),
        is_plain(m),
    ensures
        otlp_receiver::point_value(dp) == Some(ReadingView::Bits(doubles(m.value))),
        otlp_receiver::with_attrs(labels, dp.list_field("attributes"@))
            == labels.union_prefer_right(m.labels),
        otlp_receiver::point_ms(dp, now) == m.timestamp_ms,
{
    let pairs = fingerprint::listing(m.labels);
    let items = pairs.map_values(|p: (Seq<char>, Seq<char>)| pulseboard::attr_of(p.0, p.1));
    let ns = pulseboard::time_ns(m);
    let fields = seq![
        ("attributes"@, pulseboard::attrs_of(m.labels)),
        ("timeUnixNano"@, PayloadView::Text(number::dec_int(ns))),
        ("asDouble"@, PayloadView::Number(m.value)),
    ];
    lemma_field(dp, fields, 0, doubles);
    lemma_field(dp, fields, 1, doubles);
    lemma_field(dp, fields, 2, doubles);
    let attrs = dp.field("attributes"@)->0;
    lemma_items(attrs, items, doubles);
    assert forall|i: int| 0 <= i < pairs.len() implies payload::carries(
        attrs.items()->0[i],
        pulseboard::attr_of((#[trigger] pairs[i]).0, pairs[i].1),
        doubles,
    ) by {
        assert(items[i] == pulseboard::attr_of(pairs[i].0, pairs[i].1));
    }
    lemma_attrs(labels, attrs.items()->0, pairs, doubles);
    fingerprint::law_labels_have_a_listing(m.labels);
    lemma_listing_is_union(labels, pairs, m.labels);
    number::law_integers_are_read_as_written(ns);
    assert(number::trunc_div(ns, 1_000_000) == m.timestamp_ms);
}

proof fn lemma_points(
    dps: Seq<JsonView>,
    metrics: Seq<MetricView>,
    g: (Seq<char>, MetricKind),
    labels: Map<Seq<char>, Seq<char>>,
    now: i64,
    doubles: spec_fn(ReadingView) -> u64,
)
    requires
        are_plain(metrics),
        dps.len() == pulseboard::points_of(metrics, g.0, g.1).len(),
        forall|i: int|
            0 <= i < dps.len() ==> payload::carries(
                #[trigger] dps[i],
                pulseboard::points_of(metrics, g.0, g.1)[i],
                doubles,
            ),
    ensures
        otlp_receiver::points(dps, g.0, g.1, labels, now) == of_group(
            all_as_read(metrics, labels, doubles),
            g,
        ),
    decreases metrics.len(),
{
    let all = all_as_read(metrics, labels, doubles);
    if metrics.len() > 0 {
        let init = metrics.drop_last();
        let last = metrics.last();
        assert(all.drop_last() =~= all_as_read(init, labels, doubles));
        assert(all.last() == as_read(last, labels, doubles));
        assert forall|i: int| 0 <= i < init.len() implies is_plain(#[trigger] init[i]) by {
            assert(is_plain(metrics[i]));
        }
        assert(is_plain(metrics[metrics.len() - 1]));
        if last.name == g.0 && last.kind == g.1 {
            let before = pulseboard::points_of(init, g.0, g.1);
            assert forall|i: int| 0 <= i < dps.drop_last().len() implies payload::carries(
                #[trigger] dps.drop_last()[i],
                before[i],
                doubles,
            ) by {
                assert(dps[i] == dps.drop_last()[i]);
            }
            lemma_points(dps.drop_last(), init, g, labels, now, doubles);
            let dp = dps[dps.len() - 1];
            assert(payload::carries(dp, pulseboard::point_of(last), doubles));
            lemma_point(dp, last, labels, now, doubles);
        } else {
            lemma_points(dps, init, g, labels, now, doubles);
        }
    }
}

proof fn lemma_metric(
    j: JsonView,
    metrics: Seq<MetricView>,
    g: (Seq<char>, MetricKind),
    labels: Map<Seq<char>, Seq<char>>,
    now: i64,
    doubles: spec_fn(ReadingView) -> u64,
)
    requires
        are_plain(metrics),
        g.1 == MetricKind::Gauge || g.1 == MetricKind::Counter,
        payload::carries(
            j,
            pulseboard::metric_of(g.0, g.1, pulseboard::points_of(metrics, g.0, g.1)),
            doubles,
        ),
    ensures
        otlp_receiver::metric_points(j, labels, now) == of_group(
            all_as_read(metrics, labels, doubles),
            g,
        ),
{
    let points = pulseboard::points_of(metrics, g.0, g.1);
    let list = ("dataPoints"@, PayloadView::List(points));
    if g.1 == MetricKind::Counter {
        let inner = seq![
            list,
            ("aggregationTemporality"@, PayloadView::Integer(2)),
            ("isMonotonic"@, PayloadView::Bool(true)),
        ];
        let fields = seq![("name"@, PayloadView::Text(g.0)), ("sum"@, PayloadView::Record(inner))];
        lemma_field(j, fields, 0, doubles);
        lemma_field(j, fields, 1, doubles);
        reveal_strlit("gauge");
        reveal_strlit("name");
        reveal_strlit("sum");
        assert("name"@.len() == 4 && "sum"@.len() == 3 && "gauge"@.len() == 5);
        lemma_no_field(j, fields, "gauge"@, doubles);
        let sum = j.field("sum"@)->0;
        lemma_field(sum, inner, 0, doubles);
        let dps = sum.field("dataPoints"@)->0;
        lemma_items(dps, points, doubles);
        lemma_points(dps.items()->0, metrics, g, labels, now, doubles);
    } else {
        let inner = seq![list];
        let fields = seq![("name"@, PayloadView::Text(g.0)), ("gauge"@, PayloadView::Record(inner))];
        lemma_field(j, fields, 0, doubles);
        lemma_field(j, fields, 1, doubles);
        let gauge = j.field("gauge"@)->0;
        lemma_field(gauge, inner, 0, doubles);
        let dps = gauge.field("dataPoints"@)->0;
        lemma_items(dps, points, doubles);
        lemma_points(dps.items()->0, metrics, g, labels, now, doubles);
    }
}

proof fn lemma_metrics(
    js: Seq<JsonView>,
    metrics: Seq<MetricView>,
    groups: Seq<(Seq<char>, MetricKind)>,
    labels: Map<Seq<char>, Seq<char>>,
    now: i64,
    doubles: spec_fn(ReadingView) -> u64,
)
    requires
        are_plain(metrics),
        js.len() == groups.len(),
        forall|i: int|
            #![trigger groups[i]]
            0 <= i < groups.len() ==> (groups[i].1 == MetricKind::Gauge || groups[i].1
                == MetricKind::Counter) && payload::carries(
                js[i],
                pulseboard::metric_of(
                    groups[i].0,
                    groups[i].1,
                    pulseboard::points_of(metrics, groups[i].0, groups[i].1),
                ),
                doubles,
            ),
    ensures
        otlp_receiver::metrics_points(js, labels, now) == gathered(
            all_as_read(metrics, labels, doubles),
            groups,
        ),
    decreases groups.len(),
{
    if groups.len() > 0 {
        let init = groups.drop_last();
        assert forall|i: int| #![trigger init[i]] 0 <= i < init.len() implies (init[i].1
            == MetricKind::Gauge || init[i].1 == MetricKind::Counter) && payload::carries(
            js.drop_last()[i],
            pulseboard::metric_of(
                init[i].0,
                init[i].1,
                pulseboard::points_of(metrics, init[i].0, init[i].1),
            ),
            doubles,
        ) by {
            assert(groups[i] == init[i]);
        }
        lemma_metrics(js.drop_last(), metrics, init, labels, now, doubles);
        let g = groups[groups.len() - 1];
        lemma_metric(js.last(), metrics, g, labels, now, doubles);
    }
}

// ---------------------------------------------------------------------------
// Permutation
// ---------------------------------------------------------------------------

/// One sample more is gathered once if its group is among the groups.
proof fn lemma_gathered_push(
    init: Seq<MetricView>,
    m: MetricView,
    groups: Seq<(Seq<char>, MetricKind)>,
)
    requires
        groups.no_duplicates(),
    ensures
        gathered(init.push(m), groups).to_multiset() == (if groups.contains((m.name, m.kind)) {
            gathered(init, groups).to_multiset().insert(m)
        } else {
            gathered(init, groups).to_multiset()
        }),
    decreases groups.len(),
{
    broadcast use vstd::seq_lib::group_to_multiset_ensures;

    let own = (m.name, m.kind);
    let all = init.push(m);
    if groups.len() > 0 {
        let rest = groups.drop_last();
        let g = groups.last();
        assert(rest.no_duplicates());
        lemma_gathered_push(init, m, rest);
        assert(all.drop_last() =~= init);
        vstd::seq_lib::lemma_multiset_commutative(gathered(all, rest), of_group(all, g));
        vstd::seq_lib::lemma_multiset_commutative(gathered(init, rest), of_group(init, g));
        let a = gathered(all, rest).to_multiset();
        let b = gathered(init, rest).to_multiset();
        let c = of_group(init, g).to_multiset();
        if g == own {
            assert(groups[groups.len() - 1] == own);
            assert(!rest.contains(own)) by {
                if rest.contains(own) {
                    let i = choose|i: int| 0 <= i < rest.len() && rest[i] == own;
                    assert(groups[i] == groups[groups.len() - 1]);
                }
            }
            assert(of_group(all, g) == of_group(init, g).push(m));
            assert(a.add(c.insert(m)) =~= b.add(c).insert(m));
        } else {
            assert(of_group(all, g) == of_group(init, g));
            assert(groups.contains(own) <==> rest.contains(own)) by {
                if groups.contains(own) {
                    let i = choose|i: int| 0 <= i < groups.len() && groups[i] == own;
                    assert(rest[i] == own);
                }
                if rest.contains(own) {
                    let i = choose|i: int| 0 <= i < rest.len() && rest[i] == own;
                    assert(groups[i] == own);
                }
            }
            if rest.contains(own) {
                assert(b.insert(m).add(c) =~= b.add(c).insert(m));
            }
        }
    } else {
        assert(!groups.contains(own));
    }
}

/// Gathered by groups that cover them, the samples are those that there were.
proof fn lemma_gathered_is_all(
    metrics: Seq<MetricView>,
    groups: Seq<(Seq<char>, MetricKind)>,
)
    requires
        groups.no_duplicates(),
        forall|i: int|
            #![trigger metrics[i]]
            0 <= i < metrics.len() ==> groups.contains((metrics[i].name, metrics[i].kind)),
    ensures
        gathered(metrics, groups).to_multiset() == metrics.to_multiset(),
    decreases metrics.len(),
{
    broadcast use vstd::seq_lib::group_to_multiset_ensures;

    if metrics.len() == 0 {
        lemma_gathered_empty(metrics, groups);
        assert(gathered(metrics, groups) =~= metrics);
    } else {
        let init = metrics.drop_last();
        let m = metrics.last();
        assert forall|i: int| #![trigger init[i]] 0 <= i < init.len() implies groups.contains(
            (init[i].name, init[i].kind),
        ) by {
            assert(metrics[i] == init[i]);
        }
        assert(metrics[metrics.len() - 1] == m);
        lemma_gathered_is_all(init, groups);
        lemma_gathered_push(init, m, groups);
        assert(init.push(m) =~= metrics);
    }
}

proof fn lemma_gathered_empty(
    metrics: Seq<MetricView>,
    groups: Seq<(Seq<char>, MetricKind)>,
)
    requires
        metrics.len() == 0,
    ensures
        gathered(metrics, groups).len() == 0,
    decreases groups.len(),
{
    if groups.len() > 0 {
        lemma_gathered_empty(metrics, groups.drop_last());
    }
}

// ---------------------------------------------------------------------------
// Law
// ---------------------------------------------------------------------------

/// The labels that a receiver takes from what the agent says of itself.
pub open spec fn resource_map(id: IdentityView) -> Map<Seq<char>, Seq<char>> {
    with_pairs(Map::empty(), resource_pairs(id))
}

/// What is shipped is read back: of a document that holds the OTLP payload of
/// some samples, the receiver reads just these samples, group by group, and so
/// in another order perhaps. Name, kind and time are unchanged, and so are a
/// sample's own labels; what the agent says of itself is added under the names
/// that these do not have. The value is the double that the reading was sent
/// as: where it was given as a double, it is unchanged too.
pub proof fn law_shipped_samples_are_read_back(
    body: JsonView,
    metrics: Seq<MetricView>,
    id: IdentityView,
    now: i64,
    doubles: spec_fn(ReadingView) -> u64,
)
    requires
        are_plain(metrics),
        payload::carries(body, pulseboard::otlp_of(metrics, id), doubles),
    ensures
        otlp_receiver::samples_of(body, now) == gathered(
            all_as_read(metrics, resource_map(id), doubles),
            pulseboard::groups_of(metrics),
        ),
        otlp_receiver::samples_of(body, now).to_multiset() == all_as_read(
            metrics,
            resource_map(id),
            doubles,
        ).to_multiset(),
        (forall|b: u64| #[trigger] doubles(ReadingView::Bits(b)) == b) ==> forall|i: int|
            0 <= i < metrics.len() && (#[trigger] metrics[i]).value is Bits ==> as_read(
                metrics[i],
                resource_map(id),
                doubles,
            ).value == metrics[i].value,
{
    assert forall|i: int|
        0 <= i < metrics.len() && (#[trigger] metrics[i]).value is Bits && (forall|b: u64|
            #[trigger] doubles(ReadingView::Bits(b)) == b) implies as_read(
        metrics[i],
        resource_map(id),
        doubles,
    ).value == metrics[i].value by {
        let b = metrics[i].value->Bits_0;
        assert(metrics[i].value == ReadingView::Bits(b));
        assert(doubles(ReadingView::Bits(b)) == b);
    }
    let groups = pulseboard::groups_of(metrics);
    let entries = pulseboard::grouped(metrics);
    let labels = resource_map(id);
    let scope_fields = seq![
        ("name"@, PayloadView::Text("pulseagent"@)),
        ("version"@, PayloadView::Text(id.version)),
    ];
    let scoped_fields = seq![
        ("scope"@, PayloadView::Record(scope_fields)),
        ("metrics"@, PayloadView::List(entries)),
    ];
    let scopes = seq![PayloadView::Record(scoped_fields)];
    let whole_fields = seq![
        ("resource"@, pulseboard::resource_of(id)),
        ("scopeMetrics"@, PayloadView::List(scopes)),
    ];
    let wholes = seq![PayloadView::Record(whole_fields)];
    let body_fields = seq![("resourceMetrics"@, PayloadView::List(wholes))];

    lemma_field(body, body_fields, 0, doubles);
    let resources = body.field("resourceMetrics"@)->0;
    lemma_items(resources, wholes, doubles);
    let rs = resources.items()->0;
    assert(payload::carries(rs[0], wholes[0], doubles));
    let r = rs[0];
    lemma_field(r, whole_fields, 0, doubles);
    lemma_field(r, whole_fields, 1, doubles);

    let pairs = resource_pairs(id);
    let attrs = seq![
        pulseboard::attr_of("service.name"@, "pulseagent"@),
        pulseboard::attr_of("agent.version"@, id.version),
        pulseboard::attr_of("host.name"@, id.hostname),
        pulseboard::attr_of("instance"@, id.hostname),
        pulseboard::attr_of("agent.id"@, id.agent_id),
    ];
    let resource_fields = seq![("attributes"@, PayloadView::List(attrs))];
    let resource = r.field("resource"@)->0;
    lemma_field(resource, resource_fields, 0, doubles);
    let list = resource.field("attributes"@)->0;
    lemma_items(list, attrs, doubles);
    assert forall|i: int| 0 <= i < pairs.len() implies payload::carries(
        list.items()->0[i],
        pulseboard::attr_of((#[trigger] pairs[i]).0, pairs[i].1),
        doubles,
    ) by {
        assert(attrs[i] == pulseboard::attr_of(pairs[i].0, pairs[i].1));
    }
    lemma_attrs(Map::empty(), list.items()->0, pairs, doubles);
    assert(otlp_receiver::resource_labels(r) == labels);

    let scope_list = r.field("scopeMetrics"@)->0;
    lemma_items(scope_list, scopes, doubles);
    let ss = scope_list.items()->0;
    assert(payload::carries(ss[0], scopes[0], doubles));
    lemma_field(ss[0], scoped_fields, 1, doubles);
    let metric_list = ss[0].field("metrics"@)->0;
    lemma_items(metric_list, entries, doubles);
    let js = metric_list.items()->0;

    pulseboard::law_each_metric_is_listed_once(metrics);
    assert forall|i: int| #![trigger groups[i]] 0 <= i < groups.len() implies (groups[i].1
        == MetricKind::Gauge || groups[i].1 == MetricKind::Counter) && payload::carries(
        js[i],
        pulseboard::metric_of(
            groups[i].0,
            groups[i].1,
            pulseboard::points_of(metrics, groups[i].0, groups[i].1),
        ),
        doubles,
    ) by {
        assert(payload::carries(js[i], entries[i], doubles));
        assert(groups.contains(groups[i]));
        let k = choose|k: int|
            0 <= k < metrics.len() && (#[trigger] metrics[k]).name == groups[i].0 && metrics[k].kind
                == groups[i].1;
        assert(is_plain(metrics[k]));
    }
    lemma_metrics(js, metrics, groups, labels, now, doubles);

    let all = all_as_read(metrics, labels, doubles);
    let none = Seq::<MetricView>::empty();
    assert(ss.drop_last() =~= Seq::empty());
    assert(rs.drop_last() =~= Seq::empty());
    assert(otlp_receiver::scopes_points(ss.drop_last(), labels, now) =~= none);
    assert(otlp_receiver::scopes_points(ss, labels, now) =~= gathered(all, groups));
    assert(otlp_receiver::resources_points(rs.drop_last(), now) =~= none);
    assert(otlp_receiver::resources_points(rs, now) =~= gathered(all, groups));

    assert forall|i: int| #![trigger all[i]] 0 <= i < all.len() implies groups.contains(
        (all[i].name, all[i].kind),
    ) by {
        assert(groups.contains((metrics[i].name, metrics[i].kind)));
    }
    lemma_gathered_is_all(all, groups);
}

} // verus!
