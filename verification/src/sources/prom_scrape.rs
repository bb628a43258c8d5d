//! Prometheus endpoints: what a scrape returned, as metric samples.

use prometheus_parse::Scrape;
use prometheus_parse::Value;
use vstd::prelude::*;

use crate::config;
use crate::config::PromScrapeConfig;
use crate::signal;
use crate::signal::MetricKind;
use crate::signal::MetricSample;
use crate::signal::MetricView;
use crate::signal::Reading;
use crate::signal::ReadingView;
use crate::strmap;
use crate::strmap::Labels;
use crate::text;

verus! {

/// A Prometheus endpoint.
#[derive(Debug)]
pub struct PromScrapeSource {
    cfg: PromScrapeConfig,
}

impl PromScrapeSource {
    /// The configuration.
    pub closed spec fn cfg(&self) -> PromScrapeConfig {
        self.cfg
    }

    pub fn new(cfg: PromScrapeConfig) -> (r: Self)
        ensures
            r.cfg() == cfg,
    {
        PromScrapeSource { cfg }
    }

    /// The configuration.
    pub fn config(&self) -> (r: &PromScrapeConfig)
        ensures
            *r == self.cfg(),
    {
        &self.cfg
    }

    /// The seconds between two scrapes.
    pub fn interval_secs(&self) -> (r: u64)
        ensures
            r == (match config::duration(self.cfg().interval@) {
                Some(n) => n,
                None => 30,
            }),
    {
        config::duration_or(self.cfg.interval.as_str(), 30)
    }
}

/// What was scraped of a metric; doubles are given by their bits.
#[derive(Debug, Clone, Copy)]
pub enum Scraped {
    Counter(u64),
    Gauge(u64),
    Untyped(u64),
    Histogram,
    Summary,
}

/// A sample of the text format.
#[derive(Debug)]
pub struct ScrapedSample {
    pub name: String,
    pub value: Scraped,
    pub labels: Vec<(String, String)>,
    /// Unix milliseconds
    pub timestamp_ms: i64,
}

/// What a `ScrapedSample` holds.
pub struct ScrapedView {
    pub name: Seq<char>,
    pub value: Scraped,
    pub labels: Map<Seq<char>, Seq<char>>,
    pub timestamp_ms: i64,
}

impl View for ScrapedSample {
    type V = ScrapedView;

    open spec fn view(&self) -> ScrapedView {
        ScrapedView {
            name: self.name@,
            value: self.value,
            labels: strmap::pairs_map(self.labels@),
            timestamp_ms: self.timestamp_ms,
        }
    }
}

/// What the samples of a row hold.
pub open spec fn scraped_views(s: Seq<ScrapedSample>) -> Seq<ScrapedView> {
    s.map_values(|x: ScrapedSample| x@)
}

/// Whether a sample is a single number.
pub open spec fn is_single(v: Scraped) -> bool {
    v is Counter || v is Gauge || v is Untyped
}

/// The samples that are single numbers, in their order.
pub open spec fn singles(s: Seq<ScrapedView>) -> Seq<ScrapedView>
    decreases s.len(),
{
    if s.len() == 0 {
        Seq::empty()
    } else if is_single(s.last().value) {
        singles(s.drop_last()).push(s.last())
    } else {
        singles(s.drop_last())
    }
}

/// The single numbers that `prometheus_parse::Scrape::parse_at` reads from
/// these lines, in their order, where samples without a time get `now_ms`.
pub uninterp spec fn prometheus_singles(lines: Seq<Seq<char>>, now_ms: i64) -> Seq<ScrapedView>;

/// `prometheus_parse::Scrape::parse_at` on lines that can all be read, for
/// which it gives no error. The samples that are single numbers rest on the
/// lines and the time alone, come in the order of the lines, and go by the
/// name `prometheus_singles`. Histograms and summaries stand behind them in
/// no fixed order, and nothing is said of them. A time that `chrono` cannot
/// hold counts as the epoch.
#[verifier::external_body]
fn parse_lines(lines: Vec<String>, now_ms: i64) -> (r: Vec<ScrapedSample>)
    ensures
        singles(scraped_views(r@)) == prometheus_singles(text::texts(lines@), now_ms),
{
    let now = chrono::DateTime::from_timestamp_millis(now_ms).unwrap_or_default();
    let scrape = Scrape::parse_at(lines.into_iter().map(Ok), now);
    scrape.map(|s| s.samples).unwrap_or_default().into_iter().map(|s| ScrapedSample {
        value: match s.value {
            Value::Counter(v) => Scraped::Counter(v.to_bits()),
            Value::Gauge(v) => Scraped::Gauge(v.to_bits()),
            Value::Untyped(v) => Scraped::Untyped(v.to_bits()),
            Value::Histogram(_) => Scraped::Histogram,
            Value::Summary(_) => Scraped::Summary,
        },
        labels: (*s.labels).clone().into_iter().collect(),
        name: s.metric,
        timestamp_ms: s.timestamp.timestamp_millis(),
    }).collect()
}

/// The bits of a single number.
pub open spec fn bits_of(v: Scraped) -> u64 {
    match v {
        Scraped::Counter(b) => b,
        Scraped::Gauge(b) => b,
        Scraped::Untyped(b) => b,
        _ => 0,
    }
}

/// A scraped number as a metric sample. The extra labels count over its own.
pub open spec fn sample_of(s: ScrapedView, extra: Map<Seq<char>, Seq<char>>) -> MetricView {
    MetricView {
        name: s.name,
        labels: s.labels.union_prefer_right(extra),
        value: ReadingView::Bits(bits_of(s.value)),
        timestamp_ms: s.timestamp_ms,
        kind: if s.value is Counter {
            MetricKind::Counter
        } else {
            MetricKind::Gauge
        },
    }
}

/// The metric samples of a scrape.
pub open spec fn samples_of(
    s: Seq<ScrapedView>,
    extra: Map<Seq<char>, Seq<char>>,
) -> Seq<MetricView> {
    s.map_values(|x: ScrapedView| sample_of(x, extra))
}

fn labels_of(pairs: &Vec<(String, String)>) -> (r: Labels)
    ensures
        r@ == strmap::pairs_map(pairs@),
{
    let mut labels = Labels::new();
    let mut i: usize = 0;
    assert(labels@ =~= strmap::pairs_map(pairs@.take(0)));
    while i < pairs.len()
        invariant
            i <= pairs@.len(),
            labels@ == strmap::pairs_map(pairs@.take(i as int)),
        decreases pairs@.len() - i,
    {
        assert(pairs@.take(i + 1).drop_last() =~= pairs@.take(i as int));
        let _ = labels.insert(pairs[i].0.clone(), pairs[i].1.clone());
        i = i + 1;
    }
    assert(pairs@.take(i as int) =~= pairs@);
    labels
}

/// The metric samples of a scrape. Histograms and summaries are passed over:
/// they arrive as multiple lines.
pub fn convert(scraped: &Vec<ScrapedSample>, extra: &Labels) -> (r: Vec<MetricSample>)
    ensures
        signal::metric_views(r@) == samples_of(singles(scraped_views(scraped@)), extra@),
{
    let ghost all = scraped_views(scraped@);
    let mut out: Vec<MetricSample> = Vec::new();
    let mut i: usize = 0;
    assert(signal::metric_views(out@) =~= samples_of(singles(all.take(0)), extra@));
    while i < scraped.len()
        invariant
            i <= scraped@.len(),
            all == scraped_views(scraped@),
            signal::metric_views(out@) == samples_of(singles(all.take(i as int)), extra@),
        decreases scraped@.len() - i,
    {
        let ghost before = signal::metric_views(out@);
        let ghost so_far = singles(all.take(i as int));
        let ghost next = all.take(i + 1);
        let s = &scraped[i];
        assert(next.drop_last() =~= all.take(i as int));
        assert(next.last() == s@);
        let found: Option<(u64, MetricKind)> = match s.value {
            Scraped::Counter(bits) => Some((bits, MetricKind::Counter)),
            Scraped::Gauge(bits) => Some((bits, MetricKind::Gauge)),
            Scraped::Untyped(bits) => Some((bits, MetricKind::Gauge)),
            _ => None,
        };
        if let Some((bits, kind)) = found {
            let mut labels = labels_of(&s.labels);
            labels.extend(extra);
            let m = MetricSample {
                name: s.name.clone(),
                labels,
                value: Reading::Bits(bits),
                timestamp_ms: s.timestamp_ms,
                kind,
            };
            out.push(m);
            assert(m@ == sample_of(s@, extra@));
            assert(signal::metric_views(out@) =~= before.push(m@));
            assert(samples_of(so_far.push(s@), extra@) =~= before.push(m@));
        }
        i = i + 1;
    }
    assert(all.take(i as int) =~= all);
    out
}

/// The metric samples of a scrape's text; those without a time of their own
/// get `now_ms`.
pub fn parse_prometheus_text_at(body: &str, extra: &Labels, now_ms: i64) -> (r: Vec<MetricSample>)
    ensures
        signal::metric_views(r@) == samples_of(
            prometheus_singles(text::lines(body@), now_ms),
            extra@,
        ),
{
    let chars = text::chars_of(body);
    let rows = text::lines_of(chars.as_slice());
    let mut lines: Vec<String> = Vec::new();
    let mut i: usize = 0;
    while i < rows.len()
        invariant
            i <= rows@.len(),
            lines@.len() == i,
            forall|j: int| 0 <= j < i ==> (#[trigger] lines@[j])@ == rows@[j]@,
        decreases rows@.len() - i,
    {
        lines.push(text::string_of(rows[i]));
        i = i + 1;
    }
    assert(text::texts(lines@) =~= text::lines(body@));
    let scraped = parse_lines(lines, now_ms);
    convert(&scraped, extra)
}

/// The metric samples of a scrape's text; those without a time of their own
/// get the current one.
pub fn parse_prometheus_text(body: &str, extra: &Labels) -> (r: Vec<MetricSample>)
    ensures
        exists|now_ms: i64|
            signal::metric_views(r@) == samples_of(
                #[trigger] prometheus_singles(text::lines(body@), now_ms),
                extra@,
            ),
{
    let now_ms: i64 = signal::now_ms();
    parse_prometheus_text_at(body, extra, now_ms)
}

/// Extra labels are on every sample of a scrape, and count over the labels
/// that the endpoint gave.
pub proof fn law_extra_labels_are_kept(
    s: Seq<ScrapedView>,
    extra: Map<Seq<char>, Seq<char>>,
    i: int,
    key: Seq<char>,
)
    requires
        0 <= i < s.len(),
        extra.contains_key(key),
    ensures
        samples_of(s, extra)[i].labels.contains_key(key),
        samples_of(s, extra)[i].labels[key] == extra[key],
{
}

/// Labels that the endpoint gave are not rewritten: they stay as they were
/// unless an extra label takes their place.
pub proof fn law_scraped_labels_are_not_rewritten(
    s: Seq<ScrapedView>,
    extra: Map<Seq<char>, Seq<char>>,
    i: int,
    key: Seq<char>,
)
    requires
        0 <= i < s.len(),
        s[i].labels.contains_key(key),
        !extra.contains_key(key),
    ensures
        samples_of(s, extra)[i].labels.contains_key(key),
        samples_of(s, extra)[i].labels[key] == s[i].labels[key],
{
}

/// Every single number of a scrape becomes one sample, in order, with the name,
/// the value and the time that the endpoint gave; a counter stays one, and
/// anything else is a gauge.
pub proof fn law_every_number_becomes_a_sample(
    s: Seq<ScrapedView>,
    extra: Map<Seq<char>, Seq<char>>,
)
    ensures
        singles(s) == s.filter(
            |x: ScrapedView| x.value is Counter || x.value is Gauge || x.value is Untyped,
        ),
        samples_of(s, extra).len() == s.len(),
        forall|i: int|
            0 <= i < s.len() ==> {
                let m = #[trigger] samples_of(s, extra)[i];
                &&& m.name == s[i].name
                &&& m.timestamp_ms == s[i].timestamp_ms
                &&& s[i].value matches Scraped::Counter(b) ==> m.value == ReadingView::Bits(b)
                    && m.kind == MetricKind::Counter
                &&& s[i].value matches Scraped::Gauge(b) ==> m.value == ReadingView::Bits(b)
                    && m.kind == MetricKind::Gauge
                &&& s[i].value matches Scraped::Untyped(b) ==> m.value == ReadingView::Bits(b)
                    && m.kind == MetricKind::Gauge
                &&& forall|k: Seq<char>| #[trigger]
                    m.labels.contains_key(k) ==> s[i].labels.contains_key(k) || extra.contains_key(
                        k,
                    )
            },
    decreases s.len(),
{
    reveal(Seq::filter);
    if s.len() > 0 {
        law_every_number_becomes_a_sample(s.drop_last(), extra);
    }
}

/// A scraped sample holds its name, its value, its time and its labels, of which
/// the later of two with one name counts.
pub proof fn law_scraped_samples_hold_all_of_their_parts(
    s: ScrapedSample,
    row: Seq<ScrapedSample>,
    pairs: Seq<(String, String)>,
    pair: (String, String),
)
    ensures
        s@.name == s.name@,
        s@.value == s.value,
        s@.timestamp_ms == s.timestamp_ms,
        s@.labels == strmap::pairs_map(s.labels@),
        scraped_views(row).len() == row.len(),
        forall|i: int| 0 <= i < row.len() ==> #[trigger] scraped_views(row)[i] == row[i]@,
        strmap::pairs_map(pairs.push(pair)) == strmap::pairs_map(pairs).insert(pair.0@, pair.1@),
        strmap::pairs_map(Seq::<(String, String)>::empty()) == Map::<Seq<char>, Seq<char>>::empty(),
{
    assert(pairs.push(pair).drop_last() =~= pairs);
}

} // verus!
