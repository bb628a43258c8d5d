use pulseagent::config::PromScrapeConfig;
use pulseagent::signal::MetricKind;
use pulseagent::signal::Reading;
use pulseagent::sources::prom_scrape::convert;
use pulseagent::sources::prom_scrape::parse_prometheus_text;
use pulseagent::sources::prom_scrape::parse_prometheus_text_at;
use pulseagent::sources::prom_scrape::PromScrapeSource;
use pulseagent::sources::prom_scrape::Scraped;
use pulseagent::sources::prom_scrape::ScrapedSample;
use pulseagent::strmap::Labels;

const BODY: &str = r#"# HELP http_requests_total The total number of HTTP requests.
# TYPE http_requests_total counter
http_requests_total{method="post",code="200"} 1027 1395066363000
# TYPE temperature gauge
temperature 36.6
plain{job="theirs"} 3
# TYPE latency histogram
latency_bucket{le="0.05"} 24054
latency_bucket{le="+Inf"} 144320
"#;

fn double(r: &Reading) -> f64 {
    match r {
        Reading::Bits(b) => f64::from_bits(*b),
        other => panic!("{other:?}"),
    }
}

fn labels(pairs: &[(&str, &str)]) -> Labels {
    let mut m = Labels::new();
    for (k, v) in pairs {
        m.insert(k.to_string(), v.to_string());
    }
    m
}

#[test]
fn reads_the_text_format() {
    let samples = parse_prometheus_text_at(BODY, &labels(&[("job", "ours")]), 77);
    assert_eq!(samples.len(), 3);
    assert_eq!(samples[0].name, "http_requests_total");
    assert_eq!(samples[0].kind, MetricKind::Counter);
    assert_eq!(double(&samples[0].value), 1027.0);
    assert_eq!(samples[0].timestamp_ms, 1_395_066_363_000);
    assert_eq!(samples[0].labels.get("method").unwrap(), "post");
    assert_eq!(samples[0].labels.get("code").unwrap(), "200");
    assert_eq!(samples[1].name, "temperature");
    assert_eq!(samples[1].kind, MetricKind::Gauge);
    assert_eq!(double(&samples[1].value), 36.6);
    // a sample without a time gets the time of the scrape
    assert_eq!(samples[1].timestamp_ms, 77);
    assert_eq!(samples[2].name, "plain");
    assert_eq!(samples[2].kind, MetricKind::Gauge);
    // extra labels count over those of the endpoint
    assert_eq!(samples[2].labels.get("job").unwrap(), "ours");
}

#[test]
fn the_clock_dates_samples_without_a_time() {
    let samples = parse_prometheus_text("x 1\n", &Labels::new());
    assert_eq!(samples.len(), 1);
    assert!(samples[0].timestamp_ms > 1_700_000_000_000);
    assert!(parse_prometheus_text("", &Labels::new()).is_empty());
}

fn scraped(name: &str, value: Scraped) -> ScrapedSample {
    ScrapedSample {
        name: name.into(),
        value,
        labels: vec![("a".into(), "1".into())],
        timestamp_ms: 5,
    }
}

#[test]
fn histograms_and_summaries_are_passed_over() {
    let out = convert(
        &vec![
            scraped("c", Scraped::Counter(1.0f64.to_bits())),
            scraped("h", Scraped::Histogram),
            scraped("u", Scraped::Untyped(2.0f64.to_bits())),
            scraped("s", Scraped::Summary),
            scraped("g", Scraped::Gauge(3.0f64.to_bits())),
        ],
        &Labels::new(),
    );
    let got: Vec<(&str, f64, MetricKind)> =
        out.iter().map(|m| (m.name.as_str(), double(&m.value), m.kind)).collect();
    assert_eq!(
        got,
        [
            ("c", 1.0, MetricKind::Counter),
            ("u", 2.0, MetricKind::Gauge),
            ("g", 3.0, MetricKind::Gauge)
        ]
    );
    assert_eq!(out[0].labels.get("a").unwrap(), "1");
    assert_eq!(out[0].timestamp_ms, 5);
}

#[test]
fn scrapes_every_thirty_seconds_by_default() {
    let mut cfg = PromScrapeConfig {
        name: "node".into(),
        url: "http://localhost:9100/metrics".into(),
        interval: "often".into(),
        extra_labels: Labels::new(),
    };
    assert_eq!(PromScrapeSource::new(cfg.clone()).interval_secs(), 30);
    cfg.interval = "1m".into();
    assert_eq!(PromScrapeSource::new(cfg).interval_secs(), 60);
}
