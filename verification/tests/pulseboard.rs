use pulseagent::config::PulseBoardTargetConfig;
use pulseagent::enrollment::AgentCredentials;
use pulseagent::json::parse;
use pulseagent::payload::Payload;
use pulseagent::signal::LogEntry;
use pulseagent::signal::MetricKind;
use pulseagent::signal::MetricSample;
use pulseagent::signal::Reading;
use pulseagent::signal::Signal;
use pulseagent::sources::otlp_receiver::parse_otlp_metrics_at;
use pulseagent::strmap::Labels;
use pulseagent::targets::pulseboard::build_loki_push;
use pulseagent::targets::pulseboard::build_otlp_metrics;
use pulseagent::targets::pulseboard::split;
use pulseagent::targets::pulseboard::times_fit;
use pulseagent::targets::pulseboard::AgentIdentity;
use pulseagent::targets::pulseboard::PulseBoardTarget;
use serde_json::Value;

fn double(r: &Reading) -> f64 {
    match r {
        Reading::Bits(b) => f64::from_bits(*b),
        Reading::Count(n) => *n as f64,
        other => panic!("{other:?}"),
    }
}

fn to_json(p: &Payload) -> Value {
    match p {
        Payload::Text(t) => Value::from(t.as_str()),
        Payload::Bool(b) => Value::from(*b),
        Payload::Integer(n) => Value::from(*n),
        Payload::Number(r) => Value::from(double(r)),
        Payload::List(v) => Value::Array(v.iter().map(to_json).collect()),
        Payload::Record(f) => {
            Value::Object(f.iter().map(|(k, v)| (k.clone(), to_json(v))).collect())
        }
    }
}

fn labels(pairs: &[(&str, &str)]) -> Labels {
    let mut m = Labels::new();
    for (k, v) in pairs {
        m.insert(k.to_string(), v.to_string());
    }
    m
}

fn metric(name: &str, pairs: &[(&str, &str)], value: f64, kind: MetricKind) -> MetricSample {
    MetricSample {
        name: name.into(),
        labels: labels(pairs),
        value: Reading::Bits(value.to_bits()),
        timestamp_ms: 1_700_000_000_000,
        kind,
    }
}

fn log(line: &str, pairs: &[(&str, &str)], ns: i64) -> LogEntry {
    LogEntry {
        labels: labels(pairs),
        line: line.into(),
        timestamp_ns: ns,
    }
}

fn identity() -> AgentIdentity {
    AgentIdentity {
        version: "1.2.3".into(),
        hostname: "web-01".into(),
        agent_id: "agent-1".into(),
    }
}

fn creds() -> AgentCredentials {
    AgentCredentials {
        agent_id: "agent-1".into(),
        api_key: "key".into(),
        base_url: "https://acme.example/".into(),
        tenant_id: String::new(),
        hmac_key_b64: String::new(),
    }
}

#[test]
fn metrics_are_grouped_by_name() {
    let body = to_json(&build_otlp_metrics(
        &vec![
            metric("reqs", &[("code", "200")], 5.0, MetricKind::Counter),
            metric("temp", &[], 36.5, MetricKind::Gauge),
            metric("reqs", &[("code", "500")], 1.0, MetricKind::Counter),
        ],
        &identity(),
    ));
    let resource = &body["resourceMetrics"][0];
    let attributes = resource["resource"]["attributes"].as_array().unwrap();
    let find = |key: &str| {
        attributes
            .iter()
            .find(|a| a["key"] == key)
            .and_then(|a| a["value"]["stringValue"].as_str())
    };
    assert_eq!(find("service.name"), Some("pulseagent"));
    assert_eq!(find("agent.version"), Some("1.2.3"));
    assert_eq!(find("host.name"), Some("web-01"));
    assert_eq!(find("agent.id"), Some("agent-1"));
    let scope = &resource["scopeMetrics"][0];
    assert_eq!(scope["scope"]["name"], "pulseagent");
    assert_eq!(scope["scope"]["version"], "1.2.3");
    let metrics = scope["metrics"].as_array().unwrap();
    assert_eq!(metrics.len(), 2);
    let reqs = metrics.iter().find(|m| m["name"] == "reqs").unwrap();
    assert_eq!(reqs["sum"]["aggregationTemporality"], 2);
    assert_eq!(reqs["sum"]["isMonotonic"], true);
    let points = reqs["sum"]["dataPoints"].as_array().unwrap();
    assert_eq!(points.len(), 2);
    assert_eq!(points[0]["asDouble"], 5.0);
    assert_eq!(points[0]["timeUnixNano"], "1700000000000000000");
    assert_eq!(points[0]["attributes"][0]["key"], "code");
    assert_eq!(points[0]["attributes"][0]["value"]["stringValue"], "200");
    assert_eq!(points[1]["attributes"][0]["value"]["stringValue"], "500");
    let temp = metrics.iter().find(|m| m["name"] == "temp").unwrap();
    assert_eq!(temp["gauge"]["dataPoints"][0]["asDouble"], 36.5);
}

#[test]
fn logs_are_grouped_by_their_labels() {
    let body = to_json(&build_loki_push(&vec![
        log("one", &[("a", "1"), ("b", "2")], 10),
        log("two", &[("a", "2")], 11),
        log("three", &[("b", "2"), ("a", "1")], 12),
    ]));
    let streams = body["streams"].as_array().unwrap();
    assert_eq!(streams.len(), 2);
    let first = streams.iter().find(|s| s["stream"]["a"] == "1").unwrap();
    assert_eq!(first["stream"]["b"], "2");
    assert_eq!(first["values"].as_array().unwrap().len(), 2);
    assert_eq!(first["values"][0][0], "10");
    assert_eq!(first["values"][0][1], "one");
    assert_eq!(first["values"][1][1], "three");
    let second = streams.iter().find(|s| s["stream"]["a"] == "2").unwrap();
    assert_eq!(second["values"][0][1], "two");
}

#[test]
fn metrics_of_one_name_are_grouped_by_kind() {
    let body = to_json(&build_otlp_metrics(
        &vec![
            metric("m", &[], 1.0, MetricKind::Gauge),
            metric("m", &[], 2.0, MetricKind::Counter),
            metric("m", &[], 3.0, MetricKind::Gauge),
        ],
        &identity(),
    ));
    let metrics = body["resourceMetrics"][0]["scopeMetrics"][0]["metrics"].as_array().unwrap();
    assert_eq!(metrics.len(), 2);
    assert_eq!(metrics[0]["gauge"]["dataPoints"].as_array().unwrap().len(), 2);
    assert_eq!(metrics[1]["name"], "m");
    assert_eq!(metrics[1]["sum"]["dataPoints"][0]["asDouble"], 2.0);
}

#[test]
fn shipped_samples_are_read_back() {
    let mut late = metric("b", &[("host.name", "own"), ("x", "1")], -2.5, MetricKind::Gauge);
    late.timestamp_ms = -7;
    let body = to_json(&build_otlp_metrics(
        &vec![
            metric("a", &[("code", "200")], 5.0, MetricKind::Counter),
            late,
            metric("a", &[], 0.25, MetricKind::Counter),
            metric("a", &[], 1.0, MetricKind::Gauge),
        ],
        &identity(),
    ));
    let read = parse_otlp_metrics_at(&parse(&body.to_string()).unwrap(), 0);
    let seen: Vec<(&str, f64, MetricKind, i64)> = read
        .iter()
        .map(|m| (m.name.as_str(), double(&m.value), m.kind, m.timestamp_ms))
        .collect();
    let t = 1_700_000_000_000;
    assert_eq!(
        seen,
        [
            ("a", 5.0, MetricKind::Counter, t),
            ("a", 0.25, MetricKind::Counter, t),
            ("b", -2.5, MetricKind::Gauge, -7),
            ("a", 1.0, MetricKind::Gauge, t),
        ]
    );
    assert_eq!(read[0].labels.get("code").unwrap(), "200");
    assert_eq!(read[0].labels.get("host.name").unwrap(), "web-01");
    assert_eq!(read[0].labels.len(), 6);
    // a sample's own label counts over the agent's
    assert_eq!(read[2].labels.get("host.name").unwrap(), "own");
    assert_eq!(read[2].labels.get("x").unwrap(), "1");
}

#[test]
fn streams_go_by_labels_and_not_by_their_text() {
    let body = to_json(&build_loki_push(&vec![
        log("x", &[("a", "1,b=2")], 1),
        log("y", &[("a", "1"), ("b", "2")], 2),
        log("z", &[("a", "1,b=2")], 3),
    ]));
    let streams = body["streams"].as_array().unwrap();
    assert_eq!(streams.len(), 2);
    assert_eq!(streams[0]["stream"]["a"], "1,b=2");
    assert_eq!(streams[0]["values"].as_array().unwrap().len(), 2);
    assert_eq!(streams[0]["values"][1][1], "z");
    assert_eq!(streams[1]["stream"]["b"], "2");
    assert_eq!(streams[1]["values"][0][1], "y");
}

#[test]
fn a_batch_is_metrics_and_logs() {
    let (metrics, logs) = split(vec![
        Signal::Metric(metric("m", &[], 1.0, MetricKind::Gauge)),
        Signal::Log(log("x", &[], 1)),
        Signal::Metric(metric("n", &[], 1.0, MetricKind::Gauge)),
    ]);
    assert_eq!(metrics.len(), 2);
    assert_eq!(metrics[1].name, "n");
    assert_eq!(logs.len(), 1);
}

fn batch() -> Vec<Signal> {
    vec![
        Signal::Metric(metric("m", &[], 1.0, MetricKind::Gauge)),
        Signal::Log(log("x", &[], 1)),
    ]
}

#[test]
fn a_flush_posts_each_kind() {
    let t = PulseBoardTarget::new(creds(), None);
    assert!(t.can_flush(&batch()));
    let posts = t.flush(batch(), "1.2.3", "web-01");
    assert_eq!(posts.len(), 2);
    assert_eq!(posts[0].url, "https://acme.example/v1/metrics");
    assert_eq!(posts[0].bearer.as_deref(), Some("key"));
    assert_eq!(posts[1].url, "https://acme.example/loki/api/v1/push");
    assert!(t.flush(vec![], "1.2.3", "web-01").is_empty());
    let logs_only = t.flush(vec![Signal::Log(log("x", &[], 1))], "1.2.3", "web-01");
    assert_eq!(logs_only.len(), 1);
    assert_eq!(logs_only[0].url, "https://acme.example/loki/api/v1/push");
}

#[test]
fn each_kind_can_be_switched_off() {
    let cfg = |otlp_metrics: bool, loki_logs: bool| {
        Some(PulseBoardTargetConfig {
            url: None,
            api_key: None,
            otlp_metrics,
            loki_logs,
        })
    };
    let no_logs = PulseBoardTarget::new(creds(), cfg(true, false)).flush(batch(), "1", "h");
    assert_eq!(no_logs.len(), 1);
    assert!(no_logs[0].url.ends_with("/v1/metrics"));
    let no_metrics = PulseBoardTarget::new(creds(), cfg(false, true)).flush(batch(), "1", "h");
    assert_eq!(no_metrics.len(), 1);
    assert!(no_metrics[0].url.ends_with("/push"));
}

#[test]
fn times_that_do_not_fit_are_noticed() {
    let mut m = metric("m", &[], 1.0, MetricKind::Gauge);
    assert!(times_fit(&vec![m.clone()]));
    m.timestamp_ms = i64::MAX / 1_000;
    assert!(!times_fit(&vec![m]));
}
