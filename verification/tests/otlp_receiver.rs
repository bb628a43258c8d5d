use pulseagent::json::parse;
use pulseagent::json::Json;
use pulseagent::signal::MetricKind;
use pulseagent::signal::Reading;
use pulseagent::sources::otlp_receiver::data_point_ts_ms;
use pulseagent::sources::otlp_receiver::data_point_value;
use pulseagent::sources::otlp_receiver::otlp_any_value;
use pulseagent::sources::otlp_receiver::parse_otlp_logs;
use pulseagent::sources::otlp_receiver::parse_otlp_logs_at;
use pulseagent::sources::otlp_receiver::parse_otlp_metrics;
use pulseagent::sources::otlp_receiver::parse_otlp_metrics_at;

fn json(text: &str) -> Json {
    parse(text).unwrap()
}

fn double(r: &Reading) -> f64 {
    match r {
        Reading::Bits(b) => f64::from_bits(*b),
        Reading::Count(n) => *n as f64,
        Reading::Ratio { units, per } => *units as f64 / *per as f64,
        Reading::Gap { of, less } => *of as f64 - *less as f64,
        Reading::Scaled { literal, times, per } => {
            literal.parse::<f64>().unwrap() * *times as f64 / *per as f64
        }
    }
}

#[test]
fn parses_gauge_and_sum() {
    let body = json(
        r#"{
        "resourceMetrics": [{
            "resource": { "attributes": [
                { "key": "service.name", "value": { "stringValue": "checkout" } }
            ]},
            "scopeMetrics": [{
                "metrics": [
                    { "name": "cpu", "gauge": { "dataPoints": [
                        { "asDouble": 0.5, "timeUnixNano": "1700000000000000000",
                          "attributes": [{ "key": "core", "value": { "stringValue": "0" } }] }
                    ]}},
                    { "name": "reqs", "sum": { "dataPoints": [
                        { "asInt": "42", "timeUnixNano": "1700000000000000000" }
                    ]}}
                ]
            }]
        }]
    }"#,
    );
    let samples = parse_otlp_metrics(&body);
    assert_eq!(samples.len(), 2);
    let cpu = samples.iter().find(|s| s.name == "cpu").unwrap();
    assert_eq!(double(&cpu.value), 0.5);
    assert_eq!(cpu.kind, MetricKind::Gauge);
    assert_eq!(cpu.labels.get("service.name").unwrap(), "checkout");
    assert_eq!(cpu.labels.get("core").unwrap(), "0");
    assert_eq!(cpu.timestamp_ms, 1_700_000_000_000);
    let reqs = samples.iter().find(|s| s.name == "reqs").unwrap();
    assert_eq!(double(&reqs.value), 42.0);
    assert_eq!(reqs.kind, MetricKind::Counter);
}

#[test]
fn parses_logs() {
    let body = json(
        r#"{
        "resourceLogs": [{
            "resource": { "attributes": [
                { "key": "service.name", "value": { "stringValue": "api" } }
            ]},
            "scopeLogs": [{
                "logRecords": [
                    { "body": { "stringValue": "boom" }, "severityText": "ERROR",
                      "timeUnixNano": "1700000000000000000" }
                ]
            }]
        }]
    }"#,
    );
    let logs = parse_otlp_logs(&body);
    assert_eq!(logs.len(), 1);
    assert_eq!(logs[0].line, "boom");
    assert_eq!(logs[0].labels.get("level").unwrap(), "error");
    assert_eq!(logs[0].labels.get("service.name").unwrap(), "api");
    assert_eq!(logs[0].timestamp_ns, 1_700_000_000_000_000_000);
}

#[test]
fn empty_payload_is_empty() {
    assert!(parse_otlp_metrics(&json("{}")).is_empty());
    assert!(parse_otlp_logs(&json("{}")).is_empty());
}

#[test]
fn point_attributes_count_over_resource_attributes() {
    let body = json(
        r#"{"resourceMetrics":[{"resource":{"attributes":[
            {"key":"zone","value":{"stringValue":"a"}}]},
            "scopeMetrics":[{"metrics":[{"name":"m","gauge":{"dataPoints":[
            {"asDouble":1,"attributes":[{"key":"zone","value":{"stringValue":"b"}}]}]}}]}]}]}"#,
    );
    let samples = parse_otlp_metrics_at(&body, 77);
    assert_eq!(samples.len(), 1);
    assert_eq!(samples[0].labels.get("zone").unwrap(), "b");
    // a point without a time gets the time of receipt
    assert_eq!(samples[0].timestamp_ms, 77);
}

#[test]
fn values_are_read_in_each_form() {
    assert_eq!(otlp_any_value(&json(r#"{"stringValue":"s"}"#)).as_deref(), Some("s"));
    assert_eq!(otlp_any_value(&json(r#"{"boolValue":true}"#)).as_deref(), Some("true"));
    assert_eq!(otlp_any_value(&json(r#"{"intValue":"12"}"#)).as_deref(), Some("12"));
    assert_eq!(otlp_any_value(&json(r#"{"doubleValue":1.5}"#)).as_deref(), Some("1.5"));
    assert_eq!(otlp_any_value(&json("{}")), None);
    assert_eq!(data_point_value(&json(r#"{"asInt":7}"#)).map(|r| double(&r)), Some(7.0));
    assert_eq!(data_point_value(&json(r#"{"asDouble":-2.25}"#)).map(|r| double(&r)), Some(-2.25));
    assert!(data_point_value(&json("{}")).is_none());
    assert_eq!(data_point_ts_ms(&json(r#"{"timeUnixNano":"2500000"}"#), 9), 2);
    assert_eq!(data_point_ts_ms(&json("{}"), 9), 9);
}

#[test]
fn logs_without_a_time_get_the_time_of_receipt() {
    let body = json(
        r#"{"resourceLogs":[{"scopeLogs":[{"logRecords":[{"body":{"stringValue":"x"}}]}]}]}"#,
    );
    let logs = parse_otlp_logs_at(&body, 5);
    assert_eq!(logs.len(), 1);
    assert_eq!(logs[0].timestamp_ns, 5);
}
