use pulseagent::lint::LintFinding;
use pulseagent::signal::LogEntry;
use pulseagent::signal::MetricKind;
use pulseagent::signal::MetricSample;
use pulseagent::signal::Reading;
use pulseagent::signal::Signal;
use pulseagent::strmap::Labels;
use pulseagent::web::drop_filter;
use pulseagent::web::Inspector;
use pulseagent::web::TopoNode;
use pulseagent::web::Topology;

fn metric(name: &str, label: &str) -> Signal {
    let mut labels = Labels::new();
    labels.insert("l".into(), label.into());
    Signal::Metric(MetricSample {
        name: name.into(),
        labels,
        value: Reading::Count(3),
        timestamp_ms: 5,
        kind: MetricKind::Gauge,
    })
}

fn log(line: &str) -> Signal {
    Signal::Log(LogEntry {
        labels: Labels::new(),
        line: line.into(),
        timestamp_ns: 7_999_999,
    })
}

#[test]
fn the_newest_event_is_shown_first() {
    let mut i = Inspector::new();
    i.record_signal(&metric("a", "1"));
    i.record_signal(&log(&"x".repeat(100)));
    let events = i.get_events();
    assert_eq!(events.len(), 2);
    assert_eq!(events[0].kind, "log");
    assert_eq!(events[0].name, "x".repeat(80));
    assert_eq!(events[0].ts_ms, 7);
    assert!(events[0].value.is_none());
    assert_eq!(events[1].kind, "metric");
    assert_eq!(events[1].name, "a");
    assert!(matches!(events[1].value, Some(Reading::Count(3))));
}

#[test]
fn only_the_last_events_are_kept() {
    let mut i = Inspector::new();
    for n in 0..600 {
        i.record_signal(&log(&n.to_string()));
    }
    let events = i.get_events();
    assert_eq!(events.len(), 200);
    assert_eq!(events[0].name, "599");
    assert_eq!(events[199].name, "400");
}

#[test]
fn sources_are_counted_by_kind() {
    let mut i = Inspector::new();
    assert!(i.can_count(4));
    i.record_source("s", "metric");
    i.record_source("s", "metric");
    i.record_source("s", "log");
    i.record_source("t", "trace");
    let stats = i.get_source_stats();
    let s = stats.get("s").unwrap();
    assert_eq!((s.metrics, s.logs, s.traces), (2, 1, 0));
    assert_eq!(stats.get("t").unwrap().traces, 1);
}

#[test]
fn drops_are_explained() {
    let mut i = Inspector::new();
    i.record_stage_pass("relabel");
    i.record_drop(&metric("cpu_usage", "1"), "relabel", "because");
    i.record_drop(&log("a line"), "relabel", "why not");
    let drops = i.get_drops(None);
    assert_eq!(drops.len(), 2);
    assert_eq!(drops[0].name, "a line");
    assert_eq!(drops[0].kind, "log");
    assert_eq!(drops[1].reason, "because");
    assert_eq!(drops[1].stage, "relabel");
    let found = i.get_drops(Some("cpu"));
    assert_eq!(found.len(), 1);
    assert_eq!(found[0].name, "cpu_usage");
    let stages = i.get_pipeline().stages;
    let stat = stages.get("relabel").unwrap();
    assert_eq!((stat.passed, stat.dropped), (1, 2));
}

#[test]
fn only_the_last_drops_are_kept() {
    let mut i = Inspector::new();
    for n in 0..400 {
        i.record_drop(&log(&format!("line {n}")), "s", "r");
    }
    let drops = i.get_drops(None);
    assert_eq!(drops.len(), 100);
    assert_eq!(drops[0].name, "line 399");
    // the 300 newest are searched
    assert_eq!(i.get_drops(Some("line 100")).len(), 1);
    assert!(i.get_drops(Some("line 99")).is_empty());
}

#[test]
fn an_empty_filter_is_no_filter() {
    assert_eq!(drop_filter(None), None);
    assert_eq!(drop_filter(Some(String::new())), None);
    assert_eq!(drop_filter(Some("x".into())).as_deref(), Some("x"));
}

#[test]
fn cardinality_hotspots_join_the_findings() {
    let mut i = Inspector::new();
    i.set_lint(vec![LintFinding {
        severity: "info".into(),
        component: "config".into(),
        message: "No issues found.".into(),
    }]);
    for n in 0..199 {
        i.record_signal(&metric("hot", &n.to_string()));
    }
    i.record_signal(&metric("hot", "0"));
    assert_eq!(i.get_lint().len(), 1);
    i.record_signal(&metric("hot", "199"));
    let findings = i.get_lint();
    assert_eq!(findings.len(), 2);
    assert_eq!(findings[1].severity, "warning");
    assert_eq!(findings[1].component, "metric:hot");
    assert!(findings[1].message.starts_with("Observed 200 distinct series for hot"));
}

#[test]
fn the_topology_is_shown() {
    let mut i = Inspector::new();
    i.set_topology(Topology {
        nodes: vec![TopoNode {
            id: "batch".into(),
            kind: "processor".into(),
            label: "batch".into(),
        }],
        edges: vec![],
    });
    let view = i.get_pipeline();
    assert_eq!(view.nodes.len(), 1);
    assert_eq!(view.nodes[0].id, "batch");
    assert!(view.edges.is_empty());
}
