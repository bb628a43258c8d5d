use pulseagent::config::built_in;
use pulseagent::config::CardinalityGuardConfig;
use pulseagent::config::Config;
use pulseagent::config::FileLogsConfig;
use pulseagent::config::JournaldConfig;
use pulseagent::config::RedactPiiRule;
use pulseagent::config::RelabelAction;
use pulseagent::config::RelabelRule;
use pulseagent::config::TransformOp;
use pulseagent::pipeline::build_topology;
use pulseagent::pipeline::delivery;
use pulseagent::pipeline::source_nodes;
use pulseagent::pipeline::target_node;
use pulseagent::pipeline::Delivery;
use pulseagent::pipeline::Pipeline;
use pulseagent::signal::LogEntry;
use pulseagent::signal::MetricKind;
use pulseagent::signal::MetricSample;
use pulseagent::signal::Reading;
use pulseagent::signal::Signal;
use pulseagent::strmap::Labels;
use pulseagent::web::Inspector;

fn metric(name: &str, env: &str) -> Signal {
    let mut labels = Labels::new();
    labels.insert("env".into(), env.into());
    Signal::Metric(MetricSample {
        name: name.into(),
        labels,
        value: Reading::Count(1),
        timestamp_ms: 5,
        kind: MetricKind::Gauge,
    })
}

fn log(line: &str) -> Signal {
    let mut labels = Labels::new();
    labels.insert("env".into(), "prod".into());
    Signal::Log(LogEntry {
        labels,
        line: line.into(),
        timestamp_ns: 7,
    })
}

fn full() -> Config {
    let mut cfg = built_in();
    cfg.processors.batch.max_size = 2;
    cfg.processors.relabel.push(RelabelRule {
        source_labels: vec!["env".into()],
        separator: None,
        target_label: None,
        regex: Some("^dev$".into()),
        replacement: None,
        action: RelabelAction::Drop,
    });
    cfg.processors.transform.push(TransformOp::SetLabel {
        label: "team".into(),
        value: "ops-${label.env}".into(),
    });
    cfg.processors.cardinality_guard = Some(CardinalityGuardConfig {
        max_series_per_metric: 1,
    });
    cfg.processors.redact_pii.push(RedactPiiRule {
        field: "line".into(),
        pattern: "secret".into(),
        replacement: None,
    });
    cfg
}

#[test]
fn signals_pass_every_stage() {
    let cfg = full();
    let mut p = Pipeline::new(&cfg);
    let mut i = Inspector::new();
    assert!(p.is_ready(&i));
    assert!(p.process_at(log("a secret"), &mut i, 0).is_none());
    let batch = p.process_at(metric("m", "prod"), &mut i, 0).unwrap();
    assert_eq!(batch.len(), 2);
    match &batch[0] {
        Signal::Log(l) => {
            assert_eq!(l.line, "a [[pii:line]]");
            assert_eq!(l.labels.get("team").unwrap(), "ops-prod");
        }
        other => panic!("{other:?}"),
    }
    let stages = i.get_pipeline().stages;
    assert_eq!(stages.get("relabel").unwrap().passed, 2);
    assert_eq!(stages.get("transform").unwrap().passed, 2);
    // logs do not pass the guard
    assert_eq!(stages.get("cardinality_guard").unwrap().passed, 1);
    assert_eq!(stages.get("redact_pii").unwrap().passed, 2);
    assert_eq!(stages.get("batch").unwrap().passed, 2);
    p.record_shipped(2);
    let tally = p.tally();
    assert_eq!((tally.signals_in, tally.signals_out, tally.signals_drop), (2, 2, 0));
    // the inspector saw what was shipped
    assert_eq!(i.get_events()[1].name, "a [[pii:line]]");
}

#[test]
fn drops_say_where_and_why() {
    let cfg = full();
    let mut p = Pipeline::new(&cfg);
    let mut i = Inspector::new();
    assert!(p.process_at(metric("m", "dev"), &mut i, 0).is_none());
    assert!(p.process_at(metric("m", "prod"), &mut i, 0).is_none());
    assert!(p.process_at(metric("m", "stage"), &mut i, 0).is_none());
    let drops = i.get_drops(None);
    assert_eq!(drops.len(), 2);
    assert_eq!(drops[0].stage, "cardinality_guard");
    assert!(drops[0]
        .reason
        .starts_with("metric m exceeded the configured series budget (1 max)"));
    assert_eq!(drops[1].stage, "relabel");
    let tally = p.tally();
    assert_eq!((tally.signals_in, tally.signals_drop), (3, 2));
    assert_eq!(p.drain().unwrap().len(), 1);
    assert!(p.drain().is_none());
}

#[test]
fn a_bare_pipeline_passes_everything() {
    let mut cfg = built_in();
    cfg.processors.batch.max_size = 1;
    let mut p = Pipeline::new(&cfg);
    let mut i = Inspector::new();
    let batch = p.process(metric("m", "dev"), &mut i).unwrap();
    assert_eq!(batch.len(), 1);
    assert!(i.get_drops(None).is_empty());
}

#[test]
fn the_topology_lists_what_is_enabled() {
    let mut cfg = full();
    cfg.sources.file_logs.push(FileLogsConfig {
        name: "app".into(),
        paths: vec!["/x".into()],
        multiline_start: None,
        extra_labels: Labels::new(),
    });
    cfg.sources.journald = Some(JournaldConfig::default());
    let t = Pipeline::new(&cfg).topology(&cfg);
    let ids: Vec<&str> = t.nodes.iter().map(|n| n.id.as_str()).collect();
    assert_eq!(
        ids,
        [
            "source:host_metrics",
            "source:app",
            "source:journald",
            "relabel",
            "transform",
            "cardinality_guard",
            "redact_pii",
            "batch",
            "target:pulseboard"
        ]
    );
    let edges: Vec<(&str, &str)> =
        t.edges.iter().map(|e| (e.from.as_str(), e.to.as_str())).collect();
    assert_eq!(
        edges,
        [
            ("source:host_metrics", "relabel"),
            ("source:app", "relabel"),
            ("source:journald", "relabel"),
            ("relabel", "transform"),
            ("transform", "cardinality_guard"),
            ("cardinality_guard", "redact_pii"),
            ("redact_pii", "batch"),
            ("batch", "target:pulseboard")
        ]
    );
    assert_eq!(t.nodes[1].label, "file_logs · app");
}

#[test]
fn without_processors_sources_lead_to_the_batcher() {
    let cfg = built_in();
    let t = build_topology(&source_nodes(&cfg), false, false, false, false, target_node());
    assert_eq!(t.nodes.len(), 3);
    assert_eq!(t.edges.len(), 2);
    assert_eq!(t.edges[0].to, "batch");
    assert_eq!(t.edges[1].to, "target:pulseboard");
}

#[test]
fn batches_are_shipped_where_there_is_a_target() {
    assert_eq!(delivery(true, "https://acme.example"), Delivery::Print);
    assert_eq!(delivery(false, "https://acme.example"), Delivery::Ship);
    assert_eq!(delivery(false, ""), Delivery::Discard);
}
