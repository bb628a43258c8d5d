use pulseagent::config::built_in;
use pulseagent::config::CardinalityGuardConfig;
use pulseagent::config::Config;
use pulseagent::config::PromScrapeConfig;
use pulseagent::config::PulseBoardTargetConfig;
use pulseagent::config::RedactPiiRule;
use pulseagent::config::RelabelAction;
use pulseagent::config::RelabelRule;
use pulseagent::config::SourcesConfig;
use pulseagent::config::TransformOp;
use pulseagent::lint::lint;
use pulseagent::lint::lint_regex_result;
use pulseagent::lint::looks_high_cardinality;
use pulseagent::strmap::Labels;

// what an empty configuration file stands for
fn base() -> Config {
    let mut cfg = built_in();
    cfg.sources = SourcesConfig::default();
    cfg
}

fn quiet() -> Config {
    let mut cfg = built_in();
    cfg.targets.pulseboard = Some(PulseBoardTargetConfig {
        url: None,
        api_key: None,
        otlp_metrics: true,
        loki_logs: true,
    });
    cfg
}

#[test]
fn warns_when_no_source_and_no_target() {
    let findings = lint(&base());
    assert!(findings.iter().any(|f| f.component == "sources"));
    assert!(findings.iter().any(|f| f.component == "targets.pulseboard"));
}

#[test]
fn flags_invalid_relabel_regex() {
    let mut cfg = base();
    cfg.processors.relabel.push(RelabelRule {
        source_labels: vec!["__name__".into()],
        separator: None,
        target_label: None,
        regex: Some("(".into()),
        replacement: None,
        action: RelabelAction::Keep,
    });
    let findings = lint(&cfg);
    assert!(findings
        .iter()
        .any(|f| f.severity == "error" && f.component == "processors.relabel[0]"));
}

#[test]
fn warns_on_metric_source_without_guard() {
    let mut cfg = base();
    cfg.sources = SourcesConfig {
        prom_scrape: vec![PromScrapeConfig {
            name: "x".into(),
            url: "http://localhost/metrics".into(),
            interval: "30s".into(),
            extra_labels: Labels::new(),
        }],
        ..Default::default()
    };
    let findings = lint(&cfg);
    assert!(findings
        .iter()
        .any(|f| f.component == "processors.cardinality_guard"));
    cfg.processors.cardinality_guard = Some(CardinalityGuardConfig {
        max_series_per_metric: 10,
    });
    assert!(!lint(&cfg)
        .iter()
        .any(|f| f.component == "processors.cardinality_guard"));
}

#[test]
fn says_so_when_there_is_nothing_to_say() {
    let findings = lint(&quiet());
    assert_eq!(findings.len(), 1);
    assert_eq!(findings[0].severity, "info");
    assert_eq!(findings[0].component, "config");
    assert_eq!(findings[0].message, "No issues found.");
}

#[test]
fn warns_on_labels_of_high_cardinality() {
    assert!(looks_high_cardinality("User_ID"));
    assert!(looks_high_cardinality("path"));
    assert!(!looks_high_cardinality("region"));
    let mut cfg = quiet();
    cfg.processors.transform.push(TransformOp::SetLabel {
        label: "region".into(),
        value: "x".into(),
    });
    cfg.processors.transform.push(TransformOp::SetLabel {
        label: "email".into(),
        value: "x".into(),
    });
    cfg.processors.relabel.push(RelabelRule {
        source_labels: vec![],
        separator: None,
        target_label: Some("url".into()),
        regex: None,
        replacement: None,
        action: RelabelAction::Replace,
    });
    let findings = lint(&cfg);
    assert_eq!(findings.len(), 2);
    assert_eq!(findings[0].component, "processors.relabel[0]");
    assert_eq!(
        findings[0].message,
        "relabel writes label \"url\", which often has very high cardinality. This may explode series counts."
    );
    assert_eq!(findings[1].component, "processors.transform[1]");
    assert_eq!(
        findings[1].message,
        "transform sets label \"email\", which often has very high cardinality. This may explode series counts."
    );
}

#[test]
fn flags_invalid_redaction() {
    let mut cfg = quiet();
    cfg.processors.redact_pii.push(RedactPiiRule {
        field: "line".into(),
        pattern: "[".into(),
        replacement: None,
    });
    let findings = lint(&cfg);
    assert_eq!(findings.len(), 1);
    assert_eq!(findings[0].severity, "error");
    assert_eq!(findings[0].component, "processors.redact_pii[0]");
    let expected = format!("invalid regex \"[\": {}", regex::Regex::new("[").unwrap_err());
    assert_eq!(findings[0].message, expected);
}

#[test]
fn a_compile_error_is_quoted() {
    let mut out = vec![];
    lint_regex_result(&mut out, "c", "a\"b", Some("why".into()));
    lint_regex_result(&mut out, "c", "ok", None);
    assert_eq!(out.len(), 1);
    assert_eq!(out[0].message, "invalid regex \"a\\\"b\": why");
}
