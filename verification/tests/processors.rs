use pulseagent::config::RedactPiiRule;
use pulseagent::config::RelabelAction;
use pulseagent::config::RelabelRule;
use pulseagent::fingerprint::fingerprint;
use pulseagent::fingerprint::sorted;
use pulseagent::processors::batch::hold_time;
use pulseagent::processors::batch::BatchProcessor;
use pulseagent::processors::cardinality_guard::CardinalityGuard;
use pulseagent::processors::cardinality_guard::Verdict;
use pulseagent::processors::redact_pii::PiiRedactor;
use pulseagent::processors::relabel::apply_rule;
use pulseagent::processors::relabel::compile_rule;
use pulseagent::processors::relabel::expand_whole;
use pulseagent::processors::relabel::join_source_labels;
use pulseagent::processors::relabel::passes;
use pulseagent::processors::relabel::Relabeler;
use pulseagent::signal::LogEntry;
use pulseagent::signal::MetricKind;
use pulseagent::signal::MetricSample;
use pulseagent::signal::Reading;
use pulseagent::signal::Signal;
use pulseagent::strmap::Labels;

fn labels(pairs: &[(&str, &str)]) -> Labels {
    let mut m = Labels::new();
    for (k, v) in pairs {
        m.insert(k.to_string(), v.to_string());
    }
    m
}

fn sample(name: &str, pairs: &[(&str, &str)]) -> Signal {
    Signal::Metric(MetricSample {
        name: name.into(),
        labels: labels(pairs),
        value: Reading::Count(1),
        timestamp_ms: 5,
        kind: MetricKind::Gauge,
    })
}

fn log(line: &str, pairs: &[(&str, &str)]) -> Signal {
    Signal::Log(LogEntry {
        labels: labels(pairs),
        line: line.into(),
        timestamp_ns: 7,
    })
}

fn as_metric(s: Signal) -> MetricSample {
    match s {
        Signal::Metric(m) => m,
        Signal::Log(_) => panic!("a log"),
    }
}

fn as_log(s: Signal) -> LogEntry {
    match s {
        Signal::Log(l) => l,
        Signal::Metric(_) => panic!("a metric"),
    }
}

fn rule(sources: &[&str], regex: Option<&str>, action: RelabelAction) -> RelabelRule {
    RelabelRule {
        source_labels: sources.iter().map(|s| s.to_string()).collect(),
        separator: None,
        target_label: None,
        regex: regex.map(str::to_string),
        replacement: None,
        action,
    }
}

#[test]
fn keep_and_drop_look_at_the_joined_labels() {
    let keep = Relabeler::new(&[rule(&["a", "b"], Some("^x;y$"), RelabelAction::Keep)]);
    assert!(keep.apply(sample("m", &[("a", "x"), ("b", "y")])).is_some());
    assert!(keep.apply(sample("m", &[("a", "x")])).is_none());
    let drop = Relabeler::new(&[rule(&["a"], Some("x"), RelabelAction::Drop)]);
    assert!(drop.apply(sample("m", &[("a", "x")])).is_none());
    assert!(drop.apply(sample("m", &[("a", "y")])).is_some());
    // an expression matches a value only as a whole
    assert!(drop.apply(sample("m", &[("a", "axa")])).is_some());
    let either = Relabeler::new(&[rule(&["a"], Some("x|y"), RelabelAction::Drop)]);
    assert!(either.apply(sample("m", &[("a", "xz")])).is_some());
    assert!(either.apply(sample("m", &[("a", "y")])).is_none());
    // one that does not compile counts as none, whatever stands around it
    let broken = Relabeler::new(&[rule(&["a"], Some("x)(?:y"), RelabelAction::Keep)]);
    assert!(broken.apply(sample("m", &[("a", "z")])).is_some());
    // without an expression everything matches
    let all = Relabeler::new(&[rule(&["a"], None, RelabelAction::Drop)]);
    assert!(all.apply(log("x", &[])).is_none());
}

#[test]
fn a_drop_names_the_rule() {
    let r = Relabeler::new(&[
        rule(&["a"], Some("keepme"), RelabelAction::Keep),
        rule(&["b"], Some("bad"), RelabelAction::Drop),
    ]);
    let (_, reason) = r.apply_traced(sample("m", &[("a", "no")])).unwrap_err();
    assert_eq!(reason, "relabel rule 0 (keep): source labels did not match the regex");
    let (_, reason) = r
        .apply_traced(sample("m", &[("a", "keepme"), ("b", "bad")]))
        .unwrap_err();
    assert_eq!(reason, "relabel rule 1 (drop): source labels matched the regex");
}

#[test]
fn replace_writes_the_target() {
    let mut r = rule(&["path"], Some("/api/([a-z]+)/.*"), RelabelAction::Replace);
    r.target_label = Some("route".into());
    let out = as_metric(
        Relabeler::new(&[r.clone()])
            .apply(sample("m", &[("path", "/api/users/7")]))
            .unwrap(),
    );
    assert_eq!(out.labels.get("route").unwrap(), "users");
    assert_eq!(out.timestamp_ms, 5);
    // no match leaves the labels alone
    let out = as_metric(Relabeler::new(&[r.clone()]).apply(sample("m", &[("path", "/x")])).unwrap());
    assert!(!out.labels.contains_key("route"));
    // the name of the metric is a target too
    r.target_label = Some("__name__".into());
    r.replacement = Some("api_${1}_total".into());
    let out = as_metric(
        Relabeler::new(&[r.clone()])
            .apply(sample("m", &[("path", "/api/users/7")]))
            .unwrap(),
    );
    assert_eq!(out.name, "api_users_total");
    // an empty replacement removes the label
    r.target_label = Some("path".into());
    r.replacement = Some("".into());
    let out = as_metric(
        Relabeler::new(&[r])
            .apply(sample("m", &[("path", "/api/users/7")]))
            .unwrap(),
    );
    assert!(!out.labels.contains_key("path"));
}

#[test]
fn replace_without_an_expression_sets_the_target() {
    let mut r = rule(&[], None, RelabelAction::Replace);
    r.target_label = Some("env".into());
    r.replacement = Some("prod".into());
    let out = as_log(Relabeler::new(&[r]).apply(log("hi", &[])).unwrap());
    assert_eq!(out.labels.get("env").unwrap(), "prod");
    assert_eq!(out.line, "hi");
    // the default replacement is all of the input
    let mut r = rule(&["a", "b"], None, RelabelAction::Replace);
    r.target_label = Some("ab".into());
    let out = as_metric(Relabeler::new(&[r.clone()]).apply(sample("m", &[("a", "1"), ("b", "2")])).unwrap());
    assert_eq!(out.labels.get("ab").unwrap(), "1;2");
    r.replacement = Some("x-$1".into());
    r.target_label = Some("__name__".into());
    let out = as_metric(Relabeler::new(&[r]).apply(sample("m", &[("a", "1"), ("b", "2")])).unwrap());
    assert_eq!(out.name, "x-1;2");
    assert!(!out.labels.contains_key("__name__"));
}

#[test]
fn of_a_log_the_name_is_a_label() {
    let keep = Relabeler::new(&[rule(&["__name__"], Some("x"), RelabelAction::Keep)]);
    assert!(keep.apply(log("hi", &[("__name__", "x")])).is_some());
    assert!(keep.apply(log("hi", &[])).is_none());
    let mut r = rule(&["a"], None, RelabelAction::Replace);
    r.target_label = Some("__name__".into());
    let out = as_log(Relabeler::new(&[r.clone()]).apply(log("hi", &[("a", "1")])).unwrap());
    assert_eq!(out.labels.get("__name__").unwrap(), "1");
    r.regex = Some("(.).*".into());
    let out = as_log(Relabeler::new(&[r]).apply(log("hi", &[("a", "23")])).unwrap());
    assert_eq!(out.labels.get("__name__").unwrap(), "2");
}

#[test]
fn one_rule_is_applied_by_itself() {
    let mut l = labels(&[("tmp_a", "1"), ("b", "2")]);
    let mut name: Option<String> = Some("up".into());
    let drop = compile_rule(&rule(&[], Some("tmp_.*"), RelabelAction::LabelDrop));
    assert!(apply_rule(&drop, &mut l, &mut name));
    assert_eq!(l.len(), 1);
    assert_eq!(name.as_deref(), Some("up"));
    let keep = compile_rule(&rule(&["b"], Some("3"), RelabelAction::Keep));
    assert!(!apply_rule(&keep, &mut l, &mut name));
    assert_eq!(l.get("b").unwrap(), "2");
}

#[test]
fn rules_read_the_metric_name() {
    let keep = Relabeler::new(&[rule(&["__name__"], Some("up"), RelabelAction::Keep)]);
    assert!(keep.apply(sample("up", &[])).is_some());
    assert!(keep.apply(sample("down", &[("__name__", "up")])).is_none());
    let drop = Relabeler::new(&[rule(&["__name__"], Some("go_.*"), RelabelAction::Drop)]);
    assert!(drop.apply(sample("go_threads", &[])).is_none());
    assert!(drop.apply(sample("up", &[])).is_some());
}

#[test]
fn labels_are_dropped_kept_and_mapped() {
    let pairs = [("__meta_zone", "a"), ("__meta_rack", "b"), ("app", "x")];
    let out = as_metric(
        Relabeler::new(&[rule(&[], Some("__meta_.*"), RelabelAction::LabelDrop)])
            .apply(sample("m", &pairs))
            .unwrap(),
    );
    assert_eq!(out.labels.len(), 1);
    assert_eq!(out.labels.get("app").unwrap(), "x");
    let out = as_metric(
        Relabeler::new(&[rule(&[], Some("__meta_.*"), RelabelAction::LabelKeep)])
            .apply(sample("m", &pairs))
            .unwrap(),
    );
    assert_eq!(out.labels.len(), 2);
    let out = as_metric(
        Relabeler::new(&[rule(&[], Some("__meta_(.+)"), RelabelAction::LabelMap)])
            .apply(sample("m", &pairs))
            .unwrap(),
    );
    assert_eq!(out.labels.len(), 5);
    assert_eq!(out.labels.get("zone").unwrap(), "a");
    assert_eq!(out.labels.get("rack").unwrap(), "b");
}

#[test]
fn relabel_helpers() {
    let l = labels(&[("a", "1"), ("c", "3")]);
    let sources = vec!["a".to_string(), "b".to_string(), "c".to_string()];
    assert_eq!(join_source_labels(&sources, "-", &l, &Some("up".into())), "1--3");
    let sources = vec!["__name__".to_string(), "c".to_string()];
    assert_eq!(join_source_labels(&sources, "-", &l, &Some("up".into())), "up-3");
    assert_eq!(expand_whole("x", "$1"), "x");
    assert_eq!(expand_whole("x", "plain"), "plain");
    assert_eq!(expand_whole("x\ny", "<${1}>"), "<x\ny>");
    assert!(passes(RelabelAction::Keep, true));
    assert!(!passes(RelabelAction::Keep, false));
    assert!(!passes(RelabelAction::Drop, true));
    assert!(passes(RelabelAction::Drop, false));
}

fn pii(field: &str, pattern: &str, replacement: Option<&str>) -> RedactPiiRule {
    RedactPiiRule {
        field: field.into(),
        pattern: pattern.into(),
        replacement: replacement.map(str::to_string),
    }
}

#[test]
fn the_line_is_redacted() {
    let r = PiiRedactor::new(&[pii("line", r"\d{3}-\d{4}", None)]);
    let out = as_log(r.apply(log("call 555-1234 or 555-9876", &[("phone", "555-1234")])));
    assert_eq!(out.line, "call [[pii:line]] or [[pii:line]]");
    assert_eq!(out.labels.get("phone").unwrap(), "555-1234");
}

#[test]
fn a_label_is_redacted() {
    let r = PiiRedactor::new(&[pii("email", r"(\w+)@", Some("${1}_at_"))]);
    let out = as_metric(r.apply(sample("m", &[("email", "bob@x"), ("other", "amy@x")])));
    assert_eq!(out.labels.get("email").unwrap(), "bob_at_x");
    assert_eq!(out.labels.get("other").unwrap(), "amy@x");
}

#[test]
fn a_star_redacts_the_line_and_all_labels_of_a_log() {
    let r = PiiRedactor::new(&[pii("*", "secret", Some("#")), pii("line", "(", None)]);
    let out = as_log(r.apply(log("a secret", &[("x", "secrets"), ("y", "none")])));
    assert_eq!(out.line, "a #");
    assert_eq!(out.labels.get("x").unwrap(), "#s");
    assert_eq!(out.labels.get("y").unwrap(), "none");
}

#[test]
fn the_series_budget_is_kept() {
    let mut g = CardinalityGuard::new(2);
    assert_eq!(g.max_series(), 2);
    assert_eq!(g.check_and_record("m", &labels(&[("a", "1")])), Verdict::Allow);
    assert_eq!(g.check_and_record("m", &labels(&[("a", "2")])), Verdict::Allow);
    assert_eq!(g.check_and_record("m", &labels(&[("a", "3")])), Verdict::Drop);
    // known series pass, other metrics have a budget of their own
    assert_eq!(g.check_and_record("m", &labels(&[("a", "1")])), Verdict::Allow);
    assert_eq!(g.check_and_record("n", &labels(&[("a", "3")])), Verdict::Allow);
    assert_eq!(g.series_count("m"), 2);
    assert_eq!(g.series_count("n"), 1);
    assert_eq!(g.series_count("none"), 0);
}

#[test]
fn the_order_of_labels_does_not_matter() {
    let a = labels(&[("a", "1"), ("b", "2")]);
    let b = labels(&[("b", "2"), ("a", "1")]);
    assert_eq!(fingerprint(&a), fingerprint(&b));
    assert_ne!(fingerprint(&a), fingerprint(&labels(&[("a", "2"), ("b", "1")])));
    assert_ne!(fingerprint(&labels(&[("a", "bc")])), fingerprint(&labels(&[("ab", "c")])));
    assert_eq!(
        sorted(&b),
        vec![("a".to_string(), "1".to_string()), ("b".to_string(), "2".to_string())]
    );
}

#[test]
fn batches_hold_the_input_in_order() {
    let mut b = BatchProcessor::new(3, 10);
    let second: u64 = 1_000_000_000;
    assert!(b.push_at(log("1", &[]), 0).is_none());
    assert!(b.push_at(log("2", &[]), 10 * second - 1).is_none());
    let batch = b.push_at(log("3", &[]), 10 * second - 1).unwrap();
    let lines: Vec<String> = batch.into_iter().map(|s| as_log(s).line).collect();
    assert_eq!(lines, ["1", "2", "3"]);
    // the delay flushes too
    let batch = b.push_at(log("4", &[]), 20 * second - 1).unwrap();
    assert_eq!(batch.len(), 1);
    assert!(b.drain_at(20 * second).is_none());
    // and counts from the last flush
    assert!(b.push_at(log("5", &[]), 20 * second).is_none());
    assert!(b.push_at(log("6", &[]), 30 * second - 2).is_none());
    assert_eq!(b.drain_at(30 * second - 2).unwrap().len(), 2);
    assert!(b.push_at(log("7", &[]), 40 * second - 3).is_none());
    assert_eq!(b.push_at(log("8", &[]), 40 * second - 2).unwrap().len(), 2);
    assert!(b.drain().is_none());
}

#[test]
fn the_clock_flushes_at_once_without_delay() {
    let mut b = BatchProcessor::new(100, 0);
    assert_eq!(b.push(log("1", &[])).unwrap().len(), 1);
    let mut b = BatchProcessor::new(100, 3600);
    assert!(b.push(log("1", &[])).is_none());
}

#[test]
fn clock_readings_do_not_run_back() {
    assert_eq!(hold_time(7, 5), 7);
    assert_eq!(hold_time(3, 5), 5);
    assert_eq!(hold_time(u128::MAX, 5), u64::MAX);
}

#[test]
fn a_signal_without_a_match_is_untouched() {
    let red = PiiRedactor::new(&[pii("*", "secret", None), pii("user", "bob", Some("X"))]);
    let out = as_log(red.apply(log("all fine", &[("user", "eve"), ("a", "b")])));
    assert_eq!(out.line, "all fine");
    assert_eq!(out.labels.get("user").unwrap(), "eve");
    assert_eq!(out.labels.get("a").unwrap(), "b");
    let out = as_log(red.apply(log("a secret", &[("user", "bob")])));
    assert_eq!(out.line, "a [[pii:*]]");
    assert_eq!(out.labels.get("user").unwrap(), "X");
}
