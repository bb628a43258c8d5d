use pulseagent::config::TransformOp;
use pulseagent::processors::transform::render_template;
use pulseagent::processors::transform::Transformer;
use pulseagent::signal::LogEntry;
use pulseagent::signal::MetricKind;
use pulseagent::signal::MetricSample;
use pulseagent::signal::Reading;
use pulseagent::signal::Signal;
use pulseagent::strmap::Labels;

fn labels(pairs: &[(&str, &str)]) -> Labels {
    let mut m = Labels::new();
    for (k, v) in pairs {
        m.insert(k.to_string(), v.to_string());
    }
    m
}

fn log(line: &str) -> Signal {
    Signal::Log(LogEntry {
        labels: Labels::new(),
        line: line.into(),
        timestamp_ns: 0,
    })
}

fn metric(name: &str, pairs: &[(&str, &str)]) -> Signal {
    Signal::Metric(MetricSample {
        name: name.into(),
        labels: labels(pairs),
        value: Reading::Bits(1.0f64.to_bits()),
        timestamp_ms: 0,
        kind: MetricKind::Gauge,
    })
}

#[test]
fn set_label_static() {
    let t = Transformer::new(&[TransformOp::SetLabel {
        label: "env".into(),
        value: "prod".into(),
    }]);
    if let Signal::Log(l) = t.apply(log("hi")) {
        assert_eq!(l.labels.get("env").unwrap(), "prod");
    } else {
        panic!();
    }
}

#[test]
fn set_label_from_existing_label() {
    let t = Transformer::new(&[TransformOp::SetLabel {
        label: "svc".into(),
        value: "app-${label.region}".into(),
    }]);
    if let Signal::Metric(m) = t.apply(metric("x", &[("region", "eu")])) {
        assert_eq!(m.labels.get("svc").unwrap(), "app-eu");
    } else {
        panic!();
    }
}

#[test]
fn parse_json_lifts_fields() {
    let t = Transformer::new(&[TransformOp::ParseJson {
        fields: vec!["level".into(), "code".into()],
    }]);
    if let Signal::Log(l) = t.apply(log(r#"{"level":"error","code":500,"msg":"x"}"#)) {
        assert_eq!(l.labels.get("level").unwrap(), "error");
        assert_eq!(l.labels.get("code").unwrap(), "500");
    } else {
        panic!();
    }
}

#[test]
fn json_template_placeholder() {
    let t = Transformer::new(&[TransformOp::SetLabel {
        label: "user".into(),
        value: "${json.user}".into(),
    }]);
    if let Signal::Log(l) = t.apply(log(r#"{"user":"alice"}"#)) {
        assert_eq!(l.labels.get("user").unwrap(), "alice");
    } else {
        panic!();
    }
}

#[test]
fn rename_and_remove() {
    let t = Transformer::new(&[
        TransformOp::RenameLabel {
            from: "old".into(),
            to: "new".into(),
        },
        TransformOp::RemoveLabel {
            label: "drop_me".into(),
        },
    ]);
    if let Signal::Metric(m) = t.apply(metric("x", &[("old", "v"), ("drop_me", "z")])) {
        assert_eq!(m.labels.get("new").unwrap(), "v");
        assert!(!m.labels.contains_key("old"));
        assert!(!m.labels.contains_key("drop_me"));
    } else {
        panic!();
    }
}

#[test]
fn unterminated_placeholder_is_literal() {
    let t = Transformer::new(&[TransformOp::SetLabel {
        label: "x".into(),
        value: "a${broken".into(),
    }]);
    if let Signal::Log(l) = t.apply(log("hi")) {
        assert_eq!(l.labels.get("x").unwrap(), "a${broken");
    } else {
        panic!();
    }
}

#[test]
fn plain_templates_are_themselves() {
    assert_eq!(render_template("no placeholder $ here }", &log("x")), "no placeholder $ here }");
    assert_eq!(render_template("", &log("x")), "");
}

#[test]
fn unknown_placeholders_are_empty() {
    assert_eq!(render_template("<${label.none}>", &log("x")), "<>");
    assert_eq!(render_template("<${json.none}>", &log("not json")), "<>");
}

#[test]
fn nested_json_is_written_out() {
    let t = Transformer::new(&[TransformOp::ParseJson {
        fields: vec!["obj".into(), "list".into(), "flag".into(), "gone".into()],
    }]);
    if let Signal::Log(l) = t.apply(log(r#"{"obj":{"a":1},"list":[1,"x"],"flag":true}"#)) {
        assert_eq!(l.labels.get("obj").unwrap(), r#"{"a":1}"#);
        assert_eq!(l.labels.get("list").unwrap(), r#"[1,"x"]"#);
        assert_eq!(l.labels.get("flag").unwrap(), "true");
        assert!(!l.labels.contains_key("gone"));
    } else {
        panic!();
    }
}

#[test]
fn lines_that_are_no_json_keep_their_labels() {
    let t = Transformer::new(&[TransformOp::ParseJson {
        fields: vec!["level".into()],
    }]);
    if let Signal::Log(l) = t.apply(log("level=error")) {
        assert!(l.labels.is_empty());
        assert_eq!(l.line, "level=error");
    } else {
        panic!();
    }
}
