use pulseagent::config::KubernetesPodsConfig;
use pulseagent::sources::kubernetes_pods::is_log;
use pulseagent::sources::kubernetes_pods::parse_cri_line;
use pulseagent::sources::kubernetes_pods::parse_cri_line_at;
use pulseagent::sources::kubernetes_pods::parse_filename;
use pulseagent::sources::kubernetes_pods::KubernetesPodsSource;
use pulseagent::sources::kubernetes_pods::PodMeta;
use pulseagent::strmap::Labels;

fn meta() -> PodMeta {
    PodMeta {
        pod: "p".into(),
        namespace: "ns".into(),
        container: "c".into(),
    }
}

#[test]
fn parses_standard_filename() {
    let m = parse_filename("/var/log/containers/nginx-abc123_default_nginx-deadbeef0123.log")
        .unwrap();
    assert_eq!(m.pod, "nginx-abc123");
    assert_eq!(m.namespace, "default");
    assert_eq!(m.container, "nginx");
}

#[test]
fn parses_cri_line() {
    let line = "2024-01-02T03:04:05.123456789Z stdout F hello from pod";
    let e = parse_cri_line(line, &meta(), &Labels::new()).unwrap();
    assert_eq!(e.line, "hello from pod");
    assert_eq!(e.labels.get("namespace").unwrap(), "ns");
    assert_eq!(e.labels.get("stream").unwrap(), "stdout");
    assert!(e.timestamp_ns > 0);
    assert_eq!(e.timestamp_ns, 1_704_164_645_123_456_789);
}

#[test]
fn rejects_malformed_filename() {
    assert!(parse_filename("/var/log/containers/no-underscores.log").is_none());
}

#[test]
fn missing_parts_of_a_cri_line_have_defaults() {
    let e = parse_cri_line("2024-01-02T03:04:05Z", &meta(), &Labels::new()).unwrap();
    assert_eq!(e.line, "");
    assert_eq!(e.labels.get("stream").unwrap(), "stdout");
    assert_eq!(e.timestamp_ns, 1_704_164_645_000_000_000);
    let e = parse_cri_line("2024-01-02T03:04:05Z stderr P", &meta(), &Labels::new()).unwrap();
    assert_eq!(e.labels.get("stream").unwrap(), "stderr");
    // a time that cannot be read is the current one
    assert!(parse_cri_line("", &meta(), &Labels::new()).unwrap().timestamp_ns > 0);
}

#[test]
fn only_log_files_count() {
    assert!(is_log("/var/log/containers/a_b_c-1.log"));
    assert!(!is_log("/var/log/containers/a_b_c-1.txt"));
    assert!(!is_log("/var/log/containers/log"));
}

#[test]
fn namespaces_are_filtered() {
    let all = KubernetesPodsSource::new(KubernetesPodsConfig::default());
    assert!(all.wants("anything"));
    let some = KubernetesPodsSource::new(KubernetesPodsConfig {
        namespaces: vec!["prod".into()],
        ..Default::default()
    });
    assert!(some.wants("prod"));
    assert!(!some.wants("dev"));
}

#[test]
fn lines_are_read_with_their_end() {
    let source = KubernetesPodsSource::new(KubernetesPodsConfig::default());
    let e = source
        .read_line("2024-01-02T03:04:05Z stderr F oops\r\n", &meta())
        .unwrap();
    assert_eq!(e.line, "oops");
    assert_eq!(e.labels.get("stream").unwrap(), "stderr");
    assert_eq!(e.labels.get("pod").unwrap(), "p");
    assert_eq!(e.labels.get("container").unwrap(), "c");
    assert!(source.read_line("\n", &meta()).is_none());
}

#[test]
fn new_lines_of_a_pod_become_entries() {
    let source = KubernetesPodsSource::new(KubernetesPodsConfig::default());
    let lines = vec![
        "2024-01-02T03:04:05Z stdout F one\n".to_string(),
        "\n".to_string(),
        "2024-01-02T03:04:06Z stdout F two\n".to_string(),
    ];
    let entries = source.entries(&lines, &meta());
    assert_eq!(entries.len(), 2);
    assert_eq!(entries[0].line, "one");
    assert_eq!(entries[1].line, "two");
    assert_eq!(entries[1].timestamp_ns, 1_704_164_646_000_000_000);
}

#[test]
fn the_time_of_a_line_is_its_own_or_that_of_reading() {
    let line = "not-a-time stderr F hello";
    let dated = parse_cri_line_at(line, &meta(), &Labels::new(), Some(5), 9);
    assert_eq!(dated.timestamp_ns, 5);
    assert_eq!(dated.line, "hello");
    let undated = parse_cri_line_at(line, &meta(), &Labels::new(), None, 9);
    assert_eq!(undated.timestamp_ns, 9);
    assert_eq!(undated.labels.get("source").unwrap(), "kubernetes");
}
