use pulseagent::config::DockerLogsConfig;
use pulseagent::config::DockerStatsConfig;
use pulseagent::signal::MetricKind;
use pulseagent::signal::Reading;
use pulseagent::sources::docker::make_log;
use pulseagent::sources::docker::parse_bytes;
use pulseagent::sources::docker::parse_mem_usage;
use pulseagent::sources::docker::parse_messages;
use pulseagent::sources::docker::parse_percent;
use pulseagent::sources::docker::parse_stats;
use pulseagent::sources::docker::DockerLogsSource;
use pulseagent::sources::docker::DockerStatsSource;
use pulseagent::strmap::Labels;

fn double(r: Reading) -> f64 {
    match r {
        Reading::Scaled { literal, times, per } => {
            literal.parse::<f64>().unwrap() * times as f64 / per as f64
        }
        other => panic!("{other:?}"),
    }
}

#[test]
fn parses_percent() {
    assert_eq!(parse_percent("12.34%").map(double), Some(12.34));
    assert_eq!(parse_percent("0.00%").map(double), Some(0.0));
    assert_eq!(parse_percent("--").map(double), None);
}

#[test]
fn parses_bytes() {
    assert_eq!(parse_bytes("512B").map(double), Some(512.0));
    assert_eq!(parse_bytes("1kB").map(double), Some(1000.0));
    assert_eq!(parse_bytes("1KiB").map(double), Some(1024.0));
    assert_eq!(parse_bytes("12MiB").map(double), Some(12.0 * 1024.0 * 1024.0));
    assert_eq!(parse_bytes("1.5GB").map(double), Some(1.5e9));
}

#[test]
fn parses_every_unit() {
    assert_eq!(parse_bytes("3").map(double), Some(3.0));
    assert_eq!(parse_bytes("2MB").map(double), Some(2e6));
    assert_eq!(parse_bytes("1 GiB").map(double), Some(1073741824.0));
    assert_eq!(parse_bytes("1TB").map(double), Some(1e12));
    assert_eq!(parse_bytes("1TiB").map(double), Some(1099511627776.0));
    assert!(parse_bytes("1PB").is_none());
    assert!(parse_bytes("MiB").is_none());
    assert!(parse_bytes("1éB").is_none());
}

#[test]
fn parses_mem_usage_pair() {
    let (used, limit) = parse_mem_usage("12MiB / 1GiB").unwrap();
    assert_eq!(double(used), 12.0 * 1024.0 * 1024.0);
    assert_eq!(double(limit), 1024.0 * 1024.0 * 1024.0);
    assert!(parse_mem_usage("12MiB").is_none());
    assert!(parse_mem_usage("12MiB / lots").is_none());
}

const STATS: &str = r#"{"Name":"web","ID":"abc","CPUPerc":"1.50%","MemPerc":"--","MemUsage":"1KiB / 2KiB","PIDs":"7"}

not json
{"Name":"","ID":"x","CPUPerc":"1%"}
"#;

#[test]
fn reads_docker_stats() {
    let samples = parse_stats(STATS, 42);
    let names: Vec<&str> = samples.iter().map(|s| s.name.as_str()).collect();
    assert_eq!(
        names,
        [
            "container_cpu_usage_percent",
            "container_memory_usage_bytes",
            "container_spec_memory_limit_bytes",
            "container_pids"
        ]
    );
    for s in &samples {
        assert_eq!(s.kind, MetricKind::Gauge);
        assert_eq!(s.timestamp_ms, 42);
        assert_eq!(s.labels.get("name").unwrap(), "web");
        assert_eq!(s.labels.get("id").unwrap(), "abc");
    }
    let values: Vec<f64> = samples.into_iter().map(|s| double(s.value)).collect();
    assert_eq!(values, [1.5, 1024.0, 2048.0, 7.0]);
}

#[test]
fn extra_labels_count_over_the_containers_own() {
    let mut extra = Labels::new();
    extra.insert("name".into(), "override".into());
    extra.insert("dc".into(), "eu".into());
    let source = DockerStatsSource::new(DockerStatsConfig {
        extra_labels: extra,
        ..Default::default()
    });
    let samples = source.samples(STATS, 1);
    assert_eq!(samples.len(), 4);
    assert_eq!(samples[0].labels.get("name").unwrap(), "override");
    assert_eq!(samples[3].labels.get("dc").unwrap(), "eu");
    assert_eq!(source.interval_secs(), 15);
}

#[test]
fn containers_are_listed_and_filtered() {
    let ps = "aaa|web-1\nbbb|db\n\nno separator\n ccc|web-2 \n";
    let all = DockerLogsSource::new(DockerLogsConfig::default());
    assert_eq!(all.containers(ps).len(), 3);
    let web = DockerLogsSource::new(DockerLogsConfig {
        name_filter: Some("^web-".into()),
        ..Default::default()
    });
    let listed = web.containers(ps);
    assert_eq!(
        listed,
        vec![("aaa".to_string(), "web-1".to_string()), ("ccc".to_string(), "web-2".to_string())]
    );
    // an expression that does not compile counts as none
    let broken = DockerLogsSource::new(DockerLogsConfig {
        name_filter: Some("(".into()),
        ..Default::default()
    });
    assert_eq!(broken.containers(ps).len(), 3);
}

#[test]
fn log_lines_are_split_at_the_first_space() {
    assert_eq!(
        parse_messages("t1 a b\n\n   \nnospace\nt2 c\r\n"),
        vec![("t1".to_string(), "a b".to_string()), ("t2".to_string(), "c".to_string())]
    );
}

#[test]
fn no_line_is_emitted_twice() {
    let mut source = DockerLogsSource::new(DockerLogsConfig::default());
    let id = "0123456789abcdef";
    assert_eq!(source.since(id, 5), "5s");
    let out = "2024-01-02T03:04:05.1Z one\n2024-01-02T03:04:05.2Z two\n2024-01-02T03:04:05.1Z late\n";
    let first = source.collect(id, "web", out, 9);
    // one stream follows the other, so that times need not rise
    let lines: Vec<&str> = first.iter().map(|e| e.line.as_str()).collect();
    assert_eq!(lines, ["one", "two", "late"]);
    assert_eq!(source.since(id, 5), "2024-01-02T03:04:05.2Z");
    assert!(source.collect(id, "web", out, 9).is_empty());
    let next = source.collect(id, "web", "2024-01-02T03:04:05.3Z three\n", 9);
    assert_eq!(next.len(), 1);
    // another container has a cursor of its own
    assert_eq!(source.since("other", 5), "5s");
}

#[test]
fn a_log_line_carries_its_container() {
    let e = make_log("2024-01-02T03:04:05.123456789Z", "hi", "0123456789abcdef", "web", &Labels::new(), 3);
    assert_eq!(e.line, "hi");
    assert_eq!(e.timestamp_ns, 1_704_164_645_123_456_789);
    assert_eq!(e.labels.get("source").unwrap(), "docker");
    assert_eq!(e.labels.get("container").unwrap(), "web");
    assert_eq!(e.labels.get("container_id").unwrap(), "0123456789ab");
    let e = make_log("not a time", "hi", "a", "web", &Labels::new(), 3);
    assert_eq!(e.timestamp_ns, 3);
}
