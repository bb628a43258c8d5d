use pulseagent::config::FileLogsConfig;
use pulseagent::sources::file_logs::has_wildcard;
use pulseagent::sources::file_logs::make_entry;
use pulseagent::sources::file_logs::FileLogsSource;
use pulseagent::sources::file_logs::LineAssembler;
use pulseagent::strmap::Labels;

#[test]
fn without_multiline_every_line_is_an_entry() {
    let mut a = LineAssembler::new(&None);
    assert_eq!(a.read_line("one\n").as_deref(), Some("one"));
    assert_eq!(a.read_line("two\r\n").as_deref(), Some("two"));
    assert_eq!(a.finish(), None);
}

#[test]
fn continuation_lines_are_appended() {
    let mut a = LineAssembler::new(&Some(r"^\d{4}-".into()));
    assert_eq!(a.read_line("2024-01-01 error\n"), None);
    assert_eq!(a.read_line("  at a\n"), None);
    assert_eq!(a.read_line("  at b\n"), None);
    assert_eq!(
        a.read_line("2024-01-02 next\n").as_deref(),
        Some("2024-01-01 error\n  at a\n  at b")
    );
    assert_eq!(a.finish().as_deref(), Some("2024-01-02 next"));
    assert_eq!(a.finish(), None);
}

#[test]
fn an_expression_that_does_not_compile_counts_as_none() {
    let mut a = LineAssembler::new(&Some("(".into()));
    assert_eq!(a.read_line("one\n").as_deref(), Some("one"));
}

#[test]
fn wildcards_are_noticed() {
    assert!(has_wildcard("/var/log/*.log"));
    assert!(has_wildcard("/var/log/?.log"));
    assert!(!has_wildcard("/var/log/app.log"));
}

#[test]
fn an_entry_names_its_source_and_file() {
    let mut extra = Labels::new();
    extra.insert("env".into(), "prod".into());
    let e = make_entry("hello", "app.log", "app", &extra, 12);
    assert_eq!(e.line, "hello");
    assert_eq!(e.timestamp_ns, 12);
    assert_eq!(e.labels.get("env").unwrap(), "prod");
    assert_eq!(e.labels.get("source").unwrap(), "app");
    assert_eq!(e.labels.get("filename").unwrap(), "app.log");
    let source = FileLogsSource::new(FileLogsConfig {
        name: "app".into(),
        paths: vec!["/var/log/app.log".into()],
        multiline_start: None,
        extra_labels: extra,
    });
    let now = source.entry("hello", "app.log");
    assert_eq!(now.labels.len(), e.labels.len());
    assert!(now.timestamp_ns > 1_700_000_000_000_000_000);
}

#[test]
fn new_lines_become_entries() {
    let source = FileLogsSource::new(FileLogsConfig {
        name: "app".into(),
        paths: vec![],
        multiline_start: Some("^[A-Z]".into()),
        extra_labels: Labels::new(),
    });
    let mut a = LineAssembler::new(&source.config().multiline_start);
    let lines: Vec<String> =
        ["Error one\n", "  at x\r\n", "Error two\n", "  at y\n"].map(String::from).to_vec();
    let entries = source.entries(&mut a, &lines, "app.log");
    let texts: Vec<&str> = entries.iter().map(|e| e.line.as_str()).collect();
    assert_eq!(texts, ["Error one\n  at x", "Error two\n  at y"]);
    assert_eq!(entries[0].labels.get("filename").unwrap(), "app.log");
    assert!(source.entries(&mut a, &vec![], "app.log").is_empty());
}
