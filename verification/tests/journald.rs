use pulseagent::config::JournaldConfig;
use pulseagent::sources::journald::checked_parse_journal_json;
use pulseagent::sources::journald::parse_journal_json;
use pulseagent::sources::journald::priority_to_level;
use pulseagent::sources::journald::JournaldSource;

fn cfg() -> JournaldConfig {
    JournaldConfig::default()
}

#[test]
fn parses_basic_entry() {
    let line = r#"{"MESSAGE":"hello world","PRIORITY":"6","_SYSTEMD_UNIT":"ssh.service","__REALTIME_TIMESTAMP":"1700000000000000","_HOSTNAME":"web-01"}"#;
    let e = parse_journal_json(line, &cfg()).expect("should parse");
    assert_eq!(e.line, "hello world");
    assert_eq!(e.labels.get("unit").unwrap(), "ssh.service");
    assert_eq!(e.labels.get("level").unwrap(), "info");
    assert_eq!(e.labels.get("host").unwrap(), "web-01");
    assert_eq!(e.timestamp_ns, 1_700_000_000_000_000 * 1_000);
}

#[test]
fn priority_filter_drops_low_priority() {
    let mut c = cfg();
    c.max_priority = Some(4); // warnings and above only
    let line = r#"{"MESSAGE":"debug noise","PRIORITY":"7"}"#;
    assert!(parse_journal_json(line, &c).is_none());
    let line2 = r#"{"MESSAGE":"a warning","PRIORITY":"4"}"#;
    assert!(parse_journal_json(line2, &c).is_some());
}

#[test]
fn message_as_byte_array() {
    let line = r#"{"MESSAGE":[104,105],"PRIORITY":"6"}"#;
    let e = parse_journal_json(line, &cfg()).expect("should parse");
    assert_eq!(e.line, "hi");
}

#[test]
fn unparseable_line_returns_none() {
    assert!(parse_journal_json("not json", &cfg()).is_none());
}

#[test]
fn a_time_out_of_range_is_reported() {
    let line = r#"{"MESSAGE":"x","__REALTIME_TIMESTAMP":"9223372036854775807"}"#;
    assert!(checked_parse_journal_json(line, &cfg()).is_err());
    let line = r#"{"MESSAGE":"x","__REALTIME_TIMESTAMP":"1"}"#;
    let e = checked_parse_journal_json(line, &cfg()).unwrap().unwrap();
    assert_eq!(e.timestamp_ns, 1_000);
}

#[test]
fn priorities_have_names() {
    let names: Vec<String> = (0..=8).map(priority_to_level).collect();
    assert_eq!(
        names,
        ["emerg", "alert", "crit", "error", "warning", "notice", "info", "debug", "debug"]
    );
}

#[test]
fn arguments_name_the_units() {
    let mut c = cfg();
    c.units = vec!["ssh.service".into(), "cron.service".into()];
    let args = JournaldSource::new(c).args();
    assert_eq!(
        args,
        [
            "--follow",
            "--output=json",
            "--since=now",
            "--no-pager",
            "--unit",
            "ssh.service",
            "--unit",
            "cron.service"
        ]
    );
}
