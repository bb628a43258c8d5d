use pulseagent::config::WindowsEventLogConfig;
use pulseagent::sources::windows_event_log::event_query;
use pulseagent::sources::windows_event_log::extract_attr;
use pulseagent::sources::windows_event_log::extract_data_values;
use pulseagent::sources::windows_event_log::extract_element;
use pulseagent::sources::windows_event_log::level_name;
use pulseagent::sources::windows_event_log::lookback_ms;
use pulseagent::sources::windows_event_log::parse_event_xml;
use pulseagent::sources::windows_event_log::parse_system_time;
use pulseagent::sources::windows_event_log::WindowsEventLogSource;
use pulseagent::strmap::Labels;

const SAMPLE_XML: &str = r#"<Event xmlns='http://schemas.microsoft.com/win/2004/08/events/event'><System><Provider Name='Service Control Manager'/><EventID Qualifiers='16384'>7036</EventID><Level>4</Level><TimeCreated SystemTime='2024-01-02T03:04:05.1234567Z'/></System><EventData><Data Name='param1'>Windows Update</Data><Data Name='param2'>running</Data></EventData></Event>"#;

#[test]
fn parses_system_fields() {
    let ev = parse_event_xml(
        SAMPLE_XML,
        Some("The service entered the running state.".into()),
    );
    assert_eq!(ev.id, Some(7036));
    assert_eq!(ev.provider.as_deref(), Some("Service Control Manager"));
    assert_eq!(ev.level.as_deref(), Some("Information"));
    assert_eq!(
        ev.time_created.as_deref(),
        Some("2024-01-02T03:04:05.1234567Z")
    );
    assert!(ev.message.contains("running state"));
}

#[test]
fn falls_back_to_event_data_when_no_message() {
    let ev = parse_event_xml(SAMPLE_XML, None);
    assert_eq!(ev.message, "Windows Update running");
}

#[test]
fn blank_message_counts_as_none() {
    let ev = parse_event_xml(SAMPLE_XML, Some(" \r\n".into()));
    assert_eq!(ev.message, "Windows Update running");
}

#[test]
fn level_mapping() {
    assert_eq!(level_name(2), "Error");
    assert_eq!(level_name(3), "Warning");
    assert_eq!(level_name(4), "Information");
    assert_eq!(level_name(99), "99");
}

#[test]
fn skips_self_closing_data() {
    let xml = r#"<Event><EventData><Data Name='x'/></EventData></Event>"#;
    assert!(extract_data_values(xml).is_empty());
}

#[test]
fn parses_system_time_millis() {
    assert_eq!(
        parse_system_time("2024-01-02T03:04:05Z"),
        chrono::DateTime::parse_from_rfc3339("2024-01-02T03:04:05Z")
            .ok()
            .map(|d| d.timestamp_millis())
    );
    assert_eq!(parse_system_time("2024-01-02T03:04:05Z"), Some(1_704_164_645_000));
    assert_eq!(parse_system_time("yesterday"), None);
}

#[test]
fn attributes_and_elements_are_found() {
    assert_eq!(
        extract_attr(SAMPLE_XML, "Provider", "Name").as_deref(),
        Some("Service Control Manager")
    );
    assert_eq!(extract_attr(SAMPLE_XML, "Provider", "Guid"), None);
    assert_eq!(extract_element(SAMPLE_XML, "EventID").as_deref(), Some("7036"));
    assert_eq!(extract_element(SAMPLE_XML, "Level").as_deref(), Some("4"));
    assert_eq!(extract_element(SAMPLE_XML, "Channel"), None);
    assert_eq!(
        extract_data_values(SAMPLE_XML),
        vec!["Windows Update".to_string(), "running".to_string()]
    );
}

#[test]
fn names_are_matched_whole() {
    let xml = "<Provider EventSourceName='A' Name='B'/>";
    assert_eq!(extract_attr(xml, "Provider", "Name").as_deref(), Some("B"));
    assert_eq!(extract_attr(xml, "Provider", "EventSourceName").as_deref(), Some("A"));
    assert_eq!(extract_attr(xml, "Provider", "SourceName"), None);
    let xml = "<Provider Text=\"x Name='C' > y\" Name='D'/>";
    assert_eq!(extract_attr(xml, "Provider", "Name").as_deref(), Some("D"));
    let xml = "<Providers Name='A'/><Provider Name='B'/>";
    assert_eq!(extract_attr(xml, "Provider", "Name").as_deref(), Some("B"));
    let xml = "<LevelName>x</LevelName><Level/><Level\n>3</Level>";
    assert_eq!(extract_element(xml, "Level").as_deref(), Some("3"));
    let xml = "<DataItem>no</DataItem><Data/><Data Name='a>b'>yes</Data>";
    assert_eq!(extract_data_values(xml), vec!["yes".to_string()]);
    // only what stands under EventData counts
    let xml = "<Event><UserData><Data>no</Data></UserData><EventData><Data>yes</Data></EventData><Data>no</Data></Event>";
    assert_eq!(extract_data_values(xml), vec!["yes".to_string()]);
}

#[test]
fn an_event_becomes_a_log_entry() {
    let ev = parse_event_xml(SAMPLE_XML, None);
    let mut extra = Labels::new();
    extra.insert("site".into(), "lab".into());
    let log = ev.checked_into_log("System", &extra).unwrap();
    assert_eq!(log.line, "Windows Update running");
    assert_eq!(log.timestamp_ns, 1_704_164_645_123 * 1_000_000);
    assert_eq!(log.labels.get("site").unwrap(), "lab");
    assert_eq!(log.labels.get("channel").unwrap(), "System");
    assert_eq!(log.labels.get("provider").unwrap(), "Service Control Manager");
}

#[test]
fn a_time_out_of_range_is_refused() {
    let xml = "<Event><System><TimeCreated SystemTime='9999-01-01T00:00:00Z'/></System></Event>";
    let ev = parse_event_xml(xml, Some("late".into()));
    assert!(ev.checked_into_log("System", &Labels::new()).is_none());
}

#[test]
fn the_query_looks_back() {
    assert_eq!(lookback_ms(30), 30_000);
    assert!(event_query(30).contains("30000"));
    let source = WindowsEventLogSource::new(WindowsEventLogConfig {
        name: "sys".into(),
        channel: "System".into(),
        interval: "20s".into(),
        extra_labels: Labels::new(),
    });
    assert_eq!(source.interval_secs(), 20);
    assert_eq!(source.config().channel, "System");
}
