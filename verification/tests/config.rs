use pulseagent::config::built_in;
use pulseagent::config::duration_or;
use pulseagent::config::expand_env_vars;
use pulseagent::config::has_no_target;
use pulseagent::config::prefer_effective;
use pulseagent::config::parse_duration_secs;
use pulseagent::config::validate;
use pulseagent::config::Config;
use pulseagent::config::ConfigError;
use pulseagent::config::DockerLogsConfig;
use pulseagent::config::DockerStatsConfig;
use pulseagent::config::FileLogsConfig;
use pulseagent::config::HostMetricsConfig;
use pulseagent::config::PromScrapeConfig;
use pulseagent::config::PulseBoardTargetConfig;
use pulseagent::config::WindowsEventLogConfig;
use pulseagent::strmap::Labels;

fn vars(pairs: &[(&str, &str)]) -> Labels {
    let mut m = Labels::new();
    for (k, v) in pairs {
        m.insert(k.to_string(), v.to_string());
    }
    m
}

fn message(cfg: &Config) -> String {
    validate(cfg).unwrap_err().message()
}

#[test]
fn env_var_expansion() {
    let env = vars(&[("TEST_PULSE_TOKEN", "secret123")]);
    let expanded = expand_env_vars(r#"enroll_token = "${env:TEST_PULSE_TOKEN}""#, &env);
    assert!(expanded.contains("secret123"));
    assert_eq!(expanded, r#"enroll_token = "secret123""#);
}

#[test]
fn env_var_expansion_missing_var_becomes_empty() {
    let expanded = expand_env_vars("url = \"${env:__PULSE_UNSET_VAR__}\"", &vars(&[]));
    assert!(!expanded.contains("${env:"));
    assert_eq!(expanded, "url = \"\"");
}

#[test]
fn env_var_expansion_keeps_plain_text() {
    let env = vars(&[("A", "1"), ("B", "2")]);
    assert_eq!(expand_env_vars("nothing to expand $ { }", &env), "nothing to expand $ { }");
    assert_eq!(expand_env_vars("${env:A}-${env:B}-${env:A}", &env), "1-2-1");
    assert_eq!(expand_env_vars("", &env), "");
}

#[test]
fn parse_duration_seconds() {
    assert_eq!(parse_duration_secs("15s").unwrap(), 15);
    assert_eq!(parse_duration_secs("2m").unwrap(), 120);
    assert_eq!(parse_duration_secs("1h").unwrap(), 3600);
    assert_eq!(parse_duration_secs("60").unwrap(), 60);
}

#[test]
fn parse_duration_invalid_returns_err() {
    assert!(parse_duration_secs("abc").is_err());
    assert!(parse_duration_secs("").is_err());
}

#[test]
fn durations_that_overflow_are_no_durations() {
    assert!(parse_duration_secs("18446744073709551615h").is_err());
    let e = parse_duration_secs(" 307445734561825861m ").unwrap_err();
    assert_eq!(e.text, "307445734561825861m");
    assert_eq!(parse_duration_secs("307445734561825860m").unwrap(), 18_446_744_073_709_551_600);
    assert_eq!(duration_or("307445734561825861m", 7), 7);
    assert_eq!(parse_duration_secs("18446744073709551615s").unwrap(), u64::MAX);
}

#[test]
fn duration_falls_back() {
    assert_eq!(duration_or("7s", 15), 7);
    assert_eq!(duration_or("soon", 15), 15);
}

#[test]
fn built_in_configuration() {
    let cfg = built_in();
    assert_eq!(cfg.agent.log_level, "info");
    assert!(cfg.sources.file_logs.is_empty());
    assert!(cfg.sources.prom_scrape.is_empty());
    assert_eq!(cfg.processors.batch.max_size, 1000);
    assert_eq!(cfg.processors.batch.max_delay, "5s");
    assert!(validate(&cfg).is_ok());
}

#[test]
fn default_intervals() {
    assert_eq!(pulseagent::config::default_interval(), "15s");
    assert_eq!(pulseagent::config::default_scrape_interval(), "30s");
    assert_eq!(pulseagent::config::default_otlp_port(), 4318);
    assert!(pulseagent::config::default_true());
}

#[test]
fn host_metrics_interval_is_checked() {
    let mut cfg = built_in();
    cfg.sources.host_metrics = Some(HostMetricsConfig {
        interval: "often".into(),
        ..Default::default()
    });
    assert!(matches!(validate(&cfg), Err(ConfigError::HostMetricsInterval { .. })));
    assert!(message(&cfg).contains("often"));
}

#[test]
fn file_logs_need_paths() {
    let mut cfg = built_in();
    cfg.sources.file_logs.push(FileLogsConfig {
        name: "app".into(),
        paths: vec![],
        multiline_start: None,
        extra_labels: vars(&[]),
    });
    assert!(matches!(validate(&cfg), Err(ConfigError::NoPaths { .. })));
    assert!(message(&cfg).contains("app"));
}

#[test]
fn prom_scrape_interval_is_checked() {
    let mut cfg = built_in();
    cfg.sources.prom_scrape.push(PromScrapeConfig {
        name: "node".into(),
        url: "http://localhost:9100/metrics".into(),
        interval: "x".into(),
        extra_labels: vars(&[]),
    });
    assert!(matches!(validate(&cfg), Err(ConfigError::PromScrapeInterval { .. })));
}

#[test]
fn windows_event_log_interval_is_checked() {
    let mut cfg = built_in();
    cfg.sources.windows_event_log.push(WindowsEventLogConfig {
        name: "sys".into(),
        channel: "System".into(),
        interval: "y".into(),
        extra_labels: vars(&[]),
    });
    assert!(matches!(validate(&cfg), Err(ConfigError::WindowsEventLogInterval { .. })));
}

#[test]
fn docker_intervals_are_checked() {
    let mut cfg = built_in();
    cfg.sources.docker_logs = Some(DockerLogsConfig {
        interval: "z".into(),
        ..Default::default()
    });
    assert!(matches!(validate(&cfg), Err(ConfigError::DockerLogsInterval { .. })));

    let mut cfg = built_in();
    cfg.sources.docker_stats = Some(DockerStatsConfig {
        interval: "z".into(),
        ..Default::default()
    });
    assert!(matches!(validate(&cfg), Err(ConfigError::DockerStatsInterval { .. })));
}

#[test]
fn checked_intervals_are_those_of_the_sources() {
    let mut cfg = built_in();
    cfg.sources.host_metrics = Some(HostMetricsConfig {
        interval: " 2 m ".into(),
        ..Default::default()
    });
    cfg.sources.docker_stats = Some(DockerStatsConfig {
        interval: "90".into(),
        ..Default::default()
    });
    assert!(validate(&cfg).is_ok());
    assert_eq!(duration_or(&cfg.sources.host_metrics.unwrap().interval, 15), 120);
    assert_eq!(duration_or(&cfg.sources.docker_stats.unwrap().interval, 15), 90);
}

#[test]
fn intervals_too_long_to_count_are_noticed() {
    let mut cfg = built_in();
    cfg.sources.host_metrics = Some(HostMetricsConfig {
        interval: "18446744073709551615m".into(),
        ..Default::default()
    });
    assert_eq!(message(&cfg), "host_metrics.interval = \"18446744073709551615m\"");
}

#[test]
fn a_configuration_without_a_target_is_noticed() {
    let mut cfg = built_in();
    assert!(has_no_target(&cfg));
    cfg.targets.pulseboard = Some(PulseBoardTargetConfig {
        url: Some("https://acme.example".into()),
        api_key: None,
        otlp_metrics: true,
        loki_logs: true,
    });
    assert!(!has_no_target(&cfg));
}

#[test]
fn expansion_follows_the_placeholder_pattern() {
    let env = vars(&[("A", "1"), ("_b2", "two"), ("C", "${env:A}")]);
    let re = regex::Regex::new(r"\$\{env:([A-Za-z_][A-Za-z0-9_]*)\}").unwrap();
    let inputs = [
        "",
        "${env:A}",
        "x${env:A}y${env:_b2}z",
        "${env:}",
        "${env:9}",
        "${env:A",
        "${env:A B}",
        "$${env:A}}",
        "${env:${env:A}}",
        "${env:C}",
        "${env:Ä}",
        "ä${env:missing}ö",
        "${ENV:A}",
    ];
    for s in inputs {
        let expected = re.replace_all(s, |caps: &regex::Captures| {
            env.get(&caps[1]).cloned().unwrap_or_default()
        });
        assert_eq!(expand_env_vars(s, &env), expected.as_ref());
    }
}

#[test]
fn the_effective_configuration_is_preferred() {
    let named = |name: &str| {
        let mut cfg = built_in();
        cfg.agent.data_dir = name.into();
        cfg
    };
    let dir = |r: Result<Config, String>| r.map(|c| c.agent.data_dir);
    assert_eq!(dir(prefer_effective(Some(named("e")), Ok(named("b")))), Ok("e".to_string()));
    assert_eq!(dir(prefer_effective(Some(named("e")), Err("broken".into()))), Ok("e".to_string()));
    assert_eq!(dir(prefer_effective(None, Ok(named("b")))), Ok("b".to_string()));
    assert_eq!(dir(prefer_effective(None, Err("broken".into()))), Err("broken".to_string()));
}
