use pulseagent::config::built_in;
use pulseagent::config::Config;
use pulseagent::config::PulseBoardTargetConfig;
use pulseagent::enrollment::bearer;
use pulseagent::enrollment::checkin;
use pulseagent::enrollment::checkin_stats;
use pulseagent::enrollment::creds_file;
use pulseagent::enrollment::enroll_request;
use pulseagent::enrollment::local_credentials;
use pulseagent::enrollment::plan;
use pulseagent::enrollment::read_enroll_reply;
use pulseagent::enrollment::AgentCredentials;
use pulseagent::enrollment::EnrollError;
use pulseagent::enrollment::EnrollPlan;
use pulseagent::enrollment::StoredCredentials;
use pulseagent::json::parse;
use pulseagent::payload::url;
use pulseagent::payload::Payload;

fn creds(id: &str) -> AgentCredentials {
    AgentCredentials {
        agent_id: id.into(),
        api_key: "key".into(),
        base_url: "https://acme.example/".into(),
        tenant_id: String::new(),
        hmac_key_b64: String::new(),
    }
}

fn target(url: Option<&str>, api_key: Option<&str>) -> PulseBoardTargetConfig {
    PulseBoardTargetConfig {
        url: url.map(str::to_string),
        api_key: api_key.map(str::to_string),
        otlp_metrics: true,
        loki_logs: true,
    }
}

fn with_token(token: &str) -> Config {
    let mut cfg = built_in();
    cfg.agent.enroll_token = Some(token.into());
    cfg
}

fn text<'a>(p: &'a Payload, key: &str) -> Option<&'a str> {
    match p {
        Payload::Record(fields) => fields.iter().find(|(k, _)| k == key).and_then(|(_, v)| match v {
            Payload::Text(t) => Some(t.as_str()),
            _ => None,
        }),
        _ => None,
    }
}

#[test]
fn enrolled_agents_stay_enrolled() {
    let cfg = with_token("tok");
    match plan(StoredCredentials::Found(creds("agent-1")), &cfg).unwrap() {
        EnrollPlan::UseStored(c) => assert_eq!(c.agent_id, "agent-1"),
        other => panic!("{other:?}"),
    }
}

#[test]
fn stale_and_corrupt_credentials_are_renewed() {
    let mut cfg = with_token("tok");
    cfg.agent.pulseboard_url = Some("https://acme.example".into());
    for stored in [
        StoredCredentials::Absent,
        StoredCredentials::Corrupt,
        StoredCredentials::Found(creds("direct-web-01")),
    ] {
        match plan(stored, &cfg).unwrap() {
            EnrollPlan::ExchangeToken { base_url, token } => {
                assert_eq!(base_url, "https://acme.example");
                assert_eq!(token, "tok");
            }
            other => panic!("{other:?}"),
        }
    }
}

#[test]
fn a_token_needs_a_url() {
    let mut cfg = with_token("tok");
    let err = plan(StoredCredentials::Absent, &cfg).unwrap_err();
    assert_eq!(err, EnrollError::NoUrlForToken);
    assert_eq!(err.message(), "enroll_token set but no pulseboard_url configured");
    cfg.targets.pulseboard = Some(target(Some("https://t.example"), None));
    assert!(matches!(
        plan(StoredCredentials::Absent, &cfg).unwrap(),
        EnrollPlan::ExchangeToken { base_url, .. } if base_url == "https://t.example"
    ));
}

#[test]
fn a_tenant_key_enrolls_by_itself() {
    let mut cfg = built_in();
    cfg.targets.pulseboard = Some(target(None, Some("pk_1")));
    let err = plan(StoredCredentials::Absent, &cfg).unwrap_err();
    assert_eq!(err, EnrollError::NoUrlForKey);
    assert_eq!(
        err.message(),
        "api_key set but no url configured in [targets.pulseboard] or agent.pulseboard_url"
    );
    cfg.agent.pulseboard_url = Some("https://a.example".into());
    assert!(matches!(
        plan(StoredCredentials::Absent, &cfg).unwrap(),
        EnrollPlan::SelfEnroll { base_url, api_key }
            if base_url == "https://a.example" && api_key == "pk_1"
    ));
    // the target's own url comes first
    cfg.targets.pulseboard = Some(target(Some("https://t.example"), Some("pk_1")));
    assert!(matches!(
        plan(StoredCredentials::Absent, &cfg).unwrap(),
        EnrollPlan::SelfEnroll { base_url, .. } if base_url == "https://t.example"
    ));
}

#[test]
fn without_credentials_the_agent_stays_local() {
    assert!(matches!(
        plan(StoredCredentials::Absent, &built_in()).unwrap(),
        EnrollPlan::LocalOnly
    ));
    let c = local_credentials();
    assert_eq!(c.agent_id, "local");
    assert_eq!(c.api_key, "");
    assert_eq!(c.base_url, "");
    assert!(checkin(&c, "1.0", "0", checkin_stats("1.0")).is_none());
}

#[test]
fn the_enroll_request_carries_one_secret() {
    let by_token = enroll_request("https://acme.example//", "web-01", "1.2.3", Some("tok"), None);
    assert_eq!(by_token.url, "https://acme.example/api/agent/v1/enroll");
    assert_eq!(by_token.bearer, None);
    assert_eq!(text(&by_token.body, "hostname"), Some("web-01"));
    assert_eq!(text(&by_token.body, "version"), Some("1.2.3"));
    assert_eq!(text(&by_token.body, "token"), Some("tok"));
    let by_key = enroll_request("https://acme.example", "web-01", "1.2.3", None, Some("pk_1"));
    assert_eq!(by_key.bearer.as_deref(), Some("pk_1"));
    assert_eq!(text(&by_key.body, "token"), None);
}

#[test]
fn the_reply_names_the_agent() {
    let reply = parse(r#"{"agentId":"agent-9","apiKey":"k9"}"#).unwrap();
    let c = read_enroll_reply(&reply, "https://acme.example").unwrap();
    assert_eq!(c.agent_id, "agent-9");
    assert_eq!(c.api_key, "k9");
    assert_eq!(c.base_url, "https://acme.example");
    assert_eq!(c.tenant_id, "");
    assert_eq!(c.hmac_key_b64, "");
    let full = r#"{"agentId":"a","apiKey":"k","tenantId":"t1","hmacKeyB64":"c2VjcmV0"}"#;
    let c = read_enroll_reply(&parse(full).unwrap(), "https://acme.example").unwrap();
    assert_eq!(c.tenant_id, "t1");
    assert_eq!(c.hmac_key_b64, "c2VjcmV0");
    let no_id = parse(r#"{"apiKey":"k9"}"#).unwrap();
    let err = read_enroll_reply(&no_id, "u").unwrap_err();
    assert_eq!(err, EnrollError::MissingAgentId);
    assert_eq!(err.message(), "missing agentId in enroll response");
    let no_key = parse(r#"{"agentId":"a","apiKey":5}"#).unwrap();
    let err = read_enroll_reply(&no_key, "u").unwrap_err();
    assert_eq!(err, EnrollError::MissingApiKey);
    assert_eq!(err.message(), "missing apiKey in enroll response");
}

#[test]
fn a_checkin_reports_version_and_config() {
    let post = checkin(&creds("agent-1"), "1.2.3", "7", checkin_stats("1.2.3")).unwrap();
    assert_eq!(post.url, "https://acme.example/api/agent/v1/checkin");
    assert_eq!(post.bearer.as_deref(), Some("agent-1:key"));
    assert_eq!(text(&post.body, "version"), Some("1.2.3"));
    assert_eq!(text(&post.body, "configHash"), Some("7"));
    assert_eq!(bearer(&creds("agent-1")), "agent-1:key");
    assert_eq!(creds_file(), "credentials.json");
}

#[test]
fn trailing_slashes_do_not_matter() {
    assert_eq!(url("https://a.example", "/x"), "https://a.example/x");
    assert_eq!(url("https://a.example///", "/x"), "https://a.example/x");
}
