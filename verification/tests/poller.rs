use hmac::Hmac;
use hmac::Mac;
use pulseagent::config_poller::can_merge;
use pulseagent::config_poller::carries_signature;
use pulseagent::config_poller::checked_merge;
use pulseagent::config_poller::constant_time_eq;
use pulseagent::config_poller::decide;
use pulseagent::config_poller::effective_name;
use pulseagent::config_poller::hex_upper;
use pulseagent::config_poller::merge;
use pulseagent::config_poller::poll_request;
use pulseagent::config_poller::polling_key;
use pulseagent::config_poller::review;
use pulseagent::config_poller::verify;
use pulseagent::config_poller::AppliedVersion;
use pulseagent::config_poller::ConfigResponse;
use pulseagent::config_poller::MergeError;
use pulseagent::config_poller::PollError;
use pulseagent::config_poller::PollingKey;
use pulseagent::config_poller::Step;
use pulseagent::enrollment::AgentCredentials;
use sha2::Sha256;
use std::path::Path;

type HmacSha256 = Hmac<Sha256>;

fn sign(key: &[u8], text: &[u8]) -> String {
    let mut mac = HmacSha256::new_from_slice(key).unwrap();
    mac.update(text);
    hex_upper(&mac.finalize().into_bytes())
}

fn response(version: u32, overlay: &str, signature: String) -> ConfigResponse {
    ConfigResponse {
        tenant_id: "t1".into(),
        group_id: "default".into(),
        version,
        overlay_toml: overlay.into(),
        signature,
    }
}

fn creds(tenant: &str, key: &str) -> AgentCredentials {
    AgentCredentials {
        agent_id: "agent-1".into(),
        api_key: "secret".into(),
        base_url: "https://acme.example/".into(),
        tenant_id: tenant.into(),
        hmac_key_b64: key.into(),
    }
}

#[test]
fn merge_replaces_scalars_and_merges_tables() {
    let base = r#"
[agent]
data_dir = "/var/lib/pulseagent"

[sources.host_metrics]
interval = "30s"

[sources.host_metrics.collectors]
cpu = true
"#;
    let overlay = r#"
[sources.host_metrics]
interval = "10s"

[sources.host_metrics.collectors]
disk = true
"#;
    let merged = merge(base, overlay).unwrap();
    let v: toml::Value = toml::from_str(&merged).unwrap();
    assert_eq!(
        v["sources"]["host_metrics"]["interval"].as_str(),
        Some("10s")
    );
    // table merge: both keys survive
    let collectors = &v["sources"]["host_metrics"]["collectors"];
    assert_eq!(collectors["cpu"].as_bool(), Some(true));
    assert_eq!(collectors["disk"].as_bool(), Some(true));
    // untouched section preserved
    assert_eq!(v["agent"]["data_dir"].as_str(), Some("/var/lib/pulseagent"));
}

#[test]
fn empty_overlay_is_identity() {
    let base = "[agent]\ndata_dir = \"/x\"\n";
    assert_eq!(merge(base, "").unwrap(), base);
    assert_eq!(merge(base, "   \n\t  ").unwrap(), base);
}

#[test]
fn merge_replaces_arrays_wholesale() {
    let base = r#"
[[sources.file_logs]]
name = "a"
paths = ["/x"]
"#;
    let overlay = r#"
[[sources.file_logs]]
name = "b"
paths = ["/y"]
"#;
    let merged = merge(base, overlay).unwrap();
    let v: toml::Value = toml::from_str(&merged).unwrap();
    let arr = v["sources"]["file_logs"].as_array().unwrap();
    assert_eq!(arr.len(), 1);
    assert_eq!(arr[0]["name"].as_str(), Some("b"));
}

#[test]
fn merge_keeps_every_kind_of_value() {
    let base = "a = 1\nb = 1.5\nc = 1979-05-27T07:32:00Z\nd = [1, \"x\", [true]]\ne = { f = \"g\" }\n";
    let merged = merge(base, "a = \"one\"\nnew = -2.5\n[e]\nh = false\n").unwrap();
    let v: toml::Value = toml::from_str(&merged).unwrap();
    let expected: toml::Value = toml::from_str(
        "a = \"one\"\nb = 1.5\nc = 1979-05-27T07:32:00Z\nd = [1, \"x\", [true]]\nnew = -2.5\n[e]\nf = \"g\"\nh = false\n",
    )
    .unwrap();
    assert_eq!(v, expected);
}

/// The next number of a fixed sequence, below `n`.
fn next(seed: &mut u64, n: u64) -> u64 {
    *seed = seed.wrapping_mul(6364136223846793005).wrapping_add(1442695040888963407);
    (*seed >> 33) % n
}

fn some_text(seed: &mut u64) -> String {
    let pieces = [
        "a", "B", "7", "-", "_", ".", " ", "\t", "\n", "\r", "\r\n", "'", "\"", "\"\"\"", "''\u{27}",
        "\\", "\\\n", "#", "=", "[", "]", "{", "}", ",", "\u{0}", "\u{8}", "\u{1b}", "\u{7f}", "\u{85}",
        "\u{2028}", "\u{feff}", "\u{e9}", "\u{1f600}", "true", "$__toml",
    ];
    (0..next(seed, 7)).map(|_| pieces[next(seed, pieces.len() as u64) as usize]).collect()
}

fn some_table(seed: &mut u64, levels: u64) -> toml::Value {
    let mut t = toml::Table::new();
    for _ in 0..next(seed, 5) {
        let key = if next(seed, 2) == 0 {
            format!("k{}", next(seed, 4))
        } else {
            some_text(seed)
        };
        t.insert(key, some_value(seed, levels));
    }
    toml::Value::Table(t)
}

fn some_value(seed: &mut u64, levels: u64) -> toml::Value {
    let kind = if levels == 0 { next(seed, 4) } else { next(seed, 8) };
    match kind {
        0 => toml::Value::Boolean(next(seed, 2) == 0),
        1 => toml::Value::Integer((next(seed, u64::MAX) as i64).wrapping_mul(3) - 1),
        2 | 3 => toml::Value::String(some_text(seed)),
        4 => toml::Value::Array((0..next(seed, 4)).map(|_| some_value(seed, levels - 1)).collect()),
        5 => toml::Value::Array((0..next(seed, 4)).map(|_| some_table(seed, levels - 1)).collect()),
        _ => some_table(seed, levels - 1),
    }
}

fn laid_over(base: toml::Value, overlay: toml::Value) -> toml::Value {
    match (base, overlay) {
        (toml::Value::Table(mut b), toml::Value::Table(o)) => {
            for (k, v) in o {
                let joined = match b.remove(&k) {
                    Some(old) => laid_over(old, v),
                    None => v,
                };
                b.insert(k, joined);
            }
            toml::Value::Table(b)
        }
        (_, other) => other,
    }
}

#[test]
fn merged_text_reads_as_the_merge() {
    let mut seed: u64 = 7;
    for _ in 0..2000 {
        let base = some_table(&mut seed, 4);
        let mut overlay = some_table(&mut seed, 4);
        overlay.as_table_mut().unwrap().insert("k0".into(), toml::Value::Boolean(true));
        let text = merge(
            &toml::to_string(&base).unwrap(),
            &toml::to_string(&overlay).unwrap(),
        )
        .unwrap();
        assert_eq!(toml::from_str::<toml::Value>(&text).unwrap(), laid_over(base, overlay));
    }
}

#[test]
fn merge_goes_as_deep_as_a_document_can() {
    let deep = |n: usize, leaf: &str| format!("[{}]\n{leaf} = 1\n", vec!["a"; n].join("."));
    let text = merge(&deep(79, "x"), &deep(79, "y")).unwrap();
    let mut v: toml::Value = toml::from_str(&text).unwrap();
    for _ in 0..79 {
        v = v["a"].clone();
    }
    assert_eq!(v["x"].as_integer(), Some(1));
    assert_eq!(v["y"].as_integer(), Some(1));
    let arrays = format!("a = {}1{}\n", "[".repeat(79), "]".repeat(79));
    assert!(toml::from_str::<toml::Value>(&merge("b = 1", &arrays).unwrap()).is_ok());
}

#[test]
fn merge_counts_the_quotes_in_a_row() {
    for quote in ["'", "\\\""] {
        let value = |n: usize| format!("a = [\"x{}\"]\n", quote.repeat(n));
        assert!(can_merge("b = 1", &value(255)));
        assert!(checked_merge("b = 1", &value(255)).unwrap().is_ok());
        assert!(!can_merge("b = 1", &value(256)));
        assert!(checked_merge("b = 1", &value(256)).is_none());
        assert!(checked_merge(&value(256), "a = 1").unwrap().is_ok());
        assert_eq!(checked_merge(&value(256), " ").unwrap().unwrap(), value(256));
        assert!(checked_merge("= 1", &value(256)).unwrap().is_err());
    }
}

#[test]
fn merge_says_which_file_is_broken() {
    assert!(matches!(merge("= 1", "a = 1"), Err(MergeError::Base(_))));
    assert!(matches!(merge("a = 1", "= 1"), Err(MergeError::Overlay(_))));
    assert!(merge("= 1", "a = 1").unwrap_err().message().contains("parse base config"));
    assert!(merge("a = 1", "= 1").unwrap_err().message().contains("parse overlay config"));
}

#[test]
fn verify_round_trips_with_signing() {
    let key = b"some-secret-key-bytes";
    let payload = ConfigResponse {
        tenant_id: "t1".into(),
        group_id: "default".into(),
        version: 7,
        overlay_toml: "x = 1".into(),
        signature: {
            let mut mac = HmacSha256::new_from_slice(key).unwrap();
            mac.update(b"v1|t1|default|7|x = 1");
            hex_upper(&mac.finalize().into_bytes())
        },
    };
    verify(key, "t1", &payload).unwrap();
}

#[test]
fn verify_rejects_mismatched_version() {
    let key = b"k";
    let mut mac = HmacSha256::new_from_slice(key).unwrap();
    mac.update(b"v1|t1|default|7|");
    let sig = hex_upper(&mac.finalize().into_bytes());
    let payload = ConfigResponse {
        tenant_id: "t1".into(),
        group_id: "default".into(),
        version: 8, // wrong
        overlay_toml: "".into(),
        signature: sig,
    };
    assert!(verify(key, "t1", &payload).is_err());
}

#[test]
fn signature_covers_every_part() {
    let key = b"k";
    let sig = sign(key, b"v1|t1|default|7|x = 1");
    assert!(verify(key, "t1", &response(7, "x = 1", sig.clone())).is_ok());
    assert_eq!(verify(key, "t2", &response(7, "x = 1", sig.clone())), Err(PollError::SignatureMismatch));
    assert!(verify(key, "t1", &response(7, "x = 2", sig.clone())).is_err());
    assert!(verify(b"other", "t1", &response(7, "x = 1", sig.clone())).is_err());
    assert!(verify(key, "t1", &response(7, "x = 1", sig.to_lowercase())).is_err());
    assert!(verify(key, "t1", &response(7, "x = 1", String::new())).is_err());
}

#[test]
fn hex_is_upper_case() {
    assert_eq!(hex_upper(&[0x00, 0x0f, 0xa5, 0xff]), "000FA5FF");
    assert_eq!(hex_upper(&[]), "");
    let p = response(1, "", "0AFF".into());
    assert!(carries_signature(&p, &[0x0a, 0xff]));
    assert!(!carries_signature(&p, &[0x0a, 0xfe]));
}

#[test]
fn comparison_is_exact() {
    assert!(constant_time_eq(b"", b""));
    assert!(constant_time_eq(b"abc", b"abc"));
    assert!(!constant_time_eq(b"abc", b"abd"));
    assert!(!constant_time_eq(b"abc", b"ab"));
}

#[test]
fn polling_needs_a_url_and_a_key() {
    assert!(matches!(polling_key(&creds("t1", "")), PollingKey::Disabled));
    let mut local = creds("t1", "a2V5");
    local.base_url = String::new();
    assert!(matches!(polling_key(&local), PollingKey::Disabled));
    assert!(matches!(polling_key(&creds("t1", "not base64!")), PollingKey::Invalid));
    match polling_key(&creds("t1", "a2V5")) {
        PollingKey::Key(k) => assert_eq!(k, b"key"),
        other => panic!("{other:?}"),
    }
}

#[test]
fn poll_request_names_the_agent() {
    let (url, bearer) = poll_request(&creds("t1", "a2V5"));
    assert_eq!(url, "https://acme.example/api/agent/v1/config");
    assert_eq!(bearer, "agent-1:secret");
}

#[test]
fn decisions_about_a_config() {
    // the version that runs already
    assert_eq!(decide(&response(3, "x = 1", String::new()), 3, true), Step::Unchanged);
    // its effective file is gone
    assert_eq!(decide(&response(3, "x = 1", String::new()), 3, false), Step::Apply);
    // first contact with nothing to apply
    assert_eq!(decide(&response(1, " \n", String::new()), 0, false), Step::Record);
    // first contact in a group of its own
    let mut grouped = response(1, "", String::new());
    grouped.group_id = "edge".into();
    assert_eq!(decide(&grouped, 0, false), Step::Apply);
    // a new version
    assert_eq!(decide(&response(4, "", String::new()), 3, true), Step::Apply);
}

#[test]
fn review_falls_back_to_the_stored_tenant() {
    let key = b"k";
    let mut p = response(2, "x = 1", sign(key, b"v1|stored|default|2|x = 1"));
    p.tenant_id = String::new();
    assert_eq!(review(&creds("stored", ""), key, &p, 1, true), Ok(Step::Apply));
    assert_eq!(review(&creds("", ""), key, &p, 1, true), Err(PollError::NoTenant));
    assert_eq!(
        review(&creds("other", ""), key, &p, 1, true),
        Err(PollError::SignatureMismatch)
    );
    assert!(PollError::NoTenant.message().contains("no tenant id"));
    assert!(PollError::SignatureMismatch.message().contains("signature mismatch"));
}

#[test]
fn applied_version_starts_at_zero() {
    let mut v = AppliedVersion::new();
    assert_eq!(v.get(), 0);
    v.set(12);
    assert_eq!(v.get(), 12);
    assert_eq!(v.config_hash(), "12");
}

#[test]
fn effective_file_stands_beside_the_base() {
    let name = |base: &str| {
        effective_name(Path::new(base).file_stem().and_then(|s| s.to_str()))
    };
    assert_eq!(name("/etc/pulseagent/agent.toml"), "agent.effective.toml");
    assert_eq!(name("my.agent.toml"), "my.agent.effective.toml");
    assert_eq!(name("/"), "agent.effective.toml");
}
