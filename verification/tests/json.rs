use pulseagent::json::parse;
use pulseagent::json::Json;
use pulseagent::strmap::Labels;
use pulseagent::signal::millis_of;
use pulseagent::signal::nanos_of;
use pulseagent::signal::now_ms;
use pulseagent::signal::now_ns;
use pulseagent::tomltree;

#[test]
fn json_is_read_as_it_is_written() {
    let v = parse(r#" {"a": [1, -2, 2.5, 18446744073709551615], "b": null, "c": "é\n", "a2": {}} "#)
        .unwrap();
    let list = v.get_array("a").unwrap();
    assert_eq!(list.len(), 4);
    assert_eq!(list[0].as_number().unwrap().as_u64(), Some(1));
    assert_eq!(list[1].as_number().unwrap().as_u64(), None);
    assert_eq!(list[1].as_number().unwrap().bits(), Some((-2.0f64).to_bits()));
    assert_eq!(list[2].as_number().unwrap().text(), "2.5");
    assert_eq!(list[3].as_number().unwrap().as_u64(), Some(u64::MAX));
    assert!(matches!(v.get("b"), Some(Json::Null)));
    assert_eq!(v.get_str("c").unwrap(), "é\n");
    assert!(v.get("z").is_none());
    assert!(parse("{").is_none());
    assert!(parse("").is_none());
}

#[test]
fn the_last_of_two_fields_counts() {
    let v = parse(r#"{"a": 1, "a": "two"}"#).unwrap();
    assert_eq!(v.get_str("a").unwrap(), "two");
}

#[test]
fn values_have_a_plain_text() {
    let plain = |s: &str| parse(s).unwrap().plain();
    assert_eq!(plain(r#""text""#), "text");
    assert_eq!(plain("5"), "5");
    assert_eq!(plain("true"), "true");
    assert_eq!(plain(r#"{"b":[1,{"x":null}]}"#), r#"{"b":[1,{"x":null}]}"#);
}

#[test]
fn toml_is_read_and_written() {
    let t = tomltree::parse("a = 1\n[b]\nc = \"x\"\n").unwrap();
    let text = tomltree::render(&t).unwrap();
    let back: toml::Value = toml::from_str(&text).unwrap();
    assert_eq!(back["a"].as_integer(), Some(1));
    assert_eq!(back["b"]["c"].as_str(), Some("x"));
    assert!(tomltree::parse("a = ").is_err());
}

#[test]
fn label_sets_hold_each_key_once() {
    let mut m = Labels::new();
    assert!(m.is_empty());
    assert_eq!(m.insert("a".into(), "1".into()), None);
    assert_eq!(m.insert("a".into(), "2".into()).as_deref(), Some("1"));
    assert_eq!(m.insert("b".into(), "3".into()), None);
    assert_eq!(m.len(), 2);
    assert_eq!(m.get("a").unwrap(), "2");
    let mut other = Labels::new();
    other.insert("b".into(), "4".into());
    other.insert("c".into(), "5".into());
    m.extend(&other);
    assert_eq!(m.len(), 3);
    assert_eq!(m.get("b").unwrap(), "4");
    assert_eq!(m.remove("a").as_deref(), Some("2"));
    assert_eq!(m.remove("a"), None);
    assert!(!m.contains_key("a"));
}

#[test]
fn clock_units_agree() {
    assert_eq!(millis_of(Some((1_700_000_000, 123_456_789))), 1_700_000_000_123);
    assert_eq!(nanos_of(Some((1_700_000_000, 123_456_789))), 1_700_000_000_123_456_789);
    // a clock before the epoch counts as zero
    assert_eq!(millis_of(None), 0);
    assert_eq!(nanos_of(None), 0);
    let before = now_ms();
    let ns = now_ns();
    assert!(ns / 1_000_000 >= before);
    assert!(before > 1_700_000_000_000);
}
