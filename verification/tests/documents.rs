use nix_varlink_client::json::Json;
use nix_varlink_client::text::appended;
use nix_varlink_client::text::same_text;
use nix_varlink_client::value::from_value;
use nix_varlink_client::value::into_value;
use nix_varlink_client::value::is_plain;
use nix_varlink_client::value::MAX_NESTING;

#[test]
fn reads_every_kind_of_value() {
    let json = Json::parse(br#" {"a":null,"b":[true,-1.5,"x"],"c":{"d":18446744073709551615}} "#)
        .unwrap();
    assert_eq!(json.get("a"), Some(&Json::Null));
    match json.get("b") {
        Some(Json::Array(items)) => {
            assert_eq!(items.len(), 3);
            assert_eq!(items[0], Json::Bool(true));
            assert!(matches!(&items[1], Json::Number(n) if n.as_f64() == Some(-1.5)));
            assert_eq!(items[2], Json::text("x"));
        }
        other => panic!("{:?}", other),
    }
    assert!(matches!(
        json.get("c").unwrap().get("d"),
        Some(Json::Number(n)) if n.as_u64() == Some(u64::MAX)
    ));
}

#[test]
fn keys_come_in_ascending_order_and_once() {
    let json = Json::parse("{\"b\":1,\"a\":2,\"\u{e9}\":3,\"ab\":4,\"b\":5}".as_bytes()).unwrap();
    match &json {
        Json::Object(entries) => {
            let keys: Vec<&str> = entries.iter().map(|e| e.0.as_str()).collect();
            assert_eq!(keys, ["a", "ab", "b", "\u{e9}"]);
        }
        other => panic!("{:?}", other),
    }
    assert!(matches!(json.get("b"), Some(Json::Number(n)) if n.as_u64() == Some(5)));
}

#[test]
fn refuses_what_is_not_json() {
    for bytes in [&b""[..], b"{", b"{}x", b"nul", b"\"\xff\"", b"[1,]"] {
        assert!(Json::parse(bytes).is_err(), "{:?}", bytes);
    }
}

#[test]
fn writes_compact_text_without_zero_bytes() {
    let json = Json::object(vec![
        ("k\u{0}".to_string(), Json::text("a\u{0}\n\"\u{e9}")),
        ("z".to_string(), Json::Array(vec![Json::Null, Json::Bool(false)])),
    ]);
    let text = json.to_vec().unwrap();
    assert_eq!(
        String::from_utf8(text).unwrap(),
        "{\"k\\u0000\":\"a\\u0000\\n\\\"\u{e9}\",\"z\":[null,false]}"
    );
}

#[test]
fn text_is_read_back_as_the_document() {
    let doc = || {
        Json::object(vec![
            ("".to_string(), Json::Array(vec![])),
            ("m".to_string(), Json::Array(vec![Json::Number(i64::MIN.into()), Json::Number((-1i64).into())])),
            ("n".to_string(), Json::Number(u64::MAX.into())),
            ("s".to_string(), Json::text("\u{0}\u{1f600}\\")),
        ])
    };
    assert!(is_plain(&doc(), MAX_NESTING));
    let text = doc().to_vec().unwrap();
    assert_eq!(Json::parse(&text).unwrap(), doc());
}

#[test]
fn text_is_read_back_to_the_deepest_level() {
    let nested = |levels: usize| {
        let mut doc = Json::Null;
        for _ in 0..levels {
            doc = Json::Array(vec![doc]);
        }
        doc
    };
    let deepest = nested(127).to_vec().unwrap();
    assert_eq!(Json::parse(&deepest).unwrap(), nested(127));
    let deeper = nested(128).to_vec().unwrap();
    assert!(Json::parse(&deeper).is_err());
}

#[test]
fn plain_documents() {
    let plain = |text: &str, levels: usize| is_plain(&Json::parse(text.as_bytes()).unwrap(), levels);
    assert!(plain("null", 0) && plain("true", 0) && plain("\"x\"", 0));
    assert!(plain("0", 0) && plain("-9223372036854775808", 0) && plain("18446744073709551615", 0));
    assert!(!plain("1.0", 9) && !plain("-0", 9) && !plain("18446744073709551616", 9));
    assert!(!plain("[]", 0) && plain("[]", 1) && !plain("{}", 0) && plain("{}", 1));
    assert!(plain("{\"a\":[1,{\"b\":-2}]}", 3) && !plain("{\"a\":[1,{\"b\":-2}]}", 2));
    assert!(!plain("[1,[2.5]]", 9) && !plain("{\"a\":1,\"b\":0.5}", 9));
}

#[test]
fn members_are_found_in_objects_alone() {
    let json = Json::parse(br#"{"a":{"b":"c"},"n":1}"#).unwrap();
    assert_eq!(json.get("a").unwrap().get_str("b"), Some("c"));
    assert_eq!(json.get("x"), None);
    assert_eq!(json.get_str("a"), None);
    assert_eq!(json.get_str("n"), None);
    assert_eq!(Json::text("a").get("a"), None);
    assert_eq!(Json::Array(vec![Json::Null]).get("0"), None);
    assert_eq!(Json::text("a").as_str(), Some("a"));
    assert_eq!(Json::Null.as_str(), None);
    assert_eq!(json.into_member("a"), Some(Json::object(vec![("b".to_string(), Json::text("c"))])));
    assert_eq!(Json::Bool(true).into_member("a"), None);
}

#[test]
fn values_convert_both_ways() {
    let text = r#"{"a":[1,{"b":null}],"c":"d"}"#;
    let value: serde_json::Value = serde_json::from_str(text).unwrap();
    let json = from_value(value.clone());
    assert_eq!(json, Json::parse(text.as_bytes()).unwrap());
    assert_eq!(into_value(json), value);
}

#[test]
fn text_helpers() {
    assert!(same_text("", ""));
    assert!(same_text("\u{e9}", "\u{e9}"));
    assert!(!same_text("e", "\u{e9}"));
    assert!(!same_text("a", "ab"));
    assert_eq!(appended("ab", ""), "ab");
    assert_eq!(appended("a", "\u{e9}"), "a\u{e9}");
}
