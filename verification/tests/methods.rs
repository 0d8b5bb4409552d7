use nix_varlink_client::derivation::derivation_json;
use nix_varlink_client::derivation::translate_derivation_methods;
use nix_varlink_client::json::Json;

use harmonia_store_core::derivation::{Derivation, DerivationOutput};

fn parsed(text: &str) -> Json {
    Json::parse(text.as_bytes()).unwrap()
}

fn translated(text: &str) -> Json {
    let mut v = parsed(text);
    translate_derivation_methods(&mut v);
    v
}

#[test]
fn translates_recursive_method() {
    let mut v: Json =
        Json::parse(br#"{"outputs":{"out":{"method":"r","hashAlgo":"sha256"}}}"#).unwrap();
    translate_derivation_methods(&mut v);
    assert_eq!(v.get("outputs").unwrap().get("out").unwrap().get_str("method"), Some("nar"));
}

#[test]
fn leaves_text_method_alone() {
    let mut v: Json = Json::parse(br#"{"outputs":{"out":{"method":"text"}}}"#).unwrap();
    translate_derivation_methods(&mut v);
    assert_eq!(v.get("outputs").unwrap().get("out").unwrap().get_str("method"), Some("text"));
}

#[test]
fn translates_every_output_and_nothing_else() {
    let before = r#"{"env":{"method":"r"},"method":"r","outputs":{"dev":{"hashAlgo":"sha256","method":"r"},"doc":{"method":"flat"},"out":{"inner":{"method":"r"},"method":"r"}}}"#;
    let after = r#"{"env":{"method":"r"},"method":"r","outputs":{"dev":{"hashAlgo":"sha256","method":"nar"},"doc":{"method":"flat"},"out":{"inner":{"method":"r"},"method":"nar"}}}"#;
    assert_eq!(translated(before), parsed(after));
}

#[test]
fn translation_is_stable() {
    let text = r#"{"outputs":{"out":{"method":"r"}}}"#;
    let mut twice = translated(text);
    translate_derivation_methods(&mut twice);
    assert_eq!(twice, translated(text));
    assert_eq!(twice.get("outputs").unwrap().get("out").unwrap().get_str("method"), Some("nar"));
}

#[test]
fn translation_passes_over_other_shapes() {
    for text in [
        "null",
        "\"r\"",
        "[{\"outputs\":{\"out\":{\"method\":\"r\"}}}]",
        "{}",
        r#"{"outputs":[{"method":"r"}]}"#,
        r#"{"outputs":{"out":"r"}}"#,
        r#"{"outputs":{"out":{"method":["r"]}}}"#,
        r#"{"outputs":{"out":{"method":null}}}"#,
        r#"{"outputs":{"out":{"Method":"r"}}}"#,
    ] {
        assert_eq!(translated(text), parsed(text), "{}", text);
    }
}

#[test]
fn first_entry_counts_where_a_key_occurs_twice() {
    let output = |method: &str| {
        Json::object(vec![
            ("method".to_string(), Json::text(method)),
            ("method".to_string(), Json::text("r")),
        ])
    };
    let mut v = Json::object(vec![(
        "outputs".to_string(),
        Json::object(vec![("out".to_string(), output("r"))]),
    )]);
    translate_derivation_methods(&mut v);
    assert_eq!(v.get("outputs").unwrap().get("out"), Some(&output("nar")));
}

#[test]
fn derivation_becomes_a_normalized_document() {
    let mut drv = Derivation::new(
        "hello".parse().unwrap(),
        "x86_64-linux".into(),
        "/bin/sh".into(),
    );
    drv.outputs.insert(
        "out".parse().unwrap(),
        DerivationOutput::CAFloating("r:sha256".parse().unwrap()),
    );
    let json = derivation_json(&drv).unwrap();
    assert_eq!(json.get_str("name"), Some("hello"));
    assert_eq!(json.get_str("system"), Some("x86_64-linux"));
    assert_eq!(json.get_str("builder"), Some("/bin/sh"));
    assert_eq!(json.get("version"), Some(&parsed("4")));
    let out = json.get("outputs").unwrap().get("out").unwrap();
    assert_eq!(out.get_str("method"), Some("nar"));
    assert_eq!(out.get_str("hashAlgo"), Some("sha256"));
}

#[test]
fn derivation_that_is_not_text_has_no_document() {
    let drv = Derivation::new(
        "hello".parse().unwrap(),
        vec![0xffu8, 0xfe].into(),
        "/bin/sh".into(),
    );
    assert!(derivation_json(&drv).is_err());
}
