use cans::json::{AttrValue, Kind, ParseJson};

fn text(s: &str) -> AttrValue {
    AttrValue::Text(s.to_string())
}

fn rendered(p: &ParseJson) -> Vec<(String, String)> {
    let mut all = p.get_all();
    all.sort();
    all
}

#[test]
fn get_checks_the_type() {
    let mut p = ParseJson::new();
    p.set("k".to_string(), AttrValue::Integer(42));
    assert!(p.get("k", Kind::Text).is_none());
    assert!(matches!(p.get("k", Kind::Integer), Some(AttrValue::Integer(42))));
    assert!(p.get("missing", Kind::Integer).is_none());
}

#[test]
fn set_overwrites_any_type() {
    let mut p = ParseJson::new();
    p.set("k".to_string(), AttrValue::Unsigned(1));
    p.set("k".to_string(), text("one"));
    assert!(p.get("k", Kind::Unsigned).is_none());
    assert!(matches!(p.get("k", Kind::Text), Some(AttrValue::Text(s)) if s == "one"));
    assert_eq!(p.get_all().len(), 1);
}

#[test]
fn put_replaces_and_patch_merges() {
    let mut p = ParseJson::new();
    p.set("a".to_string(), AttrValue::Unsigned(1));
    p.set("b".to_string(), AttrValue::Unsigned(2));
    p.patch(vec![("b".to_string(), text("x")), ("c".to_string(), AttrValue::Boolean(true))]);
    assert_eq!(
        rendered(&p),
        vec![
            ("a".to_string(), "1".to_string()),
            ("b".to_string(), "x".to_string()),
            ("c".to_string(), "true".to_string()),
        ]
    );
    p.put(vec![("z".to_string(), AttrValue::Unsigned(9))]);
    assert_eq!(rendered(&p), vec![("z".to_string(), "9".to_string())]);
}

#[test]
fn delete_and_delete_all() {
    let mut p = ParseJson::new();
    p.set("a".to_string(), AttrValue::Unsigned(1));
    p.set("b".to_string(), AttrValue::Unsigned(2));
    p.delete("a");
    p.delete("nothing");
    assert_eq!(rendered(&p), vec![("b".to_string(), "2".to_string())]);
    p.delete_all();
    assert!(p.get_all().is_empty());
}

#[test]
fn set_all_skips_malformed_pairs() {
    let mut p = ParseJson::new();
    p.set_all(r#"{ "a": 1, bad, "b": "x" }"#);
    assert_eq!(
        rendered(&p),
        vec![("a".to_string(), "1".to_string()), ("b".to_string(), "x".to_string())]
    );
    assert!(matches!(p.get("a", Kind::Unsigned), Some(AttrValue::Unsigned(1))));
    assert!(matches!(p.get("b", Kind::Text), Some(AttrValue::Text(s)) if s == "x"));
}

#[test]
fn set_all_classifies_values() {
    let mut p = ParseJson::new();
    p.set_all(r#"{ "key1": 42, "key2": "hello", "key3": true, "f": -2.5e3, "g": false, "h": null, "big": 4294967296, "p": +7 }"#);
    assert!(matches!(p.get("key1", Kind::Unsigned), Some(AttrValue::Unsigned(42))));
    assert!(matches!(p.get("key2", Kind::Text), Some(AttrValue::Text(s)) if s == "hello"));
    assert!(matches!(p.get("key3", Kind::Boolean), Some(AttrValue::Boolean(true))));
    assert!(matches!(p.get("g", Kind::Boolean), Some(AttrValue::Boolean(false))));
    assert!(matches!(p.get("f", Kind::Float), Some(AttrValue::Float(s)) if s == "-2.5e3"));
    assert!(matches!(p.get("h", Kind::Text), Some(AttrValue::Text(s)) if s == "(unsupported type)"));
    assert!(matches!(p.get("big", Kind::Float), Some(AttrValue::Float(s)) if s == "4294967296"));
    assert!(matches!(p.get("p", Kind::Unsigned), Some(AttrValue::Unsigned(7))));
}

#[test]
fn set_all_float_forms() {
    let mut p = ParseJson::new();
    p.set_all(r#"{ "a": .5, "b": 5., "c": inf, "d": NaN, "e": 1e, "f": ., "g": -0 }"#);
    assert!(p.get("a", Kind::Float).is_some());
    assert!(p.get("b", Kind::Float).is_some());
    assert!(p.get("c", Kind::Float).is_some());
    assert!(p.get("d", Kind::Float).is_some());
    assert!(p.get("e", Kind::Text).is_some());
    assert!(p.get("f", Kind::Text).is_some());
    assert!(p.get("g", Kind::Float).is_some());
}

#[test]
fn set_all_needs_braces_and_single_colon() {
    let mut p = ParseJson::new();
    p.set_all(r#" "a": 1 "#);
    assert!(p.get_all().is_empty());
    p.set_all("{}");
    assert!(p.get_all().is_empty());
    p.set_all(r#"{ "u": "http://x", "k": "v" }"#);
    assert_eq!(rendered(&p), vec![("k".to_string(), "v".to_string())]);
}

#[test]
fn get_all_marks_unknown_types() {
    let mut p = ParseJson::new();
    p.set("i".to_string(), AttrValue::Integer(-1));
    p.set("f".to_string(), AttrValue::Float("0.25".to_string()));
    assert_eq!(
        rendered(&p),
        vec![
            ("f".to_string(), "0.25".to_string()),
            ("i".to_string(), "(unknown type)".to_string()),
        ]
    );
}

#[test]
fn debug_form_lists_entries() {
    let mut p = ParseJson::new();
    assert_eq!(p.to_debug_string(), "{}");
    p.set("s".to_string(), text("v"));
    p.set("n".to_string(), AttrValue::Unsigned(3));
    p.set("i".to_string(), AttrValue::Integer(3));
    assert_eq!(
        p.to_debug_string(),
        r#"{"s": "v", "n": 3, "i": "(unknown type)"}"#
    );
}

#[test]
fn get_text_renders_one_value() {
    let mut p = ParseJson::new();
    p.set("n".to_string(), AttrValue::Unsigned(42));
    p.set("b".to_string(), AttrValue::Boolean(false));
    assert_eq!(p.get_text("n"), Some("42".to_string()));
    assert_eq!(p.get_text("b"), Some("false".to_string()));
    assert_eq!(p.get_text("absent"), None);
}
