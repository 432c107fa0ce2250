use cans::content::{alpine, chart_js, do_forloop, do_html, do_json, do_replace, do_text, do_xml};
use cans::json::{serialize, Value};

#[test]
fn no_pairs_leave_template_unchanged() {
    let t = "<p>{{a}} and {{b}}</p>";
    assert_eq!(do_replace(t, &[]), t);
    assert_eq!(do_replace("", &[]), "");
}

#[test]
fn later_pass_rewrites_earlier_output() {
    let r = do_replace("{{a}}{{b}}", &[("a", "{{b}}"), ("b", "X")]);
    assert_eq!(r, "XX");
}

#[test]
fn earlier_pass_does_not_see_later_output() {
    let r = do_replace("{{a}}{{b}}", &[("b", "{{a}}"), ("a", "X")]);
    assert_eq!(r, "XX");
    let r = do_replace("{{a}}", &[("b", "Y"), ("a", "{{b}}")]);
    assert_eq!(r, "{{b}}");
}

#[test]
fn unmatched_placeholder_passes_through() {
    assert_eq!(do_replace("Hi {{name}}", &[]), "Hi {{name}}");
    assert_eq!(do_replace("Hi {{name}}", &[("other", "x")]), "Hi {{name}}");
}

#[test]
fn every_occurrence_is_replaced() {
    let r = do_replace("{{x}}-{{x}}-{{x}}", &[("x", "7")]);
    assert_eq!(r, "7-7-7");
}

#[test]
fn replacement_scans_left_to_right_without_overlap() {
    assert_eq!(do_replace("{{{a}}}}", &[("a", "1")]), "{1}}");
    assert_eq!(do_replace("{{a}", &[("a", "1")]), "{{a}");
}

#[test]
fn html_and_xml_substitute_like_replace() {
    let template = "<p>Hello, {{name}}! Welcome to {{place}}.</p>";
    let r = do_html(template, &[("name", "Dear"), ("place", "CANS Template")]);
    assert_eq!(r, "<p>Hello, Dear! Welcome to CANS Template.</p>");
    let x = do_xml("<note><to>{{recipient}}</to></note>", &[("recipient", "Ahmed")]);
    assert_eq!(x, "<note><to>Ahmed</to></note>");
}

#[test]
fn json_substitution_serializes_values() {
    let t = r#"{"greeting": {{greeting}}, "n": {{n}}, "ok": {{ok}}, "xs": {{xs}}}"#;
    let r = do_json(
        t,
        &[
            ("greeting", Value::Text("Hi".to_string())),
            ("n", Value::Integer(-3)),
            ("ok", Value::Boolean(true)),
            ("xs", Value::Sequence(vec![Value::Integer(1), Value::Float("2.5".to_string())])),
        ],
    );
    assert_eq!(r, r#"{"greeting": "Hi", "n": -3, "ok": true, "xs": [1,2.5]}"#);
}

#[test]
fn forloop_joins_items() {
    let items = vec!["Apples", "Bananas", "Cherries"];
    let r = do_forloop(&items, "<ul>", "<li>", "</li>", "</ul>");
    assert_eq!(r, "<ul><li>Apples</li><li>Bananas</li><li>Cherries</li></ul>");
    let empty: Vec<&str> = vec![];
    assert_eq!(do_forloop(&empty, "", "", "", ""), "");
    assert_eq!(do_forloop(&empty, "<ul>", "<li>", "</li>", "</ul>"), "<ul></ul>");
    let html = cans::html::do_forloop(&["1", "2", "3"], "", "", "", "");
    assert_eq!(html, "123");
}

#[test]
fn text_and_script_tags() {
    assert_eq!(do_text("Home"), "Home");
    assert_eq!(cans::html::do_text("#000"), "#000");
    assert_eq!(
        alpine("3.15.0"),
        r#"<script defer src="https://unpkg.com/alpinejs@3.15.0/dist/cdn.min.js"></script>"#
    );
    assert_eq!(
        cans::html::alpine("latest"),
        r#"<script src="https://unpkg.com/alpinejs@latest/dist/cdn.min.js" defer></script>"#
    );
    assert_eq!(
        chart_js("4.2.1"),
        r#"<script src="https://cdn.jsdelivr.net/npm/chart.js@4.2.1/dist/chart.umd.min.js"></script>"#
    );
}

#[test]
fn serializer_quotes_and_escapes_text() {
    assert_eq!(serialize(&Value::Text("a\"b".to_string())), r#""a\"b""#);
    assert_eq!(serialize(&Value::Text("x\\y\n\t\u{1}é".to_string())), "\"x\\\\y\\n\\t\\u0001é\"");
    assert_eq!(serialize(&Value::Text(String::new())), "\"\"");
}

#[test]
fn serializer_sequences_and_scalars() {
    assert_eq!(serialize(&Value::Sequence(vec![Value::Integer(1), Value::Integer(2)])), "[1,2]");
    assert_eq!(serialize(&Value::Sequence(vec![])), "[]");
    let nested = Value::Sequence(vec![
        Value::Sequence(vec![Value::Boolean(false)]),
        Value::Text("s".to_string()),
        Value::Sequence(vec![]),
    ]);
    assert_eq!(serialize(&nested), r#"[[false],"s",[]]"#);
    assert_eq!(serialize(&Value::Integer(i64::MIN)), "-9223372036854775808");
    assert_eq!(serialize(&Value::Integer(0)), "0");
    assert_eq!(serialize(&Value::Integer(1200)), "1200");
    assert_eq!(serialize(&Value::Float(format!("{}", 1.5f64))), "1.5");
}
