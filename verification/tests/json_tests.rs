use listeria::json::{Json, JsonNumber};
use listeria::text::integer_string;
use listeria::sparql::{parse_sparql_text, SparqlError};

fn to_serde(j: &Json) -> serde_json::Value {
    match j {
        Json::Null => serde_json::Value::Null,
        Json::Bool(b) => serde_json::Value::Bool(*b),
        Json::Number(JsonNumber::Unsigned(n)) => serde_json::Value::from(*n),
        Json::Number(JsonNumber::Negative(n)) => serde_json::Value::from(*n),
        Json::Number(JsonNumber::Real(t)) => serde_json::from_str(t).unwrap(),
        Json::Text(t) => serde_json::Value::String(t.clone()),
        Json::Array(a) => serde_json::Value::Array(a.iter().map(to_serde).collect()),
        Json::Object(m) => {
            let mut o = serde_json::Map::new();
            for (k, v) in m {
                o.insert(k.clone(), to_serde(v));
            }
            serde_json::Value::Object(o)
        }
    }
}

fn sample() -> Json {
    Json::Object(vec![
        ("a".to_string(), Json::Array(vec![
            Json::Null,
            Json::Bool(true),
            Json::Bool(false),
            Json::Number(JsonNumber::Unsigned(0)),
            Json::Number(JsonNumber::Unsigned(u64::MAX)),
            Json::Number(JsonNumber::Negative(-1)),
            Json::Number(JsonNumber::Negative(i64::MIN)),
            Json::Array(vec![]),
            Json::Object(vec![]),
        ])),
        ("b \"quoted\" \\ /".to_string(), Json::Text("line\nbreak\ttab\r\u{8}\u{c}\u{0}\u{1f}\u{7f}\u{e9}\u{1F600}".to_string())),
        ("c".to_string(), Json::Object(vec![("d".to_string(), Json::Text(String::new()))])),
    ])
}

#[test]
fn documents_are_written_without_white_space() {
    assert_eq!(Json::Null.to_text(), "null");
    assert_eq!(Json::Bool(true).to_text(), "true");
    assert_eq!(Json::Bool(false).to_text(), "false");
    assert_eq!(Json::Number(JsonNumber::Unsigned(42)).to_text(), "42");
    assert_eq!(Json::Number(JsonNumber::Negative(-42)).to_text(), "-42");
    assert_eq!(Json::Number(JsonNumber::Negative(7)).to_text(), "7");
    assert_eq!(Json::Number(JsonNumber::Real("1.5e3".to_string())).to_text(), "1500.0");
    assert_eq!(Json::Number(JsonNumber::Real("-0.25".to_string())).to_text(), "-0.25");
    assert_eq!(Json::Number(JsonNumber::Real("no number".to_string())).to_text(), "null");
    assert_eq!(Json::Text("a".to_string()).to_text(), "\"a\"");
    assert_eq!(Json::Array(vec![]).to_text(), "[]");
    assert_eq!(Json::Object(vec![]).to_text(), "{}");
    assert_eq!(
        Json::Array(vec![Json::Null, Json::Array(vec![Json::Bool(true)])]).to_text(),
        "[null,[true]]"
    );
    assert_eq!(
        Json::Object(vec![("k".to_string(), Json::Number(JsonNumber::Unsigned(1))), ("l".to_string(), Json::Null)]).to_text(),
        "{\"k\":1,\"l\":null}"
    );
    assert_eq!(
        Json::Object(vec![("z".to_string(), Json::Null), ("a".to_string(), Json::Bool(true))]).to_text(),
        "{\"a\":true,\"z\":null}"
    );
}

#[test]
fn strings_are_escaped() {
    let quote = |s: &str| Json::Text(s.to_string()).to_text();
    assert_eq!(quote(""), "\"\"");
    assert_eq!(quote("a\"b"), "\"a\\\"b\"");
    assert_eq!(quote("a\\b"), "\"a\\\\b\"");
    assert_eq!(quote("\n\r\t\u{8}\u{c}"), "\"\\n\\r\\t\\b\\f\"");
    assert_eq!(quote("\u{0}\u{1}\u{1f}\u{b}"), "\"\\u0000\\u0001\\u001f\\u000b\"");
    assert_eq!(quote("/\u{7f}\u{e9}"), "\"/\u{7f}\u{e9}\"");
}

#[test]
fn integers_in_decimal_notation() {
    for n in [0, 1, -1, 9, 10, -10, 123456789, i64::MAX, i64::MIN, i64::MIN + 1] {
        assert_eq!(integer_string(n), n.to_string());
    }
}

#[test]
fn documents_are_written_as_the_serializer_writes_them() {
    let j = sample();
    assert_eq!(j.to_text(), serde_json::to_string(&to_serde(&j)).unwrap());
    let back: serde_json::Value = serde_json::from_str(&j.to_text()).unwrap();
    assert_eq!(back, to_serde(&j));
}

#[test]
fn members_and_values() {
    let j = sample();
    assert!(j.get("a").is_some());
    assert!(j.get("A").is_none());
    assert_eq!(j.get("c").unwrap().get_str("d"), Some(""));
    assert_eq!(j.get_str("a"), None);
    assert_eq!(j.get("a").unwrap().as_array().unwrap().len(), 9);
    assert_eq!(j.as_object().unwrap().len(), 3);
    assert!(j.as_array().is_none());
    assert!(Json::Null.get("a").is_none());
    assert!(Json::Null.as_object().is_none());
    let a = j.get("a").unwrap().as_array().unwrap();
    assert_eq!(a[1].as_bool(), Some(true));
    assert_eq!(a[3].as_u64(), Some(0));
    assert_eq!(a[5].as_u64(), None);
    assert_eq!(a[0].as_bool(), None);
    assert_eq!(Json::Text("t".to_string()).as_str(), Some("t"));
    let twice = Json::Object(vec![
        ("k".to_string(), Json::Bool(true)),
        ("k".to_string(), Json::Bool(false)),
    ]);
    assert_eq!(twice.get("k").unwrap().as_bool(), Some(false));
    assert_eq!(twice.to_text(), "{\"k\":false}");
}

#[test]
fn parsed_numbers_keep_their_kind() {
    let text = r#"{"head":{"vars":[1]},"results":{"bindings":[]}}"#;
    assert!(matches!(parse_sparql_text(text), Err(SparqlError::BadFirstVariable)));
    let nested = r#"{"head":{"vars":["v"]},"results":{"bindings":[{"v":{"type":"literal","value":"x","datatype":-1.5}}]}}"#;
    let table = parse_sparql_text(nested).unwrap();
    assert_eq!(table.rows.len(), 1);
}
