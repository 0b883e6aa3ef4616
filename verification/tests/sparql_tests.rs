use listeria::json::{Json, JsonNumber};
use listeria::sparql::{
    parse_sparql_results, parse_sparql_text, SparqlError, SparqlTable, SparqlValue,
};
use regex::Regex;

fn binding(kind: &str, value: &str, datatype: Option<&str>) -> Json {
    let mut members = vec![
        ("type".to_string(), Json::Text(kind.to_string())),
        ("value".to_string(), Json::Text(value.to_string())),
    ];
    if let Some(d) = datatype {
        members.push(("datatype".to_string(), Json::Text(d.to_string())));
    }
    Json::Object(members)
}

const WKT: &str = "http://www.opengis.net/ont/geosparql#wktLiteral";
const DATE_TIME: &str = "http://www.w3.org/2001/XMLSchema#dateTime";

#[test]
fn entity_uri_is_an_entity() {
    let v = SparqlValue::new_from_json(&binding("uri", "https://www.wikidata.org/entity/Q42", None));
    assert!(matches!(v, Some(SparqlValue::Entity(id)) if id == "Q42"));
    let w = SparqlValue::new_from_json(&binding("uri", "http://www.wikidata.org/entity/P31", None));
    assert!(matches!(w, Some(SparqlValue::Entity(id)) if id == "P31"));
}

#[test]
fn point_literal_is_a_location() {
    let v = SparqlValue::new_from_json(&binding("literal", "Point(13.4 52.5)", Some(WKT)));
    match v {
        Some(SparqlValue::Location(l)) => {
            assert_eq!(l.lat, "52.5");
            assert_eq!(l.lon, "13.4");
            let lat: f64 = l.lat.parse().unwrap();
            let lon: f64 = l.lon.parse().unwrap();
            assert_eq!(lat, 52.5);
            assert_eq!(lon, 13.4);
        }
        _ => panic!("a point is a location"),
    }
}

#[test]
fn point_with_negative_coordinates() {
    let v = SparqlValue::from_literal("Point(-0.1275 -51.50)", Some(WKT));
    assert!(matches!(v, Some(SparqlValue::Location(l)) if l.lat == "-51.50" && l.lon == "-0.1275"));
}

#[test]
fn point_of_whole_numbers() {
    let v = SparqlValue::from_literal("Point(7 52.5)", Some(WKT));
    assert!(matches!(v, Some(SparqlValue::Location(l)) if l.lat == "52.5" && l.lon == "7"));
    let w = SparqlValue::from_literal("Point(1 -2)", Some(WKT));
    assert!(matches!(w, Some(SparqlValue::Location(l)) if l.lat == "-2" && l.lon == "1"));
}

#[test]
fn malformed_points_have_no_value() {
    for text in [
        "Point(13.4,52.5)", "Point(13.4 52.5", "point(13.4 52.5)", "Point(13.4  52.5)",
        "Point(1.2.3 4.5)", "Point(.5 1.5)", "Point(13.4 52.5) ", "Point()",
        "Point(a b)", "", "Point(1.5 -)",
    ] {
        assert!(SparqlValue::from_literal(text, Some(WKT)).is_none(), "{:?}", text);
    }
}

#[test]
fn points_are_read_as_pattern_and_number_parser_read_them() {
    let point = Regex::new(r#"^Point\((-{0,1}\d[\.0-9]*) (-{0,1}\d[\.0-9]*)\)$"#).unwrap();
    let samples = [
        "Point(13.4 52.5)", "Point(-13.4 -52.5)", "Point(13 52)", "Point(1 2)", "Point(10 20)",
        "Point(1. 2.)", "Point(1.. 2.5)", "Point(1.2.3 4.5)", "Point(--1.5 2.5)", "Point(1.5 2.5 3.5)",
        "Point(1.5  2.5)", "Point( 1.5 2.5)", "Point(1.5 2.5))", "Point(0.0 0.0)", "Point(00 00)",
        "Point(1e5 2.5)", "Point(+1.5 2.5)", "Point(1.5 -2.5)", "Point(12345678901234567890.5 1.5)",
    ];
    for s in samples {
        let expected = match point.captures(s) {
            Some(c) => {
                let lat = c.get(2).unwrap().as_str();
                let lon = c.get(1).unwrap().as_str();
                if lat.parse::<f64>().is_ok() && lon.parse::<f64>().is_ok() {
                    Some((lat.to_string(), lon.to_string()))
                } else {
                    None
                }
            }
            None => None,
        };
        let got = match SparqlValue::from_literal(s, Some(WKT)) {
            Some(SparqlValue::Location(l)) => Some((l.lat, l.lon)),
            Some(_) => panic!("a point is a location or nothing"),
            None => None,
        };
        assert_eq!(got, expected, "point {:?}", s);
    }
}

#[test]
fn file_uri_is_a_decoded_file_name() {
    let v = SparqlValue::from_uri(
        "http://commons.wikimedia.org/wiki/Special:FilePath/Douglas%20adams_portrait%20cropped.jpg",
    );
    assert!(matches!(v, Some(SparqlValue::File(f)) if f == "Douglas adams portrait cropped.jpg"));
    let w = SparqlValue::from_uri("https://commons.wikimedia.org/wiki/Special:FilePath/A_b.png");
    assert!(matches!(w, Some(SparqlValue::File(f)) if f == "A b.png"));
}

#[test]
fn file_name_that_cannot_be_decoded_has_no_value() {
    let v = SparqlValue::from_uri("http://commons.wikimedia.org/wiki/Special:FilePath/%FF%FE.jpg");
    assert!(v.is_none());
}

#[test]
fn file_named_replaces_underscores() {
    assert!(matches!(SparqlValue::file_named("a_b__c"), SparqlValue::File(f) if f == "a b  c"));
    assert!(matches!(SparqlValue::file_named(""), SparqlValue::File(f) if f.is_empty()));
}

#[test]
fn other_uri_is_kept() {
    for uri in [
        "https://example.org/x",
        "https://www.wikidata.org/entity/q42",
        "https://www.wikidata.org/entity/Q",
        "https://www.wikidata.org/entity/Q42x",
        "ftp://www.wikidata.org/entity/Q42",
        "https://www.wikidata.org/entity/Q42 ",
        "http://commons.wikimedia.org/wiki/Special:FilePath/",
        "",
    ] {
        let v = SparqlValue::from_uri(uri);
        assert!(matches!(v, Some(SparqlValue::Uri(u)) if u == uri), "{:?}", uri);
    }
}

#[test]
fn uris_are_read_as_the_patterns_read_them() {
    let entity = Regex::new(r#"^https{0,1}://www.wikidata.org/entity/([A-Z]\d+)$"#).unwrap();
    let file =
        Regex::new(r#"^https{0,1}://commons.wikimedia.org/wiki/Special:FilePath/(.+?)$"#).unwrap();
    let samples = [
        "http://www.wikidata.org/entity/Q1", "https://www.wikidata.org/entity/L123",
        "https://wwwxwikidata-org/entity/Q1", "https://www\nwikidata.org/entity/Q1",
        "httpss://www.wikidata.org/entity/Q1", "http://www.wikidata.org/entity/Q1/",
        "https://www.wikidata.org/entity/1", "https://commons.wikimedia.org/wiki/Special:FilePath/x",
        "http://commonsXwikimediaYorg/wiki/Special:FilePath/a.jpg",
        "https://commons.wikimedia.org/wiki/Special:FilePath/a\nb", "https://commons.wikimedia.org/",
        "https://commons.wikimedia.org/wiki/special:filepath/a.jpg", "x",
    ];
    for s in samples {
        let expected = if let Some(c) = entity.captures(s) {
            format!("entity {}", c.get(1).unwrap().as_str())
        } else if let Some(c) = file.captures(s) {
            format!("file {}", c.get(1).unwrap().as_str())
        } else {
            format!("uri {}", s)
        };
        let got = match SparqlValue::from_uri(s) {
            Some(SparqlValue::Entity(id)) => format!("entity {}", id),
            Some(SparqlValue::File(f)) => format!("file {}", f),
            Some(SparqlValue::Uri(u)) => format!("uri {}", u),
            _ => "none".to_string(),
        };
        assert_eq!(got, expected, "uri {:?}", s);
    }
}

#[test]
fn time_literal_is_a_time() {
    let v = SparqlValue::new_from_json(&binding("literal", "2001-12-31T00:00:00Z", Some(DATE_TIME)));
    assert!(matches!(v, Some(SparqlValue::Time(t)) if t == "2001-12-31T00:00:00Z"));
}

#[test]
fn untyped_literal_is_a_literal() {
    let v = SparqlValue::new_from_json(&binding("literal", "Douglas Adams", None));
    assert!(matches!(v, Some(SparqlValue::Literal(t)) if t == "Douglas Adams"));
}

#[test]
fn datatype_that_is_no_string_counts_as_absent() {
    let j = Json::Object(vec![
        ("type".to_string(), Json::Text("literal".to_string())),
        ("value".to_string(), Json::Text("x".to_string())),
        ("datatype".to_string(), Json::Number(JsonNumber::Unsigned(1))),
    ]);
    assert!(matches!(SparqlValue::new_from_json(&j), Some(SparqlValue::Literal(t)) if t == "x"));
}

#[test]
fn unclassifiable_bindings_have_no_value() {
    assert!(SparqlValue::new_from_json(&binding("bnode", "b0", None)).is_none());
    assert!(SparqlValue::new_from_json(&binding("literal", "5", Some("http://www.w3.org/2001/XMLSchema#integer"))).is_none());
    assert!(SparqlValue::new_from_json(&Json::Object(vec![("type".to_string(), Json::Text("uri".to_string()))])).is_none());
    assert!(SparqlValue::new_from_json(&Json::Object(vec![("value".to_string(), Json::Text("x".to_string()))])).is_none());
    assert!(SparqlValue::new_from_json(&Json::Null).is_none());
    assert!(SparqlValue::new_from_json(&Json::Text("uri".to_string())).is_none());
}

fn document(vars: Json, bindings: Json) -> Json {
    Json::Object(vec![
        ("head".to_string(), Json::Object(vec![("vars".to_string(), vars)])),
        ("results".to_string(), Json::Object(vec![("bindings".to_string(), bindings)])),
    ])
}

fn item_row(id: &str, label: &str) -> Json {
    Json::Object(vec![
        ("item".to_string(), binding("uri", &format!("http://www.wikidata.org/entity/{}", id), None)),
        ("label".to_string(), binding("literal", label, None)),
    ])
}

fn entity_of(table: &SparqlTable, i: usize) -> String {
    match table.rows[i].get(&table.main_variable) {
        Some(SparqlValue::Entity(id)) => id.clone(),
        _ => panic!("row {} is about an entity", i),
    }
}

#[test]
fn result_document_keeps_rows_in_order() {
    let doc = document(
        Json::Array(vec![Json::Text("item".to_string()), Json::Text("label".to_string())]),
        Json::Array(vec![
            item_row("Q3", "c"),
            item_row("Q1", "a"),
            Json::Object(vec![]),
            item_row("Q3", "c"),
            Json::Null,
            item_row("Q2", "b"),
        ]),
    );
    let table = parse_sparql_results(&doc).unwrap();
    assert_eq!(table.main_variable, "item");
    assert_eq!(table.rows.len(), 4);
    let ids: Vec<String> = (0..4).map(|i| entity_of(&table, i)).collect();
    assert_eq!(ids, vec!["Q3", "Q1", "Q3", "Q2"]);
    assert!(matches!(table.rows[1].get("label"), Some(SparqlValue::Literal(l)) if l == "a"));
    assert!(table.rows[1].get("other").is_none());
}

#[test]
fn result_document_without_variables_is_refused() {
    let bindings = Json::Array(vec![]);
    let no_head = Json::Object(vec![(
        "results".to_string(),
        Json::Object(vec![("bindings".to_string(), Json::Array(vec![]))]),
    )]);
    assert!(matches!(parse_sparql_results(&no_head), Err(SparqlError::BadHead)));
    assert!(matches!(
        parse_sparql_results(&document(Json::Array(vec![]), bindings)),
        Err(SparqlError::BadHead)
    ));
    assert!(matches!(
        parse_sparql_results(&document(Json::Text("item".to_string()), Json::Array(vec![]))),
        Err(SparqlError::BadHead)
    ));
    assert!(matches!(
        parse_sparql_results(&document(Json::Array(vec![Json::Bool(true)]), Json::Array(vec![]))),
        Err(SparqlError::BadFirstVariable)
    ));
}

#[test]
fn result_document_without_bindings_is_refused() {
    let vars = Json::Array(vec![Json::Text("item".to_string())]);
    let doc = Json::Object(vec![("head".to_string(), Json::Object(vec![("vars".to_string(), vars)]))]);
    assert!(matches!(parse_sparql_results(&doc), Err(SparqlError::BadBindings)));
    let other = document(Json::Array(vec![Json::Text("item".to_string())]), Json::Object(vec![]));
    assert!(matches!(parse_sparql_results(&other), Err(SparqlError::BadBindings)));
}

#[test]
fn one_unclassifiable_value_fails_the_document() {
    let doc = document(
        Json::Array(vec![Json::Text("item".to_string())]),
        Json::Array(vec![
            item_row("Q1", "a"),
            Json::Object(vec![
                ("item".to_string(), binding("uri", "http://www.wikidata.org/entity/Q2", None)),
                ("odd".to_string(), binding("bnode", "b0", None)),
                ("worse".to_string(), Json::Null),
            ]),
        ]),
    );
    assert!(matches!(parse_sparql_results(&doc), Err(SparqlError::BadValue(v)) if v == "odd"));
}

#[test]
fn result_text_is_parsed_and_read() {
    let text = r#"{"head":{"vars":["item","when"]},"results":{"bindings":[
        {"item":{"type":"uri","value":"http://www.wikidata.org/entity/Q42"},
         "when":{"type":"literal","datatype":"http://www.w3.org/2001/XMLSchema#dateTime","value":"1952-03-11T00:00:00Z"}},
        {}
    ]}}"#;
    let table = parse_sparql_text(text).unwrap();
    assert_eq!(table.main_variable, "item");
    assert_eq!(table.rows.len(), 1);
    assert_eq!(entity_of(&table, 0), "Q42");
    assert!(matches!(table.rows[0].get("when"), Some(SparqlValue::Time(t)) if t == "1952-03-11T00:00:00Z"));
}

#[test]
fn result_text_that_is_no_document_is_refused() {
    assert!(matches!(parse_sparql_text("{\"head\":"), Err(SparqlError::NotJson(m)) if !m.is_empty()));
    assert!(matches!(parse_sparql_text(""), Err(SparqlError::NotJson(_))));
    assert!(matches!(parse_sparql_text("[]"), Err(SparqlError::BadHead)));
}
