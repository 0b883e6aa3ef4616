use listeria::dict::Dict;
use listeria::entity::{
    Entity, EntityStore, LatLon, LocalizedText, Snak, SnakDataType, SnakValue, Statement, TimeValue,
};
use listeria::listeria_list::ListeriaList;
use listeria::params::{SortMode, Template};
use listeria::result_row::ResultRow;
use listeria::order::{parse_amount, parse_moment, sortkey_le, text_le, KeyOrder};
use listeria::sort::{last_word, reverse_rows, sort_rows};

fn claim(property: &str, datatype: SnakDataType, value: Option<SnakValue>) -> Statement {
    Statement {
        main_snak: Snak { property: property.to_string(), datatype, value },
        qualifiers: vec![],
    }
}

fn entity(id: &str, label: Option<&str>, claims: Vec<Statement>) -> Entity {
    Entity {
        id: id.to_string(),
        labels: label
            .map(|l| vec![LocalizedText { language: "en".to_string(), text: l.to_string() }])
            .unwrap_or_default(),
        descriptions: vec![],
        sitelinks: vec![],
        claims,
        datatype: None,
    }
}

fn property(id: &str, datatype: SnakDataType) -> Entity {
    Entity { datatype: Some(datatype), ..entity(id, None, vec![]) }
}

fn time(t: &str) -> Option<SnakValue> {
    Some(SnakValue::Time(TimeValue { time: t.to_string(), precision: 11 }))
}

fn list(entities: Vec<Entity>, rows: &[&str], sort: SortMode) -> ListeriaList {
    let template = Template { title: "Wikidata list".to_string(), params: Dict::new() };
    let mut list = ListeriaList::new(template, "enwiki".to_string(), "en".to_string());
    list.entities = EntityStore { entities };
    list.results = rows.iter().map(|id| ResultRow::new(id)).collect();
    list.params.sort = sort;
    list
}

fn ids(list: &ListeriaList) -> Vec<String> {
    list.results.iter().map(|r| r.entity_id.clone()).collect()
}

fn keys(list: &ListeriaList) -> Vec<String> {
    list.results.iter().map(|r| r.sortkey.clone()).collect()
}

fn keyed(pairs: &[(&str, &str)]) -> Vec<ResultRow> {
    pairs
        .iter()
        .map(|(id, key)| ResultRow { sortkey: key.to_string(), ..ResultRow::new(id) })
        .collect()
}

#[test]
fn rows_sorted_by_time() {
    let entities = vec![
        property("P569", SnakDataType::Time),
        entity("Q1", None, vec![claim("P569", SnakDataType::Time, time("+2001-05-06T00:00:00Z"))]),
        entity("Q2", None, vec![claim("P569", SnakDataType::Time, time("+1999-12-31T00:00:00Z"))]),
        entity("Q3", None, vec![claim("P569", SnakDataType::Time, time("+2020-01-01T00:00:00Z"))]),
    ];
    let mut l = list(entities, &["Q1", "Q2", "Q3"], SortMode::Property("P569".to_string()));
    l.sort_results();
    assert_eq!(ids(&l), vec!["Q2", "Q1", "Q3"]);
    assert_eq!(
        keys(&l),
        vec!["+1999-12-31T00:00:00Z", "+2001-05-06T00:00:00Z", "+2020-01-01T00:00:00Z"]
    );
}

fn people() -> Vec<Entity> {
    vec![
        entity("Q1", Some("Marie Curie"), vec![]),
        entity("Q2", Some("Ada Lovelace"), vec![]),
        entity("Q3", Some("Pierre  Curie "), vec![]),
        entity("Q4", None, vec![]),
        entity("Q5", Some("Adele"), vec![]),
        entity("Q6", Some("Irene Curie"), vec![]),
    ]
}

#[test]
fn rows_sorted_by_label() {
    let mut l = list(people(), &["Q1", "Q2", "Q3", "Q4", "Q5", "Q6", "Q9"], SortMode::Label);
    l.sort_results();
    assert_eq!(ids(&l), vec!["Q4", "Q9", "Q2", "Q5", "Q6", "Q1", "Q3"]);
    assert_eq!(
        keys(&l),
        vec!["", "", "Ada Lovelace", "Adele", "Irene Curie", "Marie Curie", "Pierre  Curie "]
    );
}

#[test]
fn rows_sorted_by_family_name() {
    let mut l = list(people(), &["Q1", "Q2", "Q3", "Q4", "Q5", "Q6"], SortMode::FamilyName);
    l.sort_results();
    assert_eq!(ids(&l), vec!["Q4", "Q5", "Q1", "Q3", "Q6", "Q2"]);
    assert_eq!(keys(&l), vec!["", "Adele", "Curie", "Curie", "Curie", "Lovelace"]);
}

#[test]
fn descending_order_is_the_ascending_order_read_backwards() {
    for sort in [SortMode::Label, SortMode::FamilyName, SortMode::Property("P1".to_string())] {
        let rows = ["Q6", "Q1", "Q4", "Q2", "Q3", "Q5", "Q1"];
        let mut up = list(people(), &rows, sort.clone());
        up.sort_results();
        let mut down = list(people(), &rows, sort);
        down.params.sort_ascending = false;
        down.sort_results();
        let mut backwards = ids(&up);
        backwards.reverse();
        assert_eq!(ids(&down), backwards);
    }
    let mut down = list(people(), &["Q1", "Q2", "Q3", "Q4", "Q5", "Q6"], SortMode::FamilyName);
    down.params.sort_ascending = false;
    down.sort_results();
    assert_eq!(ids(&down), vec!["Q2", "Q6", "Q3", "Q1", "Q5", "Q4"]);
}

#[test]
fn without_a_sort_mode_nothing_moves() {
    for ascending in [true, false] {
        let mut l = list(people(), &["Q3", "Q1", "Q2"], SortMode::Unsorted);
        l.params.sort_ascending = ascending;
        l.results[0].sortkey = "kept".to_string();
        l.sort_results();
        assert_eq!(ids(&l), vec!["Q3", "Q1", "Q2"]);
        assert_eq!(keys(&l), vec!["kept", "", ""]);
    }
}

#[test]
fn rows_sorted_by_quantity() {
    let quantity = |a: &str| Some(SnakValue::Quantity(a.to_string()));
    let entities = vec![
        property("P1082", SnakDataType::Quantity),
        entity("Q1", None, vec![claim("P1082", SnakDataType::Quantity, quantity("1000"))]),
        entity("Q2", None, vec![claim("P1082", SnakDataType::Quantity, quantity("99"))]),
        entity("Q3", None, vec![claim("P1082", SnakDataType::Quantity, quantity("+250"))]),
        entity("Q4", None, vec![claim("P1082", SnakDataType::Quantity, quantity("12.5"))]),
        entity("Q5", None, vec![]),
        entity("Q6", None, vec![claim("P1082", SnakDataType::Quantity, quantity("-3"))]),
        entity("Q7", None, vec![claim("P1082", SnakDataType::Quantity, quantity("-12.75"))]),
        entity("Q8", None, vec![claim("P1082", SnakDataType::Quantity, quantity("+12.25"))]),
    ];
    let rows = ["Q1", "Q2", "Q3", "Q4", "Q5", "Q6", "Q7", "Q8"];
    let mut l = list(entities.clone(), &rows, SortMode::Property("P1082".to_string()));
    assert_eq!(l.get_key_order(), KeyOrder::Number);
    l.sort_results();
    assert_eq!(ids(&l), vec!["Q5", "Q7", "Q6", "Q8", "Q4", "Q2", "Q3", "Q1"]);
    assert_eq!(keys(&l), vec!["", "-12.75", "-3", "+12.25", "12.5", "99", "+250", "1000"]);

    let mut as_text = entities;
    as_text[0].datatype = Some(SnakDataType::String);
    let mut t = list(as_text, &rows, SortMode::Property("P1082".to_string()));
    assert_eq!(t.get_key_order(), KeyOrder::Text);
    t.sort_results();
    assert_eq!(ids(&t), vec!["Q5", "Q8", "Q3", "Q7", "Q6", "Q1", "Q4", "Q2"]);
}

#[test]
fn rows_sorted_by_item_string_and_monolingual_text() {
    let entities = vec![
        entity("Q10", Some("zebra"), vec![]),
        entity("Q1", None, vec![claim("P1", SnakDataType::WikibaseItem, Some(SnakValue::Entity("Q10".to_string())))]),
        entity("Q2", None, vec![claim("P1", SnakDataType::String, Some(SnakValue::StringValue("apple".to_string())))]),
        entity("Q3", None, vec![
            claim("P2", SnakDataType::String, Some(SnakValue::StringValue("aaa".to_string()))),
            claim("P1", SnakDataType::MonolingualText, Some(SnakValue::MonoLingual(LocalizedText { language: "en".to_string(), text: "mango".to_string() }))),
            claim("P1", SnakDataType::String, Some(SnakValue::StringValue("first claim wins".to_string()))),
        ]),
        entity("Q4", None, vec![claim("P1", SnakDataType::WikibaseItem, Some(SnakValue::Entity("Q11".to_string())))]),
        entity("Q5", None, vec![claim("P1", SnakDataType::WikibaseItem, None)]),
        entity("Q6", None, vec![claim("P1", SnakDataType::GlobeCoordinate, Some(SnakValue::Coordinate(LatLon::new("52.5".to_string(), "13.4".to_string()))))]),
    ];
    let mut l = list(entities, &["Q1", "Q2", "Q3", "Q4", "Q5", "Q6"], SortMode::Property("P1".to_string()));
    l.sort_results();
    assert_eq!(keys(&l), vec!["", "52.5/13.4", "Q11", "apple", "mango", "zebra"]);
    assert_eq!(ids(&l), vec!["Q5", "Q6", "Q4", "Q2", "Q3", "Q1"]);
}

#[test]
fn sort_keys_of_rows() {
    let l = list(people(), &[], SortMode::Label);
    assert_eq!(l.get_sortkey_label("Q1"), "Marie Curie");
    assert_eq!(l.get_sortkey_label("Q4"), "");
    assert_eq!(l.get_sortkey_label("Q9"), "");
    assert_eq!(l.get_sortkey_family_name("Q3"), "Curie");
    assert_eq!(l.get_sortkey_family_name("Q5"), "Adele");
    assert_eq!(l.get_sortkey_family_name("Q4"), "");
    assert_eq!(l.get_sortkey_prop("Q1", "P569"), "");
}

#[test]
fn last_words() {
    assert_eq!(last_word("Marie Curie"), "Curie");
    assert_eq!(last_word("Curie"), "Curie");
    assert_eq!(last_word("  Marie\tSklodowska\u{a0}Curie \n"), "Curie");
    assert_eq!(last_word(""), "");
    assert_eq!(last_word("   "), "");
    assert_eq!(last_word("a b c"), "c");
    for s in ["x y z", " x", "x ", "one", "", " \t ", "a\u{2003}b"] {
        assert_eq!(last_word(s), s.split_whitespace().last().unwrap_or(""));
    }
}

#[test]
fn order_of_texts() {
    let samples = ["", "a", "A", "ab", "b", "aa", "a ", "\u{e9}", "z", "10", "9", "\u{1F600}", "\u{ffff}"];
    for a in samples {
        for b in samples {
            assert_eq!(text_le(a, b), a <= b, "{:?} {:?}", a, b);
            assert_eq!(sortkey_le(a, b, KeyOrder::Text), a <= b);
        }
    }
}

#[test]
fn order_of_numbers() {
    let le = |a: &str, b: &str| sortkey_le(a, b, KeyOrder::Number);
    assert!(le("9", "10") && !le("10", "9"));
    assert!(!sortkey_le("9", "10", KeyOrder::Text));
    assert!(le("-10", "-9") && !le("-9", "-10"));
    assert!(le("-1", "0") && !le("0", "-1"));
    assert!(le("1.5", "1.25") == false && le("1.25", "1.5"));
    assert!(le("2", "10.5") && !le("10.5", "2"));
    assert!(le("-1.5", "-1.25") && !le("-1.25", "-1.5"));
    assert!(le("+42", "42") && le("42", "+42"));
    assert!(le("042", "42.0") && le("42.0", "042"));
    assert!(le("-0", "0") && le("0", "-0") && le("0.00", "+0"));
    assert!(le("18446744073709551616", "18446744073709551617"));
    assert!(!le("18446744073709551617", "18446744073709551616"));
    assert!(le("99999999999999999999", "100000000000000000000"));
    // what is no number comes before every number, in the order of texts
    assert!(le("", "-5") && !le("-5", ""));
    assert!(le("x", "0") && !le("0", "x"));
    assert!(le("1.2.3", "-1") && le("1e5", "-1") && le(".5", "0") && le("-", "0"));
    assert!(le("a", "b") && !le("b", "a"));
}

#[test]
fn numbers_as_they_are_read() {
    let text = |v: &Vec<char>| v.iter().collect::<String>();
    let d = parse_amount("-0012.3400");
    assert!(d.numeric && d.negative);
    assert_eq!((text(&d.whole), text(&d.fraction)), ("12".to_string(), "34".to_string()));
    let z = parse_amount("-0.0");
    assert!(z.numeric && !z.negative && z.whole.is_empty() && z.fraction.is_empty());
    let p = parse_amount("+7.");
    assert!(p.numeric && !p.negative);
    assert_eq!((text(&p.whole), text(&p.fraction)), ("7".to_string(), String::new()));
    let n = parse_amount("12a");
    assert!(!n.numeric && !n.negative);
    assert_eq!(text(&n.whole), "12a");
}

#[test]
fn order_of_times() {
    let le = |a: &str, b: &str| sortkey_le(a, b, KeyOrder::Time);
    assert!(le("+1999-12-31T00:00:00Z", "+2001-05-06T00:00:00Z"));
    assert!(!le("+2001-05-06T00:00:00Z", "+1999-12-31T00:00:00Z"));
    // years before the common era come first, the earlier the further back
    assert!(le("-0500-01-01T00:00:00Z", "+0500-01-01T00:00:00Z"));
    assert!(!le("+0500-01-01T00:00:00Z", "-0500-01-01T00:00:00Z"));
    assert!(le("-0500-01-01T00:00:00Z", "-0044-03-15T00:00:00Z"));
    assert!(!le("-0044-03-15T00:00:00Z", "-0500-01-01T00:00:00Z"));
    // within one year before the common era the months still run forward
    assert!(le("-0044-03-15T00:00:00Z", "-0044-04-01T00:00:00Z"));
    assert!(!le("-0044-04-01T00:00:00Z", "-0044-03-15T00:00:00Z"));
    // years of more than four digits
    assert!(le("+2020-01-01T00:00:00Z", "+10000-01-01T00:00:00Z"));
    assert!(!le("+10000-01-01T00:00:00Z", "+2020-01-01T00:00:00Z"));
    assert!(le("-13798000000-00-00T00:00:00Z", "-10000-01-01T00:00:00Z"));
    // months and days by their number, the time of day as text
    assert!(le("2001-2-1T", "2001-10-1T") && !le("2001-10-1T", "2001-2-1T"));
    assert!(le("+2001-05-06T00:00:00Z", "+2001-05-06T12:00:00Z"));
    assert!(!le("+2001-05-06T12:00:00Z", "+2001-05-06T00:00:00Z"));
    assert!(le("+2001-05-06T00:00:00Z", "2001-05-06T00:00:00Z"));
    assert!(le("2001-05-06T00:00:00Z", "+2001-05-06T00:00:00Z"));
    // what has no date comes first, in the order of texts
    assert!(le("", "-13798000000-00-00T00:00:00Z"));
    assert!(!le("-0500-01-01T00:00:00Z", "someday"));
    assert!(le("later", "someday") && !le("someday", "later"));
}

#[test]
fn times_as_they_are_read() {
    let text = |v: &Vec<char>| v.iter().collect::<String>();
    let m = parse_moment("-0044-03-15T10:20:30Z");
    assert!(m.dated && m.negative);
    assert_eq!(text(&m.year), "44");
    assert_eq!(text(&m.month), "3");
    assert_eq!(text(&m.day), "15");
    assert_eq!(text(&m.rest), "10:20:30Z");
    let z = parse_moment("-0000-00-00T");
    assert!(z.dated && !z.negative && z.year.is_empty() && z.month.is_empty() && z.day.is_empty());
    let u = parse_moment("2001-05");
    assert!(!u.dated && !u.negative);
    assert_eq!(text(&u.rest), "2001-05");
}

#[test]
fn rows_sorted_by_time_across_eras() {
    let entities = vec![
        property("P569", SnakDataType::Time),
        entity("Q1", None, vec![claim("P569", SnakDataType::Time, time("+2001-05-06T00:00:00Z"))]),
        entity("Q2", None, vec![claim("P569", SnakDataType::Time, time("-0044-03-15T00:00:00Z"))]),
        entity("Q3", None, vec![claim("P569", SnakDataType::Time, time("+12000-01-01T00:00:00Z"))]),
        entity("Q4", None, vec![claim("P569", SnakDataType::Time, time("-0500-01-01T00:00:00Z"))]),
        entity("Q5", None, vec![]),
    ];
    let mut l = list(entities, &["Q1", "Q2", "Q3", "Q4", "Q5"], SortMode::Property("P569".to_string()));
    assert_eq!(l.get_key_order(), KeyOrder::Time);
    l.sort_results();
    assert_eq!(ids(&l), vec!["Q5", "Q4", "Q2", "Q1", "Q3"]);
    l.params.sort_ascending = false;
    l.sort_results();
    assert_eq!(ids(&l), vec!["Q3", "Q1", "Q2", "Q4", "Q5"]);
}

#[test]
fn sort_is_stable() {
    let rows = keyed(&[("a", "2"), ("b", "1"), ("c", "2"), ("d", "1"), ("e", "02"), ("f", "")]);
    let by_text: Vec<String> = sort_rows(&rows, KeyOrder::Text).iter().map(|r| r.entity_id.clone()).collect();
    assert_eq!(by_text, vec!["f", "e", "b", "d", "a", "c"]);
    let by_number: Vec<String> = sort_rows(&rows, KeyOrder::Number).iter().map(|r| r.entity_id.clone()).collect();
    assert_eq!(by_number, vec!["f", "b", "d", "a", "c", "e"]);
    let by_time: Vec<String> = sort_rows(&rows, KeyOrder::Time).iter().map(|r| r.entity_id.clone()).collect();
    assert_eq!(by_time, by_text);
    let mut expected = rows.clone();
    expected.sort_by(|x, y| x.sortkey.cmp(&y.sortkey));
    let expected: Vec<String> = expected.iter().map(|r| r.entity_id.clone()).collect();
    assert_eq!(by_text, expected);
    assert!(sort_rows(&vec![], KeyOrder::Text).is_empty());
}

#[test]
fn reversed_rows() {
    let rows = keyed(&[("a", "1"), ("b", "2"), ("c", "3")]);
    let back: Vec<String> = reverse_rows(&rows).iter().map(|r| r.entity_id.clone()).collect();
    assert_eq!(back, vec!["c", "b", "a"]);
    assert!(reverse_rows(&vec![]).is_empty());
}
