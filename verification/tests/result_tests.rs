use listeria::dict::Dict;
use listeria::entity::{
    Entity, EntityStore, LatLon, LocalizedText, SiteLink, Snak, SnakDataType, SnakValue, Statement,
    TimeValue,
};
use listeria::listeria_list::ListeriaList;
use listeria::params::{LinksType, Template};
use listeria::result::{ResultCell, ResultCellPart};
use listeria::result_row::{ResultRow};
use listeria::sparql::SparqlValue;

fn list_on(wiki: &str, params: &[(&str, &str)]) -> ListeriaList {
    let mut dict: Dict<String> = Dict::new();
    for (k, v) in params {
        dict.insert(k.to_string(), v.to_string());
    }
    let template = Template { title: "Wikidata list".to_string(), params: dict };
    let mut list = ListeriaList::new(template, wiki.to_string(), "en".to_string());
    list.entities = EntityStore {
        entities: vec![
            Entity {
                id: "Q42".to_string(),
                labels: vec![
                    LocalizedText { language: "de".to_string(), text: "Douglas Adams (de)".to_string() },
                    LocalizedText { language: "en".to_string(), text: "Douglas Adams".to_string() },
                ],
                descriptions: vec![],
                sitelinks: vec![SiteLink { site: "enwiki".to_string(), title: "Douglas Adams".to_string() }],
                claims: vec![],
                datatype: None,
            },
            Entity {
                id: "P214".to_string(),
                labels: vec![],
                descriptions: vec![],
                sitelinks: vec![],
                claims: vec![
                    Statement {
                        main_snak: Snak {
                            property: "P1629".to_string(),
                            datatype: SnakDataType::WikibaseItem,
                            value: Some(SnakValue::Entity("Q54919".to_string())),
                        },
                        qualifiers: vec![],
                    },
                    Statement {
                        main_snak: Snak {
                            property: "P1630".to_string(),
                            datatype: SnakDataType::String,
                            value: Some(SnakValue::StringValue("https://viaf.org/viaf/$1/x/$1".to_string())),
                        },
                        qualifiers: vec![],
                    },
                ],
                datatype: Some(SnakDataType::ExternalId),
            },
        ],
    };
    list
}

fn entity(id: &str) -> ResultCellPart {
    ResultCellPart::Entity((id.to_string(), true))
}

fn text(s: &str) -> ResultCellPart {
    ResultCellPart::Text(s.to_string())
}

fn snak(property: &str, datatype: SnakDataType, value: Option<SnakValue>) -> Snak {
    Snak { property: property.to_string(), datatype, value }
}

#[test]
fn parts_from_bound_values() {
    assert!(matches!(
        ResultCellPart::from_sparql_value(&SparqlValue::Entity("Q1".to_string())),
        ResultCellPart::Entity((id, true)) if id == "Q1"
    ));
    assert!(matches!(
        ResultCellPart::from_sparql_value(&SparqlValue::File("a.jpg".to_string())),
        ResultCellPart::File(f) if f == "a.jpg"
    ));
    assert!(matches!(
        ResultCellPart::from_sparql_value(&SparqlValue::Uri("http://x".to_string())),
        ResultCellPart::Uri(u) if u == "http://x"
    ));
    assert!(matches!(
        ResultCellPart::from_sparql_value(&SparqlValue::Time("2001".to_string())),
        ResultCellPart::Text(t) if t == "2001"
    ));
    assert!(matches!(
        ResultCellPart::from_sparql_value(&SparqlValue::Location(LatLon::new("52.5".to_string(), "13.4".to_string()))),
        ResultCellPart::Location((lat, lon)) if lat == "52.5" && lon == "13.4"
    ));
    assert!(matches!(
        ResultCellPart::from_sparql_value(&SparqlValue::Literal("x".to_string())),
        ResultCellPart::Text(t) if t == "x"
    ));
}

#[test]
fn parts_from_snaks() {
    let e = snak("P31", SnakDataType::WikibaseItem, Some(SnakValue::Entity("Q5".to_string())));
    assert!(matches!(ResultCellPart::from_snak(&e), ResultCellPart::Entity((id, true)) if id == "Q5"));
    let f = snak("P18", SnakDataType::CommonsMedia, Some(SnakValue::StringValue("a.jpg".to_string())));
    assert!(matches!(ResultCellPart::from_snak(&f), ResultCellPart::File(n) if n == "a.jpg"));
    let x = snak("P214", SnakDataType::ExternalId, Some(SnakValue::StringValue("113230702".to_string())));
    assert!(matches!(
        ResultCellPart::from_snak(&x),
        ResultCellPart::ExternalId((p, id)) if p == "P214" && id == "113230702"
    ));
    let s = snak("P1477", SnakDataType::String, Some(SnakValue::StringValue("birth name".to_string())));
    assert!(matches!(ResultCellPart::from_snak(&s), ResultCellPart::Text(t) if t == "birth name"));
    let q = snak("P2048", SnakDataType::Quantity, Some(SnakValue::Quantity("1.96".to_string())));
    assert!(matches!(ResultCellPart::from_snak(&q), ResultCellPart::Text(t) if t == "1.96"));
    let t = snak(
        "P569",
        SnakDataType::Time,
        Some(SnakValue::Time(TimeValue { time: "+1952-03-11T00:00:00Z".to_string(), precision: 11 })),
    );
    assert!(matches!(ResultCellPart::from_snak(&t), ResultCellPart::Time(d) if d == "1952-03-11"));
    let c = snak(
        "P625",
        SnakDataType::GlobeCoordinate,
        Some(SnakValue::Coordinate(LatLon::new("52.5".to_string(), "13.4".to_string()))),
    );
    assert!(matches!(
        ResultCellPart::from_snak(&c),
        ResultCellPart::Location((lat, lon)) if lat == "52.5" && lon == "13.4"
    ));
    let m = snak(
        "P1476",
        SnakDataType::MonolingualText,
        Some(SnakValue::MonoLingual(LocalizedText { language: "en".to_string(), text: "Title".to_string() })),
    );
    assert!(matches!(ResultCellPart::from_snak(&m), ResultCellPart::Text(t) if t == "en:Title"));
    let n = snak("P31", SnakDataType::WikibaseItem, None);
    assert!(matches!(ResultCellPart::from_snak(&n), ResultCellPart::Text(t) if t == "No/unknown value"));
}

fn reduced(time: &str, precision: u64) -> String {
    ResultCellPart::reduce_time(&TimeValue { time: time.to_string(), precision })
}

#[test]
fn times_at_their_precision() {
    let t = "+1952-03-11T00:00:00Z";
    assert_eq!(reduced(t, 6), "th millenium");
    assert_eq!(reduced(t, 7), "1th century");
    assert_eq!(reduced(t, 8), "190s");
    assert_eq!(reduced(t, 9), "1952");
    assert_eq!(reduced(t, 10), "1952-03");
    assert_eq!(reduced(t, 11), "1952-03-11");
    assert_eq!(reduced(t, 12), t);
    assert_eq!(reduced(t, 0), t);
    assert_eq!(reduced("+12345-06-07T00:00:00Z", 6), "1th millenium");
    assert_eq!(reduced("+12345-06-07T00:00:00Z", 7), "12th century");
    assert_eq!(reduced("+12345-06-07T00:00:00Z", 8), "1230s");
}

#[test]
fn times_before_the_common_era_keep_their_sign() {
    assert_eq!(reduced("-0044-03-15T00:00:00Z", 9), "-0044");
    assert_eq!(reduced("+-0044-03-15T00:00:00Z", 11), "-0044-03-15");
    assert_eq!(reduced("-0044-03-15T00:00:00Z", 7), "-0th century");
    assert_eq!(reduced("-0044-03-15T00:00:00Z", 6), "-th millenium");
}

#[test]
fn times_with_short_years_are_cut_to_nothing() {
    assert_eq!(reduced("+99-01-01T", 6), "th millenium");
    assert_eq!(reduced("+99-01-01T", 7), "th century");
    assert_eq!(reduced("+99-01-01T", 8), "0s");
    assert_eq!(reduced("+9-01-01T", 8), "0s");
}

#[test]
fn times_that_begin_with_no_date_stay_as_they_are() {
    for t in ["", "1952", "+1952-03-11", "1952-03-11 00:00", "March 1952", "+1952-003-11T"] {
        assert_eq!(reduced(t, 9), t);
    }
}

#[test]
fn number_part_counts_from_one() {
    let list = list_on("enwiki", &[]);
    assert_eq!(ResultCellPart::Number.as_wikitext(&list, 0, 0, 0), "style='text-align:right'| 1");
    assert_eq!(ResultCellPart::Number.as_wikitext(&list, 41, 3, 2), "style='text-align:right'| 42");
    assert_eq!(
        ResultCellPart::Number.as_wikitext(&list, usize::MAX, 0, 0),
        format!("style='text-align:right'| {}", usize::MAX as u128 + 1)
    );
}

#[test]
fn entity_part_under_each_link_style() {
    let mut list = list_on("enwiki", &[]);
    let part = entity("Q42");
    assert_eq!(part.as_wikitext(&list, 0, 0, 0), "''[[:d:Q42|Douglas Adams]]''");
    list.params.links = LinksType::Local;
    assert_eq!(part.as_wikitext(&list, 0, 0, 0), "''[[:d:Q42|Douglas Adams]]''");
    list.params.links = LinksType::Text;
    assert_eq!(part.as_wikitext(&list, 0, 0, 0), "Douglas Adams");
    list.params.links = LinksType::Reasonator;
    assert_eq!(
        part.as_wikitext(&list, 0, 0, 0),
        "[https://reasonator.toolforge.org/?q=Q42 Douglas Adams]"
    );
    list.params.links = LinksType::Red;
    assert_eq!(part.as_wikitext(&list, 0, 0, 0), "[[Douglas Adams]]");
    list.params.links = LinksType::RedOnly;
    assert_eq!(part.as_wikitext(&list, 0, 0, 0), "[[Douglas Adams]]");
    list.set_local_page("Douglas Adams".to_string(), true);
    assert_eq!(part.as_wikitext(&list, 0, 0, 0), "''[[:d:Q42|Douglas Adams]]''");
    list.set_local_page("Douglas Adams".to_string(), false);
    assert_eq!(part.as_wikitext(&list, 0, 0, 0), "[[Douglas Adams]]");
}

#[test]
fn entity_part_without_label_or_localization() {
    let mut list = list_on("enwiki", &[]);
    list.params.links = LinksType::Text;
    assert_eq!(entity("Q1").as_wikitext(&list, 0, 0, 0), "''[[:d:Q1|Q1]]''");
    assert_eq!(
        ResultCellPart::Entity(("Q42".to_string(), false)).as_wikitext(&list, 0, 0, 0),
        "''[[:d:Q42|Q42]]''"
    );
    list.language = "fr".to_string();
    assert_eq!(entity("Q42").as_wikitext(&list, 0, 0, 0), "''[[:d:Q42|Q42]]''");
}

#[test]
fn local_link_part() {
    let list = list_on("enwiki", &[]);
    let same = ResultCellPart::LocalLink(("Douglas Adams".to_string(), "Douglas Adams".to_string()));
    assert_eq!(same.as_wikitext(&list, 0, 0, 0), "[[Douglas Adams]]");
    let first_letter = ResultCellPart::LocalLink(("Apple".to_string(), "apple".to_string()));
    assert_eq!(first_letter.as_wikitext(&list, 0, 0, 0), "[[apple]]");
    let other = ResultCellPart::LocalLink(("Douglas Adams".to_string(), "Adams".to_string()));
    assert_eq!(other.as_wikitext(&list, 0, 0, 0), "[[Douglas Adams|Adams]]");
    let case = ResultCellPart::LocalLink(("iPod".to_string(), "IPOD".to_string()));
    assert_eq!(case.as_wikitext(&list, 0, 0, 0), "[[iPod|IPOD]]");
}

#[test]
fn page_titles_begin_in_upper_case() {
    let list = list_on("enwiki", &[]);
    assert_eq!(list.normalize_page_title("apple pie"), "Apple pie");
    assert_eq!(list.normalize_page_title("Apple"), "Apple");
    assert_eq!(list.normalize_page_title("a"), "a");
    assert_eq!(list.normalize_page_title(""), "");
    assert_eq!(list.normalize_page_title("\u{e9}cole"), "\u{c9}cole");
}

#[test]
fn location_part_on_each_wiki() {
    let part = ResultCellPart::Location(("52.5".to_string(), "13.4".to_string()));
    assert_eq!(part.as_wikitext(&list_on("enwiki", &[]), 0, 0, 0), "{{Coord|52.5|13.4|display=inline}}");
    assert_eq!(part.as_wikitext(&list_on("wikidatawiki", &[]), 0, 0, 0), "52.5/13.4");
    assert_eq!(
        part.as_wikitext(&list_on("commonswiki", &[]), 0, 0, 0),
        "{{Inline coordinates|52.5|13.4|display=inline}}"
    );
    assert_eq!(
        part.as_wikitext(&list_on("dewiki", &[]), 0, 0, 0),
        "{{Coordinate|text=DMS|NS=52.5|EW=13.4|name=|simple=y|type=landmark|region=}}"
    );
}

#[test]
fn file_part_uses_the_thumbnail_width() {
    let part = ResultCellPart::File("Douglas adams.jpg".to_string());
    assert_eq!(
        part.as_wikitext(&list_on("enwiki", &[]), 0, 0, 0),
        "[[File:Douglas adams.jpg|thumb|128px|]]"
    );
    assert_eq!(
        part.as_wikitext(&list_on("enwiki", &[("thumb", "64")]), 0, 0, 0),
        "[[File:Douglas adams.jpg|thumb|64px|]]"
    );
    assert_eq!(
        part.as_wikitext(&list_on("enwiki", &[("thumb", "wide")]), 0, 0, 0),
        "[[File:Douglas adams.jpg|thumb|128px|]]"
    );
    assert_eq!(list_on("enwiki", &[("thumb", "0")]).thumbnail_size(), 0);
}

#[test]
fn external_id_part() {
    let list = list_on("enwiki", &[]);
    let known = ResultCellPart::ExternalId(("P214".to_string(), "113%2F230".to_string()));
    assert_eq!(
        known.as_wikitext(&list, 0, 0, 0),
        "[https://viaf.org/viaf/113/230/x/113/230 113%2F230]"
    );
    let unknown = ResultCellPart::ExternalId(("P999".to_string(), "abc".to_string()));
    assert_eq!(unknown.as_wikitext(&list, 0, 0, 0), "abc");
    let undecodable = ResultCellPart::ExternalId(("P214".to_string(), "%FF".to_string()));
    assert_eq!(undecodable.as_wikitext(&list, 0, 0, 0), "%FF");
    assert_eq!(list.formatter_url("P214"), Some("https://viaf.org/viaf/$1/x/$1"));
    assert_eq!(list.formatter_url("Q42"), None);
    assert_eq!(list.external_id_url("P214", "7").as_deref(), Some("https://viaf.org/viaf/7/x/7"));
}

#[test]
fn formatter_is_filled_from_left_to_right() {
    assert_eq!(ListeriaList::fill_formatter("a$1b$1", "X"), "aXbX");
    assert_eq!(ListeriaList::fill_formatter("$$1$", "$1"), "$$1$");
    assert_eq!(ListeriaList::fill_formatter("no place", "X"), "no place");
    assert_eq!(ListeriaList::fill_formatter("", "X"), "");
    assert_eq!(ListeriaList::fill_formatter("$1", ""), "");
    for (formatter, id) in [("$1$1$", "ab"), ("$$11", "$"), ("x$1", "$1$1"), ("$", "1")] {
        assert_eq!(ListeriaList::fill_formatter(formatter, id), formatter.replace("$1", id));
    }
}

#[test]
fn plain_parts_are_written_as_they_are() {
    let list = list_on("enwiki", &[]);
    assert_eq!(ResultCellPart::Time("1952-03".to_string()).as_wikitext(&list, 0, 0, 0), "1952-03");
    assert_eq!(ResultCellPart::Uri("http://x/y".to_string()).as_wikitext(&list, 0, 0, 0), "http://x/y");
    assert_eq!(text("a\nb").as_wikitext(&list, 0, 0, 0), "a\nb");
}

#[test]
fn values_shown_together_are_joined_by_a_dash() {
    let list = list_on("enwiki", &[]);
    let part = ResultCellPart::SnakList(vec![
        entity("Q42"),
        text("x"),
        ResultCellPart::SnakList(vec![text("y"), text("z")]),
    ]);
    assert_eq!(
        part.as_wikitext(&list, 0, 0, 0),
        "''[[:d:Q42|Douglas Adams]]'' \u{2014} x \u{2014} y \u{2014} z"
    );
    assert_eq!(ResultCellPart::SnakList(vec![]).as_wikitext(&list, 0, 0, 0), "");
    assert_eq!(ResultCellPart::SnakList(vec![text("only")]).as_wikitext(&list, 0, 0, 0), "only");
}

#[test]
fn cell_parts_are_joined_by_line_breaks() {
    let list = list_on("enwiki", &[]);
    let cell = ResultCell { parts: vec![text("a"), text("b"), ResultCellPart::Number] };
    assert_eq!(cell.as_wikitext(&list, 4, 0), "a<br/>b<br/>style='text-align:right'| 5");
    assert_eq!(
        cell.as_tabbed_data(&list, 4, 0).as_str(),
        Some("a<br/>b<br/>style='text-align:right'| 5")
    );
}

#[test]
fn cell_without_parts_is_the_empty_text() {
    let list = list_on("enwiki", &[]);
    let cell = ResultCell::new();
    assert!(cell.parts.is_empty());
    assert_eq!(cell.as_wikitext(&list, 0, 0), "");
    let data = cell.as_tabbed_data(&list, 0, 0);
    assert_eq!(data.as_str(), Some(""));
    assert_eq!(data.to_text(), "\"\"");
}

#[test]
fn data_parts_are_made_safe() {
    let list = list_on("enwiki", &[]);
    assert_eq!(text("a\nb\tc\r").as_tabbed_data(&list, 0, 0, 0), "a b c\r");
    let long = "x".repeat(500);
    assert_eq!(text(&long).as_tabbed_data(&list, 0, 0, 0), "x".repeat(380));
    let exact = "\u{e9}".repeat(380);
    assert_eq!(text(&exact).as_tabbed_data(&list, 0, 0, 0), exact);
    let over = "\u{e9}".repeat(381);
    assert_eq!(text(&over).as_tabbed_data(&list, 0, 0, 0), exact);
    assert_eq!(ResultCellPart::Number.tabbed_string_safe("\n\n".to_string()), "  ");
}

#[test]
fn new_row_has_no_cells() {
    let row = ResultRow::new("Q42");
    assert_eq!(row.entity_id, "Q42");
    assert!(row.cells.is_empty());
    assert_eq!(row.section, 0);
    assert_eq!(row.sortkey, "");
    let copy = row.clone();
    assert_eq!(copy.entity_id, "Q42");
}
