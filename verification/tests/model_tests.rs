use listeria::column::Column;
use listeria::dict::Dict;
use listeria::entity::{
    Entity, EntityStore, LocalizedText, SiteLink, Snak, SnakDataType, SnakValue, Statement,
};
use listeria::listeria_list::ListeriaList;
use listeria::params::{LinksType, Template};
use listeria::result::ResultCellPart;
use listeria::sparql::SparqlValue;

fn snak(property: &str, value: SnakValue) -> Snak {
    Snak { property: property.to_string(), datatype: SnakDataType::Other, value: Some(value) }
}

fn claim(property: &str, value: SnakValue, qualifiers: Vec<Snak>) -> Statement {
    Statement { main_snak: snak(property, value), qualifiers }
}

fn item(id: &str) -> SnakValue {
    SnakValue::Entity(id.to_string())
}

fn string(s: &str) -> SnakValue {
    SnakValue::StringValue(s.to_string())
}

fn store() -> EntityStore {
    EntityStore {
        entities: vec![
            Entity {
                id: "Q1".to_string(),
                labels: vec![
                    LocalizedText { language: "en".to_string(), text: "one".to_string() },
                    LocalizedText { language: "de".to_string(), text: "eins".to_string() },
                ],
                descriptions: vec![LocalizedText { language: "en".to_string(), text: "first".to_string() }],
                sitelinks: vec![SiteLink { site: "enwiki".to_string(), title: "One".to_string() }],
                claims: vec![
                    claim("P39", item("Q10"), vec![snak("P580", string("1990")), snak("P582", string("1994"))]),
                    claim("P31", item("Q5"), vec![]),
                    claim("P39", item("Q11"), vec![snak("P580", string("1995")), snak("P580", string("1996"))]),
                    claim("P39", string("none"), vec![]),
                ],
                datatype: None,
            },
            Entity {
                id: "Q2".to_string(),
                labels: vec![LocalizedText { language: "de".to_string(), text: "zwei".to_string() }],
                descriptions: vec![],
                sitelinks: vec![],
                claims: vec![],
                datatype: None,
            },
        ],
    }
}

fn binding_row(pairs: &[(&str, SparqlValue)]) -> Dict<SparqlValue> {
    let mut row: Dict<SparqlValue> = Dict::new();
    for (k, v) in pairs {
        row.insert(k.to_string(), v.clone());
    }
    row
}

fn list(columns: &[&str], one_row_per_item: bool) -> ListeriaList {
    let template = Template { title: "Wikidata list".to_string(), params: Dict::new() };
    let mut list = ListeriaList::new(template, "enwiki".to_string(), "en".to_string());
    list.columns = columns.iter().map(|c| Column::new(c)).collect();
    list.params.one_row_per_item = one_row_per_item;
    list.entities = store();
    list.sparql_first_variable = Some("item".to_string());
    list.sparql_rows = vec![
        binding_row(&[
            ("item", SparqlValue::Entity("Q1".to_string())),
            ("place", SparqlValue::Literal("here".to_string())),
        ]),
        binding_row(&[("item", SparqlValue::Literal("no entity".to_string()))]),
        binding_row(&[("item", SparqlValue::Entity("Q3".to_string()))]),
        binding_row(&[
            ("item", SparqlValue::Entity("Q1".to_string())),
            ("place", SparqlValue::Literal("there".to_string())),
        ]),
        binding_row(&[("place", SparqlValue::Literal("nowhere".to_string()))]),
        binding_row(&[("item", SparqlValue::Entity("Q2".to_string()))]),
    ];
    list
}

fn texts(parts: &Vec<ResultCellPart>) -> Vec<String> {
    parts
        .iter()
        .map(|p| match p {
            ResultCellPart::Number => "#".to_string(),
            ResultCellPart::Entity((id, true)) => format!("E+{}", id),
            ResultCellPart::Entity((id, false)) => format!("E-{}", id),
            ResultCellPart::Text(t) => format!("T:{}", t),
            ResultCellPart::SnakList(v) => format!("[{}]", texts(v).join(",")),
            other => format!("{:?}", other),
        })
        .collect()
}

fn ids(list: &ListeriaList) -> Vec<String> {
    list.results.iter().map(|r| r.entity_id.clone()).collect()
}

#[test]
fn one_row_per_binding_row() {
    let mut l = list(&["item", "?place"], false);
    l.generate_results();
    assert_eq!(ids(&l), vec!["Q1", "Q3", "Q1", "Q2"]);
    assert_eq!(texts(&l.results[0].cells[1].parts), vec!["T:here"]);
    assert_eq!(texts(&l.results[2].cells[1].parts), vec!["T:there"]);
    assert!(l.results[1].cells[1].parts.is_empty());
    for row in &l.results {
        assert_eq!(row.cells.len(), 2);
        assert_eq!(row.section, 0);
        assert_eq!(row.sortkey, "");
    }
}

#[test]
fn one_row_per_entity() {
    let mut l = list(&["item", "?place"], true);
    l.generate_results();
    assert_eq!(ids(&l), vec!["Q1", "Q3", "Q2"]);
    assert_eq!(texts(&l.results[0].cells[0].parts), vec!["E-Q1"]);
    assert_eq!(texts(&l.results[0].cells[1].parts), vec!["T:here", "T:there"]);
}

#[test]
fn local_link_style_leaves_out_entities_that_are_not_loaded() {
    let mut l = list(&["item"], true);
    l.params.links = LinksType::Local;
    l.generate_results();
    assert_eq!(ids(&l), vec!["Q1", "Q2"]);
    let mut m = list(&["item"], false);
    m.params.links = LinksType::Local;
    m.generate_results();
    assert_eq!(ids(&m), vec!["Q1", "Q1", "Q2"]);
}

#[test]
fn rows_without_a_first_variable() {
    let mut l = list(&["item"], true);
    l.sparql_first_variable = None;
    l.generate_results();
    assert!(l.results.is_empty());
    let mut m = list(&["item"], true);
    m.sparql_rows = vec![];
    m.generate_results();
    assert!(m.results.is_empty());
}

#[test]
fn cells_of_simple_columns() {
    let l = list(&[], true);
    let cell = |key: &str, id: &str| texts(&l.cell_for(&Column::new(key).obj, 0, id).parts);
    assert_eq!(cell("number", "Q1"), vec!["#"]);
    assert_eq!(cell("item", "Q1"), vec!["E-Q1"]);
    assert_eq!(cell("item", "Q9"), vec!["E-Q9"]);
    assert_eq!(cell("label", "Q1"), vec!["E+Q1"]);
    assert!(cell("label", "Q9").is_empty());
    assert_eq!(cell("description", "Q1"), vec!["T:first"]);
    assert!(cell("description", "Q2").is_empty());
    assert!(cell("description", "Q9").is_empty());
    assert!(cell("nonsense", "Q1").is_empty());
}

#[test]
fn label_in_language_falls_back_to_the_working_language() {
    let l = list(&[], true);
    let cell = |key: &str, id: &str| texts(&l.cell_for(&Column::new(key).obj, 0, id).parts);
    assert_eq!(cell("label/de", "Q1"), vec!["T:eins"]);
    assert_eq!(cell("label/fr", "Q1"), vec!["T:one"]);
    assert_eq!(cell("label/de", "Q2"), vec!["T:zwei"]);
    assert!(cell("label/fr", "Q2").is_empty());
    assert!(cell("label/de", "Q9").is_empty());
}

#[test]
fn cells_of_property_columns() {
    let l = list(&[], true);
    let cell = |key: &str, id: &str| texts(&l.cell_for(&Column::new(key).obj, 0, id).parts);
    assert_eq!(cell("P39", "Q1"), vec!["E+Q10", "E+Q11", "T:none"]);
    assert_eq!(cell("P31", "Q1"), vec!["E+Q5"]);
    assert!(cell("P17", "Q1").is_empty());
    assert!(cell("P39", "Q2").is_empty());
    assert!(cell("P39", "Q9").is_empty());
}

#[test]
fn cells_of_qualifier_columns() {
    let l = list(&[], true);
    let cell = |key: &str, id: &str| texts(&l.cell_for(&Column::new(key).obj, 0, id).parts);
    assert_eq!(
        cell("P39/P580", "Q1"),
        vec!["[E+Q10,T:1990]", "[E+Q11,T:1995]", "[E+Q11,T:1996]"]
    );
    assert_eq!(cell("P39/P582", "Q1"), vec!["[E+Q10,T:1994]"]);
    assert!(cell("P39/P585", "Q1").is_empty());
    assert!(cell("P31/P580", "Q1").is_empty());
    assert_eq!(cell("P39/Q11/P580", "Q1"), vec!["[E+Q11,T:1995]", "[E+Q11,T:1996]"]);
    assert_eq!(cell("P39/Q10/P582", "Q1"), vec!["[E+Q10,T:1994]"]);
    assert!(cell("P39/Q12/P580", "Q1").is_empty());
    assert!(cell("P39/Q11/P582", "Q1").is_empty());
}

#[test]
fn field_cells_read_only_their_own_rows() {
    let l = list(&[], false);
    let cell = |i: usize| texts(&l.cell_for(&Column::new("?place").obj, i, "Q1").parts);
    assert_eq!(cell(0), vec!["T:here"]);
    assert_eq!(cell(3), vec!["T:there"]);
    assert!(cell(2).is_empty());
    let grouped = list(&[], true);
    assert_eq!(
        texts(&grouped.cell_for(&Column::new("?place").obj, 3, "Q1").parts),
        vec!["T:here", "T:there"]
    );
    assert!(texts(&grouped.cell_for(&Column::new("?place").obj, 0, "Q2").parts).is_empty());
}

#[test]
fn entities_of_the_binding_rows() {
    let l = list(&[], true);
    assert_eq!(l.get_ids_from_sparql_rows(), vec!["Q1", "Q3", "Q2"]);
    assert_eq!(l.row_entity(0), Some("Q1"));
    assert_eq!(l.row_entity(1), None);
    assert_eq!(l.row_entity(4), None);
}

#[test]
fn template_sets_columns_options_and_language() {
    let mut params: Dict<String> = Dict::new();
    params.insert("columns".to_string(), "label:Name, P31 ,?x: X ,,number".to_string());
    params.insert("links".to_string(), "red_only".to_string());
    params.insert("language".to_string(), "DE".to_string());
    params.insert("sort".to_string(), "p569".to_string());
    params.insert("sort_order".to_string(), "DESC".to_string());
    let template = Template { title: "Wikidata list".to_string(), params };
    let mut l = ListeriaList::new(template, "enwiki".to_string(), "en".to_string());
    l.process_template();
    let labels: Vec<String> = l.columns.iter().map(|c| c.label.clone()).collect();
    assert_eq!(labels, vec!["Name", "P31", "X", "", "number"]);
    let keys: Vec<String> = l.columns.iter().map(|c| c.obj.as_key()).collect();
    assert_eq!(keys, vec!["label", "p31", "x", "unknown", "number"]);
    assert_eq!(l.params.links, LinksType::RedOnly);
    assert_eq!(l.language, "de");
    assert!(!l.params.sort_ascending);
    assert!(l.params.one_row_per_item);
    assert_eq!(l.get_links_type(), LinksType::RedOnly);
    assert_eq!(l.language(), "de");
}

#[test]
fn template_without_columns_has_the_item_column() {
    let template = Template { title: "Wikidata list".to_string(), params: Dict::new() };
    let mut l = ListeriaList::new(template, "enwiki".to_string(), "en".to_string());
    l.process_template();
    assert_eq!(l.columns.len(), 1);
    assert_eq!(l.columns[0].label, "item");
    assert_eq!(l.columns[0].obj.as_key(), "item");
    assert_eq!(l.params.links, LinksType::All);
    assert_eq!(l.language, "en");
}

#[test]
fn column_labels_from_loaded_entities() {
    let mut l = list(&["label:Name", "P31", "P39/P580"], true);
    l.entities.entities.push(Entity {
        id: "P31".to_string(),
        labels: vec![LocalizedText { language: "en".to_string(), text: "instance of".to_string() }],
        descriptions: vec![],
        sitelinks: vec![],
        claims: vec![],
        datatype: Some(SnakDataType::WikibaseItem),
    });
    l.generate_column_labels();
    let labels: Vec<String> = l.columns.iter().map(|c| c.label.clone()).collect();
    assert_eq!(labels, vec!["Name", "instance of", "P39/P580"]);
}
