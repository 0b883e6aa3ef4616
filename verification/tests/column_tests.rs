use listeria::column::{Column, ColumnType};
use listeria::entity::{Entity, EntityStore, LocalizedText};
use listeria::dict::Dict;
use listeria::listeria_list::ListeriaList;
use listeria::params::Template;

fn entity_with_label(id: &str, language: &str, label: &str) -> Entity {
    Entity {
        id: id.to_string(),
        labels: vec![LocalizedText { language: language.to_string(), text: label.to_string() }],
        descriptions: vec![],
        sitelinks: vec![],
        claims: vec![],
        datatype: None,
    }
}

fn empty_list() -> ListeriaList {
    let template = Template { title: "Wikidata list".to_string(), params: Dict::new() };
    ListeriaList::new(template, "enwiki".to_string(), "en".to_string())
}

#[test]
fn property_with_label() {
    let c = Column::new("P31:instance of");
    assert!(matches!(&c.obj, ColumnType::Property(p) if p == "P31"));
    assert_eq!(c.label, "instance of");
}

#[test]
fn keywords_in_any_case() {
    assert!(matches!(ColumnType::new("number"), ColumnType::Number));
    assert!(matches!(ColumnType::new("NUMBER"), ColumnType::Number));
    assert!(matches!(ColumnType::new("Label"), ColumnType::Label));
    assert!(matches!(ColumnType::new("dEsCription"), ColumnType::Description));
    assert!(matches!(ColumnType::new("ITEM"), ColumnType::Item));
}

#[test]
fn label_in_language_is_lower_case() {
    assert!(matches!(ColumnType::new("label/DE"), ColumnType::LabelLang(l) if l == "de"));
    assert!(matches!(ColumnType::new("LABEL/pt-BR"), ColumnType::LabelLang(l) if l == "pt-br"));
    assert!(matches!(ColumnType::new("label/"), ColumnType::Unknown));
}

#[test]
fn property_identifier_is_upper_case() {
    assert!(matches!(ColumnType::new("p31"), ColumnType::Property(p) if p == "P31"));
    assert!(matches!(ColumnType::new("P31"), ColumnType::Property(p) if p == "P31"));
    assert!(matches!(ColumnType::new("P"), ColumnType::Unknown));
    assert!(matches!(ColumnType::new("P3x"), ColumnType::Unknown));
    assert!(matches!(ColumnType::new(" P31"), ColumnType::Unknown));
}

#[test]
fn resolving_a_resolved_property_changes_nothing() {
    for text in ["p1", "P569", "p000", "P18"] {
        let first = ColumnType::new(text);
        let id = match &first {
            ColumnType::Property(p) => p.clone(),
            _ => panic!("{} is a property", text),
        };
        assert_eq!(id, text.to_uppercase());
        let second = ColumnType::new(&id);
        assert!(matches!(second, ColumnType::Property(p) if p == id));
    }
}

#[test]
fn property_with_qualifier() {
    let c = ColumnType::new(" p39 / P580 ");
    assert!(matches!(c, ColumnType::PropertyQualifier((p, q)) if p == "P39" && q == "P580"));
    assert!(matches!(ColumnType::new("P39/Q5"), ColumnType::Unknown));
}

#[test]
fn property_with_qualifier_of_value() {
    let c = ColumnType::new("p39/q11696 / p580");
    assert!(matches!(
        c,
        ColumnType::PropertyQualifierValue((p, q, v)) if p == "P39" && q == "Q11696" && v == "P580"
    ));
    assert!(matches!(ColumnType::new("P39/P11696/P580"), ColumnType::Unknown));
    assert!(matches!(ColumnType::new("P1/Q2/P3/P4"), ColumnType::Unknown));
}

#[test]
fn field_keeps_its_case() {
    assert!(matches!(ColumnType::new("?birthPlace"), ColumnType::Field(f) if f == "birthPlace"));
    assert!(matches!(ColumnType::new("?"), ColumnType::Unknown));
}

#[test]
fn malformed_key_degrades_to_unknown_with_text_as_label() {
    let c = Column::new("  what is this  ");
    assert!(matches!(c.obj, ColumnType::Unknown));
    assert_eq!(c.label, "what is this");
    let empty = Column::new("");
    assert!(matches!(empty.obj, ColumnType::Unknown));
    assert_eq!(empty.label, "");
}

#[test]
fn column_without_label_uses_its_text() {
    let c = Column::new(" item ");
    assert!(matches!(c.obj, ColumnType::Item));
    assert_eq!(c.label, "item");
}

#[test]
fn column_label_is_what_follows_the_first_colon() {
    let c = Column::new("label : Name: full ");
    assert!(matches!(c.obj, ColumnType::Label));
    assert_eq!(c.label, "Name: full");
    let d = Column::new("P18:");
    assert!(matches!(d.obj, ColumnType::Unknown));
    assert_eq!(d.label, "P18:");
    let e = Column::new(":x");
    assert!(matches!(e.obj, ColumnType::Unknown));
    assert_eq!(e.label, ":x");
}

#[test]
fn keys_for_row_templates() {
    assert_eq!(ColumnType::Number.as_key(), "number");
    assert_eq!(ColumnType::Label.as_key(), "label");
    assert_eq!(ColumnType::Description.as_key(), "desc");
    assert_eq!(ColumnType::Item.as_key(), "item");
    assert_eq!(ColumnType::Property("P31".to_string()).as_key(), "p31");
    assert_eq!(
        ColumnType::PropertyQualifier(("P39".to_string(), "P580".to_string())).as_key(),
        "p39_p580"
    );
    assert_eq!(
        ColumnType::PropertyQualifierValue(("P39".to_string(), "Q5".to_string(), "P580".to_string()))
            .as_key(),
        "p39_q5_p580"
    );
    assert_eq!(ColumnType::Field("BirthPlace".to_string()).as_key(), "birthplace");
    assert_eq!(ColumnType::LabelLang("de".to_string()).as_key(), "unknown");
    assert_eq!(ColumnType::Unknown.as_key(), "unknown");
}

#[test]
fn generated_label_of_property() {
    let mut list = empty_list();
    list.entities = EntityStore { entities: vec![entity_with_label("P31", "en", "instance of")] };
    let mut c = Column::new("P31");
    c.generate_label(&list);
    assert_eq!(c.label, "instance of");
    let mut d = Column::new("P17");
    d.generate_label(&list);
    assert_eq!(d.label, "P17");
}

#[test]
fn generated_label_of_compound_descriptors() {
    let mut list = empty_list();
    list.entities = EntityStore {
        entities: vec![
            entity_with_label("P39", "en", "position held"),
            entity_with_label("P580", "en", "start time"),
            entity_with_label("Q11696", "de", "Praesident"),
        ],
    };
    let mut c = Column::new("P39/P580");
    c.generate_label(&list);
    assert_eq!(c.label, "position held/start time");
    let mut d = Column::new("P39/Q11696/P580");
    d.generate_label(&list);
    assert_eq!(d.label, "position held/Q11696/start time");
}

#[test]
fn generated_label_keeps_other_headings() {
    let list = empty_list();
    let mut c = Column::new("label:Name");
    c.generate_label(&list);
    assert_eq!(c.label, "Name");
    assert!(matches!(c.obj, ColumnType::Label));
}
