use listeria::dict::Dict;
use listeria::entity::{Entity, EntityStore, LocalizedText, Snak, SnakDataType, SnakValue, Statement};
use listeria::listeria_list::ListeriaList;
use listeria::params::{SectionType, SortMode, Template};
use listeria::patch::{PatchAction, PatchEvent, PatchState};
use listeria::result_row::ResultRow;
use listeria::section::{count_text, find_name, section_names_of};

fn strings(v: &[&str]) -> Vec<String> {
    v.iter().map(|s| s.to_string()).collect()
}

fn entity(id: &str, label: Option<&str>, country: Option<&str>) -> Entity {
    Entity {
        id: id.to_string(),
        labels: label
            .map(|l| vec![LocalizedText { language: "en".to_string(), text: l.to_string() }])
            .unwrap_or_default(),
        descriptions: vec![],
        sitelinks: vec![],
        claims: country
            .map(|c| {
                vec![Statement {
                    main_snak: Snak {
                        property: "P17".to_string(),
                        datatype: SnakDataType::WikibaseItem,
                        value: Some(SnakValue::Entity(c.to_string())),
                    },
                    qualifiers: vec![],
                }]
            })
            .unwrap_or_default(),
        datatype: None,
    }
}

fn towns() -> ListeriaList {
    let template = Template { title: "Wikidata list".to_string(), params: Dict::new() };
    let mut list = ListeriaList::new(template, "enwiki".to_string(), "en".to_string());
    list.entities = EntityStore {
        entities: vec![
            entity("Q183", Some("Germany"), None),
            entity("Q142", Some("France"), None),
            entity("Q38", Some("Italy"), None),
            entity("Q1", Some("Berlin"), Some("Q183")),
            entity("Q2", Some("Paris"), Some("Q142")),
            entity("Q3", Some("Rome"), Some("Q38")),
            entity("Q4", Some("Lyon"), Some("Q142")),
            entity("Q5", Some("Hamburg"), Some("Q183")),
            entity("Q6", Some("Atlantis"), None),
            entity("Q7", Some("Nice"), Some("Q142")),
        ],
    };
    list.results = ["Q1", "Q2", "Q3", "Q4", "Q5", "Q6", "Q7"].iter().map(|id| ResultRow::new(id)).collect();
    list.params.section = Some("P17".to_string());
    list
}

fn sections(list: &ListeriaList) -> Vec<(String, usize)> {
    list.results.iter().map(|r| (r.entity_id.clone(), r.section)).collect()
}

fn placed(pairs: &[(&str, usize)]) -> Vec<(String, usize)> {
    pairs.iter().map(|(id, s)| (id.to_string(), *s)).collect()
}

#[test]
fn rows_grouped_by_a_property() {
    let mut l = towns();
    assert!(matches!(l.get_section_type(), SectionType::Property(p) if p == "P17"));
    l.assign_sections();
    assert_eq!(l.section_names, strings(&["France", "Germany", "Misc"]));
    assert_eq!(
        sections(&l),
        placed(&[("Q1", 1), ("Q2", 0), ("Q3", 2), ("Q4", 0), ("Q5", 1), ("Q6", 2), ("Q7", 0)])
    );
    assert_eq!(l.get_section_ids(), vec![0, 1, 2]);
}

#[test]
fn the_threshold_decides_which_names_are_sections() {
    let mut three = towns();
    three.params.min_section = 3;
    three.assign_sections();
    assert_eq!(three.section_names, strings(&["France", "Misc"]));
    assert_eq!(
        sections(&three),
        placed(&[("Q1", 1), ("Q2", 0), ("Q3", 1), ("Q4", 0), ("Q5", 1), ("Q6", 1), ("Q7", 0)])
    );

    let mut one = towns();
    one.params.min_section = 1;
    one.assign_sections();
    assert_eq!(one.section_names, strings(&["", "France", "Germany", "Italy", "Misc"]));
    assert_eq!(
        sections(&one),
        placed(&[("Q1", 2), ("Q2", 1), ("Q3", 3), ("Q4", 1), ("Q5", 2), ("Q6", 0), ("Q7", 1)])
    );

    let mut many = towns();
    many.params.min_section = 4;
    many.assign_sections();
    assert_eq!(many.section_names, strings(&["Misc"]));
    assert!(many.results.iter().all(|r| r.section == 0));
}

#[test]
fn a_list_without_a_grouping_property_is_left_alone() {
    for section in [None, Some("@COUNTRY"), Some("COUNTRY"), Some("")] {
        let mut l = towns();
        l.params.section = section.map(|s| s.to_string());
        l.results[2].section = 5;
        l.section_names = strings(&["kept"]);
        l.assign_sections();
        assert_eq!(l.section_names, strings(&["kept"]));
        assert_eq!(l.results[2].section, 5);
        assert!(l.results.iter().enumerate().all(|(i, r)| i == 2 || r.section == 0));
    }
    let mut empty = towns();
    empty.results.clear();
    empty.assign_sections();
    assert_eq!(empty.section_names, strings(&["Misc"]));
}

#[test]
fn section_names_from_names() {
    let names = strings(&["b", "a", "b", "c", "a", "b", ""]);
    assert_eq!(count_text(&names, "b"), 3);
    assert_eq!(count_text(&names, "x"), 0);
    assert_eq!(section_names_of(&names, 0), strings(&["", "a", "b", "c"]));
    assert_eq!(section_names_of(&names, 2), strings(&["a", "b"]));
    assert_eq!(section_names_of(&names, 3), strings(&["b"]));
    assert_eq!(section_names_of(&names, 4), Vec::<String>::new());
    assert_eq!(section_names_of(&names, u64::MAX), Vec::<String>::new());
    assert_eq!(section_names_of(&vec![], 0), Vec::<String>::new());
    let kept = strings(&["a", "b"]);
    assert_eq!(find_name(&kept, "a"), 0);
    assert_eq!(find_name(&kept, "b"), 1);
    assert_eq!(find_name(&kept, "c"), 2);
}

#[test]
fn sections_are_written_in_the_order_of_their_names() {
    let mut l = towns();
    l.params.sort = SortMode::Label;
    l.params.section = Some("P17".to_string());
    let step = l.patch_results(PatchState::AwaitingFiles, PatchEvent::FilesChecked(vec![]), &vec![]);
    assert!(matches!(step, Some((PatchState::Finished, PatchAction::Finish))));
    assert_eq!(l.section_names, strings(&["France", "Germany", "Misc"]));
    assert_eq!(
        sections(&l),
        placed(&[("Q6", 2), ("Q1", 1), ("Q5", 1), ("Q4", 0), ("Q7", 0), ("Q2", 0), ("Q3", 2)])
    );
    let text = l.as_wikitext().unwrap();
    let france = text.find("== France ==").unwrap();
    let germany = text.find("== Germany ==").unwrap();
    let misc = text.find("== Misc ==").unwrap();
    assert!(france < germany && germany < misc);
}
