use listeria::config::Configuration;
use listeria::dict::Dict;
use listeria::entity::{Entity, SiteLink};
use listeria::json::Json;
use listeria::listeria_list::ListeriaList;
use listeria::listeria_page::PageParams;
use listeria::lookup::{
    answer_pages, file_check_request, file_is_hidden_in, page_check_request, page_exists_in,
};
use listeria::params::Template;
use listeria::result_row::ResultRow;
use listeria::sparql::SparqlError;

fn object(members: Vec<(&str, Json)>) -> Json {
    Json::Object(members.into_iter().map(|(k, v)| (k.to_string(), v)).collect())
}

fn text(s: &str) -> Json {
    Json::Text(s.to_string())
}

fn answer(pages: Vec<(&str, Json)>) -> Json {
    object(vec![("batchcomplete", text("")), ("query", object(vec![("pages", object(pages))]))])
}

#[test]
fn requests_for_lookups() {
    let pairs = |v: Vec<listeria::listeria_page::RequestParam>| -> Vec<(String, String)> {
        v.into_iter().map(|p| (p.name, p.value)).collect()
    };
    assert_eq!(
        pairs(page_check_request("Douglas Adams")),
        vec![
            ("action".to_string(), "query".to_string()),
            ("prop".to_string(), "".to_string()),
            ("titles".to_string(), "Douglas Adams".to_string()),
        ]
    );
    assert_eq!(
        pairs(file_check_request("File", "A b.jpg")),
        vec![
            ("action".to_string(), "query".to_string()),
            ("prop".to_string(), "imageinfo".to_string()),
            ("titles".to_string(), "File:A b.jpg".to_string()),
        ]
    );
}

#[test]
fn pages_that_exist() {
    let found = answer(vec![("123", object(vec![("pageid", text("123")), ("title", text("X"))]))]);
    assert!(page_exists_in(&found));
    let missing = answer(vec![("-1", object(vec![("title", text("X")), ("missing", text(""))]))]);
    assert!(!page_exists_in(&missing));
    let mixed = answer(vec![
        ("1", object(vec![("title", text("X"))])),
        ("-1", object(vec![("missing", text(""))])),
    ]);
    assert!(!page_exists_in(&mixed));
    let flagged = answer(vec![("1", object(vec![("missing", Json::Bool(true))]))]);
    assert!(page_exists_in(&flagged));
    assert!(page_exists_in(&answer(vec![])));
    assert!(!page_exists_in(&Json::Null));
    assert!(!page_exists_in(&object(vec![("query", object(vec![("pages", Json::Array(vec![]))]))])));
    assert!(!page_exists_in(&object(vec![("query", Json::Null)])));
    assert_eq!(answer_pages(&found).unwrap().len(), 1);
    assert!(answer_pages(&Json::Null).is_none());
}

#[test]
fn files_hidden_by_local_files() {
    let shared = answer(vec![("-1", object(vec![("imagerepository", text("shared"))]))]);
    assert!(!file_is_hidden_in(&shared));
    let local = answer(vec![
        ("-1", object(vec![("imagerepository", text("shared"))])),
        ("7", object(vec![("imagerepository", text("local"))])),
    ]);
    assert!(file_is_hidden_in(&local));
    let none = answer(vec![("-1", object(vec![("missing", text("")), ("imagerepository", text(""))]))]);
    assert!(!file_is_hidden_in(&none));
    assert!(!file_is_hidden_in(&answer(vec![("1", object(vec![("imagerepository", text("Local"))]))])));
    assert!(!file_is_hidden_in(&answer(vec![])));
    assert!(!file_is_hidden_in(&Json::Text("local".to_string())));
}

#[test]
fn messages_of_errors() {
    assert_eq!(SparqlError::BadHead.message(), "Bad SPARQL head.vars");
    assert_eq!(SparqlError::BadFirstVariable.message(), "Can't parse first variable");
    assert_eq!(SparqlError::BadBindings.message(), "Broken SPARQL results.bindings");
    assert_eq!(SparqlError::BadValue("item".to_string()).message(), "Can't parse SPARQL value: item");
    assert_eq!(SparqlError::NotJson("why".to_string()).message(), "why");
}

#[test]
fn list_without_rows_cannot_be_shown() {
    let template = Template { title: "Wikidata list".to_string(), params: Dict::new() };
    let mut list = ListeriaList::new(template, "enwiki".to_string(), "en".to_string());
    assert_eq!(list.check_has_rows().unwrap_err(), "No items to show");
    list.results.push(ResultRow::new("Q1"));
    assert!(list.check_has_rows().is_ok());
}

#[test]
fn title_of_the_list_template() {
    let params = PageParams {
        language: "de".to_string(),
        wiki: "dewiki".to_string(),
        page: "X".to_string(),
        simulate: false,
        simulated_text: None,
        simulated_sparql_results: None,
        config: Configuration::default(),
    };
    let entity = Entity {
        id: "Q19860885".to_string(),
        labels: vec![],
        descriptions: vec![],
        sitelinks: vec![
            SiteLink { site: "enwiki".to_string(), title: "Template:Wikidata list".to_string() },
            SiteLink { site: "dewiki".to_string(), title: "Vorlage:Wikidata-Liste".to_string() },
        ],
        claims: vec![],
        datatype: None,
    };
    assert_eq!(
        params.get_local_template_title(Some(&entity)).unwrap(),
        "Vorlage:Wikidata-Liste"
    );
    assert_eq!(
        params.get_local_template_title(None).unwrap_err(),
        "Entity Q19860885 not found"
    );
    let elsewhere = Entity { sitelinks: vec![], ..entity };
    assert_eq!(
        params.get_local_template_title(Some(&elsewhere)).unwrap_err(),
        "No sitelink to dewiki in Q19860885"
    );
}

#[test]
fn the_entity_of_the_list_template() {
    assert_eq!(listeria::listeria_page::list_template_id(), "Q19860885");
}
