use listeria::column::Column;
use listeria::dict::Dict;
use listeria::listeria_list::ListeriaList;
use listeria::params::Template;
use listeria::render_wikitext::extract_column_headers;
use listeria::{Renderer, RendererTabbedData, RendererWikitext};
use listeria::result::{ResultCell, ResultCellPart};
use listeria::result_row::{ResultRow};

fn text(s: &str) -> ResultCellPart {
    ResultCellPart::Text(s.to_string())
}

fn row(id: &str, section: usize, cells: Vec<Vec<ResultCellPart>>) -> ResultRow {
    ResultRow {
        entity_id: id.to_string(),
        cells: cells.into_iter().map(|parts| ResultCell { parts }).collect(),
        section,
        sortkey: String::new(),
    }
}

fn list() -> ListeriaList {
    let template = Template { title: "Wikidata list".to_string(), params: Dict::new() };
    let mut list = ListeriaList::new(template, "enwiki".to_string(), "en".to_string());
    list.columns = vec![Column::new("number:#"), Column::new("item:Item"), Column::new("P18:Image")];
    list.results = vec![
        row("Q1", 0, vec![vec![ResultCellPart::Number], vec![text("one")], vec![]]),
        row("Q2", 0, vec![vec![ResultCellPart::Number], vec![text("two"), text("deux")], vec![text("x")]]),
    ];
    list
}

#[test]
fn table_of_one_section() {
    let out = list().as_wikitext().unwrap();
    assert_eq!(
        out,
        "{| class='wikitable sortable' style='width:100%'\n! #\n! Item\n! Image\n|-\n\
         | style='text-align:right'| 1\n| one\n| \n|-\n\
         | style='text-align:right'| 2\n| two<br/>deux\n| x\n|}"
    );
}

#[test]
fn list_without_rows() {
    let mut l = list();
    l.results = vec![];
    assert_eq!(l.as_wikitext().unwrap(), "");
    assert!(l.get_section_ids().is_empty());
    l.params.summary = Some("ITEMNUMBER".to_string());
    assert_eq!(l.as_wikitext().unwrap(), "\n----\n&sum; 0 items.");
}

#[test]
fn sections_in_ascending_order() {
    let mut l = list();
    l.section_names = vec!["Misc".to_string(), "Cats".to_string()];
    l.results = vec![
        row("Q1", 3, vec![vec![ResultCellPart::Number], vec![text("three a")]]),
        row("Q2", 1, vec![vec![ResultCellPart::Number], vec![text("one a")]]),
        row("Q3", 3, vec![vec![ResultCellPart::Number], vec![text("three b")]]),
        row("Q4", 0, vec![vec![ResultCellPart::Number], vec![text("zero a")]]),
        row("Q5", 1, vec![vec![ResultCellPart::Number], vec![text("one b")]]),
    ];
    l.columns = vec![Column::new("number:#"), Column::new("item:Item")];
    assert_eq!(l.get_section_ids(), vec![0, 1, 3]);
    let header = "{| class='wikitable sortable' style='width:100%'\n! #\n! Item\n|-\n";
    let expected = format!(
        "\n\n\n== Misc ==\n{h}| style='text-align:right'| 1\n| zero a\n|}}\
         \n\n\n== Cats ==\n{h}| style='text-align:right'| 1\n| one a\n|-\n| style='text-align:right'| 2\n| one b\n|}}\
         {h}| style='text-align:right'| 1\n| three a\n|-\n| style='text-align:right'| 2\n| three b\n|}}",
        h = header
    );
    assert_eq!(l.as_wikitext().unwrap(), expected);
    assert_eq!(l.as_wikitext_section(7), format!("{}\n|}}", header));
}

#[test]
fn section_numbers_up_to_the_largest() {
    let mut l = list();
    l.results = vec![row("Q1", usize::MAX, vec![]), row("Q2", 0, vec![]), row("Q3", usize::MAX, vec![])];
    assert_eq!(l.get_section_ids(), vec![0, usize::MAX]);
}

#[test]
fn header_template_replaces_the_headings() {
    let mut l = list();
    l.params.header_template = Some("My header".to_string());
    assert_eq!(l.as_wikitext_table_header(), "{{My header}}\n");
    let out = l.as_wikitext().unwrap();
    assert!(out.starts_with("{{My header}}\n|-\n| style='text-align:right'| 1\n"));
    assert!(out.ends_with("\n|}"));
}

#[test]
fn row_template_replaces_the_cells() {
    let mut l = list();
    l.params.row_template = Some("My row".to_string());
    let out = l.as_wikitext().unwrap();
    assert_eq!(
        out,
        "{| class='wikitable sortable' style='width:100%'\n! #\n! Item\n! Image\n\
         {{My row\n| number = style='text-align:right'| 1\n| item = one\n| p18 = \n}}\n|-\n\
         {{My row\n| number = style='text-align:right'| 2\n| item = two<br/>deux\n| p18 = x\n}}\n|}"
    );
}

#[test]
fn row_template_needs_a_column_for_every_cell() {
    let mut l = list();
    l.params.row_template = Some("My row".to_string());
    l.columns.pop();
    assert!(!l.check_rows_fit());
    assert!(l.as_wikitext().is_err());
    assert!(RendererWikitext::new().render(&l).is_err());
    l.params.row_template = None;
    assert!(l.check_rows_fit());
    assert!(l.as_wikitext().is_ok());
}

#[test]
fn table_left_out() {
    let mut l = list();
    l.params.skip_table = true;
    assert_eq!(l.as_wikitext_table_header(), "");
    assert_eq!(
        l.as_wikitext().unwrap(),
        "| style='text-align:right'| 1\n| one\n| \n| style='text-align:right'| 2\n| two<br/>deux\n| x"
    );
    l.params.row_template = Some("R".to_string());
    l.params.header_template = Some("H".to_string());
    assert_eq!(
        l.as_wikitext().unwrap(),
        "{{H}}\n{{R\n| number = style='text-align:right'| 1\n| item = one\n| p18 = \n}}\n\
         {{R\n| number = style='text-align:right'| 2\n| item = two<br/>deux\n| p18 = x\n}}"
    );
}

#[test]
fn note_on_files_that_were_left_out() {
    let mut l = list();
    l.results = vec![];
    l.shadow_files = vec!["A.jpg".to_string(), "B c.png".to_string()];
    assert_eq!(
        l.as_wikitext().unwrap(),
        "\n----\nThe following local image(s) are not shown in the above list, because they shadow a Commons image of the same name, and might be non-free:\n# [[:File:A.jpg|]]\n# [[:File:B c.png|]]"
    );
}

#[test]
fn count_of_rows() {
    let mut l = list();
    l.params.summary = Some("ITEMNUMBER".to_string());
    assert!(l.as_wikitext().unwrap().ends_with("\n|}\n----\n&sum; 2 items."));
    l.params.summary = Some("itemnumber".to_string());
    assert!(l.as_wikitext().unwrap().ends_with("\n|}"));
}

#[test]
fn headings_are_read_back_as_the_labels() {
    let l = list();
    let labels: Vec<String> = l.columns.iter().map(|c| c.label.clone()).collect();
    assert_eq!(extract_column_headers(&l.as_wikitext_table_header()), labels);
    assert_eq!(extract_column_headers(&l.as_wikitext().unwrap()), labels);
    let mut odd = list();
    odd.columns = vec![Column::new("item:! "), Column::new("label:"), Column::new("P17:a ! b"), Column::new("x: ")];
    let labels: Vec<String> = odd.columns.iter().map(|c| c.label.clone()).collect();
    assert_eq!(labels, vec!["!", "label:", "a ! b", "x:"]);
    assert_eq!(extract_column_headers(&odd.as_wikitext_table_header()), labels);
    let mut none = list();
    none.columns = vec![];
    assert!(extract_column_headers(&none.as_wikitext_table_header()).is_empty());
}

#[test]
fn headings_of_a_text() {
    assert_eq!(extract_column_headers("! a\n!b\n ! c\n! \n!\n! d"), vec!["a", "", "d"]);
    assert!(extract_column_headers("").is_empty());
    assert_eq!(extract_column_headers("! "), vec![""]);
}

#[test]
fn renderers_behind_one_interface() {
    let l = list();
    let mut w = RendererWikitext::new();
    assert_eq!(w.render(&l).unwrap(), l.as_wikitext().unwrap());
    let mut d = RendererTabbedData::new();
    assert_eq!(d.render(&l).unwrap(), l.as_tabbed_data().to_text());
}

#[test]
fn data_document() {
    let mut l = list();
    l.results[1].section = 4;
    l.results[1].cells[1].parts.push(text("a\tb\n\"c\""));
    let out = RendererTabbedData::new().render(&l).unwrap();
    assert_eq!(
        out,
        "{\"data\":[[0,\"style='text-align:right'| 1\",\"one\",\"\"],\
         [4,\"style='text-align:right'| 2\",\"two<br/>deux<br/>a b \\\"c\\\"\",\"x\"]],\
         \"schema\":{\"fields\":[\
         {\"name\":\"section\",\"title\":{\"en\":\"Section\"},\"type\":\"number\"},\
         {\"name\":\"col_0\",\"title\":{\"en\":\"#\"},\"type\":\"string\"},\
         {\"name\":\"col_1\",\"title\":{\"en\":\"Item\"},\"type\":\"string\"},\
         {\"name\":\"col_2\",\"title\":{\"en\":\"Image\"},\"type\":\"string\"}]}}"
    );
    let parsed: serde_json::Value = serde_json::from_str(&out).unwrap();
    assert_eq!(parsed["data"][1][0], 4);
    assert_eq!(parsed["data"][0][3], "");
    assert_eq!(parsed["data"][1][2], "two<br/>deux<br/>a b \"c\"");
    assert_eq!(parsed["schema"]["fields"][2]["title"]["en"], "Item");
    assert_eq!(parsed["schema"]["fields"].as_array().unwrap().len(), 4);
}

#[test]
fn data_document_of_an_empty_list() {
    let template = Template { title: "Wikidata list".to_string(), params: Dict::new() };
    let l = ListeriaList::new(template, "dewiki".to_string(), "de".to_string());
    assert_eq!(
        l.as_tabbed_data().to_text(),
        "{\"data\":[],\"schema\":{\"fields\":[{\"name\":\"section\",\"title\":{\"de\":\"Section\"},\"type\":\"number\"}]}}"
    );
}
