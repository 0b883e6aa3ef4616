//! Writing a finished list as a structured-data document.

use vstd::prelude::*;
use vstd::string::*;
use crate::Renderer;
use crate::json::{
    json_written, lemma_view_array, lemma_view_object, member_names, member_values, values_of, Json,
    JsonNumber, JsonValue,
};
use crate::listeria_list::ListeriaList;
use crate::result_row::{ResultRow, Row};
use crate::text::{copy_str, decimal, decimal_string};

verus! {

/// A field of the schema: its name, its type and its title in `language`.
pub open spec fn field_value(
    name: Seq<char>,
    kind: Seq<char>,
    language: Seq<char>,
    title: Seq<char>,
) -> JsonValue {
    JsonValue::Object {
        names: seq!["name"@, "type"@, "title"@],
        values: seq![
            JsonValue::Text(name),
            JsonValue::Text(kind),
            JsonValue::Object { names: seq![language], values: seq![JsonValue::Text(title)] },
        ],
    }
}

/// The name of the field of column `c`.
pub open spec fn column_field_name(c: nat) -> Seq<char> {
    "col_"@ + decimal(c)
}

impl ListeriaList {
    /// The fields of the schema: the section, then one field per column,
    /// named by the position of the column and titled with its label.
    pub open spec fn schema_fields(&self) -> Seq<JsonValue> {
        seq![field_value("section"@, "number"@, self.language@, "Section"@)] + Seq::new(
            self.columns@.len(),
            |c: int|
                field_value(
                    column_field_name(c as nat),
                    "string"@,
                    self.language@,
                    self.columns@[c].label@,
                ),
        )
    }

    /// The record of a row: its section, then each cell as one text.
    pub open spec fn data_record(&self, row: Row, rownum: nat) -> JsonValue {
        JsonValue::Array(
            seq![JsonValue::Integer(row.section as int)] + Seq::new(
                row.cells.len(),
                |c: int| JsonValue::Text(self.cell_data(row.cells[c], rownum)),
            ),
        )
    }

    /// The records of the rows, in the order of the rows.
    pub open spec fn data_records(&self) -> Seq<JsonValue> {
        Seq::new(
            self.results@.len(),
            |i: int| self.data_record(self.results@[i]@, i as nat),
        )
    }

    /// The list as a structured-data document: the schema and the records.
    pub open spec fn data_document(&self) -> JsonValue {
        JsonValue::Object {
            names: seq!["schema"@, "data"@],
            values: seq![
                JsonValue::Object {
                    names: seq!["fields"@],
                    values: seq![JsonValue::Array(self.schema_fields())],
                },
                JsonValue::Array(self.data_records()),
            ],
        }
    }
}

/// An object with one member.
pub fn object_of_one(name: &str, value: Json) -> (r: Json)
    ensures
        r@ == (JsonValue::Object { names: seq![name@], values: seq![value@] }),
{
    let mut m: Vec<(String, Json)> = Vec::new();
    m.push((copy_str(name), value));
    proof {
        lemma_view_object(m);
        assert(member_names(m@) =~= seq![name@]);
        assert(member_values(m@) =~= seq![value@]);
    }
    Json::Object(m)
}

/// An array of the given elements.
pub fn array_of(elements: Vec<Json>) -> (r: Json)
    ensures
        r@ == JsonValue::Array(values_of(elements@)),
{
    proof {
        lemma_view_array(elements);
    }
    Json::Array(elements)
}

/// A field of the schema.
pub fn schema_field(name: String, kind: &str, language: &str, title: &str) -> (r: Json)
    ensures
        r@ == field_value(name@, kind@, language@, title@),
{
    let mut m: Vec<(String, Json)> = Vec::new();
    m.push((copy_str("name"), Json::Text(name)));
    m.push((copy_str("type"), Json::Text(copy_str(kind))));
    m.push((copy_str("title"), object_of_one(language, Json::Text(copy_str(title)))));
    proof {
        lemma_view_object(m);
        assert(member_names(m@) =~= seq!["name"@, "type"@, "title"@]);
        assert(member_values(m@) =~= seq![
            JsonValue::Text(name@),
            JsonValue::Text(kind@),
            JsonValue::Object { names: seq![language@], values: seq![JsonValue::Text(title@)] },
        ]);
    }
    Json::Object(m)
}

impl ResultRow {
    /// The record of the row: its section, then each cell as one text.
    pub fn as_tabbed_data(&self, list: &ListeriaList, rownum: usize) -> (r: Json)
        ensures
            r@ == list.data_record(self@, rownum as nat),
    {
        let mut record: Vec<Json> = Vec::new();
        record.push(Json::Number(JsonNumber::Unsigned(self.section as u64)));
        let mut c: usize = 0;
        while c < self.cells.len()
            invariant
                c <= self.cells.len(),
                record@.len() == c + 1,
                record@[0]@ == JsonValue::Integer(self.section as int),
                forall|j: int|
                    0 <= j < c ==> (#[trigger] record@[j + 1])@ == JsonValue::Text(
                        list.cell_data(self.cells@[j]@, rownum as nat),
                    ),
            decreases self.cells.len() - c,
        {
            let cell = self.cells[c].as_tabbed_data(list, rownum, c);
            assert(cell.text() is Some);
            assert(cell@ == JsonValue::Text(list.cell_data(self.cells@[c as int]@, rownum as nat)));
            record.push(cell);
            c += 1;
        }
        proof {
            let expected = seq![JsonValue::Integer(self.section as int)] + Seq::new(
                self@.cells.len(),
                |c: int| JsonValue::Text(list.cell_data(self@.cells[c], rownum as nat)),
            );
            assert forall|k: int| 0 <= k < record@.len() implies values_of(record@)[k]
                == expected[k] by {
                if k > 0 {
                    assert(record@[(k - 1) + 1]@ == JsonValue::Text(
                        list.cell_data(self.cells@[k - 1]@, rownum as nat),
                    ));
                }
            }
            assert(values_of(record@) =~= expected);
        }
        array_of(record)
    }
}

impl ListeriaList {
    /// Writes the list as a structured-data document.
    pub fn as_tabbed_data(&self) -> (r: Json)
        ensures
            r@ == self.data_document(),
    {
        let mut fields: Vec<Json> = Vec::new();
        fields.push(schema_field(copy_str("section"), "number", self.language.as_str(), "Section"));
        let mut c: usize = 0;
        while c < self.columns.len()
            invariant
                c <= self.columns.len(),
                fields@.len() == c + 1,
                fields@[0]@ == field_value("section"@, "number"@, self.language@, "Section"@),
                forall|j: int|
                    0 <= j < c ==> (#[trigger] fields@[j + 1])@ == field_value(
                        column_field_name(j as nat),
                        "string"@,
                        self.language@,
                        self.columns@[j].label@,
                    ),
            decreases self.columns.len() - c,
        {
            let mut name = copy_str("col_");
            name.append(decimal_string(c as u128).as_str());
            fields.push(
                schema_field(name, "string", self.language.as_str(), self.columns[c].label.as_str()),
            );
            c += 1;
        }
        proof {
            let expected = self.schema_fields();
            assert forall|k: int| 0 <= k < fields@.len() implies values_of(fields@)[k]
                == expected[k] by {
                if k > 0 {
                    assert(fields@[(k - 1) + 1]@ == field_value(
                        column_field_name((k - 1) as nat),
                        "string"@,
                        self.language@,
                        self.columns@[k - 1].label@,
                    ));
                }
            }
            assert(values_of(fields@) =~= expected);
        }
        let mut records: Vec<Json> = Vec::new();
        let mut i: usize = 0;
        while i < self.results.len()
            invariant
                i <= self.results.len(),
                records@.len() == i,
                forall|j: int|
                    0 <= j < i ==> (#[trigger] records@[j])@ == self.data_record(
                        self.results@[j]@,
                        j as nat,
                    ),
            decreases self.results.len() - i,
        {
            records.push(self.results[i].as_tabbed_data(self, i));
            i += 1;
        }
        assert(values_of(records@) =~= self.data_records());
        let schema = object_of_one("fields", array_of(fields));
        let data = array_of(records);
        let mut m: Vec<(String, Json)> = Vec::new();
        m.push((copy_str("schema"), schema));
        m.push((copy_str("data"), data));
        proof {
            lemma_view_object(m);
            assert(member_names(m@) =~= seq!["schema"@, "data"@]);
            assert(member_values(m@) =~= seq![schema@, data@]);
        }
        Json::Object(m)
    }
}

/// Writes a list as a structured-data document.
#[derive(Debug, Clone, Copy)]
pub struct RendererTabbedData {}

impl Renderer for RendererTabbedData {
    fn new() -> Self {
        Self {  }
    }

    fn render(&mut self, page: &ListeriaList) -> (r: Result<String, String>)
        ensures
            r matches Ok(text) && text@ == json_written(page.data_document()),
    {
        Ok(page.as_tabbed_data().to_text())
    }
}

} // verus!
