//! One list: its options, columns, loaded entities and rows, and what every
//! renderer needs to know to write a part.

use vstd::prelude::*;
use vstd::string::*;
use crate::column::{column_key, column_kind, column_label, generated_label, Column};
use crate::dict::Dict;
use crate::entity::{string_view, view_of, Entity, EntityStore, SnakValue, Statement};
use crate::params::{number_or, LinksType, Template, TemplateParams};
use crate::result::Part;
use crate::result_row::ResultRow;
use crate::sparql::{percent_decode, percent_decoded, SparqlValue};
use crate::text::{
    chars_of, copy_str, decimal, joined, keyword_of, lowercase, replace_text, replaced,
    replaced_text, slice_of, split, split_chars, str_eq, string_of, to_lowercase, to_uppercase,
    uppercase, vec_views,
};

verus! {

/// One list of a page.
#[derive(Debug)]
pub struct ListeriaList {
    /// The working language.
    pub language: String,
    /// The wiki that the list is written for.
    pub wiki: String,
    pub template: Template,
    pub params: TemplateParams,
    pub columns: Vec<Column>,
    /// The variable that names the entity of each row.
    pub sparql_first_variable: Option<String>,
    pub sparql_rows: Vec<Dict<SparqlValue>>,
    pub entities: EntityStore,
    pub results: Vec<ResultRow>,
    /// The name of each section, by section number.
    pub section_names: Vec<String>,
    /// The files left out because a local file of the same name hides them.
    pub shadow_files: Vec<String>,
    /// For each title that was looked up: whether a local page has it.
    pub local_page_cache: Dict<bool>,
}

/// The property whose values are address templates for external identifiers.
pub open spec fn formatter_property() -> Seq<char> {
    "P1630"@
}

/// The address template that a claim gives, if it is a formatter claim with a text value.
pub open spec fn formatter_of(st: Statement) -> Option<Seq<char>> {
    if st.main_snak.property@ == formatter_property() {
        match st.main_snak.value {
            Some(SnakValue::StringValue(s)) => Some(s@),
            _ => None,
        }
    } else {
        None
    }
}

/// The address template of the first claim at or after `from` that gives one.
pub open spec fn first_formatter(claims: Seq<Statement>, from: int) -> Option<Seq<char>>
    decreases claims.len() - from,
{
    if from < 0 || from >= claims.len() {
        None
    } else if formatter_of(claims[from]) is Some {
        formatter_of(claims[from])
    } else {
        first_formatter(claims, from + 1)
    }
}

/// A page title with its first character in upper case; a title of fewer
/// than two characters is left as it is.
pub open spec fn normalized_title(s: Seq<char>) -> Seq<char> {
    if s.len() < 2 {
        s
    } else {
        uppercase(s.take(1)) + s.skip(1)
    }
}

/// The link to the entity `id` in the entity store, shown as `label`.
pub open spec fn store_link(id: Seq<char>, label: Seq<char>) -> Seq<char> {
    "''[[:d:"@ + id + "|"@ + label + "]]''"@
}

/// How a point is written on `wiki`: three wikis have a form of their own.
pub open spec fn location_text(wiki: Seq<char>, lat: Seq<char>, lon: Seq<char>) -> Seq<char> {
    if wiki == "wikidatawiki"@ {
        lat + "/"@ + lon
    } else if wiki == "commonswiki"@ {
        "{{Inline coordinates|"@ + lat + "|"@ + lon + "|display=inline}}"@
    } else if wiki == "dewiki"@ {
        "{{Coordinate|text=DMS|NS="@ + lat + "|EW="@ + lon
            + "|name=|simple=y|type=landmark|region=}}"@
    } else {
        "{{Coord|"@ + lat + "|"@ + lon + "|display=inline}}"@
    }
}

/// How a reference to the entity `id` with label `label` is written under
/// the link style `links`; `exists` says whether a local page has the label
/// as its title.
pub open spec fn labeled_entity_text(
    links: LinksType,
    id: Seq<char>,
    label: Seq<char>,
    exists: bool,
) -> Seq<char> {
    match links {
        LinksType::Text => label,
        LinksType::Red | LinksType::RedOnly => if exists {
            store_link(id, label)
        } else {
            "[["@ + label + "]]"@
        },
        LinksType::Reasonator => "[https://reasonator.toolforge.org/?q="@ + id + " "@ + label
            + "]"@,
        _ => store_link(id, label),
    }
}

/// How a link to the local page `title` with label `label` is written.
pub open spec fn local_link_text(title: Seq<char>, label: Seq<char>) -> Seq<char> {
    if normalized_title(title) == normalized_title(label) {
        "[["@ + label + "]]"@
    } else {
        "[["@ + title + "|"@ + label + "]]"@
    }
}

/// How a file is written: a thumbnail of the given width.
pub open spec fn file_text(prefix: Seq<char>, file: Seq<char>, width: u64) -> Seq<char> {
    "[["@ + prefix + ":"@ + file + "|thumb|"@ + decimal(width as nat) + "px|]]"@
}

/// How an external identifier is written, given the address it leads to.
pub open spec fn external_id_text(url: Option<Seq<char>>, id: Seq<char>) -> Seq<char> {
    match url {
        Some(u) => "["@ + u + " "@ + id + "]"@,
        None => id,
    }
}

/// How the number of a row is written.
pub open spec fn number_text(rownum: nat) -> Seq<char> {
    "style='text-align:right'| "@ + decimal(rownum + 1)
}

/// The text between the parts of a list of values shown together.
pub open spec fn list_separator() -> Seq<char> {
    " \u{2014} "@
}

impl ListeriaList {
    /// A list for `template` on `wiki` in `language`, with no columns, rows or entities yet.
    pub fn new(template: Template, wiki: String, language: String) -> (r: Self)
        ensures
            r.language == language,
            r.wiki == wiki,
            r.template == template,
            r.columns@.len() == 0,
            r.results@.len() == 0,
            r.sparql_rows@.len() == 0,
            r.sparql_first_variable is None,
            r.entities.entities@.len() == 0,
            r.section_names@.len() == 0,
            r.shadow_files@.len() == 0,
            r.local_page_cache@ == Map::<Seq<char>, bool>::empty(),
            r.local_page_cache.wf(),
            r.params.links == LinksType::All,
    {
        ListeriaList {
            language,
            wiki,
            template,
            params: TemplateParams::new(),
            columns: Vec::new(),
            sparql_first_variable: None,
            sparql_rows: Vec::new(),
            entities: EntityStore::new(),
            results: Vec::new(),
            section_names: Vec::new(),
            shadow_files: Vec::new(),
            local_page_cache: Dict::new(),
        }
    }

    /// The working language.
    pub fn language(&self) -> (r: &String)
        ensures
            r == self.language,
    {
        &self.language
    }

    /// The link style.
    pub fn get_links_type(&self) -> (r: LinksType)
        ensures
            r == self.params.links,
    {
        self.params.links
    }

    /// The loaded entity with identifier `id`.
    pub fn get_entity(&self, id: &str) -> (r: Option<&Entity>)
        ensures
            match r {
                Some(e) => self.entities.entity(id@) == Some(*e),
                None => self.entities.entity(id@) is None,
            },
    {
        self.entities.get_entity(id)
    }

    /// The label of `id` in the working language, or `id` itself.
    pub fn get_label_with_fallback(&self, id: &str) -> (r: String)
        ensures
            r@ == self.entities.label_or_id(id@, self.language@),
    {
        self.entities.get_label_with_fallback(id, self.language.as_str())
    }

    /// The prefix of file pages on the wiki.
    pub fn local_file_namespace_prefix(&self) -> (r: String)
        ensures
            r@ == "File"@,
    {
        copy_str("File")
    }

    /// Whether a local page is known to have the title `title`.
    pub open spec fn page_exists(&self, title: Seq<char>) -> bool {
        self.local_page_cache@.contains_key(title) && self.local_page_cache@[title]
    }

    /// Whether a local page is known to have the title `title`. A title that
    /// was not looked up counts as missing.
    pub fn local_page_exists(&self, title: &str) -> (r: bool)
        ensures
            r == self.page_exists(title@),
    {
        match self.local_page_cache.get(title) {
            Some(b) => *b,
            None => false,
        }
    }

    /// The page title with its first character in upper case.
    pub fn normalize_page_title(&self, s: &str) -> (r: String)
        ensures
            r@ == normalized_title(s@),
    {
        let v = chars_of(s);
        if v.len() < 2 {
            return copy_str(s);
        }
        let first = string_of(&slice_of(&v, 0, 1));
        let rest = string_of(&slice_of(&v, 1, v.len()));
        assert(v@.subrange(0, 1) == v@.take(1));
        assert(v@.subrange(1, v.len() as int) == v@.skip(1));
        let mut r = to_uppercase(first.as_str());
        r.append(rest.as_str());
        r
    }

    /// How a point is written on the wiki of the list.
    pub fn get_location_template(&self, lat: &str, lon: &str) -> (r: String)
        ensures
            r@ == location_text(self.wiki@, lat@, lon@),
    {
        if str_eq(self.wiki.as_str(), "wikidatawiki") {
            let mut r = copy_str(lat);
            r.append("/");
            r.append(lon);
            r
        } else if str_eq(self.wiki.as_str(), "commonswiki") {
            let mut r = copy_str("{{Inline coordinates|");
            r.append(lat);
            r.append("|");
            r.append(lon);
            r.append("|display=inline}}");
            r
        } else if str_eq(self.wiki.as_str(), "dewiki") {
            let mut r = copy_str("{{Coordinate|text=DMS|NS=");
            r.append(lat);
            r.append("|EW=");
            r.append(lon);
            r.append("|name=|simple=y|type=landmark|region=}}");
            r
        } else {
            let mut r = copy_str("{{Coord|");
            r.append(lat);
            r.append("|");
            r.append(lon);
            r.append("|display=inline}}");
            r
        }
    }

    /// The width of thumbnails, as a value of contracts.
    pub open spec fn thumb_width(&self) -> u64 {
        number_or(self.template.param("thumb"@), 128)
    }

    /// The width of thumbnails: the `thumb` parameter where it is a number, else 128.
    pub fn thumbnail_size(&self) -> (r: u64)
        ensures
            r == self.thumb_width(),
    {
        TemplateParams::number_param(&self.template, "thumb", 128)
    }

    /// The address template of the property `prop`, as a value of contracts.
    pub open spec fn formatter(&self, prop: Seq<char>) -> Option<Seq<char>> {
        match self.entities.entity(prop) {
            Some(e) => first_formatter(e.claims@, 0),
            None => None,
        }
    }

    /// The address that the identifier `id` of the property `prop` leads to,
    /// as a value of contracts: the address template of the property with
    /// `$1` replaced by the decoded identifier.
    pub open spec fn external_url(&self, prop: Seq<char>, id: Seq<char>) -> Option<Seq<char>> {
        match (self.formatter(prop), percent_decoded(id)) {
            (Some(f), Some(d)) => Some(replaced_text(f, "$1"@, d)),
            _ => None,
        }
    }

    /// The address template of the property `prop`: the text value of its
    /// first formatter claim.
    pub fn formatter_url(&self, prop: &str) -> (r: Option<&str>)
        ensures
            view_of(r) == self.formatter(prop@),
    {
        let e = match self.entities.get_entity(prop) {
            Some(e) => e,
            None => {
                return None;
            },
        };
        let mut i: usize = 0;
        while i < e.claims.len()
            invariant
                i <= e.claims.len(),
                self.entities.entity(prop@) == Some(*e),
                first_formatter(e.claims@, 0) == first_formatter(e.claims@, i as int),
            decreases e.claims.len() - i,
        {
            let st = &e.claims[i];
            if str_eq(st.main_snak.property.as_str(), "P1630") {
                match &st.main_snak.value {
                    Some(SnakValue::StringValue(s)) => {
                        return Some(s.as_str());
                    },
                    _ => {},
                }
            }
            i += 1;
        }
        None
    }

    /// The address for an identifier, given the address template and the
    /// decoded identifier.
    pub fn fill_formatter(formatter: &str, decoded: &str) -> (r: String)
        ensures
            r@ == replaced_text(formatter@, "$1"@, decoded@),
    {
        let f = chars_of(formatter);
        let p = chars_of("$1");
        let d = chars_of(decoded);
        string_of(&replace_text(&f, &p, &d))
    }

    /// The address that the identifier `id` of the property `prop` leads to.
    pub fn external_id_url(&self, prop: &str, id: &str) -> (r: Option<String>)
        ensures
            string_view(r) == self.external_url(prop@, id@),
    {
        let formatter = match self.formatter_url(prop) {
            Some(f) => f,
            None => {
                return None;
            },
        };
        match percent_decode(id) {
            Some(decoded) => Some(Self::fill_formatter(formatter, decoded.as_str())),
            None => None,
        }
    }

    /// How a reference to the entity `id` is written.
    pub open spec fn entity_text(&self, id: Seq<char>, try_localize: bool) -> Seq<char> {
        if !try_localize {
            store_link(id, id)
        } else {
            match self.entities.label(id, self.language@) {
                Some(l) => labeled_entity_text(self.params.links, id, l, self.page_exists(l)),
                None => store_link(id, id),
            }
        }
    }

    /// How the part `part` of row number `rownum` is written.
    pub open spec fn part_text(&self, part: Part, rownum: nat) -> Seq<char>
        decreases part,
    {
        match part {
            Part::Number => number_text(rownum),
            Part::Entity(id, try_localize) => self.entity_text(id, try_localize),
            Part::LocalLink(title, label) => local_link_text(title, label),
            Part::Time(t) => t,
            Part::Location(lat, lon) => location_text(self.wiki@, lat, lon),
            Part::File(f) => file_text("File"@, f, self.thumb_width()),
            Part::Uri(u) => u,
            Part::ExternalId(prop, id) => external_id_text(self.external_url(prop, id), id),
            Part::Text(t) => t,
            Part::SnakList(v) => joined(self.part_texts(v, rownum), list_separator()),
        }
    }

    /// How each of `parts` is written.
    pub open spec fn part_texts(&self, parts: Seq<Part>, rownum: nat) -> Seq<Seq<char>>
        decreases parts,
    {
        Seq::new(
            parts.len(),
            |i: int|
                if 0 <= i < parts.len() {
                    self.part_text(parts[i], rownum)
                } else {
                    Seq::empty()
                },
        )
    }

    /// How a cell is written in markup: its parts with a line break between them.
    pub open spec fn cell_text(&self, cell: Seq<Part>, rownum: nat) -> Seq<char> {
        joined(self.part_texts(cell, rownum), "<br/>"@)
    }

    /// How each of `parts` is written in a data record.
    pub open spec fn part_data(&self, parts: Seq<Part>, rownum: nat) -> Seq<Seq<char>> {
        Seq::new(parts.len(), |i: int| data_safe(self.part_text(parts[i], rownum)))
    }

    /// How a cell is written in a data record: its parts, each made safe,
    /// with a line break between them.
    pub open spec fn cell_data(&self, cell: Seq<Part>, rownum: nat) -> Seq<char> {
        joined(self.part_data(cell, rownum), "<br/>"@)
    }
}

/// The most characters that a part may take in a data record.
pub const DATA_PART_LIMIT: usize = 380;

/// A text made safe for a data record: line breaks and tabs become spaces,
/// and what exceeds the limit is cut off.
pub open spec fn data_safe(s: Seq<char>) -> Seq<char> {
    let t = replaced(replaced(s, '\n', ' '), '\t', ' ');
    if t.len() > DATA_PART_LIMIT {
        t.take(DATA_PART_LIMIT as int)
    } else {
        t
    }
}

/// The link to the entity `id` in the entity store, shown as `label`.
pub fn make_store_link(id: &str, label: &str) -> (r: String)
    ensures
        r@ == store_link(id@, label@),
{
    let mut r = copy_str("''[[:d:");
    r.append(id);
    r.append("|");
    r.append(label);
    r.append("]]''");
    r
}

/// How a reference to the entity `id` with label `label` is written under
/// the link style `links`.
pub fn write_labeled_entity(links: LinksType, id: &str, label: &str, exists: bool) -> (r: String)
    ensures
        r@ == labeled_entity_text(links, id@, label@, exists),
{
    match links {
        LinksType::Text => copy_str(label),
        LinksType::Red | LinksType::RedOnly => {
            if exists {
                make_store_link(id, label)
            } else {
                let mut r = copy_str("[[");
                r.append(label);
                r.append("]]");
                r
            }
        },
        LinksType::Reasonator => {
            let mut r = copy_str("[https://reasonator.toolforge.org/?q=");
            r.append(id);
            r.append(" ");
            r.append(label);
            r.append("]");
            r
        },
        _ => make_store_link(id, label),
    }
}

// ---------------------------------------------------------------------------
// Reading the template
// ---------------------------------------------------------------------------

/// The columns that a column list asks for: one per piece between commas.
pub open spec fn column_pieces(columns: Option<Seq<char>>) -> Seq<Seq<char>> {
    match columns {
        Some(text) => split(text, ','),
        None => seq!["item"@],
    }
}

impl ListeriaList {
    /// Reads the template of the list: the columns (one per entry of the
    /// `columns` parameter; without the parameter the single column `item`),
    /// the options, the link style, and the working language where the
    /// template sets one.
    pub fn process_template(&mut self)
        ensures
            final(self).columns@.len() == column_pieces(old(self).template.param("columns"@)).len(),
            forall|c: int|
                0 <= c < final(self).columns@.len() ==> {
                    let piece = column_pieces(old(self).template.param("columns"@))[c];
                    &&& (#[trigger] final(self).columns@[c]).obj@ == column_kind(
                        column_key(piece),
                    )
                    &&& final(self).columns@[c].label@ == column_label(piece)
                },
            final(self).params.links == (match old(self).template.param("links"@) {
                Some(s) => LinksType::of_keyword(keyword_of(s)),
                None => LinksType::All,
            }),
            final(self).params.set_by(&old(self).template),
            final(self).language@ == (match old(self).template.param("language"@) {
                Some(l) => lowercase(l),
                None => old(self).language@,
            }),
            final(self).template == old(self).template,
            final(self).wiki == old(self).wiki,
            final(self).results == old(self).results,
            final(self).entities == old(self).entities,
            final(self).sparql_rows == old(self).sparql_rows,
            final(self).sparql_first_variable == old(self).sparql_first_variable,
            final(self).shadow_files == old(self).shadow_files,
            final(self).local_page_cache == old(self).local_page_cache,
            final(self).section_names == old(self).section_names,
    {
        let mut columns: Vec<Column> = Vec::new();
        match self.template.get("columns") {
            Some(text) => {
                let v = chars_of(text.as_str());
                let pieces = split_chars(&v, ',');
                let ghost all = vec_views(pieces@);
                let mut i: usize = 0;
                while i < pieces.len()
                    invariant
                        i <= pieces.len(),
                        all == vec_views(pieces@),
                        columns@.len() == i,
                        forall|c: int|
                            0 <= c < i ==> {
                                &&& (#[trigger] columns@[c]).obj@ == column_kind(
                                    column_key(all[c]),
                                )
                                &&& columns@[c].label@ == column_label(all[c])
                            },
                    decreases pieces.len() - i,
                {
                    let piece = string_of(&pieces[i]);
                    assert(all[i as int] == piece@);
                    columns.push(Column::new(piece.as_str()));
                    i += 1;
                }
            },
            None => {
                columns.push(Column::new("item"));
            },
        }
        let mut params = TemplateParams::new_from_params(&self.template);
        match self.template.get("links") {
            Some(s) => {
                params.links = LinksType::new_from_string(s.clone());
            },
            None => {},
        }
        let language = match self.template.get("language") {
            Some(l) => Some(to_lowercase(l.as_str())),
            None => None,
        };
        self.columns = columns;
        self.params = params;
        match language {
            Some(l) => {
                self.language = l;
            },
            None => {},
        }
    }

    /// Sets the heading of every column from the labels of the loaded entities.
    pub fn generate_column_labels(&mut self)
        ensures
            final(self).columns@.len() == old(self).columns@.len(),
            forall|c: int|
                0 <= c < final(self).columns@.len() ==> {
                    &&& (#[trigger] final(self).columns@[c]).obj@ == old(self).columns@[c].obj@
                    &&& final(self).columns@[c].label@ == generated_label(
                        old(self).columns@[c].obj@,
                        old(self).columns@[c].label@,
                        old(self).entities,
                        old(self).language@,
                    )
                },
            final(self).language == old(self).language,
            final(self).wiki == old(self).wiki,
            final(self).template == old(self).template,
            final(self).params == old(self).params,
            final(self).results == old(self).results,
            final(self).entities == old(self).entities,
            final(self).sparql_rows == old(self).sparql_rows,
            final(self).sparql_first_variable == old(self).sparql_first_variable,
            final(self).shadow_files == old(self).shadow_files,
            final(self).local_page_cache == old(self).local_page_cache,
            final(self).section_names == old(self).section_names,
    {
        let mut columns: Vec<Column> = Vec::new();
        let mut i: usize = 0;
        while i < self.columns.len()
            invariant
                i <= self.columns.len(),
                *self == *old(self),
                columns@.len() == i,
                forall|c: int|
                    0 <= c < i ==> {
                        &&& (#[trigger] columns@[c]).obj@ == self.columns@[c].obj@
                        &&& columns@[c].label@ == generated_label(
                            self.columns@[c].obj@,
                            self.columns@[c].label@,
                            self.entities,
                            self.language@,
                        )
                    },
            decreases self.columns.len() - i,
        {
            let mut column = self.columns[i].clone();
            column.generate_label(self);
            columns.push(column);
            i += 1;
        }
        self.columns = columns;
    }
}

} // verus!
