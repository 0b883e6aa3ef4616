//! The options of one list: link style, sort mode, sectioning and the rest of
//! what the list template carries.

use vstd::prelude::*;
use vstd::string::*;
use crate::column::{chars_are_id, has_line_break, is_id};
use crate::dict::{texts, Dict};
use crate::text::{
    ascii_upper, chars_of, copy_str, decimal_u64, keyword_of, parse_u64, slice_of, str_eq,
    string_of, to_ascii_upper, to_keyword, to_uppercase, trim, trim_str, trimmed, uppercase,
};

verus! {

/// A list template as it stands on a page: its title and its parameters.
#[derive(Debug)]
pub struct Template {
    pub title: String,
    pub params: Dict<String>,
}

impl Clone for Template {
    fn clone(&self) -> (r: Self)
        ensures
            r.same_as(self),
            self.params.wf() ==> r.params.wf(),
    {
        let r = Template { title: self.title.clone(), params: self.params.copy() };
        assert forall|key: Seq<char>| r.param(key) == self.param(key) by {
            assert(texts(r.params@).contains_key(key) == texts(self.params@).contains_key(key));
            if self.params@.contains_key(key) {
                assert(texts(r.params@)[key] == texts(self.params@)[key]);
            }
        }
        r
    }
}

impl Template {
    /// Both have the same title and the same parameters.
    pub open spec fn same_as(&self, other: &Self) -> bool {
        &&& self.title@ == other.title@
        &&& forall|key: Seq<char>| self.param(key) == other.param(key)
    }

    /// The text of the parameter `key`, as a value of contracts.
    pub open spec fn param(&self, key: Seq<char>) -> Option<Seq<char>> {
        if self.params@.contains_key(key) {
            Some(self.params@[key]@)
        } else {
            None
        }
    }

    /// The text of the parameter `key`.
    pub fn get(&self, key: &str) -> (r: Option<&String>)
        ensures
            match r {
                Some(v) => self.param(key@) == Some(v@),
                None => self.param(key@) is None,
            },
    {
        self.params.get(key)
    }
}

// ---------------------------------------------------------------------------
// Link style
// ---------------------------------------------------------------------------

/// How references to entities are written.
#[derive(Debug, Clone, Copy, PartialEq, Eq, Structural)]
pub enum LinksType {
    All,
    Local,
    Red,
    RedOnly,
    Text,
    Reasonator,
}

impl LinksType {
    /// The link style that an upper-case keyword names; `All` where it names none.
    pub open spec fn of_keyword(t: Seq<char>) -> LinksType {
        if t == "LOCAL"@ {
            LinksType::Local
        } else if t == "RED"@ {
            LinksType::Red
        } else if t == "RED_ONLY"@ {
            LinksType::RedOnly
        } else if t == "TEXT"@ {
            LinksType::Text
        } else if t == "REASONATOR"@ {
            LinksType::Reasonator
        } else {
            LinksType::All
        }
    }

    /// The link style that an upper-case keyword names; `All` where it names none.
    pub fn from_keyword(t: &str) -> (r: Self)
        ensures
            r == Self::of_keyword(t@),
    {
        if str_eq(t, "LOCAL") {
            LinksType::Local
        } else if str_eq(t, "RED") {
            LinksType::Red
        } else if str_eq(t, "RED_ONLY") {
            LinksType::RedOnly
        } else if str_eq(t, "TEXT") {
            LinksType::Text
        } else if str_eq(t, "REASONATOR") {
            LinksType::Reasonator
        } else {
            LinksType::All
        }
    }

    /// The link style that `s` names, whatever its case and surrounding space.
    pub fn new_from_string(s: String) -> (r: Self)
        ensures
            r == Self::of_keyword(keyword_of(s@)),
    {
        let t = to_keyword(s.as_str());
        Self::from_keyword(t.as_str())
    }
}

// ---------------------------------------------------------------------------
// Sort mode
// ---------------------------------------------------------------------------

/// By what the rows are ordered.
#[derive(Debug)]
pub enum SortMode {
    Label,
    FamilyName,
    Property(String),
    /// The rows stay in the order of the query.
    Unsorted,
}

/// The mathematical value of a [`SortMode`].
pub enum SortKind {
    Label,
    FamilyName,
    Property(Seq<char>),
    Unsorted,
}

impl View for SortMode {
    type V = SortKind;

    open spec fn view(&self) -> SortKind {
        match self {
            SortMode::Label => SortKind::Label,
            SortMode::FamilyName => SortKind::FamilyName,
            SortMode::Property(p) => SortKind::Property(p@),
            SortMode::Unsorted => SortKind::Unsorted,
        }
    }
}

impl Clone for SortMode {
    fn clone(&self) -> (r: Self)
        ensures
            r@ == self@,
    {
        match self {
            SortMode::Label => SortMode::Label,
            SortMode::FamilyName => SortMode::FamilyName,
            SortMode::Property(p) => SortMode::Property(p.clone()),
            SortMode::Unsorted => SortMode::Unsorted,
        }
    }
}

impl SortMode {
    /// The sort mode that an upper-case keyword names: `LABEL`, `FAMILY_NAME`,
    /// or `P` and digits for a property; none otherwise.
    pub open spec fn of_keyword(t: Seq<char>) -> SortKind {
        if t == "LABEL"@ {
            SortKind::Label
        } else if t == "FAMILY_NAME"@ {
            SortKind::FamilyName
        } else if is_id(t, 'P') && t[0] == 'P' {
            SortKind::Property(t)
        } else {
            SortKind::Unsorted
        }
    }

    /// The sort mode that an optional parameter text asks for.
    pub open spec fn of_param(os: Option<Seq<char>>) -> SortKind {
        match os {
            Some(s) => Self::of_keyword(keyword_of(s)),
            None => SortKind::Unsorted,
        }
    }

    /// The sort mode that an upper-case keyword names.
    pub fn from_keyword(t: &str) -> (r: Self)
        ensures
            r@ == Self::of_keyword(t@),
    {
        if str_eq(t, "LABEL") {
            return SortMode::Label;
        }
        if str_eq(t, "FAMILY_NAME") {
            return SortMode::FamilyName;
        }
        let v = chars_of(t);
        if chars_are_id(&v, 'P') && v[0] == 'P' {
            SortMode::Property(copy_str(t))
        } else {
            SortMode::Unsorted
        }
    }

    /// The sort mode that the `sort` parameter asks for, whatever its case and
    /// surrounding space.
    pub fn new(os: Option<&String>) -> (r: Self)
        ensures
            r@ == Self::of_param(
                match os {
                    Some(s) => Some(s@),
                    None => None,
                },
            ),
    {
        match os {
            Some(s) => {
                let t = to_keyword(s.as_str());
                Self::from_keyword(t.as_str())
            },
            None => SortMode::Unsorted,
        }
    }
}

// ---------------------------------------------------------------------------
// Sectioning
// ---------------------------------------------------------------------------

/// By what the rows are grouped into sections.
#[derive(Debug)]
pub enum SectionType {
    /// The list is one section.
    Whole,
    Property(String),
    SparqlVariable(String),
}

/// The mathematical value of a [`SectionType`].
pub enum SectionKind {
    Whole,
    Property(Seq<char>),
    SparqlVariable(Seq<char>),
}

impl View for SectionType {
    type V = SectionKind;

    open spec fn view(&self) -> SectionKind {
        match self {
            SectionType::Whole => SectionKind::Whole,
            SectionType::Property(p) => SectionKind::Property(p@),
            SectionType::SparqlVariable(v) => SectionKind::SparqlVariable(v@),
        }
    }
}

impl Clone for SectionType {
    fn clone(&self) -> (r: Self)
        ensures
            r@ == self@,
    {
        match self {
            SectionType::Whole => SectionType::Whole,
            SectionType::Property(p) => SectionType::Property(p.clone()),
            SectionType::SparqlVariable(v) => SectionType::SparqlVariable(v.clone()),
        }
    }
}

impl SectionType {
    /// `@` followed by a variable name on the same line.
    pub open spec fn is_variable(t: Seq<char>) -> bool {
        t.len() > 1 && t[0] == '@' && !t.skip(1).contains('\n')
    }

    /// What a trimmed `section` text asks for: a property (`P` or `p` and
    /// digits, kept in upper case), a query variable (`@name`, kept in the
    /// upper case of the whole text), or nothing.
    pub open spec fn of_trimmed(t: Seq<char>) -> SectionKind {
        if is_id(t, 'P') {
            SectionKind::Property(ascii_upper(t))
        } else if Self::is_variable(t) {
            SectionKind::SparqlVariable(uppercase(t))
        } else {
            SectionKind::Whole
        }
    }

    /// What the `section` parameter asks for, whatever its surrounding space.
    pub fn new_from_string(s: &str) -> (r: Self)
        ensures
            r@ == Self::of_trimmed(trimmed(s@)),
    {
        let v = chars_of(s);
        let t = trim(&v);
        if chars_are_id(&t, 'P') {
            return SectionType::Property(string_of(&to_ascii_upper(&t)));
        }
        if t.len() > 1 && t[0] == '@' {
            let rest = slice_of(&t, 1, t.len());
            assert(rest@ == t@.skip(1));
            if !has_line_break(&rest) {
                let whole = string_of(&t);
                return SectionType::SparqlVariable(to_uppercase(whole.as_str()));
            }
        }
        SectionType::Whole
    }
}

// ---------------------------------------------------------------------------
// The options of a list
// ---------------------------------------------------------------------------

/// The options of one list.
#[derive(Debug)]
pub struct TemplateParams {
    pub links: LinksType,
    pub sort: SortMode,
    pub section: Option<String>,
    pub min_section: u64,
    pub row_template: Option<String>,
    pub header_template: Option<String>,
    pub autodesc: Option<String>,
    pub summary: Option<String>,
    pub skip_table: bool,
    pub wdedit: bool,
    pub references: bool,
    pub one_row_per_item: bool,
    pub sort_ascending: bool,
}

/// The view of an optional string.
pub open spec fn text_of(o: Option<String>) -> Option<Seq<char>> {
    match o {
        Some(s) => Some(s@),
        None => None,
    }
}

/// The keyword that an optional text stands for.
pub open spec fn opt_keyword(o: Option<Seq<char>>) -> Option<Seq<char>> {
    match o {
        Some(s) => Some(keyword_of(s)),
        None => None,
    }
}

/// The optional text stands for the keyword `word`.
pub open spec fn holds_word(o: Option<Seq<char>>, word: Seq<char>) -> bool {
    match o {
        Some(s) => keyword_of(s) == word,
        None => false,
    }
}

/// `trimmed` under an option.
pub open spec fn opt_trimmed(o: Option<Seq<char>>) -> Option<Seq<char>> {
    match o {
        Some(s) => Some(trimmed(s)),
        None => None,
    }
}

/// The number that an optional text denotes, or `default` where it denotes none.
pub open spec fn number_or(o: Option<Seq<char>>, default: u64) -> u64 {
    match o {
        Some(s) => match decimal_u64(s) {
            Some(n) => n,
            None => default,
        },
        None => default,
    }
}

fn clone_opt(o: &Option<String>) -> (r: Option<String>)
    ensures
        text_of(r) == text_of(*o),
{
    match o {
        Some(s) => Some(s.clone()),
        None => None,
    }
}

impl Clone for TemplateParams {
    fn clone(&self) -> (r: Self)
        ensures
            r.same_as(self),
    {
        TemplateParams {
            links: self.links,
            sort: self.sort.clone(),
            section: clone_opt(&self.section),
            min_section: self.min_section,
            row_template: clone_opt(&self.row_template),
            header_template: clone_opt(&self.header_template),
            autodesc: clone_opt(&self.autodesc),
            summary: clone_opt(&self.summary),
            skip_table: self.skip_table,
            wdedit: self.wdedit,
            references: self.references,
            one_row_per_item: self.one_row_per_item,
            sort_ascending: self.sort_ascending,
        }
    }
}

impl TemplateParams {
    /// Both hold the same options.
    pub open spec fn same_as(&self, other: &Self) -> bool {
        &&& self.links == other.links
        &&& self.sort@ == other.sort@
        &&& text_of(self.section) == text_of(other.section)
        &&& self.min_section == other.min_section
        &&& text_of(self.row_template) == text_of(other.row_template)
        &&& text_of(self.header_template) == text_of(other.header_template)
        &&& text_of(self.autodesc) == text_of(other.autodesc)
        &&& text_of(self.summary) == text_of(other.summary)
        &&& self.skip_table == other.skip_table
        &&& self.wdedit == other.wdedit
        &&& self.references == other.references
        &&& self.one_row_per_item == other.one_row_per_item
        &&& self.sort_ascending == other.sort_ascending
    }

    /// Every option but the link style is what the parameters of `template` set:
    /// `sort`, `section`, `min_section` (2 unless a number), `row_template`,
    /// `header_template`, `autolist` or else `autodesc`, `summary`,
    /// `skip_table` (set by its presence), `one_row_per_item` (on unless
    /// `NO`), `wdedit` (`YES`), `references` (`ALL`) and `sort_order`
    /// (ascending unless `DESC`). Keywords are kept without surrounding white
    /// space, in upper case; templates are kept trimmed.
    pub open spec fn set_by(&self, template: &Template) -> bool {
        &&& self.sort@ == SortMode::of_param(template.param("sort"@))
        &&& text_of(self.section) == opt_keyword(template.param("section"@))
        &&& self.min_section == number_or(template.param("min_section"@), 2)
        &&& text_of(self.row_template) == opt_trimmed(template.param("row_template"@))
        &&& text_of(self.header_template) == opt_trimmed(template.param("header_template"@))
        &&& text_of(self.autodesc) == (match template.param("autolist"@) {
            Some(s) => Some(keyword_of(s)),
            None => opt_keyword(template.param("autodesc"@)),
        })
        &&& text_of(self.summary) == opt_keyword(template.param("summary"@))
        &&& self.skip_table == template.param("skip_table"@).is_some()
        &&& self.one_row_per_item == !holds_word(template.param("one_row_per_item"@), "NO"@)
        &&& self.wdedit == holds_word(template.param("wdedit"@), "YES"@)
        &&& self.references == holds_word(template.param("references"@), "ALL"@)
        &&& self.sort_ascending == !holds_word(template.param("sort_order"@), "DESC"@)
    }

    /// The options of a list that sets none.
    pub fn new() -> (r: Self)
        ensures
            r.links == LinksType::All,
            r.sort@ == SortKind::Unsorted,
            r.section is None,
            r.min_section == 2,
            r.row_template is None,
            r.header_template is None,
            r.autodesc is None,
            r.summary is None,
            !r.skip_table,
            !r.wdedit,
            !r.references,
            !r.one_row_per_item,
            r.sort_ascending,
    {
        Self {
            links: LinksType::All,
            sort: SortMode::Unsorted,
            section: None,
            min_section: 2,
            row_template: None,
            header_template: None,
            autodesc: None,
            summary: None,
            skip_table: false,
            wdedit: false,
            references: false,
            one_row_per_item: false,
            sort_ascending: true,
        }
    }

    /// The options that the parameters of `template` set. The link style is
    /// not among them: it is set when the list reads its template.
    pub fn new_from_params(template: &Template) -> (r: Self)
        ensures
            r.links == LinksType::All,
            r.set_by(template),
    {
        let autodesc = match Self::keyword_param(template, "autolist") {
            Some(s) => Some(s),
            None => Self::keyword_param(template, "autodesc"),
        };
        Self {
            links: LinksType::All,
            sort: SortMode::new(template.get("sort")),
            section: Self::keyword_param(template, "section"),
            min_section: Self::number_param(template, "min_section", 2),
            row_template: Self::trimmed_param(template, "row_template"),
            header_template: Self::trimmed_param(template, "header_template"),
            autodesc,
            summary: Self::keyword_param(template, "summary"),
            skip_table: template.get("skip_table").is_some(),
            wdedit: Self::param_is(template, "wdedit", "YES"),
            references: Self::param_is(template, "references", "ALL"),
            one_row_per_item: !Self::param_is(template, "one_row_per_item", "NO"),
            sort_ascending: !Self::param_is(template, "sort_order", "DESC"),
        }
    }

    /// The keyword that the parameter `key` stands for.
    pub fn keyword_param(template: &Template, key: &str) -> (r: Option<String>)
        ensures
            text_of(r) == opt_keyword(template.param(key@)),
    {
        match template.get(key) {
            Some(s) => Some(to_keyword(s.as_str())),
            None => None,
        }
    }

    /// The parameter `key`, trimmed.
    pub fn trimmed_param(template: &Template, key: &str) -> (r: Option<String>)
        ensures
            text_of(r) == opt_trimmed(template.param(key@)),
    {
        match template.get(key) {
            Some(s) => Some(trim_str(s.as_str())),
            None => None,
        }
    }

    /// The number that the parameter `key` denotes, or `default`.
    pub fn number_param(template: &Template, key: &str, default: u64) -> (r: u64)
        ensures
            r == number_or(template.param(key@), default),
    {
        match template.get(key) {
            Some(s) => match parse_u64(s.as_str()) {
                Some(n) => n,
                None => default,
            },
            None => default,
        }
    }

    /// Whether the parameter `key` stands for the keyword `word`.
    pub fn param_is(template: &Template, key: &str, word: &str) -> (r: bool)
        ensures
            r == holds_word(template.param(key@), word@),
    {
        match template.get(key) {
            Some(s) => str_eq(to_keyword(s.as_str()).as_str(), word),
            None => false,
        }
    }
}

} // verus!
