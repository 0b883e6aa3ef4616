//! Column descriptors: what a column of the list shows, and under which heading.

use vstd::prelude::*;
use vstd::string::*;
use crate::entity::EntityStore;
use crate::listeria_list::ListeriaList;
use crate::text::{
    all_digits, ascii_lower, ascii_upper, char_is_digit, char_to_upper, chars_of, find_char,
    index_of, is_digit, is_keyword, lowercase, same_ignoring_case, slice_of, split, split_chars,
    string_of, to_ascii_upper, to_lowercase, trim, trimmed, upper_char, vec_views,
};

verus! {

/// What a column shows.
#[derive(Debug)]
pub enum ColumnType {
    Number,
    Label,
    LabelLang(String),
    Description,
    Item,
    Property(String),
    PropertyQualifier((String, String)),
    PropertyQualifierValue((String, String, String)),
    Field(String),
    Unknown,
}

/// The mathematical value of a [`ColumnType`].
pub enum ColumnKind {
    Number,
    Label,
    LabelLang(Seq<char>),
    Description,
    Item,
    Property(Seq<char>),
    PropertyQualifier(Seq<char>, Seq<char>),
    PropertyQualifierValue(Seq<char>, Seq<char>, Seq<char>),
    Field(Seq<char>),
    Unknown,
}

impl View for ColumnType {
    type V = ColumnKind;

    open spec fn view(&self) -> ColumnKind {
        match self {
            ColumnType::Number => ColumnKind::Number,
            ColumnType::Label => ColumnKind::Label,
            ColumnType::LabelLang(l) => ColumnKind::LabelLang(l@),
            ColumnType::Description => ColumnKind::Description,
            ColumnType::Item => ColumnKind::Item,
            ColumnType::Property(p) => ColumnKind::Property(p@),
            ColumnType::PropertyQualifier(pq) => ColumnKind::PropertyQualifier(pq.0@, pq.1@),
            ColumnType::PropertyQualifierValue(pqv) => ColumnKind::PropertyQualifierValue(
                pqv.0@,
                pqv.1@,
                pqv.2@,
            ),
            ColumnType::Field(f) => ColumnKind::Field(f@),
            ColumnType::Unknown => ColumnKind::Unknown,
        }
    }
}

impl Clone for ColumnType {
    fn clone(&self) -> (r: Self)
        ensures
            r@ == self@,
    {
        match self {
            ColumnType::Number => ColumnType::Number,
            ColumnType::Label => ColumnType::Label,
            ColumnType::LabelLang(l) => ColumnType::LabelLang(l.clone()),
            ColumnType::Description => ColumnType::Description,
            ColumnType::Item => ColumnType::Item,
            ColumnType::Property(p) => ColumnType::Property(p.clone()),
            ColumnType::PropertyQualifier(pq) => ColumnType::PropertyQualifier(
                (pq.0.clone(), pq.1.clone()),
            ),
            ColumnType::PropertyQualifierValue(pqv) => ColumnType::PropertyQualifierValue(
                (pqv.0.clone(), pqv.1.clone(), pqv.2.clone()),
            ),
            ColumnType::Field(f) => ColumnType::Field(f.clone()),
            ColumnType::Unknown => ColumnType::Unknown,
        }
    }
}

// ---------------------------------------------------------------------------
// The grammar of a column key
// ---------------------------------------------------------------------------

/// An identifier: `letter` (given in upper case) in either case, then one or more digits.
pub open spec fn is_id(s: Seq<char>, letter: char) -> bool {
    s.len() >= 2 && upper_char(s[0]) == letter && all_digits(s.skip(1))
}

/// `label/` in any case followed by a language code on the same line.
pub open spec fn is_label_lang(s: Seq<char>) -> bool {
    s.len() > 6 && same_ignoring_case(s.take(6), "label/"@) && !s.skip(6).contains('\n')
}

/// `?` followed by a field name on the same line.
pub open spec fn is_field(s: Seq<char>) -> bool {
    s.len() > 1 && s[0] == '?' && !s.skip(1).contains('\n')
}

/// `s` is made of `n` pieces separated by `/`.
pub open spec fn has_segments(s: Seq<char>, n: nat) -> bool {
    split(s, '/').len() == n
}

/// The `i`-th piece of `s` between `/`, without surrounding white space.
pub open spec fn segment(s: Seq<char>, i: int) -> Seq<char> {
    trimmed(split(s, '/')[i])
}

/// The descriptor that a column key stands for. The first form that fits wins:
/// a keyword, `label/<language>`, a property, property/qualifier,
/// property/qualifier entity/property, `?field`; anything else is unknown.
pub open spec fn column_kind(s: Seq<char>) -> ColumnKind {
    if same_ignoring_case(s, "number"@) {
        ColumnKind::Number
    } else if same_ignoring_case(s, "label"@) {
        ColumnKind::Label
    } else if same_ignoring_case(s, "description"@) {
        ColumnKind::Description
    } else if same_ignoring_case(s, "item"@) {
        ColumnKind::Item
    } else if is_label_lang(s) {
        ColumnKind::LabelLang(lowercase(s.skip(6)))
    } else if is_id(s, 'P') {
        ColumnKind::Property(ascii_upper(s))
    } else if has_segments(s, 2) && is_id(segment(s, 0), 'P') && is_id(segment(s, 1), 'P') {
        ColumnKind::PropertyQualifier(ascii_upper(segment(s, 0)), ascii_upper(segment(s, 1)))
    } else if has_segments(s, 3) && is_id(segment(s, 0), 'P') && is_id(segment(s, 1), 'Q')
        && is_id(segment(s, 2), 'P') {
        ColumnKind::PropertyQualifierValue(
            ascii_upper(segment(s, 0)),
            ascii_upper(segment(s, 1)),
            ascii_upper(segment(s, 2)),
        )
    } else if is_field(s) {
        ColumnKind::Field(s.skip(1))
    } else {
        ColumnKind::Unknown
    }
}

/// The key under which a descriptor is addressed in row templates: its
/// identifiers in lower case, joined by `_`.
pub open spec fn key_of(k: ColumnKind) -> Seq<char> {
    match k {
        ColumnKind::Number => "number"@,
        ColumnKind::Label => "label"@,
        ColumnKind::Description => "desc"@,
        ColumnKind::Item => "item"@,
        ColumnKind::Property(p) => lowercase(p),
        ColumnKind::PropertyQualifier(p, q) => lowercase(p) + "_"@ + lowercase(q),
        ColumnKind::PropertyQualifierValue(p, q, v) => lowercase(p) + "_"@ + lowercase(q) + "_"@
            + lowercase(v),
        ColumnKind::Field(f) => lowercase(f),
        ColumnKind::LabelLang(_) => "unknown"@,
        ColumnKind::Unknown => "unknown"@,
    }
}

/// Whether `v` is an identifier with the letter `letter`.
pub fn chars_are_id(v: &Vec<char>, letter: char) -> (b: bool)
    ensures
        b == is_id(v@, letter),
{
    if v.len() < 2 {
        return false;
    }
    if char_to_upper(v[0]) != letter {
        return false;
    }
    let mut i: usize = 1;
    while i < v.len()
        invariant
            1 <= i <= v.len(),
            forall|j: int| 1 <= j < i ==> is_digit(#[trigger] v@[j]),
        decreases v.len() - i,
    {
        if !char_is_digit(v[i]) {
            assert(!is_digit(v@.skip(1)[i - 1]));
            return false;
        }
        i += 1;
    }
    assert forall|j: int| 0 <= j < v@.skip(1).len() implies is_digit(#[trigger] v@.skip(1)[j]) by {
        assert(v@.skip(1)[j] == v@[j + 1]);
    }
    true
}

/// Whether `v` holds a line break.
pub fn has_line_break(v: &Vec<char>) -> (b: bool)
    ensures
        b == v@.contains('\n'),
{
    let k = find_char(v, '\n', 0);
    if k < v.len() {
        assert(v@[k as int] == '\n');
        true
    } else {
        false
    }
}

impl ColumnType {
    /// Resolves a column key. Input that fits no form is `Unknown`: this never fails.
    pub fn new(s: &str) -> (r: Self)
        ensures
            r@ == column_kind(s@),
    {
        let v = chars_of(s);
        if is_keyword(&v, "number") {
            return ColumnType::Number;
        }
        if is_keyword(&v, "label") {
            return ColumnType::Label;
        }
        if is_keyword(&v, "description") {
            return ColumnType::Description;
        }
        if is_keyword(&v, "item") {
            return ColumnType::Item;
        }
        if v.len() > 6 {
            let head = slice_of(&v, 0, 6);
            let rest = slice_of(&v, 6, v.len());
            assert(head@ == v@.take(6));
            assert(rest@ == v@.skip(6));
            if is_keyword(&head, "label/") && !has_line_break(&rest) {
                let lang = string_of(&rest);
                return ColumnType::LabelLang(to_lowercase(lang.as_str()));
            }
        }
        if chars_are_id(&v, 'P') {
            return ColumnType::Property(string_of(&to_ascii_upper(&v)));
        }
        let parts = split_chars(&v, '/');
        assert(forall|i: int| 0 <= i < parts.len() ==> vec_views(parts@)[i] == parts@[i]@);
        if parts.len() == 2 {
            let a = trim(&parts[0]);
            let b = trim(&parts[1]);
            if chars_are_id(&a, 'P') && chars_are_id(&b, 'P') {
                return ColumnType::PropertyQualifier(
                    (string_of(&to_ascii_upper(&a)), string_of(&to_ascii_upper(&b))),
                );
            }
        }
        if parts.len() == 3 {
            let a = trim(&parts[0]);
            let b = trim(&parts[1]);
            let c = trim(&parts[2]);
            if chars_are_id(&a, 'P') && chars_are_id(&b, 'Q') && chars_are_id(&c, 'P') {
                return ColumnType::PropertyQualifierValue(
                    (
                        string_of(&to_ascii_upper(&a)),
                        string_of(&to_ascii_upper(&b)),
                        string_of(&to_ascii_upper(&c)),
                    ),
                );
            }
        }
        if v.len() > 1 && v[0] == '?' {
            let rest = slice_of(&v, 1, v.len());
            assert(rest@ == v@.skip(1));
            if !has_line_break(&rest) {
                return ColumnType::Field(string_of(&rest));
            }
        }
        ColumnType::Unknown
    }

    /// The key under which the column is addressed in row templates.
    pub fn as_key(&self) -> (r: String)
        ensures
            r@ == key_of(self@),
    {
        match self {
            ColumnType::Number => "number".to_owned(),
            ColumnType::Label => "label".to_owned(),
            ColumnType::Description => "desc".to_owned(),
            ColumnType::Item => "item".to_owned(),
            ColumnType::Property(p) => to_lowercase(p.as_str()),
            ColumnType::PropertyQualifier(pq) => {
                let mut r = to_lowercase(pq.0.as_str());
                r.append("_");
                r.append(to_lowercase(pq.1.as_str()).as_str());
                r
            },
            ColumnType::PropertyQualifierValue(pqv) => {
                let mut r = to_lowercase(pqv.0.as_str());
                r.append("_");
                r.append(to_lowercase(pqv.1.as_str()).as_str());
                r.append("_");
                r.append(to_lowercase(pqv.2.as_str()).as_str());
                r
            },
            ColumnType::Field(f) => to_lowercase(f.as_str()),
            _ => "unknown".to_owned(),
        }
    }
}

// ---------------------------------------------------------------------------
// A column: a descriptor and its heading
// ---------------------------------------------------------------------------

/// A column of the list.
#[derive(Debug)]
pub struct Column {
    pub obj: ColumnType,
    pub label: String,
}

impl Clone for Column {
    fn clone(&self) -> (r: Self)
        ensures
            r.obj@ == self.obj@,
            r.label@ == self.label@,
    {
        Column { obj: self.obj.clone(), label: self.label.clone() }
    }
}

/// Where the `key:label` separator of a trimmed column text stands: the first
/// colon after the first character, if a label follows it; else `t.len()`.
pub open spec fn label_separator(t: Seq<char>) -> int {
    let c = index_of(t, ':', 1);
    if 0 <= c < t.len() && trimmed(t.skip(c + 1)).len() > 0 {
        c
    } else {
        t.len() as int
    }
}

/// The key part of a column text.
pub open spec fn column_key(s: Seq<char>) -> Seq<char> {
    let t = trimmed(s);
    let c = label_separator(t);
    if c < t.len() {
        trimmed(t.take(c))
    } else {
        t
    }
}

/// The heading that a column text asks for.
pub open spec fn column_label(s: Seq<char>) -> Seq<char> {
    let t = trimmed(s);
    let c = label_separator(t);
    if c < t.len() {
        trimmed(t.skip(c + 1))
    } else {
        t
    }
}

impl Column {
    /// Resolves one entry of the column list, `key` or `key:label`. Without a
    /// label the trimmed text is both key and heading.
    pub fn new(s: &str) -> (c: Self)
        ensures
            c.obj@ == column_kind(column_key(s@)),
            c.label@ == column_label(s@),
    {
        let v = chars_of(s);
        let t = trim(&v);
        let c = find_char(&t, ':', 1);
        if c < t.len() {
            let right = trim(&slice_of(&t, c + 1, t.len()));
            assert(t@.subrange(c + 1, t.len() as int) == t@.skip(c + 1));
            if right.len() > 0 {
                let left = trim(&slice_of(&t, 0, c));
                assert(t@.subrange(0, c as int) == t@.take(c as int));
                let key = string_of(&left);
                return Column { obj: ColumnType::new(key.as_str()), label: string_of(&right) };
            }
        }
        let whole = string_of(&t);
        Column { obj: ColumnType::new(whole.as_str()), label: whole }
    }
}

/// The heading of a column once the entities are loaded: for a property
/// descriptor the labels of its identifiers in the working language, joined
/// by `/`, an identifier standing for itself where it has no label; for any
/// other descriptor the heading it had.
pub open spec fn generated_label(
    kind: ColumnKind,
    label: Seq<char>,
    store: EntityStore,
    language: Seq<char>,
) -> Seq<char> {
    match kind {
        ColumnKind::Property(p) => store.label_or_id(p, language),
        ColumnKind::PropertyQualifier(p, q) => store.label_or_id(p, language) + "/"@
            + store.label_or_id(q, language),
        ColumnKind::PropertyQualifierValue(p, q, v) => store.label_or_id(p, language) + "/"@
            + store.label_or_id(q, language) + "/"@ + store.label_or_id(v, language),
        _ => label,
    }
}

impl Column {
    /// Sets the heading from the labels of the loaded entities.
    pub fn generate_label(&mut self, list: &ListeriaList)
        ensures
            final(self).obj@ == old(self).obj@,
            final(self).label@ == generated_label(
                old(self).obj@,
                old(self).label@,
                list.entities,
                list.language@,
            ),
    {
        let label = match &self.obj {
            ColumnType::Property(p) => Some(list.get_label_with_fallback(p.as_str())),
            ColumnType::PropertyQualifier(pq) => {
                let mut l = list.get_label_with_fallback(pq.0.as_str());
                l.append("/");
                l.append(list.get_label_with_fallback(pq.1.as_str()).as_str());
                Some(l)
            },
            ColumnType::PropertyQualifierValue(pqv) => {
                let mut l = list.get_label_with_fallback(pqv.0.as_str());
                l.append("/");
                l.append(list.get_label_with_fallback(pqv.1.as_str()).as_str());
                l.append("/");
                l.append(list.get_label_with_fallback(pqv.2.as_str()).as_str());
                Some(l)
            },
            _ => None,
        };
        match label {
            Some(l) => {
                self.label = l;
            },
            None => {},
        }
    }
}

// ---------------------------------------------------------------------------
// Laws of the resolver
// ---------------------------------------------------------------------------

/// An identifier keeps its form in upper case, and upper case is a fixed point.
pub proof fn lemma_upper_id(x: Seq<char>, letter: char)
    requires
        is_id(x, letter),
        letter == 'P' || letter == 'Q',
    ensures
        is_id(ascii_upper(x), letter),
        ascii_upper(x)[0] == letter,
        ascii_upper(ascii_upper(x)) == ascii_upper(x),
{
    let u = ascii_upper(x);
    assert forall|i: int| 0 <= i < u.skip(1).len() implies is_digit(#[trigger] u.skip(1)[i]) by {
        assert(is_digit(x.skip(1)[i]));
    }
    assert forall|i: int| 0 <= i < u.len() implies upper_char(#[trigger] u[i]) == u[i] by {
        if i > 0 {
            assert(is_digit(x.skip(1)[i - 1]));
        }
    }
    assert(ascii_upper(u) =~= u);
}

/// A key made of `P` or `p` and digits resolves to the property of that
/// identifier in upper case, and resolving the result's identifier again
/// gives the same descriptor.
pub proof fn lemma_property_resolution_idempotent(s: Seq<char>)
    requires
        is_id(s, 'P'),
    ensures
        column_kind(s) == ColumnKind::Property(ascii_upper(s)),
        ascii_upper(s)[0] == 'P',
        all_digits(ascii_upper(s).skip(1)),
        column_kind(ascii_upper(s)) == column_kind(s),
{
    lemma_upper_id(s, 'P');
    lemma_id_is_no_keyword(s);
    lemma_id_is_no_keyword(ascii_upper(s));
}

/// An identifier that starts with `P` is none of the keywords and no `label/` form.
pub proof fn lemma_id_is_no_keyword(s: Seq<char>)
    requires
        is_id(s, 'P'),
    ensures
        !same_ignoring_case(s, "number"@),
        !same_ignoring_case(s, "label"@),
        !same_ignoring_case(s, "description"@),
        !same_ignoring_case(s, "item"@),
        !is_label_lang(s),
{
    reveal_strlit("number");
    reveal_strlit("label");
    reveal_strlit("description");
    reveal_strlit("item");
    reveal_strlit("label/");
    assert(ascii_lower(s)[0] == 'p');
    assert(ascii_lower("number"@)[0] == 'n');
    assert(ascii_lower("label"@)[0] == 'l');
    assert(ascii_lower("description"@)[0] == 'd');
    assert(ascii_lower("item"@)[0] == 'i');
    if s.len() > 6 {
        assert(ascii_lower(s.take(6))[0] == 'p');
        assert(ascii_lower("label/"@)[0] == 'l');
    }
}

/// Whatever the key, the identifiers of a resolved property descriptor are in
/// upper case: a letter `P` (or `Q` for the qualifier entity) and digits.
pub proof fn lemma_resolved_identifiers_upper_case(s: Seq<char>)
    ensures
        match column_kind(s) {
            ColumnKind::Property(p) => is_id(p, 'P') && ascii_upper(p) == p,
            ColumnKind::PropertyQualifier(p, q) => {
                &&& is_id(p, 'P') && ascii_upper(p) == p
                &&& is_id(q, 'P') && ascii_upper(q) == q
            },
            ColumnKind::PropertyQualifierValue(p, q, v) => {
                &&& is_id(p, 'P') && ascii_upper(p) == p
                &&& is_id(q, 'Q') && ascii_upper(q) == q
                &&& is_id(v, 'P') && ascii_upper(v) == v
            },
            _ => true,
        },
{
    match column_kind(s) {
        ColumnKind::Property(p) => {
            lemma_upper_id(s, 'P');
        },
        ColumnKind::PropertyQualifier(p, q) => {
            lemma_upper_id(segment(s, 0), 'P');
            lemma_upper_id(segment(s, 1), 'P');
        },
        ColumnKind::PropertyQualifierValue(p, q, v) => {
            lemma_upper_id(segment(s, 0), 'P');
            lemma_upper_id(segment(s, 1), 'Q');
            lemma_upper_id(segment(s, 2), 'P');
        },
        _ => {},
    }
}

} // verus!
