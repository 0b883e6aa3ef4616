//! Query results: the typed value of one binding, and the table of bindings
//! that a result document holds.

use vstd::prelude::*;
use vstd::string::*;
use crate::column::has_line_break;
use crate::dict::Dict;
use crate::entity::{string_view, view_of, LatLon};
use crate::json::{parse_json, parsed_json, Json};
use crate::text::{
    all_digits, char_is_digit, chars_are, chars_of, copy_str, find_char, index_of, is_digit,
    lemma_index_of_bounds, replace_char, replaced, slice_of, str_eq, string_of,
};

verus! {

/// The typed value of one binding.
#[derive(Debug, Clone)]
pub enum SparqlValue {
    Entity(String),
    File(String),
    Uri(String),
    Time(String),
    Location(LatLon),
    Literal(String),
}

/// The mathematical value of a [`SparqlValue`].
pub enum SparqlTerm {
    Entity(Seq<char>),
    File(Seq<char>),
    Uri(Seq<char>),
    Time(Seq<char>),
    Location { lat: Seq<char>, lon: Seq<char> },
    Literal(Seq<char>),
}

impl View for SparqlValue {
    type V = SparqlTerm;

    open spec fn view(&self) -> SparqlTerm {
        match self {
            SparqlValue::Entity(s) => SparqlTerm::Entity(s@),
            SparqlValue::File(s) => SparqlTerm::File(s@),
            SparqlValue::Uri(s) => SparqlTerm::Uri(s@),
            SparqlValue::Time(s) => SparqlTerm::Time(s@),
            SparqlValue::Location(l) => SparqlTerm::Location { lat: l.lat@, lon: l.lon@ },
            SparqlValue::Literal(s) => SparqlTerm::Literal(s@),
        }
    }
}

// ---------------------------------------------------------------------------
// Percent decoding, taken from the `urlencoding` crate
// ---------------------------------------------------------------------------

/// The text that a percent-encoded text stands for; none where the decoded
/// bytes are no valid text.
pub uninterp spec fn percent_decoded(s: Seq<char>) -> Option<Seq<char>>;

/// `urlencoding::decode`: the result depends on the characters of `s` alone,
/// it fails only where the decoded bytes are not UTF-8, and a text without
/// `%` comes back unchanged.
#[verifier::external_body]
pub(crate) fn percent_decode(s: &str) -> (r: Option<String>)
    ensures
        string_view(r) == percent_decoded(s@),
        !s@.contains('%') ==> string_view(r) == Some(s@),
{
    match urlencoding::decode(s) {
        Ok(t) => Some(t.into_owned()),
        Err(_) => None,
    }
}

// ---------------------------------------------------------------------------
// The forms of a bound value
// ---------------------------------------------------------------------------

/// The character `c` fits the template character `p`: a dot stands for any
/// character but a line break, every other character for itself.
pub open spec fn char_fits(c: char, p: char) -> bool {
    if p == '.' {
        c != '\n'
    } else {
        c == p
    }
}

/// `s` fits the template `t` character by character.
pub open spec fn fits(s: Seq<char>, t: Seq<char>) -> bool {
    &&& s.len() == t.len()
    &&& forall|i: int| 0 <= i < t.len() ==> char_fits(#[trigger] s[i], t[i])
}

/// What follows in `s` after a beginning that fits the template `t`.
pub open spec fn tail_after(s: Seq<char>, t: Seq<char>) -> Option<Seq<char>> {
    if s.len() >= t.len() && fits(s.take(t.len() as int), t) {
        Some(s.skip(t.len() as int))
    } else {
        None
    }
}

/// What follows in `s` after a beginning that fits the template `plain` or,
/// failing that, the template `secure`.
pub open spec fn url_tail(s: Seq<char>, plain: Seq<char>, secure: Seq<char>) -> Option<Seq<char>> {
    match tail_after(s, plain) {
        Some(tail) => Some(tail),
        None => tail_after(s, secure),
    }
}

/// An entity identifier: an upper-case ASCII letter, then one or more digits.
pub open spec fn is_entity_id(s: Seq<char>) -> bool {
    s.len() >= 2 && 'A' <= s[0] && s[0] <= 'Z' && all_digits(s.skip(1))
}

/// The entity that an address names.
pub open spec fn entity_of_uri(s: Seq<char>) -> Option<Seq<char>> {
    match url_tail(
        s,
        "http://www.wikidata.org/entity/"@,
        "https://www.wikidata.org/entity/"@,
    ) {
        Some(id) => if is_entity_id(id) {
            Some(id)
        } else {
            None
        },
        None => None,
    }
}

/// The encoded file name that an address of the shared media repository holds.
pub open spec fn file_of_uri(s: Seq<char>) -> Option<Seq<char>> {
    match url_tail(
        s,
        "http://commons.wikimedia.org/wiki/Special:FilePath/"@,
        "https://commons.wikimedia.org/wiki/Special:FilePath/"@,
    ) {
        Some(name) => if name.len() > 0 && !name.contains('\n') {
            Some(name)
        } else {
            None
        },
        None => None,
    }
}

/// The name of a file as pages write it: underscores stand for spaces.
pub open spec fn file_name(decoded: Seq<char>) -> Seq<char> {
    replaced(decoded, '_', ' ')
}

/// A digit, then digits and dots, if any.
pub open spec fn is_unsigned_coordinate(d: Seq<char>) -> bool {
    &&& d.len() >= 1
    &&& is_digit(d[0])
    &&& forall|i: int| 0 <= i < d.len() ==> is_digit(#[trigger] d[i]) || d[i] == '.'
}

/// A coordinate in the notation of a point literal: an optional minus sign,
/// a digit, then digits and dots, if any.
pub open spec fn is_coordinate(s: Seq<char>) -> bool {
    if s.len() > 0 && s[0] == '-' {
        is_unsigned_coordinate(s.skip(1))
    } else {
        is_unsigned_coordinate(s)
    }
}

/// A coordinate that is a number: it holds at most one dot.
pub open spec fn is_number(s: Seq<char>) -> bool {
    is_coordinate(s) && index_of(s, '.', index_of(s, '.', 0) + 1) >= s.len()
}

/// The two coordinates of a point literal `Point(<first> <second>)`, as written.
pub open spec fn point_parts(s: Seq<char>) -> Option<(Seq<char>, Seq<char>)> {
    if s.len() >= 7 && s.take(6) == "Point("@ && s.last() == ')' {
        let middle = s.subrange(6, s.len() - 1);
        let k = index_of(middle, ' ', 0);
        if 0 <= k < middle.len() && is_coordinate(middle.take(k)) && is_coordinate(
            middle.skip(k + 1),
        ) {
            Some((middle.take(k), middle.skip(k + 1)))
        } else {
            None
        }
    } else {
        None
    }
}

/// The value of an address.
pub open spec fn term_of_uri(value: Seq<char>) -> Option<SparqlTerm> {
    match entity_of_uri(value) {
        Some(id) => Some(SparqlTerm::Entity(id)),
        None => match file_of_uri(value) {
            Some(name) => match percent_decoded(name) {
                Some(decoded) => Some(SparqlTerm::File(file_name(decoded))),
                None => None,
            },
            None => Some(SparqlTerm::Uri(value)),
        },
    }
}

/// The value of a literal with the given datatype.
pub open spec fn term_of_literal(value: Seq<char>, datatype: Option<Seq<char>>) -> Option<
    SparqlTerm,
> {
    match datatype {
        None => Some(SparqlTerm::Literal(value)),
        Some(d) => if d == "http://www.opengis.net/ont/geosparql#wktLiteral"@ {
            match point_parts(value) {
                Some((first, second)) => if is_number(first) && is_number(second) {
                    Some(SparqlTerm::Location { lat: second, lon: first })
                } else {
                    None
                },
                None => None,
            }
        } else if d == "http://www.w3.org/2001/XMLSchema#dateTime"@ {
            Some(SparqlTerm::Time(value))
        } else {
            None
        },
    }
}

/// The value that a binding `{type, value, datatype}` stands for. Members
/// that are no strings count as absent.
pub open spec fn term_of(j: Json) -> Option<SparqlTerm> {
    match (j.member_text("value"@), j.member_text("type"@)) {
        (Some(value), Some(kind)) => if kind == "uri"@ {
            term_of_uri(value)
        } else if kind == "literal"@ {
            term_of_literal(value, j.member_text("datatype"@))
        } else {
            None
        },
        _ => None,
    }
}

/// What follows in `v` after a beginning that fits the template `t`.
pub fn strip_template(v: &Vec<char>, t: &str) -> (r: Option<Vec<char>>)
    ensures
        match r {
            Some(tail) => tail_after(v@, t@) == Some(tail@),
            None => tail_after(v@, t@) is None,
        },
{
    let w = chars_of(t);
    let n = w.len();
    if v.len() < n {
        return None;
    }
    let mut i: usize = 0;
    while i < n
        invariant
            i <= n,
            n == w.len(),
            w@ == t@,
            n <= v.len(),
            forall|j: int| 0 <= j < i ==> char_fits(#[trigger] v@[j], w@[j]),
        decreases n - i,
    {
        let ok = if w[i] == '.' {
            v[i] != '\n'
        } else {
            v[i] == w[i]
        };
        if !ok {
            assert(v@.take(n as int)[i as int] == v@[i as int]);
            return None;
        }
        i += 1;
    }
    assert forall|j: int| 0 <= j < n implies char_fits(#[trigger] v@.take(n as int)[j], t@[j]) by {
        assert(v@.take(n as int)[j] == v@[j]);
    }
    let tail = slice_of(v, n, v.len());
    assert(v@.subrange(n as int, v.len() as int) == v@.skip(n as int));
    Some(tail)
}

/// What follows in `v` after a beginning that fits `plain` or, failing that, `secure`.
pub fn strip_url(v: &Vec<char>, plain: &str, secure: &str) -> (r: Option<Vec<char>>)
    ensures
        match r {
            Some(tail) => url_tail(v@, plain@, secure@) == Some(tail@),
            None => url_tail(v@, plain@, secure@) is None,
        },
{
    match strip_template(v, plain) {
        Some(tail) => Some(tail),
        None => strip_template(v, secure),
    }
}

/// Whether `v` is an entity identifier.
pub fn chars_are_entity_id(v: &Vec<char>) -> (b: bool)
    ensures
        b == is_entity_id(v@),
{
    if v.len() < 2 {
        return false;
    }
    if !(v[0] >= 'A' && v[0] <= 'Z') {
        return false;
    }
    let mut i: usize = 1;
    while i < v.len()
        invariant
            1 <= i <= v.len(),
            forall|j: int| 1 <= j < i ==> is_digit(#[trigger] v@[j]),
        decreases v.len() - i,
    {
        if !char_is_digit(v[i]) {
            assert(!is_digit(v@.skip(1)[i - 1]));
            return false;
        }
        i += 1;
    }
    assert forall|j: int| 0 <= j < v@.skip(1).len() implies is_digit(#[trigger] v@.skip(1)[j]) by {
        assert(v@.skip(1)[j] == v@[j + 1]);
    }
    true
}

/// Whether `v` is a coordinate in the notation of a point literal.
pub fn chars_are_coordinate(v: &Vec<char>) -> (b: bool)
    ensures
        b == is_coordinate(v@),
{
    let start: usize = if v.len() > 0 && v[0] == '-' {
        1
    } else {
        0
    };
    let n = v.len();
    if n < start + 1 {
        return false;
    }
    let ghost d = v@.skip(start as int);
    assert(d[0] == v@[start as int]);
    if !char_is_digit(v[start]) {
        assert(v@.skip(0) == v@);
        return false;
    }
    let mut i: usize = start;
    while i < n
        invariant
            start <= i <= n,
            start + 1 <= n,
            n == v.len(),
            start == (if v@.len() > 0 && v@[0] == '-' {
                1int
            } else {
                0int
            }),
            d == v@.skip(start as int),
            is_digit(d[0]),
            forall|j: int| 0 <= j < i - start ==> is_digit(#[trigger] d[j]) || d[j] == '.',
        decreases n - i,
    {
        assert(d[i - start] == v@[i as int]);
        if !(char_is_digit(v[i]) || v[i] == '.') {
            assert(v@.skip(0) == v@);
            return false;
        }
        i += 1;
    }
    assert(v@.skip(0) == v@);
    true
}

/// Whether `v` is a coordinate that is a number.
pub fn chars_are_number(v: &Vec<char>) -> (b: bool)
    ensures
        b == is_number(v@),
{
    if !chars_are_coordinate(v) {
        return false;
    }
    let k = find_char(v, '.', 0);
    if k >= v.len() {
        proof {
            lemma_index_of_bounds(v@, '.', 0);
        }
        return true;
    }
    let k2 = find_char(v, '.', k + 1);
    k2 >= v.len()
}

/// The two coordinates of a point literal.
pub fn split_point(v: &Vec<char>) -> (r: Option<(Vec<char>, Vec<char>)>)
    ensures
        match r {
            Some(p) => point_parts(v@) == Some((p.0@, p.1@)),
            None => point_parts(v@) is None,
        },
{
    let n = v.len();
    if n < 7 {
        return None;
    }
    let head = slice_of(v, 0, 6);
    assert(head@ == v@.take(6));
    if !chars_are(&head, "Point(") || v[n - 1] != ')' {
        return None;
    }
    let middle = slice_of(v, 6, n - 1);
    let k = find_char(&middle, ' ', 0);
    if k >= middle.len() {
        return None;
    }
    let first = slice_of(&middle, 0, k);
    let second = slice_of(&middle, k + 1, middle.len());
    assert(first@ == middle@.take(k as int));
    assert(second@ == middle@.skip(k + 1));
    if chars_are_coordinate(&first) && chars_are_coordinate(&second) {
        Some((first, second))
    } else {
        None
    }
}

impl SparqlValue {
    /// The file that a decoded file name stands for.
    pub fn file_named(decoded: &str) -> (r: Self)
        ensures
            r@ == SparqlTerm::File(file_name(decoded@)),
    {
        let v = chars_of(decoded);
        SparqlValue::File(string_of(&replace_char(&v, '_', ' ')))
    }

    /// The value of an address: an entity, a file of the shared media
    /// repository, or the address itself. It is none only for a file whose
    /// name cannot be decoded.
    pub fn from_uri(value: &str) -> (r: Option<Self>)
        ensures
            match r {
                Some(v) => term_of_uri(value@) == Some(v@),
                None => term_of_uri(value@) is None,
            },
    {
        let v = chars_of(value);
        match strip_url(
            &v,
            "http://www.wikidata.org/entity/",
            "https://www.wikidata.org/entity/",
        ) {
            Some(id) => {
                if chars_are_entity_id(&id) {
                    return Some(SparqlValue::Entity(string_of(&id)));
                }
            },
            None => {},
        }
        match strip_url(
            &v,
            "http://commons.wikimedia.org/wiki/Special:FilePath/",
            "https://commons.wikimedia.org/wiki/Special:FilePath/",
        ) {
            Some(name) => {
                if name.len() > 0 && !has_line_break(&name) {
                    let encoded = string_of(&name);
                    return match percent_decode(encoded.as_str()) {
                        Some(decoded) => Some(Self::file_named(decoded.as_str())),
                        None => None,
                    };
                }
            },
            None => {},
        }
        Some(SparqlValue::Uri(copy_str(value)))
    }

    /// The value of a literal: text without a datatype, a time, or a point
    /// whose two coordinates are numbers; none for anything else.
    pub fn from_literal(value: &str, datatype: Option<&str>) -> (r: Option<Self>)
        ensures
            match r {
                Some(v) => term_of_literal(value@, view_of(datatype)) == Some(v@),
                None => term_of_literal(value@, view_of(datatype)) is None,
            },
    {
        match datatype {
            None => Some(SparqlValue::Literal(copy_str(value))),
            Some(d) => {
                if str_eq(d, "http://www.opengis.net/ont/geosparql#wktLiteral") {
                    let v = chars_of(value);
                    match split_point(&v) {
                        Some(p) => {
                            if chars_are_number(&p.0) && chars_are_number(&p.1) {
                                Some(
                                    SparqlValue::Location(
                                        LatLon::new(string_of(&p.1), string_of(&p.0)),
                                    ),
                                )
                            } else {
                                None
                            }
                        },
                        None => None,
                    }
                } else if str_eq(d, "http://www.w3.org/2001/XMLSchema#dateTime") {
                    Some(SparqlValue::Time(copy_str(value)))
                } else {
                    None
                }
            },
        }
    }

    /// The typed value of a binding `{type, value, datatype}`; none where it
    /// fits no form.
    pub fn new_from_json(j: &Json) -> (r: Option<Self>)
        ensures
            match r {
                Some(v) => term_of(*j) == Some(v@),
                None => term_of(*j) is None,
            },
    {
        let value = match j.get_str("value") {
            Some(v) => v,
            None => {
                return None;
            },
        };
        match j.get_str("type") {
            Some(kind) => {
                if str_eq(kind, "uri") {
                    Self::from_uri(value)
                } else if str_eq(kind, "literal") {
                    Self::from_literal(value, j.get_str("datatype"))
                } else {
                    None
                }
            },
            None => None,
        }
    }
}

// ---------------------------------------------------------------------------
// The table of bindings of a result document
// ---------------------------------------------------------------------------

/// Why a result document cannot be read.
#[derive(Debug)]
pub enum SparqlError {
    /// `head.vars` is no array, or an empty one.
    BadHead,
    /// The first variable is no string.
    BadFirstVariable,
    /// `results.bindings` is no array.
    BadBindings,
    /// The value bound to the named variable fits no form.
    BadValue(String),
    /// The text is no document at all; the message says why.
    NotJson(String),
}

/// What an error says in words.
pub open spec fn error_text(e: SparqlError) -> Seq<char> {
    match e {
        SparqlError::BadHead => "Bad SPARQL head.vars"@,
        SparqlError::BadFirstVariable => "Can't parse first variable"@,
        SparqlError::BadBindings => "Broken SPARQL results.bindings"@,
        SparqlError::BadValue(name) => "Can't parse SPARQL value: "@ + name@,
        SparqlError::NotJson(message) => message@,
    }
}

impl SparqlError {
    /// What the error says in words.
    pub fn message(&self) -> (r: String)
        ensures
            r@ == error_text(*self),
    {
        match self {
            SparqlError::BadHead => copy_str("Bad SPARQL head.vars"),
            SparqlError::BadFirstVariable => copy_str("Can't parse first variable"),
            SparqlError::BadBindings => copy_str("Broken SPARQL results.bindings"),
            SparqlError::BadValue(name) => {
                let mut r = copy_str("Can't parse SPARQL value: ");
                r.append(name.as_str());
                r
            },
            SparqlError::NotJson(message) => message.clone(),
        }
    }
}

/// The bindings of a result document: the variable that names the entity of
/// each row, and the rows in document order.
#[derive(Debug)]
pub struct SparqlTable {
    pub main_variable: String,
    pub rows: Vec<Dict<SparqlValue>>,
}

/// The elements of the array member `inner` of the member `outer` of `doc`.
pub open spec fn array_at(doc: Json, outer: Seq<char>, inner: Seq<char>) -> Option<Seq<Json>> {
    match doc.member(outer) {
        Some(o) => match o.member(inner) {
            Some(Json::Array(a)) => Some(a@),
            _ => None,
        },
        None => None,
    }
}

/// The members of a binding row; a row that is no object has none.
pub open spec fn binding_members(b: Json) -> Seq<(String, Json)> {
    match b {
        Json::Object(m) => m@,
        _ => Seq::empty(),
    }
}

/// The index of the first member at or after `from` whose value fits no form,
/// or the length.
pub open spec fn first_unreadable(members: Seq<(String, Json)>, from: int) -> int
    decreases members.len() - from,
{
    if from < 0 || from >= members.len() {
        members.len() as int
    } else if term_of(members[from].1) is None {
        from
    } else {
        first_unreadable(members, from + 1)
    }
}

/// The values that the members of a readable binding row bind.
pub open spec fn row_of(members: Seq<(String, Json)>) -> Map<Seq<char>, SparqlTerm>
    decreases members.len(),
{
    if members.len() == 0 {
        Map::empty()
    } else {
        let before = row_of(members.drop_last());
        match term_of(members.last().1) {
            Some(t) => before.insert(members.last().0@, t),
            None => before,
        }
    }
}

/// Whether every member of the binding row can be read.
pub open spec fn is_readable(b: Json) -> bool {
    first_unreadable(binding_members(b), 0) == binding_members(b).len()
}

/// The index of the first binding row at or after `from` with a member that
/// cannot be read, or the length.
pub open spec fn first_bad_binding(bindings: Seq<Json>, from: int) -> int
    decreases bindings.len() - from,
{
    if from < 0 || from >= bindings.len() {
        bindings.len() as int
    } else if !is_readable(bindings[from]) {
        from
    } else {
        first_bad_binding(bindings, from + 1)
    }
}

/// The rows of a list of readable binding rows, in order; a row that binds
/// nothing is left out.
pub open spec fn rows_of(bindings: Seq<Json>) -> Seq<Map<Seq<char>, SparqlTerm>>
    decreases bindings.len(),
{
    if bindings.len() == 0 {
        Seq::empty()
    } else {
        let before = rows_of(bindings.drop_last());
        if binding_members(bindings.last()).len() == 0 {
            before
        } else {
            before.push(row_of(binding_members(bindings.last())))
        }
    }
}

/// The values of a row.
pub open spec fn terms_in(m: Map<Seq<char>, SparqlValue>) -> Map<Seq<char>, SparqlTerm> {
    Map::new(|k: Seq<char>| m.contains_key(k), |k: Seq<char>| m[k]@)
}

/// The values of a list of rows.
pub open spec fn table_rows(rows: Seq<Dict<SparqlValue>>) -> Seq<Map<Seq<char>, SparqlTerm>> {
    Seq::new(rows.len(), |i: int| terms_in(rows[i]@))
}

proof fn lemma_first_unreadable(members: Seq<(String, Json)>, from: int, k: int)
    requires
        0 <= from <= k <= members.len(),
        forall|j: int| from <= j < k ==> term_of(#[trigger] members[j].1) is Some,
        k == members.len() || term_of(members[k].1) is None,
    ensures
        first_unreadable(members, from) == k,
    decreases k - from,
{
    if from < k {
        assert(term_of(members[from].1) is Some);
        lemma_first_unreadable(members, from + 1, k);
    }
}

proof fn lemma_first_bad_binding(bindings: Seq<Json>, from: int, k: int)
    requires
        0 <= from <= k <= bindings.len(),
        forall|j: int| from <= j < k ==> is_readable(#[trigger] bindings[j]),
        k == bindings.len() || !is_readable(bindings[k]),
    ensures
        first_bad_binding(bindings, from) == k,
    decreases k - from,
{
    if from < k {
        assert(is_readable(bindings[from]));
        lemma_first_bad_binding(bindings, from + 1, k);
    }
}

/// Reads the members of one binding row. It fails on the first member whose
/// value fits no form, with the name of that member.
pub fn parse_row(members: &Vec<(String, Json)>) -> (r: Result<Dict<SparqlValue>, String>)
    ensures
        match r {
            Ok(row) => {
                &&& first_unreadable(members@, 0) == members@.len()
                &&& terms_in(row@) == row_of(members@)
                &&& row.wf()
                &&& (row.keys().len() == 0 <==> members@.len() == 0)
            },
            Err(name) => {
                let i = first_unreadable(members@, 0);
                0 <= i < members@.len() && name@ == members@[i].0@
            },
        },
{
    let mut row: Dict<SparqlValue> = Dict::new();
    assert(terms_in(row@) =~= Map::<Seq<char>, SparqlTerm>::empty());
    let mut i: usize = 0;
    while i < members.len()
        invariant
            i <= members.len(),
            row.wf(),
            forall|j: int| 0 <= j < i ==> term_of(#[trigger] members@[j].1) is Some,
            terms_in(row@) == row_of(members@.take(i as int)),
            row.keys().len() == 0 <==> i == 0,
        decreases members.len() - i,
    {
        assert(members@.take(i + 1).drop_last() == members@.take(i as int));
        match SparqlValue::new_from_json(&members[i].1) {
            Some(v) => {
                let ghost before = row@;
                row.insert(members[i].0.clone(), v);
                assert(terms_in(row@) =~= terms_in(before).insert(members@[i as int].0@, v@));
            },
            None => {
                proof {
                    lemma_first_unreadable(members@, 0, i as int);
                }
                return Err(members[i].0.clone());
            },
        }
        i += 1;
    }
    assert(members@.take(members.len() as int) == members@);
    proof {
        lemma_first_unreadable(members@, 0, members.len() as int);
    }
    Ok(row)
}

/// `r` is what reading the result document `doc` gives: the table where the
/// document can be read, else the first reason why it cannot.
pub open spec fn reads_as(doc: Json, r: Result<SparqlTable, SparqlError>) -> bool {
    match r {
        Ok(t) => {
            &&& array_at(doc, "head"@, "vars"@) matches Some(vars)
            &&& vars.len() > 0
            &&& vars[0].text() == Some(t.main_variable@)
            &&& array_at(doc, "results"@, "bindings"@) matches Some(bindings)
            &&& first_bad_binding(bindings, 0) == bindings.len()
            &&& table_rows(t.rows@) == rows_of(bindings)
        },
        Err(SparqlError::NotJson(_)) => false,
        Err(SparqlError::BadHead) => match array_at(doc, "head"@, "vars"@) {
            Some(vars) => vars.len() == 0,
            None => true,
        },
        Err(SparqlError::BadFirstVariable) => {
            &&& array_at(doc, "head"@, "vars"@) matches Some(vars)
            &&& vars.len() > 0
            &&& vars[0].text() is None
        },
        Err(SparqlError::BadBindings) => {
            &&& array_at(doc, "head"@, "vars"@) matches Some(vars)
            &&& vars.len() > 0
            &&& vars[0].text() is Some
            &&& array_at(doc, "results"@, "bindings"@) is None
        },
        Err(SparqlError::BadValue(name)) => {
            &&& array_at(doc, "head"@, "vars"@) matches Some(vars)
            &&& vars.len() > 0
            &&& vars[0].text() is Some
            &&& array_at(doc, "results"@, "bindings"@) matches Some(bindings)
            &&& 0 <= first_bad_binding(bindings, 0) < bindings.len()
            &&& {
                let members = binding_members(bindings[first_bad_binding(bindings, 0)]);
                let i = first_unreadable(members, 0);
                0 <= i < members.len() && name@ == members[i].0@
            }
        },
    }
}

/// Reads a result document `{head: {vars}, results: {bindings}}`. The first
/// variable names the entity of each row. Rows keep their order and are not
/// merged; a row that binds nothing is left out. One value that fits no form
/// fails the whole document.
pub fn parse_sparql_results(doc: &Json) -> (r: Result<SparqlTable, SparqlError>)
    ensures
        reads_as(*doc, r),
{
    let vars = match doc.get("head") {
        Some(head) => match head.get("vars") {
            Some(Json::Array(a)) => a,
            _ => {
                return Err(SparqlError::BadHead);
            },
        },
        None => {
            return Err(SparqlError::BadHead);
        },
    };
    if vars.len() == 0 {
        return Err(SparqlError::BadHead);
    }
    let main_variable = match vars[0].as_str() {
        Some(v) => copy_str(v),
        None => {
            return Err(SparqlError::BadFirstVariable);
        },
    };
    let bindings = match doc.get("results") {
        Some(results) => match results.get("bindings") {
            Some(Json::Array(a)) => a,
            _ => {
                return Err(SparqlError::BadBindings);
            },
        },
        None => {
            return Err(SparqlError::BadBindings);
        },
    };
    let mut rows: Vec<Dict<SparqlValue>> = Vec::new();
    assert(table_rows(rows@) =~= Seq::<Map<Seq<char>, SparqlTerm>>::empty());
    let mut i: usize = 0;
    while i < bindings.len()
        invariant
            i <= bindings.len(),
            array_at(*doc, "head"@, "vars"@) == Some(vars@),
            vars@.len() > 0,
            vars@[0].text() is Some,
            array_at(*doc, "results"@, "bindings"@) == Some(bindings@),
            forall|j: int| 0 <= j < i ==> is_readable(#[trigger] bindings@[j]),
            table_rows(rows@) == rows_of(bindings@.take(i as int)),
        decreases bindings.len() - i,
    {
        assert(bindings@.take(i + 1).drop_last() == bindings@.take(i as int));
        match &bindings[i] {
            Json::Object(members) => {
                match parse_row(members) {
                    Ok(row) => {
                        if row.len() > 0 {
                            let ghost before = table_rows(rows@);
                            rows.push(row);
                            assert(table_rows(rows@) =~= before.push(terms_in(row@)));
                        }
                    },
                    Err(name) => {
                        proof {
                            lemma_first_bad_binding(bindings@, 0, i as int);
                        }
                        return Err(SparqlError::BadValue(name));
                    },
                }
            },
            _ => {},
        }
        i += 1;
    }
    assert(bindings@.take(bindings.len() as int) == bindings@);
    proof {
        lemma_first_bad_binding(bindings@, 0, bindings.len() as int);
    }
    Ok(SparqlTable { main_variable, rows })
}

/// Reads the text of a result document: the text is parsed, and the document
/// it stands for is read as by [`parse_sparql_results`].
pub fn parse_sparql_text(text: &str) -> (r: Result<SparqlTable, SparqlError>)
    ensures
        match parsed_json(text@) {
            Ok(value) => exists|doc: Json| doc@ == value && #[trigger] reads_as(doc, r),
            Err(message) => r matches Err(SparqlError::NotJson(e)) && e@ == message,
        },
{
    match parse_json(text) {
        Ok(doc) => {
            let r = parse_sparql_results(&doc);
            assert(reads_as(doc, r));
            r
        },
        Err(e) => Err(SparqlError::NotJson(e)),
    }
}

} // verus!
