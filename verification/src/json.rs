//! A plain-data model of a JSON document, as far as the list logic reads one.

use serde_json::Value;
use vstd::prelude::*;
use vstd::string::*;
use crate::text::str_eq;

verus! {

/// A JSON number. Numbers that are no integers are kept in decimal notation.
#[derive(Debug, Clone)]
pub enum JsonNumber {
    /// A non-negative integer.
    Unsigned(u64),
    /// A negative integer.
    Negative(i64),
    /// Any other number, as written.
    Real(String),
}

/// A JSON value. The members of an object are kept in document order; where a
/// name occurs twice the last member counts.
#[derive(Debug)]
pub enum Json {
    Null,
    Bool(bool),
    Number(JsonNumber),
    Text(String),
    Array(Vec<Json>),
    Object(Vec<(String, Json)>),
}

/// The mathematical value of a [`Json`] document.
pub enum JsonValue {
    Null,
    Bool(bool),
    Integer(int),
    Real(Seq<char>),
    Text(Seq<char>),
    Array(Seq<JsonValue>),
    /// The names of the members and, at the same places, their values.
    Object { names: Seq<Seq<char>>, values: Seq<JsonValue> },
}

/// The value of a number.
pub open spec fn number_value(n: JsonNumber) -> JsonValue {
    match n {
        JsonNumber::Unsigned(n) => JsonValue::Integer(n as int),
        JsonNumber::Negative(n) => JsonValue::Integer(n as int),
        JsonNumber::Real(t) => JsonValue::Real(t@),
    }
}

impl View for Json {
    type V = JsonValue;

    open spec fn view(&self) -> JsonValue
        decreases self,
    {
        match self {
            Json::Null => JsonValue::Null,
            Json::Bool(b) => JsonValue::Bool(*b),
            Json::Number(n) => number_value(*n),
            Json::Text(t) => JsonValue::Text(t@),
            Json::Array(a) => JsonValue::Array(
                Seq::new(
                    a@.len(),
                    |i: int|
                        if 0 <= i < a@.len() {
                            a@[i]@
                        } else {
                            JsonValue::Null
                        },
                ),
            ),
            Json::Object(m) => JsonValue::Object {
                names: Seq::new(m@.len(), |i: int| m@[i].0@),
                values: Seq::new(
                    m@.len(),
                    |i: int|
                        if 0 <= i < m@.len() {
                            m@[i].1@
                        } else {
                            JsonValue::Null
                        },
                ),
            },
        }
    }
}

/// The values of a list of documents.
pub open spec fn values_of(a: Seq<Json>) -> Seq<JsonValue> {
    Seq::new(a.len(), |i: int| a[i]@)
}

/// The names of a list of members.
pub open spec fn member_names(m: Seq<(String, Json)>) -> Seq<Seq<char>> {
    Seq::new(m.len(), |i: int| m[i].0@)
}

/// The values of a list of members.
pub open spec fn member_values(m: Seq<(String, Json)>) -> Seq<JsonValue> {
    Seq::new(m.len(), |i: int| m[i].1@)
}

/// The value of an array is the list of the values of its elements.
pub proof fn lemma_view_array(a: Vec<Json>)
    ensures
        Json::Array(a)@ == JsonValue::Array(values_of(a@)),
{
    let v = Json::Array(a)@;
    assert(v->Array_0 =~= values_of(a@));
}

/// The value of an object is the list of its members' names and that of their values.
pub proof fn lemma_view_object(m: Vec<(String, Json)>)
    ensures
        Json::Object(m)@ == (JsonValue::Object {
            names: member_names(m@),
            values: member_values(m@),
        }),
{
    let v = Json::Object(m)@;
    assert(v->names =~= member_names(m@));
    assert(v->values =~= member_values(m@));
}

/// The index of the last of the first `n` members that is named `name`, or
/// -1 where none is.
pub open spec fn member_index(members: Seq<(String, Json)>, name: Seq<char>, n: int) -> int
    decreases n,
{
    if n <= 0 || n > members.len() {
        -1
    } else if members[n - 1].0@ == name {
        n - 1
    } else {
        member_index(members, name, n - 1)
    }
}

impl Json {
    /// The member `name` of an object; of anything else, and where the object
    /// has no such member, nothing.
    pub open spec fn member(&self, name: Seq<char>) -> Option<Json> {
        match self {
            Json::Object(members) => {
                let i = member_index(members@, name, members@.len() as int);
                if 0 <= i < members@.len() {
                    Some(members@[i].1)
                } else {
                    None
                }
            },
            _ => None,
        }
    }

    /// The text of a string value.
    pub open spec fn text(&self) -> Option<Seq<char>> {
        match self {
            Json::Text(t) => Some(t@),
            _ => None,
        }
    }

    /// The text of the string member `name`.
    pub open spec fn member_text(&self, name: Seq<char>) -> Option<Seq<char>> {
        match self.member(name) {
            Some(j) => j.text(),
            None => None,
        }
    }

    /// The member `name` of an object.
    pub fn get(&self, name: &str) -> (r: Option<&Json>)
        ensures
            match r {
                Some(j) => self.member(name@) == Some(*j),
                None => self.member(name@) is None,
            },
    {
        match self {
            Json::Object(members) => {
                let mut i: usize = members.len();
                while i > 0
                    invariant
                        i <= members.len(),
                        *self == Json::Object(*members),
                        member_index(members@, name@, members@.len() as int) == member_index(
                            members@,
                            name@,
                            i as int,
                        ),
                    decreases i,
                {
                    if str_eq(members[i - 1].0.as_str(), name) {
                        return Some(&members[i - 1].1);
                    }
                    i -= 1;
                }
                None
            },
            _ => None,
        }
    }

    /// The text of a string value.
    pub fn as_str(&self) -> (r: Option<&str>)
        ensures
            match r {
                Some(t) => self.text() == Some(t@),
                None => self.text() is None,
            },
    {
        match self {
            Json::Text(t) => Some(t.as_str()),
            _ => None,
        }
    }

    /// The text of the string member `name`.
    pub fn get_str(&self, name: &str) -> (r: Option<&str>)
        ensures
            match r {
                Some(t) => self.member_text(name@) == Some(t@),
                None => self.member_text(name@) is None,
            },
    {
        match self.get(name) {
            Some(j) => j.as_str(),
            None => None,
        }
    }

    /// The members of an object.
    pub fn as_object(&self) -> (r: Option<&Vec<(String, Json)>>)
        ensures
            match r {
                Some(m) => *self == Json::Object(*m),
                None => !(self is Object),
            },
    {
        match self {
            Json::Object(m) => Some(m),
            _ => None,
        }
    }

    /// The elements of an array.
    pub fn as_array(&self) -> (r: Option<&Vec<Json>>)
        ensures
            match r {
                Some(a) => *self == Json::Array(*a),
                None => !(self is Array),
            },
    {
        match self {
            Json::Array(a) => Some(a),
            _ => None,
        }
    }

    /// The value of a non-negative integer.
    pub fn as_u64(&self) -> (r: Option<u64>)
        ensures
            r == match self {
                Json::Number(JsonNumber::Unsigned(n)) => Some(*n),
                _ => None,
            },
    {
        match self {
            Json::Number(JsonNumber::Unsigned(n)) => Some(*n),
            _ => None,
        }
    }

    /// The value of a boolean.
    pub fn as_bool(&self) -> (r: Option<bool>)
        ensures
            r == match self {
                Json::Bool(b) => Some(*b),
                _ => None,
            },
    {
        match self {
            Json::Bool(b) => Some(*b),
            _ => None,
        }
    }
}

// ---------------------------------------------------------------------------
// Reading a document from text, by the `serde_json` crate
// ---------------------------------------------------------------------------

/// `serde_json::Value`, handed from the parser to the conversion.
#[verifier::external_type_specification]
#[verifier::external_body]
pub struct ExSerdeValue(serde_json::Value);

/// The value of the document that a text stands for, or the message that
/// says why it stands for none.
pub uninterp spec fn parsed_json(text: Seq<char>) -> Result<JsonValue, Seq<char>>;

/// A `serde_json::Value` as a document of this crate, variant by variant:
/// a number as a non-negative integer where `as_u64` gives one, else as a
/// negative integer where `as_i64` gives one, else as `to_string` writes it;
/// the members of an object in the order in which `serde_json` walks them.
/// Nothing is claimed of the result.
#[verifier::external_body]
fn json_of(v: &Value) -> Json {
    match v {
        Value::Null => Json::Null,
        Value::Bool(b) => Json::Bool(*b),
        Value::Number(n) => Json::Number(match (n.as_u64(), n.as_i64()) {
            (Some(u), _) => JsonNumber::Unsigned(u),
            (_, Some(i)) => JsonNumber::Negative(i),
            _ => JsonNumber::Real(n.to_string()),
        }),
        Value::String(s) => Json::Text(s.clone()),
        Value::Array(a) => Json::Array(a.iter().map(json_of).collect()),
        Value::Object(o) => Json::Object(o.iter().map(|(k, v)| (k.clone(), json_of(v))).collect()),
    }
}

/// `serde_json::from_str`: the document that the text stands for, or the
/// error in its debug form. Both depend on the characters of the text alone.
#[verifier::external_body]
pub(crate) fn parse_json(text: &str) -> (r: Result<Json, String>)
    ensures
        match r {
            Ok(j) => parsed_json(text@) == Ok::<JsonValue, Seq<char>>(j@),
            Err(e) => parsed_json(text@) == Err::<JsonValue, Seq<char>>(e@),
        },
{
    match serde_json::from_str::<Value>(text) {
        Ok(v) => Ok(json_of(&v)),
        Err(e) => Err(format!("{:?}", e)),
    }
}

// ---------------------------------------------------------------------------
// Writing a document as text, by the `serde_json` crate
// ---------------------------------------------------------------------------

/// The text that a document is written as: without any white space between
/// its parts, the members of an object in the order of their names, each
/// name once.
pub uninterp spec fn json_written(v: JsonValue) -> Seq<char>;

/// A document of this crate as a `serde_json::Value`, variant by variant;
/// a number that is kept as written is read back by `Number::from_str`, and
/// where a name occurs twice in an object the last member stays. Nothing is
/// claimed of the result.
#[verifier::external_body]
fn value_of(j: &Json) -> Value {
    match j {
        Json::Null => Value::Null,
        Json::Bool(b) => Value::Bool(*b),
        Json::Number(JsonNumber::Unsigned(n)) => Value::from(*n),
        Json::Number(JsonNumber::Negative(n)) => Value::from(*n),
        Json::Number(JsonNumber::Real(t)) => t.parse().map_or(Value::Null, Value::Number),
        Json::Text(t) => Value::String(t.clone()),
        Json::Array(a) => Value::Array(a.iter().map(value_of).collect()),
        Json::Object(m) => Value::Object(m.iter().map(|(k, v)| (k.clone(), value_of(v))).collect()),
    }
}

/// `serde_json::to_string`: the text of the document, which depends on the
/// value of the document alone. Writing a `Value` does not fail.
#[verifier::external_body]
fn write_json(j: &Json) -> (r: String)
    ensures
        r@ == json_written(j@),
{
    serde_json::to_string(&value_of(j)).unwrap_or_default()
}

impl Json {
    /// The document as text, without any white space between its parts.
    pub fn to_text(&self) -> (r: String)
        ensures
            r@ == json_written(self@),
    {
        write_json(self)
    }
}

} // verus!
