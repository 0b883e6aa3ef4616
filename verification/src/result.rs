//! The rows of a list: each row holds one cell per column, each cell a list
//! of parts. Parts are plain data; how a part is written is decided when the
//! list is rendered.

use vstd::prelude::*;
use vstd::string::*;
use crate::entity::{Snak, SnakDataType, SnakValue, TimeValue};
use crate::json::Json;
use crate::listeria_list::{
    data_safe, make_store_link, write_labeled_entity, DATA_PART_LIMIT, ListeriaList,
};
use crate::sparql::{SparqlTerm, SparqlValue};
use crate::text::{
    append_chars, append_str, char_is_digit, chars_of, copy_str, decimal_string, is_digit,
    join_strings, replace_char, slice_of, str_eq, string_of, views,
};

verus! {

/// One value in a cell.
#[derive(Debug)]
pub enum ResultCellPart {
    /// The number of the row.
    Number,
    /// An entity by identifier, and whether it may be replaced by a link to
    /// its local page.
    Entity((String, bool)),
    /// A local page and the label to show for it.
    LocalLink((String, String)),
    Time(String),
    /// Latitude and longitude, in decimal notation.
    Location((String, String)),
    File(String),
    Uri(String),
    /// The property of an external identifier and the identifier.
    ExternalId((String, String)),
    Text(String),
    /// Values that are shown together, such as a claim's value and a qualifier.
    SnakList(Vec<ResultCellPart>),
}

/// The mathematical value of a [`ResultCellPart`].
pub enum Part {
    Number,
    Entity(Seq<char>, bool),
    LocalLink(Seq<char>, Seq<char>),
    Time(Seq<char>),
    Location(Seq<char>, Seq<char>),
    File(Seq<char>),
    Uri(Seq<char>),
    ExternalId(Seq<char>, Seq<char>),
    Text(Seq<char>),
    SnakList(Seq<Part>),
}

impl View for ResultCellPart {
    type V = Part;

    open spec fn view(&self) -> Part
        decreases self,
    {
        match self {
            ResultCellPart::Number => Part::Number,
            ResultCellPart::Entity(e) => Part::Entity(e.0@, e.1),
            ResultCellPart::LocalLink(l) => Part::LocalLink(l.0@, l.1@),
            ResultCellPart::Time(t) => Part::Time(t@),
            ResultCellPart::Location(l) => Part::Location(l.0@, l.1@),
            ResultCellPart::File(f) => Part::File(f@),
            ResultCellPart::Uri(u) => Part::Uri(u@),
            ResultCellPart::ExternalId(x) => Part::ExternalId(x.0@, x.1@),
            ResultCellPart::Text(t) => Part::Text(t@),
            ResultCellPart::SnakList(v) => Part::SnakList(
                Seq::new(
                    v@.len(),
                    |i: int|
                        if 0 <= i < v@.len() {
                            v@[i]@
                        } else {
                            Part::Number
                        },
                ),
            ),
        }
    }
}

/// The values of a list of parts.
pub open spec fn parts_of(v: Seq<ResultCellPart>) -> Seq<Part> {
    Seq::new(v.len(), |i: int| v[i]@)
}

impl Clone for ResultCellPart {
    fn clone(&self) -> (r: Self)
        ensures
            r@ == self@,
        decreases self,
    {
        match self {
            ResultCellPart::Number => ResultCellPart::Number,
            ResultCellPart::Entity(e) => ResultCellPart::Entity((e.0.clone(), e.1)),
            ResultCellPart::LocalLink(l) => ResultCellPart::LocalLink((l.0.clone(), l.1.clone())),
            ResultCellPart::Time(t) => ResultCellPart::Time(t.clone()),
            ResultCellPart::Location(l) => ResultCellPart::Location((l.0.clone(), l.1.clone())),
            ResultCellPart::File(f) => ResultCellPart::File(f.clone()),
            ResultCellPart::Uri(u) => ResultCellPart::Uri(u.clone()),
            ResultCellPart::ExternalId(x) => ResultCellPart::ExternalId(
                (x.0.clone(), x.1.clone()),
            ),
            ResultCellPart::Text(t) => ResultCellPart::Text(t.clone()),
            ResultCellPart::SnakList(v) => {
                let mut w: Vec<ResultCellPart> = Vec::new();
                let mut i: usize = 0;
                while i < v.len()
                    invariant
                        i <= v.len(),
                        *self == ResultCellPart::SnakList(*v),
                        decreases_to!(*self => *v),
                        w@.len() == i,
                        forall|j: int| 0 <= j < i ==> w@[j]@ == v@[j]@,
                    decreases v.len() - i,
                {
                    proof {
                        vstd::std_specs::vec::axiom_vec_index_decreases(*v, i as int);
                    }
                    w.push(v[i].clone());
                    i += 1;
                }
                let r = ResultCellPart::SnakList(w);
                assert(r@ == self@) by {
                    assert(parts_of(w@) =~= parts_of(v@));
                    lemma_view_snak_list(w);
                    lemma_view_snak_list(*v);
                }
                r
            },
        }
    }
}

/// The value of a list of parts is the list of their values.
pub proof fn lemma_view_snak_list(v: Vec<ResultCellPart>)
    ensures
        ResultCellPart::SnakList(v)@ == Part::SnakList(parts_of(v@)),
{
    let a = ResultCellPart::SnakList(v)@;
    assert(a->SnakList_0 =~= parts_of(v@));
}

/// One cell of a row: the parts it shows, in order.
#[derive(Debug)]
pub struct ResultCell {
    pub parts: Vec<ResultCellPart>,
}

impl View for ResultCell {
    type V = Seq<Part>;

    open spec fn view(&self) -> Seq<Part> {
        parts_of(self.parts@)
    }
}

/// A copy of a list of parts.
pub fn clone_parts(v: &Vec<ResultCellPart>) -> (w: Vec<ResultCellPart>)
    ensures
        parts_of(w@) == parts_of(v@),
{
    let mut w: Vec<ResultCellPart> = Vec::new();
    let mut i: usize = 0;
    while i < v.len()
        invariant
            i <= v.len(),
            w@.len() == i,
            forall|j: int| 0 <= j < i ==> w@[j]@ == v@[j]@,
        decreases v.len() - i,
    {
        w.push(v[i].clone());
        i += 1;
    }
    assert(parts_of(w@) =~= parts_of(v@));
    w
}

impl Clone for ResultCell {
    fn clone(&self) -> (r: Self)
        ensures
            r@ == self@,
    {
        ResultCell { parts: clone_parts(&self.parts) }
    }
}

impl ResultCell {
    /// A cell without parts.
    pub fn new() -> (r: Self)
        ensures
            r@ == Seq::<Part>::empty(),
    {
        let r = Self { parts: Vec::new() };
        assert(r@ =~= Seq::<Part>::empty());
        r
    }
}

/// The values of a list of cells.
pub open spec fn cells_of(v: Seq<ResultCell>) -> Seq<Seq<Part>> {
    Seq::new(v.len(), |i: int| v[i]@)
}

// ---------------------------------------------------------------------------
// Times at their precision
// ---------------------------------------------------------------------------

/// The first index of `s` at or after `from` that holds no digit, or the length.
pub open spec fn digits_end(s: Seq<char>, from: int) -> int
    decreases s.len() - from,
{
    if from < 0 || from >= s.len() {
        s.len() as int
    } else if !is_digit(s[from]) {
        from
    } else {
        digits_end(s, from + 1)
    }
}

/// Year, month and day of a time that begins `[+][-]<digits>-<1 or 2
/// digits>-<1 or 2 digits>T`; the year keeps its minus sign.
pub open spec fn date_parts(s: Seq<char>) -> Option<(Seq<char>, Seq<char>, Seq<char>)> {
    let a: int = if s.len() > 0 && s[0] == '+' {
        1
    } else {
        0
    };
    let b: int = if a < s.len() && s[a] == '-' {
        a + 1
    } else {
        a
    };
    let c = digits_end(s, b);
    let d = digits_end(s, c + 1);
    let e = digits_end(s, d + 1);
    if b < c < s.len() && s[c] == '-' && c + 1 < d <= c + 3 && d < s.len() && s[d] == '-' && d + 1
        < e <= d + 3 && e < s.len() && s[e] == 'T' {
        Some((s.subrange(a, c), s.subrange(c + 1, d), s.subrange(d + 1, e)))
    } else {
        None
    }
}

/// `year` without its last `n` characters; nothing where it has fewer.
pub open spec fn without_last(year: Seq<char>, n: int) -> Seq<char> {
    if year.len() >= n {
        year.take(year.len() - n)
    } else {
        Seq::empty()
    }
}

/// A time written at its precision: millennium (6), century (7), decade (8),
/// year (9), month (10) or day (11). A time of another precision, or one that
/// does not begin with a date, is written as it is.
pub open spec fn reduced_time(time: Seq<char>, precision: u64) -> Seq<char> {
    match date_parts(time) {
        None => time,
        Some((year, month, day)) => if precision == 6 {
            without_last(year, 4) + "th millenium"@
        } else if precision == 7 {
            without_last(year, 3) + "th century"@
        } else if precision == 8 {
            without_last(year, 2) + "0s"@
        } else if precision == 9 {
            year
        } else if precision == 10 {
            year + "-"@ + month
        } else if precision == 11 {
            year + "-"@ + month + "-"@ + day
        } else {
            time
        },
    }
}

/// The first index of `v` at or after `from` that holds no digit, or the length.
pub fn find_digits_end(v: &Vec<char>, from: usize) -> (k: usize)
    ensures
        k == digits_end(v@, from as int),
        from <= k <= v.len() || (from > v.len() && k == v.len()),
{
    let n = v.len();
    if from >= n {
        return n;
    }
    let mut i: usize = from;
    while i < n
        invariant
            from <= i <= n,
            n == v.len(),
            digits_end(v@, from as int) == digits_end(v@, i as int),
        decreases n - i,
    {
        if !char_is_digit(v[i]) {
            return i;
        }
        i += 1;
    }
    n
}

/// Year, month and day of a time that begins with a date.
pub fn split_date(v: &Vec<char>) -> (r: Option<(Vec<char>, Vec<char>, Vec<char>)>)
    ensures
        match r {
            Some(p) => date_parts(v@) == Some((p.0@, p.1@, p.2@)),
            None => date_parts(v@) is None,
        },
{
    let n = v.len();
    let a: usize = if n > 0 && v[0] == '+' {
        1
    } else {
        0
    };
    let b: usize = if a < n && v[a] == '-' {
        a + 1
    } else {
        a
    };
    let c = find_digits_end(v, b);
    if !(b < c && c < n) {
        return None;
    }
    if v[c] != '-' {
        return None;
    }
    let d = find_digits_end(v, c + 1);
    if !(c + 1 < d && d - c <= 3 && d < n) {
        return None;
    }
    if v[d] != '-' {
        return None;
    }
    let e = find_digits_end(v, d + 1);
    if !(d + 1 < e && e - d <= 3 && e < n) {
        return None;
    }
    if v[e] != 'T' {
        return None;
    }
    Some((slice_of(v, a, c), slice_of(v, c + 1, d), slice_of(v, d + 1, e)))
}

/// `year` without its last `n` characters; nothing where it has fewer.
fn cut_last(year: &Vec<char>, n: usize) -> (r: Vec<char>)
    ensures
        r@ == without_last(year@, n as int),
{
    if year.len() >= n {
        let r = slice_of(year, 0, year.len() - n);
        assert(year@.subrange(0, year.len() - n) == year@.take(year.len() - n));
        r
    } else {
        Vec::new()
    }
}

// ---------------------------------------------------------------------------
// Parts from values
// ---------------------------------------------------------------------------

/// The text that stands for a snak without a value.
pub open spec fn no_value_text() -> Seq<char> {
    "No/unknown value"@
}

/// The part that shows the value of a snak.
pub open spec fn part_of_snak(snak: Snak) -> Part {
    match snak.value {
        Some(SnakValue::Entity(id)) => Part::Entity(id@, true),
        Some(SnakValue::StringValue(v)) => match snak.datatype {
            SnakDataType::CommonsMedia => Part::File(v@),
            SnakDataType::ExternalId => Part::ExternalId(snak.property@, v@),
            _ => Part::Text(v@),
        },
        Some(SnakValue::Quantity(amount)) => Part::Text(amount@),
        Some(SnakValue::Time(t)) => Part::Time(reduced_time(t.time@, t.precision)),
        Some(SnakValue::Coordinate(c)) => Part::Location(c.lat@, c.lon@),
        Some(SnakValue::MonoLingual(m)) => Part::Text(m.language@ + ":"@ + m.text@),
        None => Part::Text(no_value_text()),
    }
}

/// The part that shows a bound value. A time is shown as the text it was bound to.
pub open spec fn part_of_term(t: SparqlTerm) -> Part {
    match t {
        SparqlTerm::Entity(x) => Part::Entity(x, true),
        SparqlTerm::File(x) => Part::File(x),
        SparqlTerm::Uri(x) => Part::Uri(x),
        SparqlTerm::Time(x) => Part::Text(x),
        SparqlTerm::Location { lat, lon } => Part::Location(lat, lon),
        SparqlTerm::Literal(x) => Part::Text(x),
    }
}

impl ResultCellPart {
    /// The part that shows a bound value.
    pub fn from_sparql_value(v: &SparqlValue) -> (r: Self)
        ensures
            r@ == part_of_term(v@),
    {
        match v {
            SparqlValue::Entity(x) => ResultCellPart::Entity((x.clone(), true)),
            SparqlValue::File(x) => ResultCellPart::File(x.clone()),
            SparqlValue::Uri(x) => ResultCellPart::Uri(x.clone()),
            SparqlValue::Time(x) => ResultCellPart::Text(x.clone()),
            SparqlValue::Location(x) => ResultCellPart::Location((x.lat.clone(), x.lon.clone())),
            SparqlValue::Literal(x) => ResultCellPart::Text(x.clone()),
        }
    }

    /// The part that shows the value of a snak.
    pub fn from_snak(snak: &Snak) -> (r: Self)
        ensures
            r@ == part_of_snak(*snak),
    {
        match &snak.value {
            Some(SnakValue::Entity(id)) => ResultCellPart::Entity((id.clone(), true)),
            Some(SnakValue::StringValue(v)) => match snak.datatype {
                SnakDataType::CommonsMedia => ResultCellPart::File(v.clone()),
                SnakDataType::ExternalId => ResultCellPart::ExternalId(
                    (snak.property.clone(), v.clone()),
                ),
                _ => ResultCellPart::Text(v.clone()),
            },
            Some(SnakValue::Quantity(amount)) => ResultCellPart::Text(amount.clone()),
            Some(SnakValue::Time(t)) => ResultCellPart::Time(Self::reduce_time(t)),
            Some(SnakValue::Coordinate(c)) => ResultCellPart::Location(
                (c.lat.clone(), c.lon.clone()),
            ),
            Some(SnakValue::MonoLingual(m)) => {
                let mut s = m.language.clone();
                s.append(":");
                s.append(m.text.as_str());
                ResultCellPart::Text(s)
            },
            None => ResultCellPart::Text(copy_str("No/unknown value")),
        }
    }

    /// Writes a time at its precision.
    pub fn reduce_time(v: &TimeValue) -> (r: String)
        ensures
            r@ == reduced_time(v.time@, v.precision),
    {
        let s = chars_of(v.time.as_str());
        let (year, month, day) = match split_date(&s) {
            Some(p) => p,
            None => {
                return v.time.clone();
            },
        };
        if v.precision == 6 {
            let mut r = cut_last(&year, 4);
            append_str(&mut r, "th millenium");
            string_of(&r)
        } else if v.precision == 7 {
            let mut r = cut_last(&year, 3);
            append_str(&mut r, "th century");
            string_of(&r)
        } else if v.precision == 8 {
            let mut r = cut_last(&year, 2);
            append_str(&mut r, "0s");
            string_of(&r)
        } else if v.precision == 9 {
            string_of(&year)
        } else if v.precision == 10 {
            let mut r = year;
            append_str(&mut r, "-");
            append_chars(&mut r, &month);
            string_of(&r)
        } else if v.precision == 11 {
            let mut r = year;
            append_str(&mut r, "-");
            append_chars(&mut r, &month);
            append_str(&mut r, "-");
            append_chars(&mut r, &day);
            string_of(&r)
        } else {
            v.time.clone()
        }
    }
}

// ---------------------------------------------------------------------------
// Writing parts and cells
// ---------------------------------------------------------------------------

impl ResultCellPart {
    /// Makes a text safe for a data record.
    pub fn tabbed_string_safe(&self, s: String) -> (r: String)
        ensures
            r@ == data_safe(s@),
    {
        let v = chars_of(s.as_str());
        let t = replace_char(&replace_char(&v, '\n', ' '), '\t', ' ');
        if t.len() > DATA_PART_LIMIT {
            let cut = slice_of(&t, 0, DATA_PART_LIMIT);
            assert(t@.subrange(0, DATA_PART_LIMIT as int) == t@.take(DATA_PART_LIMIT as int));
            string_of(&cut)
        } else {
            string_of(&t)
        }
    }

    /// Writes the part in markup, as the link style, language and wiki of
    /// `list` ask. `rownum` counts the rows of the section from 0.
    pub fn as_wikitext(&self, list: &ListeriaList, rownum: usize, colnum: usize, partnum: usize) -> (r:
        String)
        ensures
            r@ == list.part_text(self@, rownum as nat),
        decreases self,
    {
        match self {
            ResultCellPart::Number => {
                let mut r = copy_str("style='text-align:right'| ");
                let n = decimal_string(rownum as u128 + 1);
                r.append(n.as_str());
                r
            },
            ResultCellPart::Entity(e) => {
                if !e.1 {
                    return make_store_link(e.0.as_str(), e.0.as_str());
                }
                match list.entities.get_label(e.0.as_str(), list.language.as_str()) {
                    Some(l) => write_labeled_entity(
                        list.get_links_type(),
                        e.0.as_str(),
                        l,
                        list.local_page_exists(l),
                    ),
                    None => make_store_link(e.0.as_str(), e.0.as_str()),
                }
            },
            ResultCellPart::LocalLink(l) => {
                let a = list.normalize_page_title(l.0.as_str());
                let b = list.normalize_page_title(l.1.as_str());
                let mut r = copy_str("[[");
                if !str_eq(a.as_str(), b.as_str()) {
                    r.append(l.0.as_str());
                    r.append("|");
                }
                r.append(l.1.as_str());
                r.append("]]");
                r
            },
            ResultCellPart::Time(time) => time.clone(),
            ResultCellPart::Location(l) => list.get_location_template(l.0.as_str(), l.1.as_str()),
            ResultCellPart::File(file) => {
                let prefix = list.local_file_namespace_prefix();
                let width = decimal_string(list.thumbnail_size() as u128);
                let mut r = copy_str("[[");
                r.append(prefix.as_str());
                r.append(":");
                r.append(file.as_str());
                r.append("|thumb|");
                r.append(width.as_str());
                r.append("px|]]");
                r
            },
            ResultCellPart::Uri(url) => url.clone(),
            ResultCellPart::ExternalId(x) => {
                match list.external_id_url(x.0.as_str(), x.1.as_str()) {
                    Some(url) => {
                        let mut r = copy_str("[");
                        r.append(url.as_str());
                        r.append(" ");
                        r.append(x.1.as_str());
                        r.append("]");
                        r
                    },
                    None => x.1.clone(),
                }
            },
            ResultCellPart::Text(text) => text.clone(),
            ResultCellPart::SnakList(v) => {
                let mut texts: Vec<String> = Vec::new();
                let mut i: usize = 0;
                while i < v.len()
                    invariant
                        i <= v.len(),
                        decreases_to!(*self => *v),
                        texts@.len() == i,
                        forall|j: int|
                            0 <= j < i ==> (#[trigger] texts@[j])@ == list.part_text(
                                v@[j]@,
                                rownum as nat,
                            ),
                    decreases v.len() - i,
                {
                    proof {
                        vstd::std_specs::vec::axiom_vec_index_decreases(*v, i as int);
                    }
                    texts.push(v[i].as_wikitext(list, rownum, colnum, partnum));
                    i += 1;
                }
                let r = join_strings(&texts, " \u{2014} ");
                proof {
                    lemma_view_snak_list(*v);
                    assert(views(texts@) =~= list.part_texts(parts_of(v@), rownum as nat));
                }
                r
            },
        }
    }

    /// Writes the part for a data record: as in markup, then made safe.
    pub fn as_tabbed_data(&self, list: &ListeriaList, rownum: usize, colnum: usize, partnum: usize) -> (r:
        String)
        ensures
            r@ == data_safe(list.part_text(self@, rownum as nat)),
    {
        self.tabbed_string_safe(self.as_wikitext(list, rownum, colnum, partnum))
    }
}

impl ResultCell {
    /// Writes the cell for a data record. A cell without parts is the empty text.
    pub fn as_tabbed_data(&self, list: &ListeriaList, rownum: usize, colnum: usize) -> (r: Json)
        ensures
            r.text() == Some(list.cell_data(self@, rownum as nat)),
            self@.len() == 0 ==> r.text() == Some(Seq::<char>::empty()),
    {
        let mut texts: Vec<String> = Vec::new();
        let mut i: usize = 0;
        while i < self.parts.len()
            invariant
                i <= self.parts.len(),
                texts@.len() == i,
                forall|j: int|
                    0 <= j < i ==> (#[trigger] texts@[j])@ == data_safe(
                        list.part_text(self.parts@[j]@, rownum as nat),
                    ),
            decreases self.parts.len() - i,
        {
            texts.push(self.parts[i].as_tabbed_data(list, rownum, colnum, i));
            i += 1;
        }
        assert(views(texts@) =~= list.part_data(self@, rownum as nat));
        Json::Text(join_strings(&texts, "<br/>"))
    }

    /// Writes the cell in markup. A cell without parts is the empty text.
    pub fn as_wikitext(&self, list: &ListeriaList, rownum: usize, colnum: usize) -> (r: String)
        ensures
            r@ == list.cell_text(self@, rownum as nat),
            self@.len() == 0 ==> r@ == Seq::<char>::empty(),
    {
        let mut texts: Vec<String> = Vec::new();
        let mut i: usize = 0;
        while i < self.parts.len()
            invariant
                i <= self.parts.len(),
                texts@.len() == i,
                forall|j: int|
                    0 <= j < i ==> (#[trigger] texts@[j])@ == list.part_text(
                        self.parts@[j]@,
                        rownum as nat,
                    ),
            decreases self.parts.len() - i,
        {
            texts.push(self.parts[i].as_wikitext(list, rownum, colnum, i));
            i += 1;
        }
        assert(views(texts@) =~= list.part_texts(self@, rownum as nat));
        join_strings(&texts, "<br/>")
    }
}

/// A cell without parts is written as the empty text, in markup and in a
/// data record alike.
pub proof fn lemma_empty_cell_is_empty_text(list: ListeriaList, rownum: nat)
    ensures
        list.cell_text(Seq::empty(), rownum) == Seq::<char>::empty(),
        list.cell_data(Seq::empty(), rownum) == Seq::<char>::empty(),
{
    assert(list.part_texts(Seq::empty(), rownum) =~= Seq::<Seq<char>>::empty());
    assert(list.part_data(Seq::empty(), rownum) =~= Seq::<Seq<char>>::empty());
}

} // verus!
