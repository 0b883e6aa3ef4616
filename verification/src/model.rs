//! Building the rows of a list from the bindings of its query, the columns
//! of its template and the loaded entities.

use vstd::prelude::*;
use vstd::string::*;
use crate::column::{ColumnKind, ColumnType};
use crate::entity::{text_in, view_of, Entity, SnakValue, Statement};
use crate::listeria_list::ListeriaList;
use crate::params::LinksType;
use crate::result::{
    lemma_view_snak_list, part_of_snak, part_of_term, parts_of, Part, ResultCell, ResultCellPart,
};
use crate::result_row::{rows_view, ResultRow, Row};
use crate::sparql::SparqlValue;
use crate::text::{copy_str, str_eq};

verus! {

// ---------------------------------------------------------------------------
// Parts from claims
// ---------------------------------------------------------------------------

/// The main values of the claims of property `prop` among the first `n` claims.
pub open spec fn claim_parts(claims: Seq<Statement>, prop: Seq<char>, n: int) -> Seq<Part>
    decreases n,
{
    if n <= 0 || n > claims.len() {
        Seq::empty()
    } else {
        let before = claim_parts(claims, prop, n - 1);
        if claims[n - 1].main_snak.property@ == prop {
            before.push(part_of_snak(claims[n - 1].main_snak))
        } else {
            before
        }
    }
}

/// For each of the first `n` qualifiers of `st` with property `qual`: the
/// main value of the claim and the qualifier's value, shown together.
pub open spec fn qualified_parts(st: Statement, qual: Seq<char>, n: int) -> Seq<Part>
    decreases n,
{
    if n <= 0 || n > st.qualifiers@.len() {
        Seq::empty()
    } else {
        let before = qualified_parts(st, qual, n - 1);
        if st.qualifiers@[n - 1].property@ == qual {
            before.push(
                Part::SnakList(
                    seq![part_of_snak(st.main_snak), part_of_snak(st.qualifiers@[n - 1])],
                ),
            )
        } else {
            before
        }
    }
}

/// Whether the main value of the claim is the entity `target`.
pub open spec fn points_to(st: Statement, target: Seq<char>) -> bool {
    st.main_snak.value matches Some(SnakValue::Entity(id)) && id@ == target
}

/// The qualified parts of the claims of property `prop` among the first `n`
/// claims; with a `target`, only of the claims whose main value is that entity.
pub open spec fn qualifier_parts(
    claims: Seq<Statement>,
    prop: Seq<char>,
    target: Option<Seq<char>>,
    qual: Seq<char>,
    n: int,
) -> Seq<Part>
    decreases n,
{
    if n <= 0 || n > claims.len() {
        Seq::empty()
    } else {
        let before = qualifier_parts(claims, prop, target, qual, n - 1);
        let st = claims[n - 1];
        if st.main_snak.property@ == prop && (match target {
            Some(t) => points_to(st, t),
            None => true,
        }) {
            before + qualified_parts(st, qual, st.qualifiers@.len() as int)
        } else {
            before
        }
    }
}

/// The main values of the claims of property `prop` of `e`.
pub fn parts_for_property(e: &Entity, prop: &str) -> (r: Vec<ResultCellPart>)
    ensures
        parts_of(r@) == claim_parts(e.claims@, prop@, e.claims@.len() as int),
{
    let mut r: Vec<ResultCellPart> = Vec::new();
    assert(parts_of(r@) =~= Seq::<Part>::empty());
    let mut i: usize = 0;
    while i < e.claims.len()
        invariant
            i <= e.claims.len(),
            parts_of(r@) == claim_parts(e.claims@, prop@, i as int),
        decreases e.claims.len() - i,
    {
        if str_eq(e.claims[i].main_snak.property.as_str(), prop) {
            let ghost before = parts_of(r@);
            let part = ResultCellPart::from_snak(&e.claims[i].main_snak);
            r.push(part);
            assert(parts_of(r@) =~= before.push(part@));
        }
        i += 1;
    }
    r
}

/// Appends to `out` the qualified parts of `st` for the qualifier property `qual`.
pub fn push_qualified_parts(out: &mut Vec<ResultCellPart>, st: &Statement, qual: &str)
    ensures
        parts_of(final(out)@) == parts_of(old(out)@) + qualified_parts(
            *st,
            qual@,
            st.qualifiers@.len() as int,
        ),
{
    let ghost start = parts_of(out@);
    assert(start + Seq::<Part>::empty() =~= start);
    let mut i: usize = 0;
    while i < st.qualifiers.len()
        invariant
            i <= st.qualifiers.len(),
            parts_of(out@) == start + qualified_parts(*st, qual@, i as int),
        decreases st.qualifiers.len() - i,
    {
        if str_eq(st.qualifiers[i].property.as_str(), qual) {
            let ghost before = parts_of(out@);
            let mut pair: Vec<ResultCellPart> = Vec::new();
            pair.push(ResultCellPart::from_snak(&st.main_snak));
            pair.push(ResultCellPart::from_snak(&st.qualifiers[i]));
            let part = ResultCellPart::SnakList(pair);
            proof {
                lemma_view_snak_list(pair);
                assert(parts_of(pair@) =~= seq![
                    part_of_snak(st.main_snak),
                    part_of_snak(st.qualifiers@[i as int]),
                ]);
            }
            out.push(part);
            assert(parts_of(out@) =~= before.push(part@));
            assert(start + qualified_parts(*st, qual@, i as int).push(part@) =~= (start
                + qualified_parts(*st, qual@, i as int)).push(part@));
        }
        i += 1;
    }
}

/// Whether the main value of the claim is the entity `target`.
pub fn claim_points_to(st: &Statement, target: &str) -> (r: bool)
    ensures
        r == points_to(*st, target@),
{
    match &st.main_snak.value {
        Some(SnakValue::Entity(id)) => str_eq(id.as_str(), target),
        _ => false,
    }
}

/// The qualified parts of the claims of property `prop` of `e`; with a
/// `target`, only of the claims whose main value is that entity.
pub fn parts_for_qualifier(e: &Entity, prop: &str, target: Option<&str>, qual: &str) -> (r: Vec<
    ResultCellPart,
>)
    ensures
        parts_of(r@) == qualifier_parts(
            e.claims@,
            prop@,
            view_of(target),
            qual@,
            e.claims@.len() as int,
        ),
{
    let mut r: Vec<ResultCellPart> = Vec::new();
    assert(parts_of(r@) =~= Seq::<Part>::empty());
    let mut i: usize = 0;
    while i < e.claims.len()
        invariant
            i <= e.claims.len(),
            parts_of(r@) == qualifier_parts(
                e.claims@,
                prop@,
                view_of(target),
                qual@,
                i as int,
            ),
        decreases e.claims.len() - i,
    {
        let st = &e.claims[i];
        let wanted = str_eq(st.main_snak.property.as_str(), prop) && match target {
            Some(t) => claim_points_to(st, t),
            None => true,
        };
        if wanted {
            push_qualified_parts(&mut r, st, qual);
        }
        i += 1;
    }
    r
}

// ---------------------------------------------------------------------------
// Rows from bindings
// ---------------------------------------------------------------------------

impl ListeriaList {
    /// The entity that binding row `i` is about: what the first variable of
    /// the query is bound to, where that is an entity.
    pub open spec fn entity_of_row(&self, i: int) -> Option<Seq<char>> {
        match self.sparql_first_variable {
            Some(var) => if 0 <= i < self.sparql_rows@.len() && self.sparql_rows@[i]@.contains_key(
                var@,
            ) {
                match self.sparql_rows@[i]@[var@] {
                    SparqlValue::Entity(id) => Some(id@),
                    _ => None,
                }
            } else {
                None
            },
            None => None,
        }
    }

    /// Whether binding row `k` adds to the row that is built from binding row
    /// `i` for the entity `id`: with one row per entity, every binding row
    /// about `id` does; else only row `i` itself.
    pub open spec fn contributes(&self, k: int, i: int, id: Seq<char>) -> bool {
        if self.params.one_row_per_item {
            self.entity_of_row(k) == Some(id)
        } else {
            k == i
        }
    }

    /// What the variable `var` is bound to in the first `n` binding rows that
    /// add to the row built from binding row `i` for `id`.
    pub open spec fn field_parts(&self, var: Seq<char>, i: int, id: Seq<char>, n: int) -> Seq<Part>
        decreases n,
    {
        if n <= 0 || n > self.sparql_rows@.len() {
            Seq::empty()
        } else {
            let before = self.field_parts(var, i, id, n - 1);
            if self.contributes(n - 1, i, id) && self.sparql_rows@[n - 1]@.contains_key(var) {
                before.push(part_of_term(self.sparql_rows@[n - 1]@[var]@))
            } else {
                before
            }
        }
    }

    /// The parts of the cell of a column of kind `col` in the row built from
    /// binding row `i` for the entity `id`.
    pub open spec fn cell_parts(&self, col: ColumnKind, i: int, id: Seq<char>) -> Seq<Part> {
        let entity = self.entities.entity(id);
        match col {
            ColumnKind::Number => seq![Part::Number],
            ColumnKind::Item => seq![Part::Entity(id, false)],
            ColumnKind::Label => match entity {
                Some(e) => seq![Part::Entity(id, true)],
                None => Seq::empty(),
            },
            ColumnKind::LabelLang(language) => match entity {
                Some(e) => match text_in(e.labels@, language) {
                    Some(l) => seq![Part::Text(l)],
                    None => match text_in(e.labels@, self.language@) {
                        Some(l) => seq![Part::Text(l)],
                        None => Seq::empty(),
                    },
                },
                None => Seq::empty(),
            },
            ColumnKind::Description => match entity {
                Some(e) => match text_in(e.descriptions@, self.language@) {
                    Some(d) => seq![Part::Text(d)],
                    None => Seq::empty(),
                },
                None => Seq::empty(),
            },
            ColumnKind::Property(p) => match entity {
                Some(e) => claim_parts(e.claims@, p, e.claims@.len() as int),
                None => Seq::empty(),
            },
            ColumnKind::PropertyQualifier(p, q) => match entity {
                Some(e) => qualifier_parts(e.claims@, p, None, q, e.claims@.len() as int),
                None => Seq::empty(),
            },
            ColumnKind::PropertyQualifierValue(p, target, q) => match entity {
                Some(e) => qualifier_parts(e.claims@, p, Some(target), q, e.claims@.len() as int),
                None => Seq::empty(),
            },
            ColumnKind::Field(var) => self.field_parts(var, i, id, self.sparql_rows@.len() as int),
            ColumnKind::Unknown => Seq::empty(),
        }
    }

    /// The row built from binding row `i` for the entity `id`: one cell per column.
    pub open spec fn row_for(&self, i: int, id: Seq<char>) -> Row {
        Row {
            entity_id: id,
            cells: Seq::new(
                self.columns@.len(),
                |c: int| self.cell_parts(self.columns@[c].obj@, i, id),
            ),
            section: 0,
            sortkey: Seq::empty(),
        }
    }

    /// Whether binding row `i` starts a row of the list: it is about an
    /// entity; with one row per entity, no earlier binding row is about the
    /// same entity; and under the link style `Local` the entity is loaded.
    pub open spec fn starts_row(&self, i: int) -> bool {
        match self.entity_of_row(i) {
            Some(id) => {
                &&& self.params.one_row_per_item ==> forall|j: int|
                    0 <= j < i ==> #[trigger] self.entity_of_row(j) != Some(id)
                &&& self.params.links == LinksType::Local ==> self.entities.entity(id) is Some
            },
            None => false,
        }
    }

    /// The rows built from the first `n` binding rows.
    pub open spec fn model_rows(&self, n: int) -> Seq<Row>
        decreases n,
    {
        if n <= 0 || n > self.sparql_rows@.len() {
            Seq::empty()
        } else {
            let before = self.model_rows(n - 1);
            if self.starts_row(n - 1) {
                before.push(self.row_for(n - 1, self.entity_of_row(n - 1).unwrap()))
            } else {
                before
            }
        }
    }

    /// The entity that binding row `i` is about.
    pub fn row_entity(&self, i: usize) -> (r: Option<&str>)
        requires
            i < self.sparql_rows@.len(),
        ensures
            view_of(r) == self.entity_of_row(i as int),
    {
        match &self.sparql_first_variable {
            Some(var) => match self.sparql_rows[i].get(var.as_str()) {
                Some(SparqlValue::Entity(id)) => Some(id.as_str()),
                _ => None,
            },
            None => None,
        }
    }

    /// What the variable `var` is bound to in the binding rows that add to the
    /// row built from binding row `i` for `id`.
    pub fn parts_for_field(&self, var: &str, i: usize, id: &str) -> (r: Vec<ResultCellPart>)
        ensures
            parts_of(r@) == self.field_parts(var@, i as int, id@, self.sparql_rows@.len() as int),
    {
        let mut r: Vec<ResultCellPart> = Vec::new();
        assert(parts_of(r@) =~= Seq::<Part>::empty());
        let mut k: usize = 0;
        while k < self.sparql_rows.len()
            invariant
                k <= self.sparql_rows.len(),
                parts_of(r@) == self.field_parts(var@, i as int, id@, k as int),
            decreases self.sparql_rows.len() - k,
        {
            let adds = if self.params.one_row_per_item {
                match self.row_entity(k) {
                    Some(other) => str_eq(other, id),
                    None => false,
                }
            } else {
                k == i
            };
            if adds {
                match self.sparql_rows[k].get(var) {
                    Some(v) => {
                        let ghost before = parts_of(r@);
                        let part = ResultCellPart::from_sparql_value(v);
                        r.push(part);
                        assert(parts_of(r@) =~= before.push(part@));
                    },
                    None => {},
                }
            }
            k += 1;
        }
        r
    }

    /// The cell of column `col` in the row built from binding row `i` for `id`.
    pub fn cell_for(&self, col: &ColumnType, i: usize, id: &str) -> (r: ResultCell)
        ensures
            r@ == self.cell_parts(col@, i as int, id@),
    {
        let entity = self.entities.get_entity(id);
        let mut parts: Vec<ResultCellPart> = Vec::new();
        assert(parts_of(parts@) =~= Seq::<Part>::empty());
        match col {
            ColumnType::Number => {
                parts.push(ResultCellPart::Number);
                assert(parts_of(parts@) =~= seq![Part::Number]);
            },
            ColumnType::Item => {
                parts.push(ResultCellPart::Entity((copy_str(id), false)));
                assert(parts_of(parts@) =~= seq![Part::Entity(id@, false)]);
            },
            ColumnType::Label => {
                if entity.is_some() {
                    parts.push(ResultCellPart::Entity((copy_str(id), true)));
                    assert(parts_of(parts@) =~= seq![Part::Entity(id@, true)]);
                }
            },
            ColumnType::LabelLang(language) => {
                match entity {
                    Some(e) => {
                        let label = match e.label_in_locale(language.as_str()) {
                            Some(l) => Some(l),
                            None => e.label_in_locale(self.language.as_str()),
                        };
                        match label {
                            Some(l) => {
                                parts.push(ResultCellPart::Text(copy_str(l)));
                                assert(parts_of(parts@) =~= seq![Part::Text(l@)]);
                            },
                            None => {},
                        }
                    },
                    None => {},
                }
            },
            ColumnType::Description => {
                match entity {
                    Some(e) => match e.description_in_locale(self.language.as_str()) {
                        Some(d) => {
                            parts.push(ResultCellPart::Text(copy_str(d)));
                            assert(parts_of(parts@) =~= seq![Part::Text(d@)]);
                        },
                        None => {},
                    },
                    None => {},
                }
            },
            ColumnType::Property(p) => {
                match entity {
                    Some(e) => {
                        parts = parts_for_property(e, p.as_str());
                    },
                    None => {},
                }
            },
            ColumnType::PropertyQualifier(pq) => {
                match entity {
                    Some(e) => {
                        parts = parts_for_qualifier(e, pq.0.as_str(), None, pq.1.as_str());
                    },
                    None => {},
                }
            },
            ColumnType::PropertyQualifierValue(pqv) => {
                match entity {
                    Some(e) => {
                        parts = parts_for_qualifier(
                            e,
                            pqv.0.as_str(),
                            Some(pqv.1.as_str()),
                            pqv.2.as_str(),
                        );
                    },
                    None => {},
                }
            },
            ColumnType::Field(var) => {
                parts = self.parts_for_field(var.as_str(), i, id);
            },
            ColumnType::Unknown => {},
        }
        ResultCell { parts }
    }

    /// The row built from binding row `i` for the entity `id`.
    pub fn get_result_row(&self, i: usize, id: &str) -> (r: ResultRow)
        ensures
            r@ == self.row_for(i as int, id@),
    {
        let mut cells: Vec<ResultCell> = Vec::new();
        let mut c: usize = 0;
        while c < self.columns.len()
            invariant
                c <= self.columns.len(),
                cells@.len() == c,
                forall|j: int|
                    0 <= j < c ==> (#[trigger] cells@[j])@ == self.cell_parts(
                        self.columns@[j].obj@,
                        i as int,
                        id@,
                    ),
            decreases self.columns.len() - c,
        {
            cells.push(self.cell_for(&self.columns[c].obj, i, id));
            c += 1;
        }
        let r = ResultRow { entity_id: copy_str(id), cells, section: 0, sortkey: String::new() };
        assert(r@.cells =~= self.row_for(i as int, id@).cells);
        r
    }

    /// Whether binding row `i` starts a row of the list.
    pub fn is_row_start(&self, i: usize) -> (r: bool)
        requires
            i < self.sparql_rows@.len(),
        ensures
            r == self.starts_row(i as int),
    {
        let id = match self.row_entity(i) {
            Some(id) => id,
            None => {
                return false;
            },
        };
        if self.params.one_row_per_item {
            let mut j: usize = 0;
            while j < i
                invariant
                    j <= i,
                    i < self.sparql_rows@.len(),
                    self.params.one_row_per_item,
                    self.entity_of_row(i as int) == Some(id@),
                    forall|k: int| 0 <= k < j ==> #[trigger] self.entity_of_row(k) != Some(id@),
                decreases i - j,
            {
                match self.row_entity(j) {
                    Some(other) => {
                        if str_eq(other, id) {
                            assert(self.entity_of_row(j as int) == Some(id@));
                            return false;
                        }
                    },
                    None => {},
                }
                j += 1;
            }
        }
        match self.params.links {
            LinksType::Local => self.entities.has_entity(id),
            _ => true,
        }
    }

    /// Builds the rows of the list from the binding rows. With one row per
    /// entity, the binding rows about one entity give one row, at the place
    /// of the first of them; else every binding row about an entity gives a
    /// row of its own. Binding rows that are about no entity give none.
    pub fn generate_results(&mut self)
        ensures
            rows_view(final(self).results@) == old(self).model_rows(
                old(self).sparql_rows@.len() as int,
            ),
            final(self).same_setting(old(self)),
    {
        let mut results: Vec<ResultRow> = Vec::new();
        assert(rows_view(results@) =~= Seq::<Row>::empty());
        let mut i: usize = 0;
        while i < self.sparql_rows.len()
            invariant
                i <= self.sparql_rows.len(),
                *self == *old(self),
                rows_view(results@) == self.model_rows(i as int),
            decreases self.sparql_rows.len() - i,
        {
            if self.is_row_start(i) {
                match self.row_entity(i) {
                    Some(id) => {
                        let ghost before = rows_view(results@);
                        let row = self.get_result_row(i, id);
                        results.push(row);
                        assert(rows_view(results@) =~= before.push(row@));
                    },
                    None => {},
                }
            }
            i += 1;
        }
        self.results = results;
    }

    /// A list without rows cannot be shown: this fails exactly then.
    pub fn check_has_rows(&self) -> (r: Result<(), String>)
        ensures
            match r {
                Ok(_) => self.results@.len() > 0,
                Err(e) => self.results@.len() == 0 && e@ == "No items to show"@,
            },
    {
        if self.results.len() > 0 {
            Ok(())
        } else {
            Err(copy_str("No items to show"))
        }
    }

    /// Everything but the rows is the same in both lists.
    pub open spec fn same_setting(&self, other: &Self) -> bool {
        &&& self.language == other.language
        &&& self.wiki == other.wiki
        &&& self.template == other.template
        &&& self.params == other.params
        &&& self.columns == other.columns
        &&& self.sparql_first_variable == other.sparql_first_variable
        &&& self.sparql_rows == other.sparql_rows
        &&& self.entities == other.entities
        &&& self.section_names == other.section_names
        &&& self.shadow_files == other.shadow_files
        &&& self.local_page_cache == other.local_page_cache
    }
}

} // verus!
