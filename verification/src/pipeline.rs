//! The stages that patch the rows of a list, in the order in which they run:
//! the identifiers to load, rows without a local page only, links to local
//! pages, the labels whose pages are looked up, and files hidden by local ones.
//! Sorting, the last stage, has a file of its own.

use vstd::prelude::*;
use vstd::string::*;
use crate::column::{ColumnKind, ColumnType};
use crate::listeria_list::ListeriaList;
use crate::params::{LinksType, SortKind, SortMode};
use crate::result::{cells_of, lemma_view_snak_list, parts_of, Part, ResultCell, ResultCellPart};
use crate::result_row::{rows_view, ResultRow, Row};
use crate::text::{copy_str, str_eq, views};

verus! {

// ---------------------------------------------------------------------------
// Lists of texts without repetition
// ---------------------------------------------------------------------------

/// The first `n` texts of `s` in order, each only where it stands first.
pub open spec fn distinct(s: Seq<Seq<char>>, n: int) -> Seq<Seq<char>>
    decreases n,
{
    if n <= 0 || n > s.len() {
        Seq::empty()
    } else {
        let before = distinct(s, n - 1);
        if before.contains(s[n - 1]) {
            before
        } else {
            before.push(s[n - 1])
        }
    }
}

/// Whether `v` holds the text `s`.
pub fn holds_text(v: &Vec<String>, s: &str) -> (r: bool)
    ensures
        r == views(v@).contains(s@),
{
    let mut i: usize = 0;
    while i < v.len()
        invariant
            i <= v.len(),
            forall|j: int| 0 <= j < i ==> views(v@)[j] != s@,
        decreases v.len() - i,
    {
        if str_eq(v[i].as_str(), s) {
            assert(views(v@)[i as int] == s@);
            return true;
        }
        i += 1;
    }
    false
}

/// The texts of `v` in order, each only where it stands first.
pub fn distinct_texts(v: &Vec<String>) -> (r: Vec<String>)
    ensures
        views(r@) == distinct(views(v@), v@.len() as int),
{
    let mut r: Vec<String> = Vec::new();
    assert(views(r@) =~= Seq::<Seq<char>>::empty());
    let mut i: usize = 0;
    while i < v.len()
        invariant
            i <= v.len(),
            views(r@) == distinct(views(v@), i as int),
        decreases v.len() - i,
    {
        if !holds_text(&r, v[i].as_str()) {
            let ghost before = views(r@);
            r.push(v[i].clone());
            assert(views(r@) =~= before.push(v@[i as int]@));
        }
        i += 1;
    }
    r
}

// ---------------------------------------------------------------------------
// What the parts of the rows refer to
// ---------------------------------------------------------------------------

/// What is gathered from the parts of the rows.
#[derive(Debug, Clone, Copy, PartialEq, Eq, Structural)]
pub enum Gather {
    /// The identifiers to load: of entities that may get a local link, and
    /// of the properties of external identifiers.
    Identifiers,
    /// The labels, in the working language, of entities that may get a local link.
    Labels,
}

impl ListeriaList {
    /// What is gathered from one part; lists of values are walked through.
    pub open spec fn gathered(&self, what: Gather, part: Part) -> Seq<Seq<char>>
        decreases part, 0int,
    {
        match part {
            Part::Entity(id, true) => match what {
                Gather::Identifiers => seq![id],
                Gather::Labels => match self.entities.label(id, self.language@) {
                    Some(l) => seq![l],
                    None => Seq::empty(),
                },
            },
            Part::ExternalId(prop, _) => match what {
                Gather::Identifiers => seq![prop],
                Gather::Labels => Seq::empty(),
            },
            Part::SnakList(v) => self.gathered_parts(what, v, v.len() as int),
            _ => Seq::empty(),
        }
    }

    /// What is gathered from the first `n` of `parts`.
    pub open spec fn gathered_parts(&self, what: Gather, parts: Seq<Part>, n: int) -> Seq<
        Seq<char>,
    >
        decreases parts, n,
    {
        if n <= 0 || n > parts.len() {
            Seq::empty()
        } else {
            self.gathered_parts(what, parts, n - 1) + self.gathered(what, parts[n - 1])
        }
    }

    /// What is gathered from the first `n` of `cells`.
    pub open spec fn gathered_cells(&self, what: Gather, cells: Seq<Seq<Part>>, n: int) -> Seq<
        Seq<char>,
    >
        decreases n,
    {
        if n <= 0 || n > cells.len() {
            Seq::empty()
        } else {
            self.gathered_cells(what, cells, n - 1) + self.gathered_parts(
                what,
                cells[n - 1],
                cells[n - 1].len() as int,
            )
        }
    }

    /// What is gathered from the first `n` of `rows`.
    pub open spec fn gathered_rows(&self, what: Gather, rows: Seq<Row>, n: int) -> Seq<Seq<char>>
        decreases n,
    {
        if n <= 0 || n > rows.len() {
            Seq::empty()
        } else {
            self.gathered_rows(what, rows, n - 1) + self.gathered_cells(
                what,
                rows[n - 1].cells,
                rows[n - 1].cells.len() as int,
            )
        }
    }

    /// Appends to `out` what is gathered from `part`.
    pub fn gather_part(&self, what: Gather, part: &ResultCellPart, out: &mut Vec<String>)
        ensures
            views(final(out)@) == views(old(out)@) + self.gathered(what, part@),
        decreases part,
    {
        let ghost start = views(out@);
        assert(start + Seq::<Seq<char>>::empty() =~= start);
        match part {
            ResultCellPart::Entity(e) => {
                if e.1 {
                    match what {
                        Gather::Identifiers => {
                            out.push(e.0.clone());
                            assert(views(out@) =~= start + seq![e.0@]);
                        },
                        Gather::Labels => {
                            match self.entities.get_label(e.0.as_str(), self.language.as_str()) {
                                Some(l) => {
                                    out.push(copy_str(l));
                                    assert(views(out@) =~= start + seq![l@]);
                                },
                                None => {},
                            }
                        },
                    }
                }
            },
            ResultCellPart::ExternalId(x) => {
                match what {
                    Gather::Identifiers => {
                        out.push(x.0.clone());
                        assert(views(out@) =~= start + seq![x.0@]);
                    },
                    Gather::Labels => {},
                }
            },
            ResultCellPart::SnakList(v) => {
                proof {
                    lemma_view_snak_list(*v);
                }
                let mut i: usize = 0;
                while i < v.len()
                    invariant
                        i <= v.len(),
                        decreases_to!(*part => *v),
                        views(out@) == start + self.gathered_parts(what, parts_of(v@), i as int),
                    decreases v.len() - i,
                {
                    proof {
                        vstd::std_specs::vec::axiom_vec_index_decreases(*v, i as int);
                    }
                    let ghost before = views(out@);
                    self.gather_part(what, &v[i], out);
                    assert(start + (self.gathered_parts(what, parts_of(v@), i as int)
                        + self.gathered(what, v@[i as int]@)) =~= before + self.gathered(
                        what,
                        v@[i as int]@,
                    ));
                    i += 1;
                }
            },
            _ => {},
        }
    }

    /// Appends to `out` what is gathered from the parts of the rows.
    pub fn gather_rows(&self, what: Gather, out: &mut Vec<String>)
        ensures
            views(final(out)@) == views(old(out)@) + self.gathered_rows(
                what,
                rows_view(self.results@),
                self.results@.len() as int,
            ),
    {
        let ghost start = views(out@);
        let ghost rows = rows_view(self.results@);
        assert(start + Seq::<Seq<char>>::empty() =~= start);
        let mut r: usize = 0;
        while r < self.results.len()
            invariant
                r <= self.results.len(),
                rows == rows_view(self.results@),
                views(out@) == start + self.gathered_rows(what, rows, r as int),
            decreases self.results.len() - r,
        {
            let row = &self.results[r];
            let ghost row_start = views(out@);
            let ghost cells = cells_of(row.cells@);
            assert(rows[r as int].cells == cells);
            assert(row_start + Seq::<Seq<char>>::empty() =~= row_start);
            let mut c: usize = 0;
            while c < row.cells.len()
                invariant
                    c <= row.cells.len(),
                    cells == cells_of(row.cells@),
                    views(out@) == row_start + self.gathered_cells(what, cells, c as int),
                decreases row.cells.len() - c,
            {
                let cell = &row.cells[c];
                let ghost cell_start = views(out@);
                let ghost parts = parts_of(cell.parts@);
                assert(cells[c as int] == parts);
                assert(cell_start + Seq::<Seq<char>>::empty() =~= cell_start);
                let mut p: usize = 0;
                while p < cell.parts.len()
                    invariant
                        p <= cell.parts.len(),
                        parts == parts_of(cell.parts@),
                        views(out@) == cell_start + self.gathered_parts(what, parts, p as int),
                    decreases cell.parts.len() - p,
                {
                    let ghost before = views(out@);
                    self.gather_part(what, &cell.parts[p], out);
                    assert(cell_start + (self.gathered_parts(what, parts, p as int)
                        + self.gathered(what, parts[p as int])) =~= before + self.gathered(
                        what,
                        parts[p as int],
                    ));
                    p += 1;
                }
                assert(row_start + (self.gathered_cells(what, cells, c as int)
                    + self.gathered_parts(what, parts, parts.len() as int)) =~= cell_start
                    + self.gathered_parts(what, parts, parts.len() as int));
                c += 1;
            }
            assert(start + (self.gathered_rows(what, rows, r as int) + self.gathered_cells(
                what,
                cells,
                cells.len() as int,
            )) =~= row_start + self.gathered_cells(what, cells, cells.len() as int));
            r += 1;
        }
    }
}

// ---------------------------------------------------------------------------
// The identifiers to load
// ---------------------------------------------------------------------------

/// The identifiers that a column descriptor names.
pub open spec fn column_ids(kind: ColumnKind) -> Seq<Seq<char>> {
    match kind {
        ColumnKind::Property(p) => seq![p],
        ColumnKind::PropertyQualifier(p, q) => seq![p, q],
        ColumnKind::PropertyQualifierValue(p, q, v) => seq![p, q, v],
        _ => Seq::empty(),
    }
}

/// The property that a sort mode names.
pub open spec fn sort_ids(kind: SortKind) -> Seq<Seq<char>> {
    match kind {
        SortKind::Property(p) => seq![p],
        _ => Seq::empty(),
    }
}

impl ListeriaList {
    /// The identifiers that the first `n` columns name.
    pub open spec fn columns_ids(&self, n: int) -> Seq<Seq<char>>
        decreases n,
    {
        if n <= 0 || n > self.columns@.len() {
            Seq::empty()
        } else {
            self.columns_ids(n - 1) + column_ids(self.columns@[n - 1].obj@)
        }
    }

    /// Every identifier that the list refers to, with repetitions: those of
    /// the parts of the rows, then those of the columns, then the property
    /// that the rows are sorted by.
    pub open spec fn referenced_ids(&self) -> Seq<Seq<char>> {
        self.gathered_rows(
            Gather::Identifiers,
            rows_view(self.results@),
            self.results@.len() as int,
        ) + self.columns_ids(self.columns@.len() as int) + sort_ids(self.params.sort@)
    }

    /// The entity of each binding row among the first `n`, with repetitions.
    pub open spec fn row_entities(&self, n: int) -> Seq<Seq<char>>
        decreases n,
    {
        if n <= 0 || n > self.sparql_rows@.len() {
            Seq::empty()
        } else {
            match self.entity_of_row(n - 1) {
                Some(id) => self.row_entities(n - 1).push(id),
                None => self.row_entities(n - 1),
            }
        }
    }

    /// The entities that the binding rows are about, each once, in the order
    /// of their first row: what is loaded before the rows are built.
    pub fn get_ids_from_sparql_rows(&self) -> (r: Vec<String>)
        ensures
            views(r@) == distinct(
                self.row_entities(self.sparql_rows@.len() as int),
                self.row_entities(self.sparql_rows@.len() as int).len() as int,
            ),
    {
        let mut all: Vec<String> = Vec::new();
        assert(views(all@) =~= Seq::<Seq<char>>::empty());
        let mut i: usize = 0;
        while i < self.sparql_rows.len()
            invariant
                i <= self.sparql_rows.len(),
                views(all@) == self.row_entities(i as int),
            decreases self.sparql_rows.len() - i,
        {
            match self.row_entity(i) {
                Some(id) => {
                    let ghost before = views(all@);
                    all.push(copy_str(id));
                    assert(views(all@) =~= before.push(id@));
                },
                None => {},
            }
            i += 1;
        }
        distinct_texts(&all)
    }

    /// The identifiers that the list refers to, each once, in the order of
    /// their first occurrence: what is loaded before the later stages run.
    pub fn gather_entity_ids(&self) -> (r: Vec<String>)
        ensures
            views(r@) == distinct(self.referenced_ids(), self.referenced_ids().len() as int),
    {
        let mut all: Vec<String> = Vec::new();
        assert(views(all@) =~= Seq::<Seq<char>>::empty());
        self.gather_rows(Gather::Identifiers, &mut all);
        let ghost from_rows = views(all@);
        assert(from_rows =~= self.gathered_rows(
            Gather::Identifiers,
            rows_view(self.results@),
            self.results@.len() as int,
        ));
        assert(from_rows + Seq::<Seq<char>>::empty() =~= from_rows);
        let mut c: usize = 0;
        while c < self.columns.len()
            invariant
                c <= self.columns.len(),
                views(all@) == from_rows + self.columns_ids(c as int),
            decreases self.columns.len() - c,
        {
            let ghost before = views(all@);
            match &self.columns[c].obj {
                ColumnType::Property(p) => {
                    all.push(p.clone());
                    assert(views(all@) =~= before + seq![p@]);
                },
                ColumnType::PropertyQualifier(pq) => {
                    all.push(pq.0.clone());
                    all.push(pq.1.clone());
                    assert(views(all@) =~= before + seq![pq.0@, pq.1@]);
                },
                ColumnType::PropertyQualifierValue(pqv) => {
                    all.push(pqv.0.clone());
                    all.push(pqv.1.clone());
                    all.push(pqv.2.clone());
                    assert(views(all@) =~= before + seq![pqv.0@, pqv.1@, pqv.2@]);
                },
                _ => {
                    assert(before + Seq::<Seq<char>>::empty() =~= before);
                },
            }
            assert(from_rows + (self.columns_ids(c as int) + column_ids(
                self.columns@[c as int].obj@,
            )) =~= before + column_ids(self.columns@[c as int].obj@));
            c += 1;
        }
        let ghost before = views(all@);
        match &self.params.sort {
            SortMode::Property(p) => {
                all.push(p.clone());
                assert(views(all@) =~= before + seq![p@]);
            },
            _ => {
                assert(before + Seq::<Seq<char>>::empty() =~= before);
            },
        }
        distinct_texts(&all)
    }
}

// ---------------------------------------------------------------------------
// Only rows without a local page
// ---------------------------------------------------------------------------

impl ListeriaList {
    /// Whether the entity `id` is known to have a page on the wiki of the list.
    pub open spec fn has_local_page(&self, id: Seq<char>) -> bool {
        self.entities.page_on(id, self.wiki@) is Some
    }

    /// Those of the first `n` rows whose entity has no page on the wiki.
    pub open spec fn rows_without_page(&self, rows: Seq<Row>, n: int) -> Seq<Row>
        decreases n,
    {
        if n <= 0 || n > rows.len() {
            Seq::empty()
        } else {
            let before = self.rows_without_page(rows, n - 1);
            if self.has_local_page(rows[n - 1].entity_id) {
                before
            } else {
                before.push(rows[n - 1])
            }
        }
    }

    /// Under the link style `RedOnly`, drops every row whose entity has a
    /// page on the wiki; under any other link style nothing changes.
    pub fn process_redlinks_only(&mut self)
        ensures
            final(self).same_setting(old(self)),
            old(self).params.links == LinksType::RedOnly ==> rows_view(final(self).results@)
                == old(self).rows_without_page(
                rows_view(old(self).results@),
                old(self).results@.len() as int,
            ),
            old(self).params.links != LinksType::RedOnly ==> rows_view(final(self).results@)
                == rows_view(old(self).results@),
    {
        match self.params.links {
            LinksType::RedOnly => {},
            _ => {
                return ;
            },
        }
        let ghost rows = rows_view(self.results@);
        let mut kept: Vec<ResultRow> = Vec::new();
        assert(rows_view(kept@) =~= Seq::<Row>::empty());
        let mut i: usize = 0;
        while i < self.results.len()
            invariant
                i <= self.results.len(),
                *self == *old(self),
                rows == rows_view(self.results@),
                rows_view(kept@) == self.rows_without_page(rows, i as int),
            decreases self.results.len() - i,
        {
            let row = &self.results[i];
            assert(rows[i as int] == row@);
            if self.entities.get_sitelink(row.entity_id.as_str(), self.wiki.as_str()).is_none() {
                let ghost before = rows_view(kept@);
                let copy = row.clone();
                kept.push(copy);
                assert(rows_view(kept@) =~= before.push(row@));
            }
            i += 1;
        }
        self.results = kept;
    }
}

// ---------------------------------------------------------------------------
// Links to local pages
// ---------------------------------------------------------------------------

impl ListeriaList {
    /// A part with links to local pages: an entity that may get a local link
    /// and has a page on the wiki becomes a link to that page, labelled with
    /// the entity's label in the working language or, without one, with the
    /// title of the page. Lists of values are walked through; every other
    /// part stays as it is.
    pub open spec fn localized(&self, part: Part) -> Part
        decreases part,
    {
        match part {
            Part::Entity(id, true) => match self.entities.page_on(id, self.wiki@) {
                Some(page) => Part::LocalLink(
                    page,
                    match self.entities.label(id, self.language@) {
                        Some(l) => l,
                        None => page,
                    },
                ),
                None => part,
            },
            Part::SnakList(v) => Part::SnakList(self.localized_parts(v)),
            _ => part,
        }
    }

    /// Each of `parts` with links to local pages.
    pub open spec fn localized_parts(&self, parts: Seq<Part>) -> Seq<Part>
        decreases parts,
    {
        Seq::new(
            parts.len(),
            |i: int|
                if 0 <= i < parts.len() {
                    self.localized(parts[i])
                } else {
                    Part::Number
                },
        )
    }

    /// A row with links to local pages in every cell.
    pub open spec fn localized_row(&self, row: Row) -> Row {
        Row {
            entity_id: row.entity_id,
            cells: Seq::new(row.cells.len(), |c: int| self.localized_parts(row.cells[c])),
            section: row.section,
            sortkey: row.sortkey,
        }
    }

    /// Each of `rows` with links to local pages.
    pub open spec fn localized_rows(&self, rows: Seq<Row>) -> Seq<Row> {
        Seq::new(rows.len(), |i: int| self.localized_row(rows[i]))
    }

    /// The part with links to local pages.
    pub fn localize_part(&self, part: &ResultCellPart) -> (r: ResultCellPart)
        ensures
            r@ == self.localized(part@),
        decreases part,
    {
        match part {
            ResultCellPart::Entity(e) => {
                if e.1 {
                    match self.entities.get_sitelink(e.0.as_str(), self.wiki.as_str()) {
                        Some(page) => {
                            let label = match self.entities.get_label(
                                e.0.as_str(),
                                self.language.as_str(),
                            ) {
                                Some(l) => copy_str(l),
                                None => copy_str(page),
                            };
                            return ResultCellPart::LocalLink((copy_str(page), label));
                        },
                        None => {},
                    }
                }
                part.clone()
            },
            ResultCellPart::SnakList(v) => {
                let mut w: Vec<ResultCellPart> = Vec::new();
                let mut i: usize = 0;
                while i < v.len()
                    invariant
                        i <= v.len(),
                        decreases_to!(*part => *v),
                        w@.len() == i,
                        forall|j: int| 0 <= j < i ==> (#[trigger] w@[j])@ == self.localized(v@[j]@),
                    decreases v.len() - i,
                {
                    proof {
                        vstd::std_specs::vec::axiom_vec_index_decreases(*v, i as int);
                    }
                    w.push(self.localize_part(&v[i]));
                    i += 1;
                }
                proof {
                    lemma_view_snak_list(*v);
                    lemma_view_snak_list(w);
                    assert(parts_of(w@) =~= self.localized_parts(parts_of(v@)));
                }
                ResultCellPart::SnakList(w)
            },
            _ => part.clone(),
        }
    }

    /// The parts with links to local pages.
    pub fn localize_item_links_in_parts(&self, parts: &Vec<ResultCellPart>) -> (r: Vec<
        ResultCellPart,
    >)
        ensures
            parts_of(r@) == self.localized_parts(parts_of(parts@)),
    {
        let mut w: Vec<ResultCellPart> = Vec::new();
        let mut i: usize = 0;
        while i < parts.len()
            invariant
                i <= parts.len(),
                w@.len() == i,
                forall|j: int| 0 <= j < i ==> (#[trigger] w@[j])@ == self.localized(parts@[j]@),
            decreases parts.len() - i,
        {
            w.push(self.localize_part(&parts[i]));
            i += 1;
        }
        assert(parts_of(w@) =~= self.localized_parts(parts_of(parts@)));
        w
    }

    /// The row with links to local pages in every cell.
    pub fn localize_row(&self, row: &ResultRow) -> (r: ResultRow)
        ensures
            r@ == self.localized_row(row@),
    {
        let mut cells: Vec<ResultCell> = Vec::new();
        let mut c: usize = 0;
        while c < row.cells.len()
            invariant
                c <= row.cells.len(),
                cells@.len() == c,
                forall|j: int|
                    0 <= j < c ==> (#[trigger] cells@[j])@ == self.localized_parts(row.cells@[j]@),
            decreases row.cells.len() - c,
        {
            cells.push(ResultCell { parts: self.localize_item_links_in_parts(&row.cells[c].parts) });
            c += 1;
        }
        let r = ResultRow {
            entity_id: row.entity_id.clone(),
            cells,
            section: row.section,
            sortkey: row.sortkey.clone(),
        };
        assert(r@.cells =~= self.localized_row(row@).cells);
        r
    }

    /// Puts links to local pages into every row.
    pub fn localize_item_links(&mut self)
        ensures
            final(self).same_setting(old(self)),
            rows_view(final(self).results@) == old(self).localized_rows(
                rows_view(old(self).results@),
            ),
    {
        let mut rows: Vec<ResultRow> = Vec::new();
        let mut i: usize = 0;
        while i < self.results.len()
            invariant
                i <= self.results.len(),
                *self == *old(self),
                rows@.len() == i,
                forall|j: int|
                    0 <= j < i ==> (#[trigger] rows@[j])@ == self.localized_row(self.results@[j]@),
            decreases self.results.len() - i,
        {
            rows.push(self.localize_row(&self.results[i]));
            i += 1;
        }
        assert(rows_view(rows@) =~= self.localized_rows(rows_view(self.results@)));
        self.results = rows;
    }
}

// ---------------------------------------------------------------------------
// The labels whose pages are looked up
// ---------------------------------------------------------------------------

impl ListeriaList {
    /// Whether the link style marks entities without a local page.
    pub open spec fn marks_missing_pages(&self) -> bool {
        self.params.links == LinksType::Red || self.params.links == LinksType::RedOnly
    }

    /// The labels of the rows' entities, with repetitions.
    pub open spec fn row_labels(&self) -> Seq<Seq<char>> {
        self.gathered_rows(Gather::Labels, rows_view(self.results@), self.results@.len() as int)
    }

    /// The labels for which the caller finds out whether a local page of that
    /// title exists: under the link styles `Red` and `RedOnly` the labels of
    /// the remaining entities, each once and as written; else none.
    pub fn labels_to_check(&self) -> (r: Vec<String>)
        ensures
            self.marks_missing_pages() ==> views(r@) == distinct(
                self.row_labels(),
                self.row_labels().len() as int,
            ),
            !self.marks_missing_pages() ==> r@.len() == 0,
    {
        match self.params.links {
            LinksType::Red | LinksType::RedOnly => {},
            _ => {
                return Vec::new();
            },
        }
        let mut all: Vec<String> = Vec::new();
        assert(views(all@) =~= Seq::<Seq<char>>::empty());
        self.gather_rows(Gather::Labels, &mut all);
        assert(views(all@) =~= self.row_labels());
        distinct_texts(&all)
    }

    /// Records whether a local page with the title `title` exists. What was
    /// recorded for other titles stays.
    pub fn set_local_page(&mut self, title: String, exists: bool)
        ensures
            final(self).local_page_cache@ == old(self).local_page_cache@.insert(title@, exists),
            old(self).local_page_cache.wf() ==> final(self).local_page_cache.wf(),
            final(self).page_exists(title@) == exists,
            forall|other: Seq<char>|
                other != title@ ==> final(self).page_exists(other) == old(self).page_exists(other),
            final(self).results == old(self).results,
            final(self).shadow_files == old(self).shadow_files,
            final(self).params == old(self).params,
            final(self).columns == old(self).columns,
            final(self).entities == old(self).entities,
            final(self).language == old(self).language,
            final(self).wiki == old(self).wiki,
    {
        self.local_page_cache.insert(title, exists);
    }
}

} // verus!
