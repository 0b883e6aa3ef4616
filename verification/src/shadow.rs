//! Files hidden by local files of the same name: which file names are looked
//! up, and how the hidden ones leave the rows.

use vstd::prelude::*;
use vstd::string::*;
use crate::listeria_list::ListeriaList;
use crate::pipeline::{distinct, distinct_texts, holds_text};
use crate::result::{cells_of, parts_of, Part, ResultCell, ResultCellPart};
use crate::result_row::{rows_view, ResultRow, Row};
use crate::text::{copy_str, views};

verus! {

/// The part is a file whose name stands in `hidden`.
pub open spec fn is_hidden(part: Part, hidden: Seq<Seq<char>>) -> bool {
    part matches Part::File(f) && hidden.contains(f)
}

/// Those of the first `n` parts that are no hidden file.
pub open spec fn visible_parts(parts: Seq<Part>, hidden: Seq<Seq<char>>, n: int) -> Seq<Part>
    decreases n,
{
    if n <= 0 || n > parts.len() {
        Seq::empty()
    } else {
        let before = visible_parts(parts, hidden, n - 1);
        if is_hidden(parts[n - 1], hidden) {
            before
        } else {
            before.push(parts[n - 1])
        }
    }
}

/// A cell without its hidden files.
pub open spec fn visible_cell(cell: Seq<Part>, hidden: Seq<Seq<char>>) -> Seq<Part> {
    visible_parts(cell, hidden, cell.len() as int)
}

/// A row without the hidden files of its cells.
pub open spec fn visible_row(row: Row, hidden: Seq<Seq<char>>) -> Row {
    Row {
        entity_id: row.entity_id,
        cells: Seq::new(row.cells.len(), |c: int| visible_cell(row.cells[c], hidden)),
        section: row.section,
        sortkey: row.sortkey,
    }
}

/// Rows without the hidden files of their cells.
pub open spec fn visible_rows(rows: Seq<Row>, hidden: Seq<Seq<char>>) -> Seq<Row> {
    Seq::new(rows.len(), |i: int| visible_row(rows[i], hidden))
}

/// The list of hidden files after the first `n` of `found` are recorded:
/// each is added at the end unless it is there already.
pub open spec fn recorded(known: Seq<Seq<char>>, found: Seq<Seq<char>>, n: int) -> Seq<Seq<char>>
    decreases n,
{
    if n <= 0 || n > found.len() {
        known
    } else {
        let before = recorded(known, found, n - 1);
        if before.contains(found[n - 1]) {
            before
        } else {
            before.push(found[n - 1])
        }
    }
}

/// The names of the files among the first `n` parts, with repetitions.
pub open spec fn files_in_parts(parts: Seq<Part>, n: int) -> Seq<Seq<char>>
    decreases n,
{
    if n <= 0 || n > parts.len() {
        Seq::empty()
    } else {
        match parts[n - 1] {
            Part::File(f) => files_in_parts(parts, n - 1).push(f),
            _ => files_in_parts(parts, n - 1),
        }
    }
}

/// The names of the files in the first `n` cells, with repetitions.
pub open spec fn files_in_cells(cells: Seq<Seq<Part>>, n: int) -> Seq<Seq<char>>
    decreases n,
{
    if n <= 0 || n > cells.len() {
        Seq::empty()
    } else {
        files_in_cells(cells, n - 1) + files_in_parts(cells[n - 1], cells[n - 1].len() as int)
    }
}

/// The names of the files in the first `n` rows, with repetitions.
pub open spec fn files_in_rows(rows: Seq<Row>, n: int) -> Seq<Seq<char>>
    decreases n,
{
    if n <= 0 || n > rows.len() {
        Seq::empty()
    } else {
        files_in_rows(rows, n - 1) + files_in_cells(rows[n - 1].cells, rows[n - 1].cells.len() as int)
    }
}

/// The wikis on which files hidden by local files are looked for.
pub open spec fn shadow_checked_wikis() -> Seq<Seq<char>> {
    seq!["enwiki"@]
}

/// The wikis on which files hidden by local files are looked for.
pub fn wikis_with_shadow_check() -> (r: Vec<String>)
    ensures
        views(r@) == shadow_checked_wikis(),
{
    let mut r: Vec<String> = Vec::new();
    r.push(copy_str("enwiki"));
    assert(views(r@) =~= shadow_checked_wikis());
    r
}

impl ListeriaList {
    /// The names of the files in the rows, with repetitions.
    pub open spec fn row_files(&self) -> Seq<Seq<char>> {
        files_in_rows(rows_view(self.results@), self.results@.len() as int)
    }

    /// The file names for which the caller finds out whether a local file of
    /// that name hides the shared one: on a wiki of `checked_wikis` the names
    /// of the files in the rows, each once; on any other wiki none.
    pub fn files_to_check(&self, checked_wikis: &Vec<String>) -> (r: Vec<String>)
        ensures
            views(checked_wikis@).contains(self.wiki@) ==> views(r@) == distinct(
                self.row_files(),
                self.row_files().len() as int,
            ),
            !views(checked_wikis@).contains(self.wiki@) ==> r@.len() == 0,
    {
        if !holds_text(checked_wikis, self.wiki.as_str()) {
            return Vec::new();
        }
        let ghost rows = rows_view(self.results@);
        let mut all: Vec<String> = Vec::new();
        assert(views(all@) =~= Seq::<Seq<char>>::empty());
        let mut r: usize = 0;
        while r < self.results.len()
            invariant
                r <= self.results.len(),
                rows == rows_view(self.results@),
                views(all@) == files_in_rows(rows, r as int),
            decreases self.results.len() - r,
        {
            let row = &self.results[r];
            let ghost row_start = views(all@);
            let ghost cells = cells_of(row.cells@);
            assert(rows[r as int].cells == cells);
            assert(row_start + Seq::<Seq<char>>::empty() =~= row_start);
            let mut c: usize = 0;
            while c < row.cells.len()
                invariant
                    c <= row.cells.len(),
                    cells == cells_of(row.cells@),
                    views(all@) == row_start + files_in_cells(cells, c as int),
                decreases row.cells.len() - c,
            {
                let cell = &row.cells[c];
                let ghost cell_start = views(all@);
                let ghost parts = parts_of(cell.parts@);
                assert(cells[c as int] == parts);
                assert(cell_start + Seq::<Seq<char>>::empty() =~= cell_start);
                let mut p: usize = 0;
                while p < cell.parts.len()
                    invariant
                        p <= cell.parts.len(),
                        parts == parts_of(cell.parts@),
                        views(all@) == cell_start + files_in_parts(parts, p as int),
                    decreases cell.parts.len() - p,
                {
                    match &cell.parts[p] {
                        ResultCellPart::File(f) => {
                            let ghost before = views(all@);
                            all.push(f.clone());
                            assert(views(all@) =~= before.push(f@));
                            assert(parts[p as int] == Part::File(f@));
                            assert(cell_start + files_in_parts(parts, p as int).push(f@) =~= before.push(
                                f@,
                            ));
                        },
                        _ => {
                            assert(!(parts[p as int] is File));
                        },
                    }
                    p += 1;
                }
                assert(row_start + (files_in_cells(cells, c as int) + files_in_parts(
                    parts,
                    parts.len() as int,
                )) =~= cell_start + files_in_parts(parts, parts.len() as int));
                c += 1;
            }
            assert(files_in_rows(rows, r as int) + files_in_cells(cells, cells.len() as int)
                =~= row_start + files_in_cells(cells, cells.len() as int));
            r += 1;
        }
        distinct_texts(&all)
    }

    /// Takes the files named in `found` out of every cell and records them
    /// for the note below the list. Names recorded before stay recorded.
    pub fn remove_shadow_files(&mut self, found: &Vec<String>)
        ensures
            rows_view(final(self).results@) == visible_rows(
                rows_view(old(self).results@),
                views(found@),
            ),
            views(final(self).shadow_files@) == recorded(
                views(old(self).shadow_files@),
                views(found@),
                found@.len() as int,
            ),
            final(self).language == old(self).language,
            final(self).wiki == old(self).wiki,
            final(self).template == old(self).template,
            final(self).params == old(self).params,
            final(self).columns == old(self).columns,
            final(self).entities == old(self).entities,
            final(self).section_names == old(self).section_names,
            final(self).local_page_cache == old(self).local_page_cache,
    {
        let ghost hidden = views(found@);
        let mut rows: Vec<ResultRow> = Vec::new();
        let mut i: usize = 0;
        while i < self.results.len()
            invariant
                i <= self.results.len(),
                *self == *old(self),
                hidden == views(found@),
                rows@.len() == i,
                forall|j: int|
                    0 <= j < i ==> (#[trigger] rows@[j])@ == visible_row(self.results@[j]@, hidden),
            decreases self.results.len() - i,
        {
            rows.push(row_without(&self.results[i], found));
            i += 1;
        }
        assert(rows_view(rows@) =~= visible_rows(rows_view(self.results@), hidden));
        self.results = rows;
        let ghost known = views(self.shadow_files@);
        let mut k: usize = 0;
        while k < found.len()
            invariant
                k <= found.len(),
                hidden == views(found@),
                views(self.shadow_files@) == recorded(known, hidden, k as int),
                self.results == rows,
                self.language == old(self).language,
                self.wiki == old(self).wiki,
                self.template == old(self).template,
                self.params == old(self).params,
                self.columns == old(self).columns,
                self.entities == old(self).entities,
                self.section_names == old(self).section_names,
                self.local_page_cache == old(self).local_page_cache,
            decreases found.len() - k,
        {
            if !holds_text(&self.shadow_files, found[k].as_str()) {
                let ghost before = views(self.shadow_files@);
                self.shadow_files.push(found[k].clone());
                assert(views(self.shadow_files@) =~= before.push(found@[k as int]@));
            }
            k += 1;
        }
    }
}

/// The cell without the files named in `found`.
pub fn cell_without(cell: &ResultCell, found: &Vec<String>) -> (r: ResultCell)
    ensures
        r@ == visible_cell(cell@, views(found@)),
{
    let ghost parts = parts_of(cell.parts@);
    let mut kept: Vec<ResultCellPart> = Vec::new();
    assert(parts_of(kept@) =~= Seq::<Part>::empty());
    let mut p: usize = 0;
    while p < cell.parts.len()
        invariant
            p <= cell.parts.len(),
            parts == parts_of(cell.parts@),
            parts_of(kept@) == visible_parts(parts, views(found@), p as int),
        decreases cell.parts.len() - p,
    {
        let part = &cell.parts[p];
        assert(parts[p as int] == part@);
        let hide = match part {
            ResultCellPart::File(f) => holds_text(found, f.as_str()),
            _ => false,
        };
        if !hide {
            let ghost before = parts_of(kept@);
            let copy = part.clone();
            kept.push(copy);
            assert(parts_of(kept@) =~= before.push(part@));
        }
        p += 1;
    }
    ResultCell { parts: kept }
}

/// The row without the files named in `found`.
pub fn row_without(row: &ResultRow, found: &Vec<String>) -> (r: ResultRow)
    ensures
        r@ == visible_row(row@, views(found@)),
{
    let mut cells: Vec<ResultCell> = Vec::new();
    let mut c: usize = 0;
    while c < row.cells.len()
        invariant
            c <= row.cells.len(),
            cells@.len() == c,
            forall|j: int|
                0 <= j < c ==> (#[trigger] cells@[j])@ == visible_cell(
                    row.cells@[j]@,
                    views(found@),
                ),
        decreases row.cells.len() - c,
    {
        cells.push(cell_without(&row.cells[c], found));
        c += 1;
    }
    let r = ResultRow {
        entity_id: row.entity_id.clone(),
        cells,
        section: row.section,
        sortkey: row.sortkey.clone(),
    };
    assert(r@.cells =~= visible_row(row@, views(found@)).cells);
    r
}

// ---------------------------------------------------------------------------
// Removing hidden files twice is removing them once
// ---------------------------------------------------------------------------

/// What stays visible holds no hidden file and nothing that was not there.
pub proof fn lemma_visible_parts_hold_no_hidden(parts: Seq<Part>, hidden: Seq<Seq<char>>, n: int)
    requires
        0 <= n <= parts.len(),
    ensures
        forall|i: int|
            0 <= i < visible_parts(parts, hidden, n).len() ==> !is_hidden(
                #[trigger] visible_parts(parts, hidden, n)[i],
                hidden,
            ),
    decreases n,
{
    if n > 0 {
        lemma_visible_parts_hold_no_hidden(parts, hidden, n - 1);
        let before = visible_parts(parts, hidden, n - 1);
        let after = visible_parts(parts, hidden, n);
        assert forall|i: int| 0 <= i < after.len() implies !is_hidden(#[trigger] after[i], hidden) by {
            if i < before.len() {
                assert(after[i] == before[i]);
            }
        }
    }
}

/// Parts that hold no hidden file all stay visible.
pub proof fn lemma_visible_parts_of_visible(parts: Seq<Part>, hidden: Seq<Seq<char>>, n: int)
    requires
        0 <= n <= parts.len(),
        forall|i: int| 0 <= i < parts.len() ==> !is_hidden(#[trigger] parts[i], hidden),
    ensures
        visible_parts(parts, hidden, n) == parts.take(n),
    decreases n,
{
    if n > 0 {
        lemma_visible_parts_of_visible(parts, hidden, n - 1);
        assert(parts.take(n - 1).push(parts[n - 1]) =~= parts.take(n));
    } else {
        assert(parts.take(0) =~= Seq::<Part>::empty());
    }
}

/// Taking the hidden files out of a cell a second time changes nothing.
pub proof fn lemma_visible_cell_idempotent(cell: Seq<Part>, hidden: Seq<Seq<char>>)
    ensures
        visible_cell(visible_cell(cell, hidden), hidden) == visible_cell(cell, hidden),
{
    let once = visible_cell(cell, hidden);
    lemma_visible_parts_hold_no_hidden(cell, hidden, cell.len() as int);
    lemma_visible_parts_of_visible(once, hidden, once.len() as int);
    assert(once.take(once.len() as int) =~= once);
}

/// Once the first `n` found names are recorded, each of them is in the list,
/// and so is everything that was known before.
pub proof fn lemma_recorded_holds(known: Seq<Seq<char>>, found: Seq<Seq<char>>, n: int)
    requires
        0 <= n <= found.len(),
    ensures
        forall|j: int| 0 <= j < n ==> recorded(known, found, n).contains(#[trigger] found[j]),
        forall|x: Seq<char>| known.contains(x) ==> recorded(known, found, n).contains(x),
    decreases n,
{
    if n > 0 {
        lemma_recorded_holds(known, found, n - 1);
        let before = recorded(known, found, n - 1);
        let after = recorded(known, found, n);
        if !before.contains(found[n - 1]) {
            assert(after == before.push(found[n - 1]));
            assert(after[before.len() as int] == found[n - 1]);
            assert forall|x: Seq<char>| before.contains(x) implies after.contains(x) by {
                let i = choose|i: int| 0 <= i < before.len() && before[i] == x;
                assert(after[i] == x);
            }
        }
    }
}

/// Names that are all in the list already leave it as it is.
pub proof fn lemma_recorded_of_known(known: Seq<Seq<char>>, found: Seq<Seq<char>>, n: int)
    requires
        0 <= n <= found.len(),
        forall|j: int| 0 <= j < found.len() ==> known.contains(#[trigger] found[j]),
    ensures
        recorded(known, found, n) == known,
    decreases n,
{
    if n > 0 {
        lemma_recorded_of_known(known, found, n - 1);
    }
}

/// Removing the same hidden files a second time yields the same rows and the
/// same list of hidden files as removing them once.
pub proof fn lemma_shadow_removal_idempotent(
    rows: Seq<Row>,
    known: Seq<Seq<char>>,
    found: Seq<Seq<char>>,
)
    ensures
        visible_rows(visible_rows(rows, found), found) == visible_rows(rows, found),
        recorded(recorded(known, found, found.len() as int), found, found.len() as int)
            == recorded(known, found, found.len() as int),
{
    let once = visible_rows(rows, found);
    let twice = visible_rows(once, found);
    assert forall|i: int| 0 <= i < rows.len() implies #[trigger] twice[i] == once[i] by {
        let a = once[i];
        let b = twice[i];
        assert forall|c: int| 0 <= c < a.cells.len() implies #[trigger] b.cells[c] == a.cells[c] by {
            lemma_visible_cell_idempotent(rows[i].cells[c], found);
        }
        assert(b.cells =~= a.cells);
    }
    assert(twice =~= once);
    lemma_recorded_holds(known, found, found.len() as int);
    lemma_recorded_of_known(recorded(known, found, found.len() as int), found, found.len() as int);
}

} // verus!
