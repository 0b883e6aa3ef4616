//! One row of a list.

use vstd::prelude::*;
use vstd::string::*;
use crate::result::{cells_of, Part, ResultCell};
use crate::text::copy_str;

verus! {

/// One row of the list.
#[derive(Debug)]
pub struct ResultRow {
    pub entity_id: String,
    pub cells: Vec<ResultCell>,
    pub section: usize,
    pub sortkey: String,
}

/// The mathematical value of a [`ResultRow`].
pub struct Row {
    pub entity_id: Seq<char>,
    pub cells: Seq<Seq<Part>>,
    pub section: nat,
    pub sortkey: Seq<char>,
}

impl View for ResultRow {
    type V = Row;

    open spec fn view(&self) -> Row {
        Row {
            entity_id: self.entity_id@,
            cells: cells_of(self.cells@),
            section: self.section as nat,
            sortkey: self.sortkey@,
        }
    }
}

/// The values of a list of rows.
pub open spec fn rows_view(v: Seq<ResultRow>) -> Seq<Row> {
    Seq::new(v.len(), |i: int| v[i]@)
}

impl Clone for ResultRow {
    fn clone(&self) -> (r: Self)
        ensures
            r@ == self@,
    {
        let mut cells: Vec<ResultCell> = Vec::new();
        let mut i: usize = 0;
        while i < self.cells.len()
            invariant
                i <= self.cells.len(),
                cells@.len() == i,
                forall|j: int| 0 <= j < i ==> cells@[j]@ == self.cells@[j]@,
            decreases self.cells.len() - i,
        {
            cells.push(self.cells[i].clone());
            i += 1;
        }
        assert(cells_of(cells@) =~= cells_of(self.cells@));
        ResultRow {
            entity_id: self.entity_id.clone(),
            cells,
            section: self.section,
            sortkey: self.sortkey.clone(),
        }
    }
}

impl ResultRow {
    /// A row for the entity `entity_id`, without cells, in section 0.
    pub fn new(entity_id: &str) -> (r: Self)
        ensures
            r@ == (Row {
                entity_id: entity_id@,
                cells: Seq::empty(),
                section: 0,
                sortkey: Seq::empty(),
            }),
    {
        let r = ResultRow {
            entity_id: copy_str(entity_id),
            cells: Vec::new(),
            section: 0,
            sortkey: String::new(),
        };
        assert(cells_of(r.cells@) =~= Seq::<Seq<Part>>::empty());
        r
    }
}

} // verus!
