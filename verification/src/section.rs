//! Sections: the rows of a list are grouped by the value that a property has
//! for them. A value that enough rows share names a section of its own; the
//! rows of all other values stand together in a last section.

use vstd::prelude::*;
use vstd::string::*;
use crate::listeria_list::ListeriaList;
use crate::order::{lemma_lex_le_total, lemma_lex_le_transitive, lex_le, text_le};
use crate::params::{SectionKind, SectionType};
use crate::pipeline::holds_text;
use crate::result_row::{rows_view, ResultRow, Row};
use crate::text::{copy_str, str_eq, trimmed, views};

verus! {

// ---------------------------------------------------------------------------
// The names of the sections
// ---------------------------------------------------------------------------

/// How many of the first `n` names are `name`.
pub open spec fn occurrences(names: Seq<Seq<char>>, name: Seq<char>, n: int) -> nat
    decreases n,
{
    if n <= 0 || n > names.len() {
        0
    } else {
        occurrences(names, name, n - 1) + if names[n - 1] == name {
            1nat
        } else {
            0nat
        }
    }
}

/// Where `name` is put among `kept`: the first index at or after `from` of a
/// text that comes later than `name`, or the length.
pub open spec fn name_position(kept: Seq<Seq<char>>, name: Seq<char>, from: int) -> int
    decreases kept.len() - from,
{
    if from < 0 || from >= kept.len() {
        kept.len() as int
    } else if !lex_le(kept[from], name) {
        from
    } else {
        name_position(kept, name, from + 1)
    }
}

/// The section names that the first `n` names give: each of them that at
/// least `min` of all the names are, once, in the order of texts.
pub open spec fn kept_names(names: Seq<Seq<char>>, min: nat, n: int) -> Seq<Seq<char>>
    decreases n,
{
    if n <= 0 || n > names.len() {
        Seq::empty()
    } else {
        let before = kept_names(names, min, n - 1);
        let name = names[n - 1];
        if occurrences(names, name, names.len() as int) >= min && !before.contains(name) {
            before.insert(name_position(before, name, 0), name)
        } else {
            before
        }
    }
}

/// The first index at or after `from` at which `name` stands in `kept`, or
/// the length where it stands nowhere.
pub open spec fn name_index(kept: Seq<Seq<char>>, name: Seq<char>, from: int) -> int
    decreases kept.len() - from,
{
    if from < 0 || from >= kept.len() {
        kept.len() as int
    } else if kept[from] == name {
        from
    } else {
        name_index(kept, name, from + 1)
    }
}

/// The texts of `kept` stand in ascending order, none twice.
pub open spec fn ascending(kept: Seq<Seq<char>>) -> bool {
    forall|i: int, j: int|
        0 <= i < j < kept.len() ==> lex_le(#[trigger] kept[i], #[trigger] kept[j]) && kept[i]
            != kept[j]
}

/// Where a name is put, every text before comes no later and the text there comes later.
pub proof fn lemma_name_position(kept: Seq<Seq<char>>, name: Seq<char>, from: int)
    requires
        0 <= from <= kept.len(),
    ensures
        from <= name_position(kept, name, from) <= kept.len(),
        forall|i: int| from <= i < name_position(kept, name, from) ==> lex_le(#[trigger] kept[i], name),
        name_position(kept, name, from) < kept.len() ==> !lex_le(
            kept[name_position(kept, name, from)],
            name,
        ),
    decreases kept.len() - from,
{
    if from < kept.len() && lex_le(kept[from], name) {
        lemma_name_position(kept, name, from + 1);
    }
}

/// Where a name is found, it stands there and nowhere before.
pub proof fn lemma_name_index(kept: Seq<Seq<char>>, name: Seq<char>, from: int)
    requires
        0 <= from <= kept.len(),
    ensures
        from <= name_index(kept, name, from) <= kept.len(),
        forall|i: int| from <= i < name_index(kept, name, from) ==> #[trigger] kept[i] != name,
        name_index(kept, name, from) < kept.len() ==> kept[name_index(kept, name, from)] == name,
    decreases kept.len() - from,
{
    if from < kept.len() && kept[from] != name {
        lemma_name_index(kept, name, from + 1);
    }
}

/// The section names stand in ascending order, none twice, and they are
/// exactly the names that at least `min` of all the names are.
pub proof fn lemma_kept_names(names: Seq<Seq<char>>, min: nat, n: int)
    requires
        0 <= n <= names.len(),
    ensures
        ascending(kept_names(names, min, n)),
        forall|name: Seq<char>|
            #[trigger] kept_names(names, min, n).contains(name) <==> (occurrences(
                names,
                name,
                names.len() as int,
            ) >= min && names.take(n).contains(name)),
    decreases n,
{
    let kept = kept_names(names, min, n);
    if n > 0 {
        lemma_kept_names(names, min, n - 1);
        let before = kept_names(names, min, n - 1);
        let last = names[n - 1];
        assert(names.take(n).drop_last() == names.take(n - 1));
        assert(names.take(n).last() == last);
        let head = names.take(n);
        let shorter = names.take(n - 1);
        assert forall|name: Seq<char>| head.contains(name) <==> (shorter.contains(name) || name
            == last) by {
            if head.contains(name) {
                let i = choose|i: int| 0 <= i < head.len() && head[i] == name;
                if i < n - 1 {
                    assert(shorter[i] == name);
                }
            }
            if shorter.contains(name) {
                let i = choose|i: int| 0 <= i < shorter.len() && shorter[i] == name;
                assert(head[i] == name);
            }
            if name == last {
                assert(head[n - 1] == name);
            }
        }
        if occurrences(names, last, names.len() as int) >= min && !before.contains(last) {
            let pos = name_position(before, last, 0);
            lemma_name_position(before, last, 0);
            assert forall|i: int, j: int| 0 <= i < j < kept.len() implies lex_le(
                #[trigger] kept[i],
                #[trigger] kept[j],
            ) && kept[i] != kept[j] by {
                if j == pos {
                    assert(kept[i] == before[i]);
                    assert(before.contains(before[i]));
                } else if i == pos {
                    assert(kept[j] == before[j - 1]);
                    assert(before.contains(before[j - 1]));
                    lemma_lex_le_total(before[pos], last);
                    if j - 1 > pos {
                        assert(lex_le(before[pos], before[j - 1]));
                        lemma_lex_le_transitive(last, before[pos], before[j - 1]);
                    }
                } else {
                    let a = if i < pos {
                        i
                    } else {
                        i - 1
                    };
                    let b = if j < pos {
                        j
                    } else {
                        j - 1
                    };
                    assert(kept[i] == before[a] && kept[j] == before[b]);
                }
            }
            assert forall|name: Seq<char>| #[trigger] kept.contains(name) <==> (before.contains(name)
                || name == last) by {
                if kept.contains(name) {
                    let i = choose|i: int| 0 <= i < kept.len() && kept[i] == name;
                    if i < pos {
                        assert(before[i] == name);
                    } else if i > pos {
                        assert(before[i - 1] == name);
                    }
                }
                if before.contains(name) {
                    let i = choose|i: int| 0 <= i < before.len() && before[i] == name;
                    if i < pos {
                        assert(kept[i] == name);
                    } else {
                        assert(kept[i + 1] == name);
                    }
                }
                if name == last {
                    assert(kept[pos] == name);
                }
            }
        }
    } else {
        assert(names.take(0) =~= Seq::<Seq<char>>::empty());
    }
}

/// How often `s` stands in `v`.
pub fn count_text(v: &Vec<String>, s: &str) -> (r: usize)
    ensures
        r == occurrences(views(v@), s@, v@.len() as int),
{
    let mut count: usize = 0;
    let mut i: usize = 0;
    while i < v.len()
        invariant
            i <= v.len(),
            count <= i,
            count == occurrences(views(v@), s@, i as int),
        decreases v.len() - i,
    {
        if str_eq(v[i].as_str(), s) {
            count += 1;
        }
        i += 1;
    }
    count
}

/// Where `s` stands first in `v`, or the length of `v` where it stands nowhere.
pub fn find_name(v: &Vec<String>, s: &str) -> (r: usize)
    ensures
        r == name_index(views(v@), s@, 0),
        r <= v@.len(),
{
    let mut i: usize = 0;
    while i < v.len()
        invariant
            i <= v.len(),
            name_index(views(v@), s@, 0) == name_index(views(v@), s@, i as int),
        decreases v.len() - i,
    {
        if str_eq(v[i].as_str(), s) {
            return i;
        }
        i += 1;
    }
    i
}

/// The section names that `names` give: each name that at least `min` of
/// them are, once, in the order of texts.
pub fn section_names_of(names: &Vec<String>, min: u64) -> (r: Vec<String>)
    ensures
        views(r@) == kept_names(views(names@), min as nat, names@.len() as int),
{
    let ghost given = views(names@);
    let mut kept: Vec<String> = Vec::new();
    assert(views(kept@) =~= Seq::<Seq<char>>::empty());
    let mut n: usize = 0;
    while n < names.len()
        invariant
            n <= names.len(),
            given == views(names@),
            views(kept@) == kept_names(given, min as nat, n as int),
        decreases names.len() - n,
    {
        let name = &names[n];
        let ghost before = views(kept@);
        if count_text(names, name.as_str()) as u64 >= min && !holds_text(&kept, name.as_str()) {
            let mut pos: usize = 0;
            while pos < kept.len() && text_le(kept[pos].as_str(), name.as_str())
                invariant
                    pos <= kept.len(),
                    before == views(kept@),
                    name_position(before, name@, 0) == name_position(before, name@, pos as int),
                decreases kept.len() - pos,
            {
                pos += 1;
            }
            kept.insert(pos, name.clone());
            assert(views(kept@) =~= before.insert(pos as int, name@));
        }
        n += 1;
    }
    kept
}

// ---------------------------------------------------------------------------
// The sections of a list
// ---------------------------------------------------------------------------

/// `row` in the section `section`.
pub open spec fn in_section(row: Row, section: nat) -> Row {
    Row { entity_id: row.entity_id, cells: row.cells, section, sortkey: row.sortkey }
}

impl ListeriaList {
    /// By what the rows are grouped.
    pub open spec fn section_kind(&self) -> SectionKind {
        match self.params.section {
            Some(s) => SectionType::of_trimmed(trimmed(s@)),
            None => SectionKind::Whole,
        }
    }

    /// The name under which each row is grouped by the property `prop`: the
    /// key of the value of the first claim of that property of its entity.
    pub open spec fn group_names(&self, rows: Seq<Row>, prop: Seq<char>) -> Seq<Seq<char>> {
        Seq::new(rows.len(), |i: int| self.property_key(rows[i].entity_id, prop))
    }

    /// The names of the sections of a list grouped by the property `prop`.
    pub open spec fn group_sections(&self, rows: Seq<Row>, prop: Seq<char>) -> Seq<Seq<char>> {
        kept_names(
            self.group_names(rows, prop),
            self.params.min_section as nat,
            rows.len() as int,
        )
    }

    /// `rows` with their sections. In a list grouped by a property, a row
    /// whose name is a section name stands in the section of that name, and
    /// every other row in the section behind the last of them. Any other
    /// list leaves the rows as they are.
    pub open spec fn sectioned_rows(&self, rows: Seq<Row>) -> Seq<Row> {
        match self.section_kind() {
            SectionKind::Property(prop) => Seq::new(
                rows.len(),
                |i: int|
                    in_section(
                        rows[i],
                        name_index(
                            self.group_sections(rows, prop),
                            self.group_names(rows, prop)[i],
                            0,
                        ) as nat,
                    ),
            ),
            _ => rows,
        }
    }

    /// The section names of the list with these rows. In a list grouped by a
    /// property: each name that at least `min_section` rows share, in the
    /// order of texts, and `Misc` for the last section. Any other list keeps
    /// the names it has.
    pub open spec fn section_titles(&self, rows: Seq<Row>) -> Seq<Seq<char>> {
        match self.section_kind() {
            SectionKind::Property(prop) => self.group_sections(rows, prop) + seq!["Misc"@],
            _ => views(self.section_names@),
        }
    }

    /// The list is `before` with its sections assigned.
    pub open spec fn sectioned_of(&self, before: &Self) -> bool {
        &&& rows_view(self.results@) == before.sectioned_rows(rows_view(before.results@))
        &&& views(self.section_names@) == before.section_titles(rows_view(before.results@))
        &&& self.language == before.language
        &&& self.wiki == before.wiki
        &&& self.template == before.template
        &&& self.params == before.params
        &&& self.columns == before.columns
        &&& self.sparql_first_variable == before.sparql_first_variable
        &&& self.sparql_rows == before.sparql_rows
        &&& self.entities == before.entities
        &&& self.shadow_files == before.shadow_files
        &&& self.local_page_cache == before.local_page_cache
    }

    /// By what the rows are grouped.
    pub fn get_section_type(&self) -> (r: SectionType)
        ensures
            r@ == self.section_kind(),
    {
        match &self.params.section {
            Some(s) => SectionType::new_from_string(s.as_str()),
            None => SectionType::Whole,
        }
    }

    /// Puts every row into its section and names the sections.
    pub fn assign_sections(&mut self)
        ensures
            final(self).sectioned_of(old(self)),
    {
        let prop = match self.get_section_type() {
            SectionType::Property(p) => p,
            _ => {
                assert(rows_view(self.results@) =~= self.sectioned_rows(rows_view(self.results@)));
                return ;
            },
        };
        let ghost rows = rows_view(self.results@);
        let ghost group = self.group_names(rows, prop@);
        let mut names: Vec<String> = Vec::new();
        let mut i: usize = 0;
        while i < self.results.len()
            invariant
                i <= self.results.len(),
                *self == *old(self),
                names@.len() == i,
                forall|j: int|
                    0 <= j < i ==> (#[trigger] names@[j])@ == self.property_key(
                        self.results@[j].entity_id@,
                        prop@,
                    ),
            decreases self.results.len() - i,
        {
            names.push(self.get_sortkey_prop(self.results[i].entity_id.as_str(), prop.as_str()));
            i += 1;
        }
        assert(views(names@) =~= group);
        let mut kept = section_names_of(&names, self.params.min_section);
        let ghost sections = views(kept@);
        let mut out: Vec<ResultRow> = Vec::new();
        let mut k: usize = 0;
        while k < self.results.len()
            invariant
                k <= self.results.len(),
                *self == *old(self),
                names@.len() == self.results.len(),
                views(names@) == group,
                views(kept@) == sections,
                out@.len() == k,
                forall|j: int|
                    0 <= j < k ==> (#[trigger] out@[j])@ == in_section(
                        self.results@[j]@,
                        name_index(sections, group[j], 0) as nat,
                    ),
            decreases self.results.len() - k,
        {
            let mut row = self.results[k].clone();
            row.section = find_name(&kept, names[k].as_str());
            out.push(row);
            k += 1;
        }
        assert(rows_view(out@) =~= self.sectioned_rows(rows));
        kept.push(copy_str("Misc"));
        assert(views(kept@) =~= sections + seq!["Misc"@]);
        self.results = out;
        self.section_names = kept;
    }
}

/// In a list grouped by a property the section names stand in ascending
/// order, none twice; a name is among them exactly where at least
/// `min_section` rows share it; a row whose name is among them stands in the
/// section of that name, and every other row in the section behind them,
/// whose name is `Misc`.
pub proof fn lemma_sections_group_rows(list: ListeriaList, rows: Seq<Row>, prop: Seq<char>)
    requires
        list.section_kind() == SectionKind::Property(prop),
    ensures
        ascending(list.group_sections(rows, prop)),
        list.sectioned_rows(rows).len() == rows.len(),
        list.section_titles(rows).len() == list.group_sections(rows, prop).len() + 1,
        list.section_titles(rows).last() == "Misc"@,
        forall|i: int|
            0 <= i < rows.len() ==> {
                let row = #[trigger] list.sectioned_rows(rows)[i];
                let name = list.property_key(rows[i].entity_id, prop);
                &&& row == in_section(rows[i], row.section)
                &&& row.section < list.section_titles(rows).len()
                &&& occurrences(list.group_names(rows, prop), name, rows.len() as int)
                    >= list.params.min_section ==> list.section_titles(rows)[row.section as int]
                    == name && row.section < list.group_sections(rows, prop).len()
                &&& occurrences(list.group_names(rows, prop), name, rows.len() as int)
                    < list.params.min_section ==> row.section == list.group_sections(
                    rows,
                    prop,
                ).len()
            },
{
    let names = list.group_names(rows, prop);
    let min = list.params.min_section as nat;
    let kept = list.group_sections(rows, prop);
    lemma_kept_names(names, min, rows.len() as int);
    assert(names.take(rows.len() as int) =~= names);
    assert forall|i: int| 0 <= i < rows.len() implies {
        let row = #[trigger] list.sectioned_rows(rows)[i];
        let name = list.property_key(rows[i].entity_id, prop);
        &&& row == in_section(rows[i], row.section)
        &&& row.section < list.section_titles(rows).len()
        &&& occurrences(names, name, rows.len() as int) >= list.params.min_section
            ==> list.section_titles(rows)[row.section as int] == name && row.section < kept.len()
        &&& occurrences(names, name, rows.len() as int) < list.params.min_section ==> row.section
            == kept.len()
    } by {
        let name = names[i];
        lemma_name_index(kept, name, 0);
        let idx = name_index(kept, name, 0);
        assert(names.contains(name));
        if occurrences(names, name, rows.len() as int) >= min {
            assert(kept.contains(name));
            let w = choose|w: int| 0 <= w < kept.len() && kept[w] == name;
            assert(idx <= w);
        } else {
            assert(!kept.contains(name));
            if idx < kept.len() {
                assert(kept[idx] == name);
            }
        }
    }
}

} // verus!
