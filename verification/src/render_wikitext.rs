//! Writing a finished list as a table in wiki markup. The rows are written
//! in the order in which they stand: nothing is sorted here.

use vstd::prelude::*;
use vstd::string::*;
use crate::Renderer;
use crate::column::key_of;
use crate::listeria_list::ListeriaList;
use crate::params::text_of;
use crate::result::Part;
use crate::result_row::{rows_view, ResultRow, Row};
use crate::text::{
    chars_of, concatenated, copy_str, decimal, decimal_string, index_of, join_strings, joined,
    lemma_index_of_bounds, slice_of, split, split_chars, str_eq, string_of, vec_views, views,
};

verus! {

/// Some row among `rows` stands in section `s`.
pub open spec fn has_section(rows: Seq<Row>, s: nat) -> bool {
    exists|i: int| 0 <= i < rows.len() && (#[trigger] rows[i]).section == s
}

/// The sections below `b` that hold a row, in ascending order.
pub open spec fn sections_below(rows: Seq<Row>, b: nat) -> Seq<nat>
    decreases b,
{
    if b == 0 {
        Seq::empty()
    } else {
        let before = sections_below(rows, (b - 1) as nat);
        if has_section(rows, (b - 1) as nat) {
            before.push((b - 1) as nat)
        } else {
            before
        }
    }
}

/// A number above the section of each of the first `n` rows.
pub open spec fn section_bound(rows: Seq<Row>, n: int) -> nat
    decreases n,
{
    if n <= 0 || n > rows.len() {
        0
    } else {
        let before = section_bound(rows, n - 1);
        if rows[n - 1].section + 1 > before {
            rows[n - 1].section + 1
        } else {
            before
        }
    }
}

/// The sections that hold a row, each once, in ascending order.
pub open spec fn section_ids(rows: Seq<Row>) -> Seq<nat> {
    sections_below(rows, section_bound(rows, rows.len() as int))
}

/// The section numbers as mathematical numbers.
pub open spec fn as_nats(v: Seq<usize>) -> Seq<nat> {
    Seq::new(v.len(), |i: int| v[i] as nat)
}

/// The bound lies above the section of every row it covers.
pub proof fn lemma_section_bound(rows: Seq<Row>, n: int, i: int)
    requires
        0 <= i < n <= rows.len(),
    ensures
        rows[i].section < section_bound(rows, n),
    decreases n,
{
    if i < n - 1 {
        lemma_section_bound(rows, n - 1, i);
    }
}

/// Where no row stands in a section from `a` up to `b`, the sections below
/// `b` are those below `a`.
pub proof fn lemma_no_sections_between(rows: Seq<Row>, a: nat, b: nat)
    requires
        a <= b,
        forall|s: nat| a <= s < b ==> !has_section(rows, s),
    ensures
        sections_below(rows, b) == sections_below(rows, a),
    decreases b,
{
    if a < b {
        assert(!has_section(rows, (b - 1) as nat));
        lemma_no_sections_between(rows, a, (b - 1) as nat);
    }
}

/// The line that begins a row in a table.
pub open spec fn row_separator() -> Seq<char> {
    "|-\n"@
}

/// The heading cells of the columns from `from` on: a line `! <label>` each.
pub open spec fn heading_lines(labels: Seq<Seq<char>>, from: int) -> Seq<char>
    decreases labels.len() - from,
{
    if from < 0 || from >= labels.len() {
        Seq::empty()
    } else {
        "! "@ + labels[from] + "\n"@ + heading_lines(labels, from + 1)
    }
}

/// The line that opens a table, without its line break.
pub open spec fn table_open() -> Seq<char> {
    "{| class='wikitable sortable' style='width:100%'"@
}

/// The line that opens a table.
pub open spec fn table_start() -> Seq<char> {
    table_open() + "\n"@
}

/// The note in front of the list of files that were left out.
pub open spec fn shadow_note() -> Seq<char> {
    "\n----\nThe following local image(s) are not shown in the above list, because they shadow a Commons image of the same name, and might be non-free:"@
}

/// The lines that name the first `n` files that were left out.
pub open spec fn shadow_lines(files: Seq<Seq<char>>, n: int) -> Seq<char>
    decreases n,
{
    if n <= 0 || n > files.len() {
        Seq::empty()
    } else {
        shadow_lines(files, n - 1) + "\n# [[:File:"@ + files[n - 1] + "|]]"@
    }
}

impl ListeriaList {
    /// The labels of the columns.
    pub open spec fn column_labels(&self) -> Seq<Seq<char>> {
        Seq::new(self.columns@.len(), |c: int| self.columns@[c].label@)
    }

    /// What stands above the rows of a section: the header template where
    /// one is set; else, unless the table is left out, the opening of a table
    /// with one heading cell per column.
    pub open spec fn header_text(&self) -> Seq<char> {
        match self.params.header_template {
            Some(t) => "{{"@ + t@ + "}}\n"@,
            None => if self.params.skip_table {
                Seq::empty()
            } else {
                table_start() + heading_lines(self.column_labels(), 0)
            },
        }
    }

    /// How each cell of a row is written.
    pub open spec fn cell_texts(&self, cells: Seq<Seq<Part>>, rownum: nat) -> Seq<Seq<char>> {
        Seq::new(cells.len(), |c: int| self.cell_text(cells[c], rownum))
    }

    /// The cells of a row as parameters of the row template: `<key> = <text>`
    /// with the key of the column.
    pub open spec fn keyed_cells(&self, cells: Seq<Seq<char>>) -> Seq<Seq<char>> {
        Seq::new(cells.len(), |c: int| key_of(self.columns@[c].obj@) + " = "@ + cells[c])
    }

    /// How a row is written: with a row template, a call of that template
    /// with one parameter per cell; else one table cell per cell.
    pub open spec fn row_text(&self, row: Row, rownum: nat) -> Seq<char> {
        let cells = self.cell_texts(row.cells, rownum);
        match self.params.row_template {
            Some(t) => "{{"@ + t@ + "\n| "@ + joined(self.keyed_cells(cells), "\n| "@) + "\n}}"@,
            None => "| "@ + joined(cells, "\n| "@),
        }
    }

    /// Those of the first `n` rows that stand in `section`, as they are
    /// written; the rows of a section are numbered from 0.
    pub open spec fn section_rows(&self, rows: Seq<Row>, section: nat, n: int) -> Seq<Seq<char>>
        decreases n,
    {
        if n <= 0 || n > rows.len() {
            Seq::empty()
        } else {
            let before = self.section_rows(rows, section, n - 1);
            if rows[n - 1].section == section {
                before.push(self.row_text(rows[n - 1], before.len()))
            } else {
                before
            }
        }
    }

    /// The heading of a section: that of its name where it has one.
    pub open spec fn section_heading(&self, section: nat) -> Seq<char> {
        if section < self.section_names@.len() {
            "\n\n\n== "@ + self.section_names@[section as int]@ + " ==\n"@
        } else {
            Seq::empty()
        }
    }

    /// How a section is written: its heading, what stands above the rows,
    /// the rows, and the end of the table unless the table is left out.
    pub open spec fn section_text(&self, section: nat) -> Seq<char> {
        let rows = rows_view(self.results@);
        let lines = self.section_rows(rows, section, rows.len() as int);
        self.section_heading(section) + self.header_text() + (if self.params.row_template is None
            && !self.params.skip_table && rows.len() > 0 {
            row_separator()
        } else {
            Seq::empty()
        }) + (if self.params.skip_table {
            joined(lines, "\n"@)
        } else {
            joined(lines, "\n|-\n"@) + "\n|}"@
        })
    }

    /// How each of `sections` is written.
    pub open spec fn section_texts(&self, sections: Seq<nat>) -> Seq<Seq<char>> {
        Seq::new(sections.len(), |i: int| self.section_text(sections[i]))
    }

    /// The note that names the files that were left out; nothing where none was.
    pub open spec fn shadow_text(&self) -> Seq<char> {
        if self.shadow_files@.len() == 0 {
            Seq::empty()
        } else {
            shadow_note() + shadow_lines(views(self.shadow_files@), self.shadow_files@.len() as int)
        }
    }

    /// The line that counts the rows, where the list asks for it.
    pub open spec fn summary_text(&self) -> Seq<char> {
        if text_of(self.params.summary) == Some("ITEMNUMBER"@) {
            "\n----\n&sum; "@ + decimal(self.results@.len()) + " items."@
        } else {
            Seq::empty()
        }
    }

    /// The list in markup: one block per section that holds a row, in
    /// ascending order of the sections, then the note on files that were left
    /// out and the count of the rows.
    pub open spec fn wikitext(&self) -> Seq<char> {
        concatenated(self.section_texts(section_ids(rows_view(self.results@))))
            + self.shadow_text() + self.summary_text()
    }

    /// With a row template, no row has more cells than the list has columns.
    pub open spec fn rows_fit(&self) -> bool {
        self.params.row_template is Some ==> forall|i: int|
            0 <= i < self.results@.len() ==> (#[trigger] self.results@[i]).cells@.len()
                <= self.columns@.len()
    }

    /// With a row template, no row has more cells than the list has columns.
    pub fn check_rows_fit(&self) -> (r: bool)
        ensures
            r == self.rows_fit(),
    {
        if self.params.row_template.is_none() {
            return true;
        }
        let mut i: usize = 0;
        while i < self.results.len()
            invariant
                i <= self.results.len(),
                self.params.row_template is Some,
                forall|j: int|
                    0 <= j < i ==> (#[trigger] self.results@[j]).cells@.len() <= self.columns@.len(),
            decreases self.results.len() - i,
        {
            if self.results[i].cells.len() > self.columns.len() {
                return false;
            }
            i += 1;
        }
        true
    }

    /// The sections that hold a row, each once, in ascending order.
    pub fn get_section_ids(&self) -> (r: Vec<usize>)
        ensures
            as_nats(r@) == section_ids(rows_view(self.results@)),
    {
        let ghost rows = rows_view(self.results@);
        let ghost bound = section_bound(rows, rows.len() as int);
        let mut out: Vec<usize> = Vec::new();
        assert(as_nats(out@) =~= Seq::<nat>::empty());
        let mut cur: usize = 0;
        let mut done = false;
        while !done
            invariant
                rows == rows_view(self.results@),
                bound == section_bound(rows, rows.len() as int),
                !done ==> as_nats(out@) == sections_below(rows, cur as nat) && cur <= bound,
                done ==> as_nats(out@) == sections_below(rows, bound),
            decreases usize::MAX - cur + (if done { 0int } else { 1int }),
        {
            let mut best: Option<usize> = None;
            let mut i: usize = 0;
            while i < self.results.len()
                invariant
                    i <= self.results.len(),
                    rows == rows_view(self.results@),
                    match best {
                        Some(m) => m >= cur && has_section(rows, m as nat) && forall|j: int|
                            0 <= j < i && (#[trigger] rows[j]).section >= cur ==> rows[j].section >= m,
                        None => forall|j: int| 0 <= j < i ==> (#[trigger] rows[j]).section < cur,
                    },
                decreases self.results.len() - i,
            {
                let s = self.results[i].section;
                assert(rows[i as int].section == s);
                if s >= cur {
                    let better = match best {
                        Some(m) => s < m,
                        None => true,
                    };
                    if better {
                        best = Some(s);
                    }
                }
                i += 1;
            }
            match best {
                Some(m) => {
                    proof {
                        assert forall|s: nat| cur <= s < m implies !has_section(rows, s) by {
                            if has_section(rows, s) {
                                let k = choose|k: int| 0 <= k < rows.len() && (#[trigger] rows[k]).section == s;
                                assert(rows[k].section >= m);
                            }
                        }
                        lemma_no_sections_between(rows, cur as nat, m as nat);
                        let k = choose|k: int| 0 <= k < rows.len() && (#[trigger] rows[k]).section == m;
                        lemma_section_bound(rows, rows.len() as int, k);
                    }
                    let ghost before = as_nats(out@);
                    out.push(m);
                    assert(as_nats(out@) =~= before.push(m as nat));
                    assert(as_nats(out@) == sections_below(rows, (m + 1) as nat));
                    if m == usize::MAX {
                        proof {
                            assert forall|s: nat| m + 1 <= s < bound implies !has_section(rows, s) by {
                                if has_section(rows, s) {
                                    let k = choose|k: int| 0 <= k < rows.len() && (#[trigger] rows[k]).section == s;
                                    assert(self.results@[k]@.section == s);
                                }
                            }
                            lemma_no_sections_between(rows, (m + 1) as nat, bound);
                        }
                        done = true;
                    } else {
                        cur = m + 1;
                    }
                },
                None => {
                    proof {
                        assert forall|s: nat| cur <= s < bound implies !has_section(rows, s) by {
                            if has_section(rows, s) {
                                let k = choose|k: int| 0 <= k < rows.len() && (#[trigger] rows[k]).section == s;
                                assert(rows[k].section < cur);
                            }
                        }
                        lemma_no_sections_between(rows, cur as nat, bound);
                    }
                    done = true;
                },
            }
        }
        out
    }

    /// What stands above the rows of a section.
    pub fn as_wikitext_table_header(&self) -> (r: String)
        ensures
            r@ == self.header_text(),
    {
        match &self.params.header_template {
            Some(t) => {
                let mut r = copy_str("{{");
                r.append(t.as_str());
                r.append("}}\n");
                r
            },
            None => {
                if self.params.skip_table {
                    return String::new();
                }
                let ghost labels = self.column_labels();
                let n = self.columns.len();
                let mut lines: Vec<String> = Vec::new();
                let mut c: usize = n;
                let mut tail = String::new();
                while c > 0
                    invariant
                        c <= n,
                        n == self.columns.len(),
                        labels == self.column_labels(),
                        tail@ == heading_lines(labels, c as int),
                    decreases c,
                {
                    c -= 1;
                    let mut line = copy_str("! ");
                    line.append(self.columns[c].label.as_str());
                    line.append("\n");
                    line.append(tail.as_str());
                    assert(labels[c as int] == self.columns@[c as int].label@);
                    tail = line;
                }
                let mut r = copy_str("{| class='wikitable sortable' style='width:100%'");
                r.append("\n");
                r.append(tail.as_str());
                r
            },
        }
    }

    /// Writes one row. With a row template the row must have no more cells
    /// than the list has columns.
    pub fn row_as_wikitext(&self, row: &ResultRow, rownum: usize) -> (r: String)
        requires
            self.params.row_template is Some ==> row.cells@.len() <= self.columns@.len(),
        ensures
            r@ == self.row_text(row@, rownum as nat),
    {
        let ghost cells = self.cell_texts(row@.cells, rownum as nat);
        let mut texts: Vec<String> = Vec::new();
        let mut c: usize = 0;
        while c < row.cells.len()
            invariant
                c <= row.cells.len(),
                texts@.len() == c,
                forall|j: int|
                    0 <= j < c ==> (#[trigger] texts@[j])@ == self.cell_text(
                        row.cells@[j]@,
                        rownum as nat,
                    ),
            decreases row.cells.len() - c,
        {
            texts.push(row.cells[c].as_wikitext(self, rownum, c));
            c += 1;
        }
        assert(views(texts@) =~= cells);
        match &self.params.row_template {
            Some(t) => {
                let mut keyed: Vec<String> = Vec::new();
                let mut c: usize = 0;
                while c < texts.len()
                    invariant
                        c <= texts.len(),
                        texts.len() <= self.columns.len(),
                        keyed@.len() == c,
                        forall|j: int|
                            0 <= j < c ==> (#[trigger] keyed@[j])@ == key_of(self.columns@[j].obj@)
                                + " = "@ + texts@[j]@,
                    decreases texts.len() - c,
                {
                    let mut cell = self.columns[c].obj.as_key();
                    cell.append(" = ");
                    cell.append(texts[c].as_str());
                    keyed.push(cell);
                    c += 1;
                }
                assert(views(keyed@) =~= self.keyed_cells(cells));
                let mut r = copy_str("{{");
                r.append(t.as_str());
                r.append("\n| ");
                r.append(join_strings(&keyed, "\n| ").as_str());
                r.append("\n}}");
                r
            },
            None => {
                let mut r = copy_str("| ");
                r.append(join_strings(&texts, "\n| ").as_str());
                r
            },
        }
    }

    /// Writes one section.
    pub fn as_wikitext_section(&self, section_id: usize) -> (r: String)
        requires
            self.rows_fit(),
        ensures
            r@ == self.section_text(section_id as nat),
    {
        let ghost rows = rows_view(self.results@);
        let mut r = String::new();
        if section_id < self.section_names.len() {
            r.append("\n\n\n== ");
            r.append(self.section_names[section_id].as_str());
            r.append(" ==\n");
        }
        r.append(self.as_wikitext_table_header().as_str());
        if self.params.row_template.is_none() && !self.params.skip_table && self.results.len() > 0 {
            r.append("|-\n");
        }
        let mut lines: Vec<String> = Vec::new();
        assert(views(lines@) =~= Seq::<Seq<char>>::empty());
        let mut i: usize = 0;
        while i < self.results.len()
            invariant
                i <= self.results.len(),
                self.rows_fit(),
                rows == rows_view(self.results@),
                views(lines@) == self.section_rows(rows, section_id as nat, i as int),
            decreases self.results.len() - i,
        {
            let row = &self.results[i];
            assert(rows[i as int] == row@);
            if row.section == section_id {
                let ghost before = views(lines@);
                let line = self.row_as_wikitext(row, lines.len());
                lines.push(line);
                assert(views(lines@) =~= before.push(line@));
            }
            i += 1;
        }
        if self.params.skip_table {
            r.append(join_strings(&lines, "\n").as_str());
        } else {
            r.append(join_strings(&lines, "\n|-\n").as_str());
            r.append("\n|}");
        }
        r
    }

    /// Writes the list in markup. It fails only where a row template is set
    /// and a row has more cells than the list has columns.
    pub fn as_wikitext(&self) -> (r: Result<String, String>)
        ensures
            match r {
                Ok(text) => self.rows_fit() && text@ == self.wikitext(),
                Err(_) => !self.rows_fit(),
            },
    {
        if !self.check_rows_fit() {
            return Err(copy_str("A row has more cells than the list has columns"));
        }
        let sections = self.get_section_ids();
        let ghost ids = section_ids(rows_view(self.results@));
        let mut r = String::new();
        let mut i: usize = 0;
        assert(self.section_texts(ids).take(0) =~= Seq::<Seq<char>>::empty());
        while i < sections.len()
            invariant
                i <= sections.len(),
                self.rows_fit(),
                as_nats(sections@) == ids,
                r@ == concatenated(self.section_texts(ids).take(i as int)),
            decreases sections.len() - i,
        {
            let ghost all = self.section_texts(ids);
            assert(ids[i as int] == sections@[i as int] as nat);
            assert(all.take(i + 1).drop_last() =~= all.take(i as int));
            assert(all.take(i + 1).last() == self.section_text(ids[i as int]));
            r.append(self.as_wikitext_section(sections[i]).as_str());
            i += 1;
        }
        assert(self.section_texts(ids).take(sections.len() as int) =~= self.section_texts(ids));
        if self.shadow_files.len() > 0 {
            r.append(
                "\n----\nThe following local image(s) are not shown in the above list, because they shadow a Commons image of the same name, and might be non-free:",
            );
            let ghost start = r@;
            let ghost files = views(self.shadow_files@);
            assert(start + Seq::<char>::empty() =~= start);
            let mut k: usize = 0;
            while k < self.shadow_files.len()
                invariant
                    k <= self.shadow_files.len(),
                    files == views(self.shadow_files@),
                    r@ == start + shadow_lines(files, k as int),
                decreases self.shadow_files.len() - k,
            {
                r.append("\n# [[:File:");
                r.append(self.shadow_files[k].as_str());
                r.append("|]]");
                assert(files[k as int] == self.shadow_files@[k as int]@);
                k += 1;
            }
        }
        match &self.params.summary {
            Some(s) => {
                if str_eq(s.as_str(), "ITEMNUMBER") {
                    r.append("\n----\n&sum; ");
                    r.append(decimal_string(self.results.len() as u128).as_str());
                    r.append(" items.");
                }
            },
            None => {},
        }
        Ok(r)
    }
}

// ---------------------------------------------------------------------------
// Reading the headings back
// ---------------------------------------------------------------------------

/// A line that is a heading cell: it begins `! `.
pub open spec fn is_heading(line: Seq<char>) -> bool {
    line.len() >= 2 && line[0] == '!' && line[1] == ' '
}

/// The labels of the heading cells among `lines`, in order.
pub open spec fn heading_labels(lines: Seq<Seq<char>>) -> Seq<Seq<char>>
    decreases lines.len(),
{
    if lines.len() == 0 {
        Seq::empty()
    } else if is_heading(lines[0]) {
        seq![lines[0].skip(2)] + heading_labels(lines.skip(1))
    } else {
        heading_labels(lines.skip(1))
    }
}

/// The labels of the heading cells of a markup text, in order.
pub open spec fn column_headers(text: Seq<char>) -> Seq<Seq<char>> {
    heading_labels(split(text, '\n'))
}

/// The labels of the heading cells of a markup text, in order.
pub fn extract_column_headers(text: &str) -> (r: Vec<String>)
    ensures
        views(r@) == column_headers(text@),
{
    let v = chars_of(text);
    let lines = split_chars(&v, '\n');
    let ghost all = vec_views(lines@);
    let mut out: Vec<String> = Vec::new();
    assert(views(out@) =~= Seq::<Seq<char>>::empty());
    assert(all.skip(0) =~= all);
    let mut i: usize = 0;
    while i < lines.len()
        invariant
            i <= lines.len(),
            all == vec_views(lines@),
            views(out@) + heading_labels(all.skip(i as int)) == heading_labels(all),
        decreases lines.len() - i,
    {
        let line = &lines[i];
        let ghost rest = all.skip(i as int);
        assert(rest[0] == line@);
        assert(rest.skip(1) =~= all.skip(i + 1));
        if line.len() >= 2 && line[0] == '!' && line[1] == ' ' {
            let ghost before = views(out@);
            let label = string_of(&slice_of(line, 2, line.len()));
            assert(line@.subrange(2, line@.len() as int) == line@.skip(2));
            out.push(label);
            assert(views(out@) =~= before.push(line@.skip(2)));
            assert(before.push(line@.skip(2)) + heading_labels(all.skip(i + 1)) =~= before + (
            seq![line@.skip(2)] + heading_labels(all.skip(i + 1))));
        }
        i += 1;
    }
    assert(all.skip(lines.len() as int) =~= Seq::<Seq<char>>::empty());
    assert(views(out@) + Seq::<Seq<char>>::empty() =~= views(out@));
    out
}

/// A text that begins with a line without line break splits into that line
/// and the lines of the rest.
pub proof fn lemma_split_line(line: Seq<char>, rest: Seq<char>)
    requires
        !line.contains('\n'),
    ensures
        split(line + "\n"@ + rest, '\n') == seq![line] + split(
            rest,
            '\n',
        ),
{
    reveal_strlit("\n");
    let s = line + "\n"@ + rest;
    let k = line.len() as int;
    assert(s[k] == '\n');
    assert forall|i: int| 0 <= i < k implies s[i] != '\n' by {
        assert(s[i] == line[i]);
        assert(line.contains(line[i]));
    }
    lemma_index_of_bounds(s, '\n', 0);
    let r = index_of(s, '\n', 0);
    assert(r == k) by {
        if r < k {
            assert(s[r] == '\n');
        }
    }
    assert(s.take(k) =~= line);
    assert(s.skip(k + 1) =~= rest);
}

/// The heading cells written for the labels from `k` on are read back as
/// those labels, where no label holds a line break.
pub proof fn lemma_heading_lines_read_back(labels: Seq<Seq<char>>, k: int)
    requires
        0 <= k <= labels.len(),
        forall|c: int| 0 <= c < labels.len() ==> !(#[trigger] labels[c]).contains('\n'),
    ensures
        column_headers(heading_lines(labels, k)) == labels.skip(k),
    decreases labels.len() - k,
{
    reveal_strlit("! ");
    if k >= labels.len() {
        let e = Seq::<char>::empty();
        assert(heading_lines(labels, k) == e);
        assert(index_of(e, '\n', 0) == 0);
        assert(split(e, '\n') == seq![e]);
        assert(seq![e].skip(1) =~= Seq::<Seq<char>>::empty());
        assert(heading_labels(Seq::<Seq<char>>::empty()) =~= Seq::<Seq<char>>::empty());
        assert(!is_heading(seq![e][0]));
        assert(heading_labels(seq![e]) == heading_labels(seq![e].skip(1)));
        assert(labels.skip(k) =~= Seq::<Seq<char>>::empty());
    } else {
        let line = "! "@ + labels[k];
        let rest = heading_lines(labels, k + 1);
        assert(heading_lines(labels, k) =~= line + "\n"@ + rest);
        assert(!line.contains('\n')) by {
            if line.contains('\n') {
                let i = choose|i: int| 0 <= i < line.len() && line[i] == '\n';
                if i >= 2 {
                    assert(labels[k][i - 2] == '\n');
                    assert(labels[k].contains('\n'));
                }
            }
        }
        lemma_split_line(line, rest);
        lemma_heading_lines_read_back(labels, k + 1);
        let lines = seq![line] + split(rest, '\n');
        assert(lines.skip(1) =~= split(rest, '\n'));
        assert(is_heading(lines[0]));
        assert(line.skip(2) =~= labels[k]);
        assert(heading_labels(lines) == seq![lines[0].skip(2)] + heading_labels(lines.skip(1)));
        assert(seq![labels[k]] + labels.skip(k + 1) =~= labels.skip(k));
    }
}

/// Reading the headings back from what is written above the rows gives the
/// labels of the columns, in order. This holds where the list writes a table
/// of its own (no header template, table not left out) and no label holds a
/// line break.
pub proof fn lemma_headers_round_trip(list: ListeriaList)
    requires
        list.params.header_template is None,
        !list.params.skip_table,
        forall|c: int|
            0 <= c < list.column_labels().len() ==> !(#[trigger] list.column_labels()[c]).contains(
                '\n',
            ),
    ensures
        column_headers(list.header_text()) == list.column_labels(),
{
    reveal_strlit("{| class='wikitable sortable' style='width:100%'");
    let labels = list.column_labels();
    let rest = heading_lines(labels, 0);
    assert(!table_open().contains('\n'));
    lemma_split_line(table_open(), rest);
    lemma_heading_lines_read_back(labels, 0);
    let lines = seq![table_open()] + split(rest, '\n');
    assert(list.header_text() =~= table_open() + "\n"@ + rest);
    assert(lines.skip(1) =~= split(rest, '\n'));
    assert(!is_heading(lines[0]));
    assert(heading_labels(lines) == heading_labels(lines.skip(1)));
    assert(labels.skip(0) =~= labels);
}

/// Writes a list as a table in wiki markup.
#[derive(Debug, Clone, Copy)]
pub struct RendererWikitext {}

impl Renderer for RendererWikitext {
    fn new() -> Self {
        Self {  }
    }

    fn render(&mut self, page: &ListeriaList) -> (r: Result<String, String>)
        ensures
            match r {
                Ok(text) => page.rows_fit() && text@ == page.wikitext(),
                Err(_) => !page.rows_fit(),
            },
    {
        page.as_wikitext()
    }
}

} // verus!
