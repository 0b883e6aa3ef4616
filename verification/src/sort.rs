//! The last stage: every row gets a sort key, the rows are put in ascending
//! order of their keys by a stable sort, and for descending order the whole
//! list is then reversed.

use vstd::prelude::*;
use vstd::string::*;
use crate::entity::{Snak, SnakDataType, SnakValue, Statement};
use crate::listeria_list::ListeriaList;
use crate::params::{SortKind, SortMode};
use crate::result_row::{rows_view, ResultRow, Row};
use crate::order::{
    key_le, lemma_key_le_total, lemma_key_le_transitive, sortkey_le, KeyOrder,
};
use crate::text::{
    char_is_space, chars_of, copy_str, is_space, lemma_trim_end_takes, slice_of, str_eq,
    string_of, trim_end,
};

verus! {

// ---------------------------------------------------------------------------
// The stable sort
// ---------------------------------------------------------------------------

/// The first index at or after `from` of a row that comes later than `key`,
/// or the length: where a row with that key is put so that it follows all
/// rows that come no later.
pub open spec fn insert_position(rows: Seq<Row>, key: Seq<char>, order: KeyOrder, from: int) -> int
    decreases rows.len() - from,
{
    if from < 0 || from >= rows.len() {
        rows.len() as int
    } else if !key_le(rows[from].sortkey, key, order) {
        from
    } else {
        insert_position(rows, key, order, from + 1)
    }
}

/// The first `n` rows in ascending order of their keys; rows with the same
/// key keep the order in which they stood.
pub open spec fn stable_sorted(rows: Seq<Row>, order: KeyOrder, n: int) -> Seq<Row>
    decreases n,
{
    if n <= 0 || n > rows.len() {
        Seq::empty()
    } else {
        let before = stable_sorted(rows, order, n - 1);
        before.insert(insert_position(before, rows[n - 1].sortkey, order, 0), rows[n - 1])
    }
}

/// No row comes later than a row behind it.
pub open spec fn ordered(rows: Seq<Row>, order: KeyOrder) -> bool {
    forall|i: int, j: int|
        0 <= i < j < rows.len() ==> key_le(
            (#[trigger] rows[i]).sortkey,
            (#[trigger] rows[j]).sortkey,
            order,
        )
}

/// Where a key is put, every row before comes no later and the row there comes later.
pub proof fn lemma_insert_position(rows: Seq<Row>, key: Seq<char>, order: KeyOrder, from: int)
    requires
        0 <= from <= rows.len(),
    ensures
        from <= insert_position(rows, key, order, from) <= rows.len(),
        forall|i: int|
            from <= i < insert_position(rows, key, order, from) ==> key_le(
                (#[trigger] rows[i]).sortkey,
                key,
                order,
            ),
        insert_position(rows, key, order, from) < rows.len() ==> !key_le(
            rows[insert_position(rows, key, order, from)].sortkey,
            key,
            order,
        ),
    decreases rows.len() - from,
{
    if from < rows.len() && key_le(rows[from].sortkey, key, order) {
        lemma_insert_position(rows, key, order, from + 1);
    }
}

/// Putting a row at its place into ordered rows leaves them ordered.
pub proof fn lemma_insert_keeps_order(rows: Seq<Row>, row: Row, order: KeyOrder)
    requires
        ordered(rows, order),
    ensures
        ordered(rows.insert(insert_position(rows, row.sortkey, order, 0), row), order),
{
    let pos = insert_position(rows, row.sortkey, order, 0);
    lemma_insert_position(rows, row.sortkey, order, 0);
    let after = rows.insert(pos, row);
    assert forall|i: int, j: int| 0 <= i < j < after.len() implies key_le(
        (#[trigger] after[i]).sortkey,
        (#[trigger] after[j]).sortkey,
        order,
    ) by {
        if j < pos {
            assert(after[i] == rows[i] && after[j] == rows[j]);
        } else if j == pos {
            assert(after[i] == rows[i] && after[j] == row);
        } else if i == pos {
            assert(after[i] == row && after[j] == rows[j - 1]);
            lemma_key_le_total(rows[pos].sortkey, row.sortkey, order);
            if j - 1 > pos {
                assert(key_le(rows[pos].sortkey, rows[j - 1].sortkey, order));
                lemma_key_le_transitive(row.sortkey, rows[pos].sortkey, rows[j - 1].sortkey, order);
            }
        } else if i < pos {
            assert(after[i] == rows[i] && after[j] == rows[j - 1]);
        } else {
            assert(after[i] == rows[i - 1] && after[j] == rows[j - 1]);
        }
    }
}

/// The sorted rows are in ascending order of their keys, and they are the
/// rows that were given, each as often as it was given.
pub proof fn lemma_stable_sorted(rows: Seq<Row>, order: KeyOrder, n: int)
    requires
        0 <= n <= rows.len(),
    ensures
        ordered(stable_sorted(rows, order, n), order),
        stable_sorted(rows, order, n).len() == n,
        stable_sorted(rows, order, n).to_multiset() == rows.take(n).to_multiset(),
    decreases n,
{
    broadcast use vstd::seq_lib::to_multiset_insert, vstd::seq_lib::to_multiset_build;

    if n > 0 {
        lemma_stable_sorted(rows, order, n - 1);
        let before = stable_sorted(rows, order, n - 1);
        let pos = insert_position(before, rows[n - 1].sortkey, order, 0);
        lemma_insert_position(before, rows[n - 1].sortkey, order, 0);
        lemma_insert_keeps_order(before, rows[n - 1], order);
        before.insert_ensures(pos, rows[n - 1]);
        assert(rows.take(n) =~= rows.take(n - 1).push(rows[n - 1]));
    } else {
        assert(rows.take(0) =~= Seq::<Row>::empty());
    }
}

/// Two keys stand at the same place in the order.
pub open spec fn same_place(a: Seq<char>, b: Seq<char>, order: KeyOrder) -> bool {
    key_le(a, b, order) && key_le(b, a, order)
}

/// Those of `rows` whose key stands where `key` stands, in the order in
/// which they stand in `rows`.
pub open spec fn rows_at(rows: Seq<Row>, key: Seq<char>, order: KeyOrder) -> Seq<Row>
    decreases rows.len(),
{
    if rows.len() == 0 {
        Seq::empty()
    } else {
        let before = rows_at(rows.drop_last(), key, order);
        if same_place(rows.last().sortkey, key, order) {
            before.push(rows.last())
        } else {
            before
        }
    }
}

/// The rows at a place among `a` followed by `b` are those among `a`
/// followed by those among `b`.
pub proof fn lemma_rows_at_concat(a: Seq<Row>, b: Seq<Row>, key: Seq<char>, order: KeyOrder)
    ensures
        rows_at(a + b, key, order) == rows_at(a, key, order) + rows_at(b, key, order),
    decreases b.len(),
{
    if b.len() == 0 {
        assert(a + b =~= a);
        assert(rows_at(a, key, order) + Seq::<Row>::empty() =~= rows_at(a, key, order));
    } else {
        lemma_rows_at_concat(a, b.drop_last(), key, order);
        assert((a + b).drop_last() =~= a + b.drop_last());
        assert((a + b).last() == b.last());
        let x = rows_at(a, key, order);
        let y = rows_at(b.drop_last(), key, order);
        assert((x + y).push(b.last()) =~= x + y.push(b.last()));
    }
}

/// Where no row stands at the place, there are no rows at the place.
pub proof fn lemma_rows_at_none(rows: Seq<Row>, key: Seq<char>, order: KeyOrder)
    requires
        forall|i: int| 0 <= i < rows.len() ==> !same_place((#[trigger] rows[i]).sortkey, key, order),
    ensures
        rows_at(rows, key, order) == Seq::<Row>::empty(),
    decreases rows.len(),
{
    if rows.len() > 0 {
        assert(!same_place(rows[rows.len() - 1].sortkey, key, order));
        assert forall|i: int| 0 <= i < rows.drop_last().len() implies !same_place(
            (#[trigger] rows.drop_last()[i]).sortkey,
            key,
            order,
        ) by {
            assert(rows.drop_last()[i] == rows[i]);
        }
        lemma_rows_at_none(rows.drop_last(), key, order);
    }
}

/// The sort is stable: the rows whose keys stand at one place of the order
/// stand in the sorted list in the order in which they were given.
pub proof fn lemma_sort_is_stable(rows: Seq<Row>, order: KeyOrder, n: int, key: Seq<char>)
    requires
        0 <= n <= rows.len(),
    ensures
        rows_at(stable_sorted(rows, order, n), key, order) == rows_at(
            rows.take(n),
            key,
            order,
        ),
    decreases n,
{
    if n == 0 {
        assert(rows.take(0) =~= Seq::<Row>::empty());
    } else {
        lemma_sort_is_stable(rows, order, n - 1, key);
        lemma_stable_sorted(rows, order, n - 1);
        let before = stable_sorted(rows, order, n - 1);
        let x = rows[n - 1];
        let pos = insert_position(before, x.sortkey, order, 0);
        lemma_insert_position(before, x.sortkey, order, 0);
        let head = before.take(pos);
        let tail = before.skip(pos);
        let after = before.insert(pos, x);
        assert(before =~= head + tail);
        assert(after =~= (head + seq![x]) + tail);
        lemma_rows_at_concat(head, tail, key, order);
        lemma_rows_at_concat(head + seq![x], tail, key, order);
        lemma_rows_at_concat(head, seq![x], key, order);
        assert(seq![x].drop_last() =~= Seq::<Row>::empty());
        assert(rows_at(Seq::<Row>::empty(), key, order) =~= Seq::<Row>::empty());
        assert(rows.take(n).drop_last() =~= rows.take(n - 1));
        assert(rows.take(n).last() == x);
        if same_place(x.sortkey, key, order) {
            assert forall|i: int| 0 <= i < tail.len() implies !same_place(
                (#[trigger] tail[i]).sortkey,
                key,
                order,
            ) by {
                assert(tail[i] == before[pos + i]);
                if same_place(tail[i].sortkey, key, order) {
                    lemma_key_le_transitive(tail[i].sortkey, key, x.sortkey, order);
                    if i > 0 {
                        assert(key_le(before[pos].sortkey, before[pos + i].sortkey, order));
                        lemma_key_le_transitive(
                            before[pos].sortkey,
                            tail[i].sortkey,
                            x.sortkey,
                            order,
                        );
                    }
                }
            }
            lemma_rows_at_none(tail, key, order);
            assert(rows_at(seq![x], key, order) =~= seq![x]);
            let h = rows_at(head, key, order);
            assert((h + seq![x]) + Seq::<Row>::empty() =~= (h + Seq::<Row>::empty()).push(x));
        } else {
            assert(rows_at(seq![x], key, order) =~= Seq::<Row>::empty());
            let h = rows_at(head, key, order);
            let t = rows_at(tail, key, order);
            assert((h + Seq::<Row>::empty()) + t =~= h + t);
        }
    }
}

/// The rows in ascending order of their keys; rows with the same key keep
/// the order in which they stood.
pub fn sort_rows(rows: &Vec<ResultRow>, order: KeyOrder) -> (r: Vec<ResultRow>)
    ensures
        rows_view(r@) == stable_sorted(rows_view(rows@), order, rows@.len() as int),
{
    let ghost given = rows_view(rows@);
    let mut out: Vec<ResultRow> = Vec::new();
    assert(rows_view(out@) =~= Seq::<Row>::empty());
    let mut n: usize = 0;
    while n < rows.len()
        invariant
            n <= rows.len(),
            given == rows_view(rows@),
            out@.len() == n,
            rows_view(out@) == stable_sorted(given, order, n as int),
        decreases rows.len() - n,
    {
        let row = rows[n].clone();
        assert(given[n as int] == row@);
        let ghost sorted = rows_view(out@);
        let mut pos: usize = 0;
        while pos < out.len() && sortkey_le(out[pos].sortkey.as_str(), row.sortkey.as_str(), order)
            invariant
                pos <= out.len(),
                sorted == rows_view(out@),
                insert_position(sorted, row@.sortkey, order, 0) == insert_position(
                    sorted,
                    row@.sortkey,
                    order,
                    pos as int,
                ),
            decreases out.len() - pos,
        {
            assert(sorted[pos as int] == out@[pos as int]@);
            pos += 1;
        }
        proof {
            if pos < out.len() {
                assert(sorted[pos as int] == out@[pos as int]@);
            }
        }
        out.insert(pos, row);
        assert(rows_view(out@) =~= sorted.insert(pos as int, row@));
        n += 1;
    }
    out
}

/// The rows in the opposite order.
pub fn reverse_rows(rows: &Vec<ResultRow>) -> (r: Vec<ResultRow>)
    ensures
        rows_view(r@) == rows_view(rows@).reverse(),
{
    let n = rows.len();
    let mut out: Vec<ResultRow> = Vec::new();
    let mut i: usize = 0;
    while i < n
        invariant
            i <= n,
            n == rows.len(),
            out@.len() == i,
            forall|j: int| 0 <= j < i ==> (#[trigger] out@[j])@ == rows@[n - 1 - j]@,
        decreases n - i,
    {
        out.push(rows[n - 1 - i].clone());
        i += 1;
    }
    assert(rows_view(out@) =~= rows_view(rows@).reverse());
    out
}

// ---------------------------------------------------------------------------
// The key of a row
// ---------------------------------------------------------------------------

/// Where the last word of the first `n` characters of `t` begins: behind the
/// last white space among them.
pub open spec fn token_start(t: Seq<char>, n: int) -> int
    decreases n,
{
    if n <= 0 || n > t.len() {
        0
    } else if is_space(t[n - 1]) {
        n
    } else {
        token_start(t, n - 1)
    }
}

/// The last word of `s`: what stands behind the last white space that is
/// followed by something else.
pub open spec fn last_token(s: Seq<char>) -> Seq<char> {
    let t = trim_end(s);
    t.skip(token_start(t, t.len() as int))
}

/// The index of the first claim of property `prop` at or after `from`, or the length.
pub open spec fn first_claim(claims: Seq<Statement>, prop: Seq<char>, from: int) -> int
    decreases claims.len() - from,
{
    if from < 0 || from >= claims.len() {
        claims.len() as int
    } else if claims[from].main_snak.property@ == prop {
        from
    } else {
        first_claim(claims, prop, from + 1)
    }
}

/// The last word of `s`.
pub fn last_word(s: &str) -> (r: String)
    ensures
        r@ == last_token(s@),
{
    let v = chars_of(s);
    let mut b: usize = v.len();
    while b > 0 && char_is_space(v[b - 1])
        invariant
            b <= v.len(),
            forall|i: int| b <= i < v.len() ==> is_space(#[trigger] v@[i]),
        decreases b,
    {
        b -= 1;
    }
    let t = slice_of(&v, 0, b);
    proof {
        lemma_trim_end_takes(v@, b as int);
        assert(v@.take(b as int) == t@);
        assert(trim_end(t@) == t@);
    }
    let mut k: usize = b;
    while k > 0 && !char_is_space(t[k - 1])
        invariant
            k <= b,
            b == t.len(),
            token_start(t@, b as int) == token_start(t@, k as int),
        decreases k,
    {
        k -= 1;
    }
    let r = slice_of(&t, k, b);
    assert(t@.subrange(k as int, b as int) == t@.skip(k as int));
    string_of(&r)
}

impl ListeriaList {
    /// The key of a row by label: the label of its entity in the working
    /// language, or nothing.
    pub open spec fn label_key(&self, id: Seq<char>) -> Seq<char> {
        match self.entities.label(id, self.language@) {
            Some(l) => l,
            None => Seq::empty(),
        }
    }

    /// The key that a value gives: the label of an entity (its identifier
    /// where it has none), the amount of a quantity, a time as stored, the
    /// text of a monolingual text or string, latitude and longitude of a
    /// point; nothing where there is no value.
    pub open spec fn snak_key(&self, snak: Snak) -> Seq<char> {
        match snak.value {
            Some(SnakValue::Entity(id)) => self.entities.label_or_id(id@, self.language@),
            Some(SnakValue::StringValue(s)) => s@,
            Some(SnakValue::Quantity(amount)) => amount@,
            Some(SnakValue::Time(t)) => t.time@,
            Some(SnakValue::MonoLingual(m)) => m.text@,
            Some(SnakValue::Coordinate(c)) => c.lat@ + "/"@ + c.lon@,
            None => Seq::empty(),
        }
    }

    /// The key of a row by property: the key of the value of the first claim
    /// of that property of its entity, or nothing.
    pub open spec fn property_key(&self, id: Seq<char>, prop: Seq<char>) -> Seq<char> {
        match self.entities.entity(id) {
            Some(e) => {
                let i = first_claim(e.claims@, prop, 0);
                if 0 <= i < e.claims@.len() {
                    self.snak_key(e.claims@[i].main_snak)
                } else {
                    Seq::empty()
                }
            },
            None => Seq::empty(),
        }
    }

    /// The key of the row of the entity `id` under the sort mode of the list.
    pub open spec fn sortkey(&self, id: Seq<char>) -> Seq<char> {
        match self.params.sort@ {
            SortKind::Label => self.label_key(id),
            SortKind::FamilyName => last_token(self.label_key(id)),
            SortKind::Property(p) => self.property_key(id, p),
            SortKind::Unsorted => Seq::empty(),
        }
    }

    /// How the keys are compared: as numbers where the list is sorted by a
    /// property whose declared datatype is quantity, as points in time where
    /// it is time, else as texts.
    pub open spec fn key_order(&self) -> KeyOrder {
        match self.params.sort@ {
            SortKind::Property(p) => match self.entities.entity(p) {
                Some(e) => if e.datatype == Some(SnakDataType::Quantity) {
                    KeyOrder::Number
                } else if e.datatype == Some(SnakDataType::Time) {
                    KeyOrder::Time
                } else {
                    KeyOrder::Text
                },
                None => KeyOrder::Text,
            },
            _ => KeyOrder::Text,
        }
    }

    /// A row with its key.
    pub open spec fn keyed_row(&self, row: Row) -> Row {
        Row {
            entity_id: row.entity_id,
            cells: row.cells,
            section: row.section,
            sortkey: self.sortkey(row.entity_id),
        }
    }

    /// Each row with its key.
    pub open spec fn keyed_rows(&self, rows: Seq<Row>) -> Seq<Row> {
        Seq::new(rows.len(), |i: int| self.keyed_row(rows[i]))
    }

    /// `rows` after the sort stage with the given direction: without a sort
    /// mode, as they are; else with their keys, in ascending order of the
    /// keys and, for descending order, reversed as a whole.
    pub open spec fn sorted_rows(&self, rows: Seq<Row>, ascending: bool) -> Seq<Row> {
        if self.params.sort@ is Unsorted {
            rows
        } else {
            let up = stable_sorted(self.keyed_rows(rows), self.key_order(), rows.len() as int);
            if ascending {
                up
            } else {
                up.reverse()
            }
        }
    }

    /// The key that the value of a snak gives.
    pub fn get_sortkey_from_snak(&self, snak: &Snak) -> (r: String)
        ensures
            r@ == self.snak_key(*snak),
    {
        match &snak.value {
            Some(SnakValue::Entity(id)) => self.get_label_with_fallback(id.as_str()),
            Some(SnakValue::StringValue(s)) => s.clone(),
            Some(SnakValue::Quantity(amount)) => amount.clone(),
            Some(SnakValue::Time(t)) => t.time.clone(),
            Some(SnakValue::MonoLingual(m)) => m.text.clone(),
            Some(SnakValue::Coordinate(c)) => {
                let mut r = c.lat.clone();
                r.append("/");
                r.append(c.lon.as_str());
                r
            },
            None => String::new(),
        }
    }

    /// The key of the row of the entity `id` by the property `prop`.
    pub fn get_sortkey_prop(&self, id: &str, prop: &str) -> (r: String)
        ensures
            r@ == self.property_key(id@, prop@),
    {
        let e = match self.entities.get_entity(id) {
            Some(e) => e,
            None => {
                return String::new();
            },
        };
        let mut i: usize = 0;
        while i < e.claims.len()
            invariant
                i <= e.claims.len(),
                self.entities.entity(id@) == Some(*e),
                first_claim(e.claims@, prop@, 0) == first_claim(e.claims@, prop@, i as int),
            decreases e.claims.len() - i,
        {
            if str_eq(e.claims[i].main_snak.property.as_str(), prop) {
                return self.get_sortkey_from_snak(&e.claims[i].main_snak);
            }
            i += 1;
        }
        String::new()
    }

    /// The key of the row of the entity `id` by label.
    pub fn get_sortkey_label(&self, id: &str) -> (r: String)
        ensures
            r@ == self.label_key(id@),
    {
        match self.entities.get_label(id, self.language.as_str()) {
            Some(l) => copy_str(l),
            None => String::new(),
        }
    }

    /// The key of the row of the entity `id` by family name: the last word of its label.
    pub fn get_sortkey_family_name(&self, id: &str) -> (r: String)
        ensures
            r@ == last_token(self.label_key(id@)),
    {
        let label = self.get_sortkey_label(id);
        last_word(label.as_str())
    }

    /// How the keys are compared.
    pub fn get_key_order(&self) -> (r: KeyOrder)
        ensures
            r == self.key_order(),
    {
        match &self.params.sort {
            SortMode::Property(p) => match self.entities.get_datatype_for_property(p.as_str()) {
                Some(SnakDataType::Quantity) => KeyOrder::Number,
                Some(SnakDataType::Time) => KeyOrder::Time,
                _ => KeyOrder::Text,
            },
            _ => KeyOrder::Text,
        }
    }

    /// The sort stage. Without a sort mode the rows stay as they are. Else
    /// every row gets its key, the rows are put in ascending order of the
    /// keys, rows with the same key keeping their order, and for descending
    /// order the whole list is then reversed.
    pub fn sort_results(&mut self)
        ensures
            final(self).same_setting(old(self)),
            rows_view(final(self).results@) == old(self).sorted_rows(
                rows_view(old(self).results@),
                old(self).params.sort_ascending,
            ),
    {
        match &self.params.sort {
            SortMode::Unsorted => {
                return ;
            },
            _ => {},
        }
        let mut keyed: Vec<ResultRow> = Vec::new();
        let mut i: usize = 0;
        while i < self.results.len()
            invariant
                i <= self.results.len(),
                *self == *old(self),
                !(self.params.sort@ is Unsorted),
                keyed@.len() == i,
                forall|j: int| 0 <= j < i ==> (#[trigger] keyed@[j])@ == self.keyed_row(
                    self.results@[j]@,
                ),
            decreases self.results.len() - i,
        {
            let row = &self.results[i];
            let key = match &self.params.sort {
                SortMode::Label => self.get_sortkey_label(row.entity_id.as_str()),
                SortMode::FamilyName => self.get_sortkey_family_name(row.entity_id.as_str()),
                SortMode::Property(p) => self.get_sortkey_prop(row.entity_id.as_str(), p.as_str()),
                SortMode::Unsorted => String::new(),
            };
            let mut copy = row.clone();
            copy.sortkey = key;
            keyed.push(copy);
            i += 1;
        }
        assert(rows_view(keyed@) =~= self.keyed_rows(rows_view(self.results@)));
        let up = sort_rows(&keyed, self.get_key_order());
        if self.params.sort_ascending {
            self.results = up;
        } else {
            self.results = reverse_rows(&up);
        }
    }
}

// ---------------------------------------------------------------------------
// Ascending and descending order
// ---------------------------------------------------------------------------

/// With a sort mode, the rows in descending order are exactly the rows in
/// ascending order read backwards: rows with the same key stand in the
/// opposite of the order they have in the ascending list. The ascending list
/// is in ascending order of the keys, holds the rows that were given, and
/// keeps rows with the same key in the order in which they were given.
pub proof fn lemma_descending_is_reversed_ascending(list: ListeriaList, rows: Seq<Row>)
    requires
        !(list.params.sort@ is Unsorted),
    ensures
        forall|key: Seq<char>|
            #[trigger] rows_at(list.sorted_rows(rows, true), key, list.key_order())
                == rows_at(list.keyed_rows(rows), key, list.key_order()),
        list.sorted_rows(rows, false) == list.sorted_rows(rows, true).reverse(),
        ordered(list.sorted_rows(rows, true), list.key_order()),
        list.sorted_rows(rows, true).to_multiset() == list.keyed_rows(rows).to_multiset(),
        list.sorted_rows(rows, false).len() == rows.len(),
        forall|i: int|
            0 <= i < rows.len() ==> #[trigger] list.sorted_rows(rows, false)[i] == list.sorted_rows(
                rows,
                true,
            )[rows.len() - 1 - i],
{
    let keyed = list.keyed_rows(rows);
    lemma_stable_sorted(keyed, list.key_order(), rows.len() as int);
    assert(keyed.take(rows.len() as int) =~= keyed);
    assert forall|key: Seq<char>|
        #[trigger] rows_at(list.sorted_rows(rows, true), key, list.key_order()) == rows_at(
            keyed,
            key,
            list.key_order(),
        ) by {
        lemma_sort_is_stable(keyed, list.key_order(), rows.len() as int, key);
    }
}

} // verus!
