//! A keyed table of rows: the storage behind every entity kind of the world.
//!
//! A table holds each primary key at most once. Its model is the map from
//! keys to rows; the order in which it holds the rows is the order of a scan.

use vstd::prelude::*;

verus! {

/// A row that carries its own primary key.
pub trait Keyed {
    /// Type of the primary key.
    type Key;

    /// The row's primary key.
    spec fn key(&self) -> Self::Key;

    /// Whether the row's primary key is `key`.
    fn has_key(&self, key: &Self::Key) -> (same: bool)
        ensures
            same == (self.key() == *key),
    ;
}

/// No two rows share a key.
pub open spec fn distinct_keys<R: Keyed>(rows: Seq<R>) -> bool {
    forall|i: int, j: int|
        0 <= i < rows.len() && 0 <= j < rows.len() && i != j ==> #[trigger] rows[i].key()
            != #[trigger] rows[j].key()
}

/// Some row has the key.
pub open spec fn holds_key<R: Keyed>(rows: Seq<R>, key: R::Key) -> bool {
    exists|i: int| 0 <= i < rows.len() && #[trigger] rows[i].key() == key
}

/// Place of a row with the key.
pub open spec fn index_of<R: Keyed>(rows: Seq<R>, key: R::Key) -> int {
    choose|i: int| 0 <= i < rows.len() && #[trigger] rows[i].key() == key
}

/// The rows as a map from key to row.
pub open spec fn as_map<R: Keyed>(rows: Seq<R>) -> Map<R::Key, R> {
    Map::new(|key: R::Key| holds_key(rows, key), |key: R::Key| rows[index_of(rows, key)])
}

/// Each row is found in the map under its own key.
pub proof fn lemma_row_in_map<R: Keyed>(rows: Seq<R>, i: int)
    requires
        distinct_keys(rows),
        0 <= i < rows.len(),
    ensures
        as_map(rows).dom().contains(rows[i].key()),
        as_map(rows)[rows[i].key()] == rows[i],
        index_of(rows, rows[i].key()) == i,
{
    let key = rows[i].key();
    assert(holds_key(rows, key));
    let j = index_of(rows, key);
    assert(0 <= j < rows.len() && rows[j].key() == key);
}

/// Each entry of the map is one of the rows.
pub proof fn lemma_map_entry_is_row<R: Keyed>(rows: Seq<R>, key: R::Key)
    requires
        as_map(rows).dom().contains(key),
    ensures
        0 <= index_of(rows, key) < rows.len(),
        rows[index_of(rows, key)].key() == key,
        as_map(rows)[key] == rows[index_of(rows, key)],
{
    assert(holds_key(rows, key));
}

/// No rows, no entries.
pub proof fn lemma_empty_map<R: Keyed>()
    ensures
        distinct_keys(Seq::<R>::empty()),
        as_map(Seq::<R>::empty()) == Map::<R::Key, R>::empty(),
{
    assert(as_map(Seq::<R>::empty()) =~= Map::<R::Key, R>::empty());
}

/// Appending a row with a fresh key inserts it into the map.
pub proof fn lemma_push_row<R: Keyed>(rows: Seq<R>, row: R)
    requires
        distinct_keys(rows),
        !holds_key(rows, row.key()),
    ensures
        distinct_keys(rows.push(row)),
        as_map(rows.push(row)) == as_map(rows).insert(row.key(), row),
{
    let grown = rows.push(row);
    assert forall|i: int, j: int|
        0 <= i < grown.len() && 0 <= j < grown.len() && i != j implies #[trigger] grown[i].key()
        != #[trigger] grown[j].key() by {
        if i < rows.len() {
            assert(grown[i] == rows[i]);
        }
        if j < rows.len() {
            assert(grown[j] == rows[j]);
        }
    }
    assert forall|key: R::Key|
        as_map(grown).dom().contains(key) <==> as_map(rows).insert(row.key(), row).dom().contains(
            key,
        ) by {
        if holds_key(grown, key) {
            let i = index_of(grown, key);
            if i < rows.len() {
                assert(rows[i].key() == key);
            }
        }
        if holds_key(rows, key) {
            let i = index_of(rows, key);
            assert(grown[i].key() == key);
        }
        if key == row.key() {
            assert(grown[rows.len() as int].key() == key);
        }
    }
    assert forall|key: R::Key| as_map(grown).dom().contains(key) implies as_map(grown)[key]
        == as_map(rows).insert(row.key(), row)[key] by {
        let i = index_of(grown, key);
        lemma_row_in_map(grown, i);
        if i < rows.len() {
            assert(rows[i].key() == key);
            lemma_row_in_map(rows, i);
        }
    }
    assert(as_map(grown) =~= as_map(rows).insert(row.key(), row));
}

/// Replacing a row by one of the same key replaces its entry in the map.
pub proof fn lemma_update_row<R: Keyed>(rows: Seq<R>, i: int, row: R)
    requires
        distinct_keys(rows),
        0 <= i < rows.len(),
        row.key() == rows[i].key(),
    ensures
        distinct_keys(rows.update(i, row)),
        as_map(rows.update(i, row)) == as_map(rows).insert(row.key(), row),
{
    let changed = rows.update(i, row);
    assert forall|a: int, b: int|
        0 <= a < changed.len() && 0 <= b < changed.len() && a != b implies
        #[trigger] changed[a].key() != #[trigger] changed[b].key() by {
        assert(changed[a].key() == rows[a].key());
        assert(changed[b].key() == rows[b].key());
    }
    assert forall|key: R::Key|
        as_map(changed).dom().contains(key) <==> as_map(rows).insert(row.key(), row).dom().contains(
            key,
        ) by {
        if holds_key(changed, key) {
            let a = index_of(changed, key);
            assert(rows[a].key() == key);
        }
        if holds_key(rows, key) {
            let a = index_of(rows, key);
            assert(changed[a].key() == key);
        }
        if key == row.key() {
            assert(changed[i].key() == key);
        }
    }
    assert forall|key: R::Key| as_map(changed).dom().contains(key) implies as_map(changed)[key]
        == as_map(rows).insert(row.key(), row)[key] by {
        let a = index_of(changed, key);
        lemma_row_in_map(changed, a);
        assert(rows[a].key() == key);
        lemma_row_in_map(rows, a);
    }
    assert(as_map(changed) =~= as_map(rows).insert(row.key(), row));
}

/// Taking a row out removes its entry from the map.
pub proof fn lemma_remove_row<R: Keyed>(rows: Seq<R>, i: int)
    requires
        distinct_keys(rows),
        0 <= i < rows.len(),
    ensures
        distinct_keys(rows.remove(i)),
        as_map(rows.remove(i)) == as_map(rows).remove(rows[i].key()),
{
    let rest = rows.remove(i);
    assert forall|a: int| 0 <= a < rest.len() implies #[trigger] rest[a] == rows[if a < i {
        a
    } else {
        a + 1
    }] by {}
    assert forall|a: int, b: int|
        0 <= a < rest.len() && 0 <= b < rest.len() && a != b implies #[trigger] rest[a].key()
        != #[trigger] rest[b].key() by {
        let a0 = if a < i { a } else { a + 1 };
        let b0 = if b < i { b } else { b + 1 };
        assert(rest[a] == rows[a0]);
        assert(rest[b] == rows[b0]);
    }
    assert forall|key: R::Key|
        as_map(rest).dom().contains(key) <==> as_map(rows).remove(rows[i].key()).dom().contains(
            key,
        ) by {
        if holds_key(rest, key) {
            let a = index_of(rest, key);
            let a0 = if a < i { a } else { a + 1 };
            assert(rest[a] == rows[a0]);
            assert(rows[a0].key() == key);
        }
        if holds_key(rows, key) && key != rows[i].key() {
            let a0 = index_of(rows, key);
            let a = if a0 < i { a0 } else { a0 - 1 };
            assert(rest[a] == rows[a0]);
            assert(rest[a].key() == key);
        }
    }
    assert forall|key: R::Key| as_map(rest).dom().contains(key) implies as_map(rest)[key]
        == as_map(rows).remove(rows[i].key())[key] by {
        let a = index_of(rest, key);
        let a0 = if a < i { a } else { a + 1 };
        assert(rest[a] == rows[a0]);
        lemma_row_in_map(rest, a);
        lemma_row_in_map(rows, a0);
    }
    assert(as_map(rest) =~= as_map(rows).remove(rows[i].key()));
}

/// The map of finitely many rows is finite, with one entry for each row.
pub proof fn lemma_map_finite<R: Keyed>(rows: Seq<R>)
    requires
        distinct_keys(rows),
    ensures
        as_map(rows).dom().finite(),
        as_map(rows).dom().len() == rows.len(),
    decreases rows.len(),
{
    if rows.len() == 0 {
        assert(as_map(rows).dom() =~= Set::<R::Key>::empty());
    } else {
        let last = rows.last();
        let front = rows.drop_last();
        assert forall|i: int, j: int|
            0 <= i < front.len() && 0 <= j < front.len() && i != j implies
            #[trigger] front[i].key() != #[trigger] front[j].key() by {
            assert(front[i] == rows[i]);
            assert(front[j] == rows[j]);
        }
        assert(!holds_key(front, last.key())) by {
            if holds_key(front, last.key()) {
                let i = index_of(front, last.key());
                assert(front[i] == rows[i]);
                assert(rows[rows.len() - 1].key() == last.key());
            }
        }
        lemma_map_finite(front);
        lemma_push_row(front, last);
        assert(front.push(last) =~= rows);
        assert(as_map(rows).dom() =~= as_map(front).dom().insert(last.key()));
        assert(!as_map(front).dom().contains(last.key()));
    }
}

/// Changing every row by a function that keeps the keys changes every
/// entry of the map by that function.
pub proof fn lemma_map_rows<R: Keyed>(rows: Seq<R>, f: spec_fn(R) -> R)
    requires
        distinct_keys(rows),
        forall|row: R| #[trigger] f(row).key() == row.key(),
    ensures
        distinct_keys(rows.map_values(f)),
        as_map(rows.map_values(f)).dom() == as_map(rows).dom(),
        forall|key: R::Key| #[trigger]
            as_map(rows).dom().contains(key) ==> as_map(rows.map_values(f))[key] == f(
                as_map(rows)[key],
            ),
{
    let changed = rows.map_values(f);
    assert forall|a: int, b: int|
        0 <= a < changed.len() && 0 <= b < changed.len() && a != b implies
        #[trigger] changed[a].key() != #[trigger] changed[b].key() by {
        assert(changed[a].key() == rows[a].key());
        assert(changed[b].key() == rows[b].key());
    }
    assert forall|key: R::Key|
        as_map(changed).dom().contains(key) <==> as_map(rows).dom().contains(key) by {
        if holds_key(changed, key) {
            let a = index_of(changed, key);
            assert(rows[a].key() == key);
        }
        if holds_key(rows, key) {
            let a = index_of(rows, key);
            assert(changed[a].key() == key);
        }
    }
    assert(as_map(changed).dom() =~= as_map(rows).dom());
    assert forall|key: R::Key| #[trigger] as_map(rows).dom().contains(key) implies as_map(
        changed,
    )[key] == f(as_map(rows)[key]) by {
        let a = index_of(rows, key);
        assert(rows[a].key() == key);
        lemma_row_in_map(rows, a);
        assert(changed[a].key() == key);
        lemma_row_in_map(changed, a);
    }
}

/// A table of rows, each under its own primary key.
#[derive(Clone, PartialEq, Eq, Debug)]
pub struct Table<R: Keyed> {
    rows: Vec<R>,
}

impl<R: Keyed> View for Table<R> {
    type V = Map<R::Key, R>;

    open spec fn view(&self) -> Map<R::Key, R> {
        as_map(self.rows())
    }
}

impl<R: Keyed> Table<R> {
    /// The rows in the order of a scan.
    pub closed spec fn rows(&self) -> Seq<R> {
        self.rows@
    }

    /// The table's invariant: no key occurs twice.
    pub open spec fn wf(&self) -> bool {
        distinct_keys(self.rows())
    }

    /// An empty table.
    pub fn new() -> (table: Self)
        ensures
            table.wf(),
            table.rows() == Seq::<R>::empty(),
            table@ == Map::<R::Key, R>::empty(),
    {
        proof {
            lemma_empty_map::<R>();
        }
        Table { rows: Vec::new() }
    }

    /// Number of rows.
    pub fn len(&self) -> (n: usize)
        ensures
            n == self.rows().len(),
            self.wf() ==> n == self@.dom().len(),
    {
        proof {
            if self.wf() {
                lemma_map_finite(self.rows());
            }
        }
        self.rows.len()
    }

    /// The row at place `i` of a scan.
    pub fn row(&self, i: usize) -> (row: &R)
        requires
            i < self.rows().len(),
        ensures
            *row == self.rows()[i as int],
            self.wf() ==> self@.dom().contains(row.key()) && self@[row.key()] == *row,
    {
        proof {
            if self.wf() {
                lemma_row_in_map(self.rows(), i as int);
            }
        }
        &self.rows[i]
    }

    /// Place of the row with the key, if the table holds one.
    pub fn position(&self, key: &R::Key) -> (place: Option<usize>)
        ensures
            match place {
                Some(i) => i < self.rows().len() && self.rows()[i as int].key() == *key
                    && self@.dom().contains(*key) && (self.wf() ==> self@[*key]
                    == self.rows()[i as int]),
                None => !self@.dom().contains(*key),
            },
    {
        let mut i: usize = 0;
        while i < self.rows.len()
            invariant
                i <= self.rows().len(),
                forall|j: int| 0 <= j < i ==> #[trigger] self.rows()[j].key() != *key,
            decreases self.rows().len() - i,
        {
            if self.rows[i].has_key(key) {
                proof {
                    assert(holds_key(self.rows(), *key));
                    if self.wf() {
                        lemma_row_in_map(self.rows(), i as int);
                    }
                }
                return Some(i);
            }
            i += 1;
        }
        None
    }

    /// The row with the key, if the table holds one.
    pub fn find(&self, key: &R::Key) -> (found: Option<&R>)
        requires
            self.wf(),
        ensures
            match found {
                Some(row) => self@.dom().contains(*key) && *row == self@[*key],
                None => !self@.dom().contains(*key),
            },
    {
        match self.position(key) {
            Some(i) => Some(&self.rows[i]),
            None => None,
        }
    }

    /// Appends a row whose key the table does not hold yet.
    pub fn push(&mut self, row: R)
        requires
            old(self).wf(),
            !old(self)@.dom().contains(row.key()),
        ensures
            final(self).wf(),
            final(self).rows() == old(self).rows().push(row),
            final(self)@ == old(self)@.insert(row.key(), row),
    {
        proof {
            lemma_push_row(self.rows(), row);
        }
        self.rows.push(row);
    }

    /// Takes the row at place `i` out of the table.
    pub fn remove(&mut self, i: usize) -> (row: R)
        requires
            old(self).wf(),
            i < old(self).rows().len(),
        ensures
            final(self).wf(),
            row == old(self).rows()[i as int],
            final(self).rows() == old(self).rows().remove(i as int),
            final(self)@ == old(self)@.remove(row.key()),
    {
        proof {
            lemma_remove_row(self.rows(), i as int);
        }
        self.rows.remove(i)
    }

    /// The row at place `i`, open to change. The table keeps its invariant
    /// as long as the row keeps its key.
    pub fn row_mut(&mut self, i: usize) -> (row: &mut R)
        requires
            old(self).wf(),
            i < old(self).rows().len(),
        ensures
            *row == old(self).rows()[i as int],
            final(self).rows() == old(self).rows().update(i as int, *final(row)),
            final(row).key() == row.key() ==> final(self).wf() && final(self)@ == old(self)@.insert(
                row.key(),
                *final(row),
            ),
    {
        proof {
            let rows = self.rows();
            assert forall|next: R| next.key() == rows[i as int].key() implies distinct_keys(
                #[trigger] rows.update(i as int, next),
            ) && as_map(rows.update(i as int, next)) == as_map(rows).insert(next.key(), next) by {
                lemma_update_row(rows, i as int, next);
            }
        }
        &mut self.rows[i]
    }
}

} // verus!
