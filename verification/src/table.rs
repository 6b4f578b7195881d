//! A small map from addresses to values that remembers the order in which
//! its keys came in.
//!
//! The tables of the transport core are walked as often as they are looked
//! up in, and what a walk sends out has to come in a fixed order. So they
//! are kept as vectors in which no key occurs twice.

use crate::hash::AddressHash;
use vstd::prelude::*;

verus! {

/// One row of a [`Table`].
#[derive(Debug)]
pub struct Row<V> {
    pub key: AddressHash,
    pub value: V,
}

/// A map from addresses to values, in the order of arrival of the keys.
#[derive(Debug)]
pub struct Table<V> {
    rows: Vec<Row<V>>,
}

/// Whether no key occurs twice among the rows.
pub open spec fn distinct_keys<V>(rows: Seq<Row<V>>) -> bool {
    forall|i: int, j: int|
        0 <= i < j < rows.len() ==> (#[trigger] rows[i]).key != (#[trigger] rows[j]).key
}

/// Whether some row has the key `key`.
pub open spec fn has_key<V>(rows: Seq<Row<V>>, key: AddressHash) -> bool {
    exists|i: int| 0 <= i < rows.len() && (#[trigger] rows[i]).key == key
}

/// The index of a row with the key `key`.
pub open spec fn row_of<V>(rows: Seq<Row<V>>, key: AddressHash) -> int {
    choose|i: int| 0 <= i < rows.len() && (#[trigger] rows[i]).key == key
}

/// The rows as a map.
pub open spec fn as_map<V>(rows: Seq<Row<V>>) -> Map<AddressHash, V> {
    Map::new(|key: AddressHash| has_key(rows, key), |key: AddressHash| rows[row_of(rows, key)].value)
}

/// In rows of distinct keys, a key is found at one index only.
pub proof fn lemma_row_of<V>(rows: Seq<Row<V>>, i: int)
    requires
        distinct_keys(rows),
        0 <= i < rows.len(),
    ensures
        has_key(rows, rows[i].key),
        row_of(rows, rows[i].key) == i,
        as_map(rows).contains_key(rows[i].key),
        as_map(rows)[rows[i].key] == rows[i].value,
{
    let j = row_of(rows, rows[i].key);
    if j < i {
        assert(rows[j].key != rows[i].key);
    } else if i < j {
        assert(rows[i].key != rows[j].key);
    }
}

/// Adding a row with a new key adds one entry to the map.
pub proof fn lemma_pushed<V>(rows: Seq<Row<V>>, row: Row<V>)
    requires
        distinct_keys(rows),
        !has_key(rows, row.key),
    ensures
        distinct_keys(rows.push(row)),
        as_map(rows.push(row)) == as_map(rows).insert(row.key, row.value),
{
    let longer = rows.push(row);
    assert forall|i: int, j: int| 0 <= i < j < longer.len() implies (#[trigger] longer[i]).key != (
    #[trigger] longer[j]).key by {
        if j == rows.len() {
            assert(longer[i] == rows[i]);
        } else {
            assert(longer[i] == rows[i] && longer[j] == rows[j]);
        }
    }
    assert forall|key: AddressHash| has_key(longer, key) <==> (has_key(rows, key) || key
        == row.key) by {
        if has_key(longer, key) {
            let i = row_of(longer, key);
            if i < rows.len() {
                assert(rows[i].key == key);
            }
        }
        if has_key(rows, key) {
            let i = row_of(rows, key);
            assert(longer[i].key == key);
        }
        if key == row.key {
            assert(longer[rows.len() as int].key == key);
        }
    }
    assert forall|key: AddressHash| has_key(longer, key) implies #[trigger] as_map(longer)[key]
        == as_map(rows).insert(row.key, row.value)[key] by {
        let i = row_of(longer, key);
        lemma_row_of(longer, i);
        if i < rows.len() {
            assert(longer[i] == rows[i]);
            lemma_row_of(rows, i);
        }
    }
    assert(as_map(longer) =~= as_map(rows).insert(row.key, row.value));
}

/// Replacing the value of a row replaces one entry of the map.
pub proof fn lemma_replaced<V>(rows: Seq<Row<V>>, i: int, value: V)
    requires
        distinct_keys(rows),
        0 <= i < rows.len(),
    ensures
        distinct_keys(rows.update(i, Row { key: rows[i].key, value })),
        as_map(rows.update(i, Row { key: rows[i].key, value })) == as_map(rows).insert(
            rows[i].key,
            value,
        ),
{
    let key0 = rows[i].key;
    let changed = rows.update(i, Row { key: key0, value });
    assert forall|a: int, b: int| 0 <= a < b < changed.len() implies (#[trigger] changed[a]).key
        != (#[trigger] changed[b]).key by {
        assert(changed[a].key == rows[a].key && changed[b].key == rows[b].key);
    }
    assert forall|key: AddressHash| has_key(changed, key) <==> has_key(rows, key) by {
        if has_key(changed, key) {
            let j = row_of(changed, key);
            assert(rows[j].key == key);
        }
        if has_key(rows, key) {
            let j = row_of(rows, key);
            assert(changed[j].key == key);
        }
    }
    lemma_row_of(rows, i);
    assert forall|key: AddressHash| has_key(changed, key) implies #[trigger] as_map(changed)[key]
        == as_map(rows).insert(key0, value)[key] by {
        let j = row_of(changed, key);
        lemma_row_of(changed, j);
        assert(rows[j].key == key);
        lemma_row_of(rows, j);
    }
    assert(as_map(changed) =~= as_map(rows).insert(key0, value));
}

/// Taking a row out takes one entry out of the map.
pub proof fn lemma_removed<V>(rows: Seq<Row<V>>, i: int)
    requires
        distinct_keys(rows),
        0 <= i < rows.len(),
    ensures
        distinct_keys(rows.remove(i)),
        as_map(rows.remove(i)) == as_map(rows).remove(rows[i].key),
        !has_key(rows.remove(i), rows[i].key),
{
    let key0 = rows[i].key;
    let shorter = rows.remove(i);
    assert forall|a: int| 0 <= a < shorter.len() implies #[trigger] shorter[a] == rows[if a < i {
        a
    } else {
        a + 1
    }] by {}
    assert forall|a: int, b: int| 0 <= a < b < shorter.len() implies (#[trigger] shorter[a]).key
        != (#[trigger] shorter[b]).key by {
        let a0 = if a < i {
            a
        } else {
            a + 1
        };
        let b0 = if b < i {
            b
        } else {
            b + 1
        };
        assert(rows[a0].key != rows[b0].key);
    }
    assert forall|key: AddressHash| has_key(shorter, key) <==> (has_key(rows, key) && key
        != key0) by {
        if has_key(shorter, key) {
            let a = row_of(shorter, key);
            let a0 = if a < i {
                a
            } else {
                a + 1
            };
            assert(rows[a0].key == key);
            if a0 < i {
                assert(rows[a0].key != rows[i].key);
            } else {
                assert(rows[i].key != rows[a0].key);
            }
        }
        if has_key(rows, key) && key != key0 {
            let j = row_of(rows, key);
            let a = if j < i {
                j
            } else {
                j - 1
            };
            assert(shorter[a].key == key);
        }
    }
    assert forall|key: AddressHash| has_key(shorter, key) implies #[trigger] as_map(shorter)[key]
        == as_map(rows).remove(key0)[key] by {
        let a = row_of(shorter, key);
        lemma_row_of(shorter, a);
        let a0 = if a < i {
            a
        } else {
            a + 1
        };
        assert(shorter[a] == rows[a0]);
        lemma_row_of(rows, a0);
    }
    assert(as_map(shorter) =~= as_map(rows).remove(key0));
}

/// Rows of distinct keys make a map with as many entries as there are
/// rows.
pub proof fn lemma_as_many<V>(rows: Seq<Row<V>>)
    requires
        distinct_keys(rows),
    ensures
        as_map(rows).dom().finite(),
        as_map(rows).len() == rows.len(),
{
    let indices = vstd::set_lib::set_int_range(0, rows.len() as int);
    let key_at = |i: int| rows[i].key;
    vstd::set_lib::lemma_int_range(0, rows.len() as int);
    assert(indices.map(key_at) =~= as_map(rows).dom()) by {
        assert forall|key: AddressHash| as_map(rows).dom().contains(key) implies indices.map(
            key_at,
        ).contains(key) by {
            let i = row_of(rows, key);
            assert(indices.contains(i));
            assert(key_at(i) == key);
        }
        assert forall|key: AddressHash| indices.map(key_at).contains(key) implies as_map(
            rows,
        ).dom().contains(key) by {
            let i = choose|i: int| indices.contains(i) && key_at(i) == key;
            assert(rows[i].key == key);
        }
    }
    assert(vstd::relations::injective_on(key_at, indices)) by {
        assert forall|a: int, b: int|
            indices.contains(a) && indices.contains(b) && #[trigger] key_at(a) == #[trigger] key_at(
                b,
            ) implies a == b by {
            if a < b {
                assert(rows[a].key != rows[b].key);
            } else if b < a {
                assert(rows[b].key != rows[a].key);
            }
        }
    }
    vstd::set_lib::lemma_map_size(indices, as_map(rows).dom(), key_at);
}

impl<V> View for Table<V> {
    type V = Map<AddressHash, V>;

    closed spec fn view(&self) -> Map<AddressHash, V> {
        as_map(self.rows@)
    }
}

impl<V> Table<V> {
    /// The rows in the order in which their keys came in.
    pub closed spec fn rows(&self) -> Seq<Row<V>> {
        self.rows@
    }

    /// No key occurs twice.
    pub closed spec fn wf(&self) -> bool {
        distinct_keys(self.rows@)
    }

    /// The view is the rows read as a map, and in a well-formed table
    /// every row is an entry of it.
    pub proof fn lemma_view(&self)
        ensures
            self@ == as_map(self.rows()),
            self.wf() == distinct_keys(self.rows()),
    {
    }

    /// An empty table.
    pub fn new() -> (table: Table<V>)
        ensures
            table.wf(),
            table.rows() == Seq::<Row<V>>::empty(),
            table@ == Map::<AddressHash, V>::empty(),
    {
        let table = Table { rows: Vec::new() };
        assert(table@ =~= Map::<AddressHash, V>::empty());
        table
    }

    /// Number of rows, which in a well-formed table is the number of
    /// entries.
    pub fn len(&self) -> (n: usize)
        ensures
            n == self.rows().len(),
            self.wf() ==> n == self@.len(),
    {
        proof {
            if self.wf() {
                lemma_as_many(self.rows@);
            }
        }
        self.rows.len()
    }

    /// The key of row `i`.
    pub fn key_at(&self, i: usize) -> (key: AddressHash)
        requires
            i < self.rows().len(),
        ensures
            key == self.rows()[i as int].key,
    {
        self.rows[i].key
    }

    /// The value of row `i`.
    pub fn value_at(&self, i: usize) -> (value: &V)
        requires
            i < self.rows().len(),
        ensures
            *value == self.rows()[i as int].value,
    {
        &self.rows[i].value
    }

    /// The index of the row with key `key`.
    pub fn position(&self, key: &AddressHash) -> (found: Option<usize>)
        ensures
            found.is_some() == has_key(self.rows(), *key),
            found.is_some() == self@.contains_key(*key),
            found matches Some(i) ==> i < self.rows().len() && self.rows()[i as int].key == *key,
    {
        let mut i: usize = 0;
        while i < self.rows.len()
            invariant
                i <= self.rows@.len(),
                forall|j: int| 0 <= j < i ==> (#[trigger] self.rows@[j]).key != *key,
            decreases self.rows@.len() - i,
        {
            if self.rows[i].key == *key {
                return Some(i);
            }
            i += 1;
        }
        None
    }

    /// Whether the table has an entry for `key`.
    pub fn contains_key(&self, key: &AddressHash) -> (found: bool)
        ensures
            found == self@.contains_key(*key),
    {
        self.position(key).is_some()
    }

    /// The value for `key`.
    pub fn get(&self, key: &AddressHash) -> (value: Option<&V>)
        requires
            self.wf(),
        ensures
            value.is_some() == self@.contains_key(*key),
            value matches Some(v) ==> *v == self@[*key],
    {
        match self.position(key) {
            Some(i) => {
                proof {
                    lemma_row_of(self.rows@, i as int);
                }
                Some(&self.rows[i].value)
            },
            None => None,
        }
    }

    /// Sets the value for `key`. A new key goes to the end of the rows, a
    /// known key keeps its row.
    pub fn insert(&mut self, key: AddressHash, value: V)
        requires
            old(self).wf(),
        ensures
            final(self).wf(),
            final(self)@ == old(self)@.insert(key, value),
            old(self)@.contains_key(key) ==> final(self).rows() == old(self).rows().update(
                row_of(old(self).rows(), key),
                Row { key, value },
            ),
            !old(self)@.contains_key(key) ==> final(self).rows() == old(self).rows().push(
                Row { key, value },
            ),
    {
        match self.position(&key) {
            Some(i) => {
                proof {
                    lemma_row_of(self.rows@, i as int);
                    lemma_replaced(self.rows@, i as int, value);
                }
                self.rows[i] = Row { key, value };
            },
            None => {
                proof {
                    lemma_pushed(self.rows@, Row { key, value });
                }
                self.rows.push(Row { key, value });
            },
        }
    }

    /// Takes the entry for `key` out and hands its value back.
    pub fn remove(&mut self, key: &AddressHash) -> (value: Option<V>)
        requires
            old(self).wf(),
        ensures
            final(self).wf(),
            final(self)@ == old(self)@.remove(*key),
            value.is_some() == old(self)@.contains_key(*key),
            value matches Some(v) ==> v == old(self)@[*key] && final(self).rows() == old(self).rows().remove(row_of(old(self).rows(), *key)),
            value.is_none() ==> final(self).rows() == old(self).rows(),
    {
        match self.position(key) {
            Some(i) => {
                proof {
                    lemma_row_of(self.rows@, i as int);
                    lemma_removed(self.rows@, i as int);
                }
                let row = self.rows.remove(i);
                Some(row.value)
            },
            None => {
                assert(self@ =~= old(self)@.remove(*key));
                None
            },
        }
    }

    /// Takes row `i` out and hands it back.
    pub fn remove_at(&mut self, i: usize) -> (row: Row<V>)
        requires
            old(self).wf(),
            i < old(self).rows().len(),
        ensures
            final(self).wf(),
            row == old(self).rows()[i as int],
            final(self).rows() == old(self).rows().remove(i as int),
            final(self)@ == old(self)@.remove(row.key),
    {
        proof {
            lemma_removed(self.rows@, i as int);
        }
        self.rows.remove(i)
    }

    /// Forgets every entry.
    pub fn clear(&mut self)
        ensures
            final(self).wf(),
            final(self).rows() == Seq::<Row<V>>::empty(),
            final(self)@ == Map::<AddressHash, V>::empty(),
    {
        self.rows.clear();
        assert(self@ =~= Map::<AddressHash, V>::empty());
    }
}

} // verus!
