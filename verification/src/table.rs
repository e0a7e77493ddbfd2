//! Tables of records under text keys.
use crate::text::same_text;
use vstd::prelude::*;

verus! {

/// Records under keys; no key occurs twice.
#[derive(Debug)]
pub struct Table<T> {
    rows: Vec<(String, T)>,
}

/// Whether no two rows have the same key.
pub open spec fn distinct_keys<K, T>(rows: Seq<(K, T)>) -> bool {
    forall|i: int, j: int|
        0 <= i < j < rows.len() ==> (#[trigger] rows[i]).0 != (#[trigger] rows[j]).0
}

/// Whether a row has the key `k`.
pub open spec fn has_key<K, T>(rows: Seq<(K, T)>, k: K) -> bool {
    exists|i: int| 0 <= i < rows.len() && (#[trigger] rows[i]).0 == k
}

/// The record under key `k`.
pub open spec fn record_of<K, T>(rows: Seq<(K, T)>, k: K) -> T {
    rows[choose|i: int| 0 <= i < rows.len() && (#[trigger] rows[i]).0 == k].1
}

/// Rows as a map from keys to records.
pub open spec fn as_map<K, T>(rows: Seq<(K, T)>) -> Map<K, T> {
    Map::new(|k: K| has_key(rows, k), |k: K| record_of(rows, k))
}

/// The map of a table holds each row.
pub proof fn lemma_row_in_map<K, T>(rows: Seq<(K, T)>, i: int)
    requires
        distinct_keys(rows),
        0 <= i < rows.len(),
    ensures
        as_map(rows).contains_key(rows[i].0),
        as_map(rows)[rows[i].0] == rows[i].1,
{
    let k = rows[i].0;
    let j = choose|j: int| 0 <= j < rows.len() && (#[trigger] rows[j]).0 == k;
    assert(rows[j].0 == rows[i].0);
}

/// Replacing the record of a row changes the map at its key alone.
pub proof fn lemma_update_row<K, T>(rows: Seq<(K, T)>, i: int, value: T)
    requires
        distinct_keys(rows),
        0 <= i < rows.len(),
    ensures
        distinct_keys(rows.update(i, (rows[i].0, value))),
        as_map(rows.update(i, (rows[i].0, value))) == as_map(rows).insert(rows[i].0, value),
{
    let k = rows[i].0;
    let after = rows.update(i, (k, value));
    assert(distinct_keys(after));
    assert forall|key: K| #[trigger] as_map(after).contains_key(key) == as_map(rows).insert(
        k,
        value,
    ).contains_key(key) by {
        if has_key(after, key) {
            let j = choose|j: int| 0 <= j < after.len() && (#[trigger] after[j]).0 == key;
            assert(rows[j].0 == key);
        }
        if has_key(rows, key) {
            let j = choose|j: int| 0 <= j < rows.len() && (#[trigger] rows[j]).0 == key;
            assert(after[j].0 == key);
        }
        assert(after[i].0 == k);
    }
    assert forall|key: K| as_map(after).contains_key(key) implies #[trigger] as_map(
        after,
    )[key] == as_map(rows).insert(k, value)[key] by {
        let j = choose|j: int| 0 <= j < after.len() && (#[trigger] after[j]).0 == key;
        lemma_row_in_map(after, j);
        lemma_row_in_map(rows, j);
        assert(rows[j].0 == key);
    }
    assert(as_map(after) =~= as_map(rows).insert(k, value));
}

/// A row with a new key adds that key to the map.
pub proof fn lemma_push_row<K, T>(rows: Seq<(K, T)>, k: K, value: T)
    requires
        distinct_keys(rows),
        !has_key(rows, k),
    ensures
        distinct_keys(rows.push((k, value))),
        as_map(rows.push((k, value))) == as_map(rows).insert(k, value),
{
    let after = rows.push((k, value));
    assert forall|i: int, j: int| 0 <= i < j < after.len() implies (#[trigger] after[i]).0 != (
    #[trigger] after[j]).0 by {
        assert(after[i] == rows[i]);
    }
    assert forall|key: K| #[trigger] as_map(after).contains_key(key) == as_map(rows).insert(
        k,
        value,
    ).contains_key(key) by {
        if has_key(after, key) {
            let j = choose|j: int| 0 <= j < after.len() && (#[trigger] after[j]).0 == key;
            if j < rows.len() {
                assert(rows[j].0 == key);
            }
        }
        if has_key(rows, key) {
            let j = choose|j: int| 0 <= j < rows.len() && (#[trigger] rows[j]).0 == key;
            assert(after[j].0 == key);
        }
        assert(after[rows.len() as int].0 == k);
    }
    assert forall|key: K| as_map(after).contains_key(key) implies #[trigger] as_map(
        after,
    )[key] == as_map(rows).insert(k, value)[key] by {
        let j = choose|j: int| 0 <= j < after.len() && (#[trigger] after[j]).0 == key;
        lemma_row_in_map(after, j);
        if j < rows.len() {
            lemma_row_in_map(rows, j);
            assert(rows[j].0 == key);
        }
    }
    assert(as_map(after) =~= as_map(rows).insert(k, value));
}

/// Without a row, the map lacks its key alone.
pub proof fn lemma_remove_row<K, T>(rows: Seq<(K, T)>, i: int)
    requires
        distinct_keys(rows),
        0 <= i < rows.len(),
    ensures
        distinct_keys(rows.remove(i)),
        as_map(rows.remove(i)) == as_map(rows).remove(rows[i].0),
{
    let k = rows[i].0;
    let after = rows.remove(i);
    assert forall|a: int, b: int| 0 <= a < b < after.len() implies (#[trigger] after[a]).0 != (
    #[trigger] after[b]).0 by {
        let x = if a < i {
            a
        } else {
            a + 1
        };
        let y = if b < i {
            b
        } else {
            b + 1
        };
        assert(after[a] == rows[x] && after[b] == rows[y]);
    }
    assert forall|key: K| #[trigger] as_map(after).contains_key(key) == as_map(rows).remove(
        k,
    ).contains_key(key) by {
        if has_key(after, key) {
            let j = choose|j: int| 0 <= j < after.len() && (#[trigger] after[j]).0 == key;
            let x = if j < i {
                j
            } else {
                j + 1
            };
            assert(rows[x].0 == key);
            assert(rows[x].0 != rows[i].0);
        }
        if has_key(rows, key) && key != k {
            let j = choose|j: int| 0 <= j < rows.len() && (#[trigger] rows[j]).0 == key;
            let x = if j < i {
                j
            } else {
                j - 1
            };
            assert(after[x].0 == key);
        }
    }
    assert forall|key: K| as_map(after).contains_key(key) implies #[trigger] as_map(
        after,
    )[key] == as_map(rows).remove(k)[key] by {
        let j = choose|j: int| 0 <= j < after.len() && (#[trigger] after[j]).0 == key;
        let x = if j < i {
            j
        } else {
            j + 1
        };
        lemma_row_in_map(after, j);
        lemma_row_in_map(rows, x);
        assert(rows[x] == after[j]);
    }
    assert(as_map(after) =~= as_map(rows).remove(k));
}

impl<T> Table<T> {
    /// The rows, in the order in which their keys came.
    pub closed spec fn rows(&self) -> Seq<(Seq<char>, T)> {
        Seq::new(self.rows@.len(), |i: int| (self.rows@[i].0@, self.rows@[i].1))
    }

    /// Whether no key occurs twice.
    pub open spec fn wf(&self) -> bool {
        distinct_keys(self.rows())
    }

    /// The records by key.
    pub open spec fn map(&self) -> Map<Seq<char>, T> {
        as_map(self.rows())
    }

    /// A table without rows.
    pub fn new() -> (r: Self)
        ensures
            r.wf(),
            r.rows() == Seq::<(Seq<char>, T)>::empty(),
            r.map() == Map::<Seq<char>, T>::empty(),
    {
        let r = Table { rows: Vec::new() };
        assert(r.rows() =~= Seq::<(Seq<char>, T)>::empty());
        assert(r.map() =~= Map::<Seq<char>, T>::empty());
        r
    }

    /// How many rows there are.
    pub fn len(&self) -> (r: usize)
        ensures
            r == self.rows().len(),
    {
        self.rows.len()
    }

    /// The key of row `i`.
    pub fn key_at(&self, i: usize) -> (r: &str)
        requires
            i < self.rows().len(),
        ensures
            r@ == self.rows()[i as int].0,
    {
        self.rows[i].0.as_str()
    }

    /// The record of row `i`.
    pub fn value_at(&self, i: usize) -> (r: &T)
        requires
            i < self.rows().len(),
        ensures
            *r == self.rows()[i as int].1,
    {
        &self.rows[i].1
    }

    /// The row with key `k`.
    fn position(&self, k: &str) -> (r: Option<usize>)
        ensures
            match r {
                Some(i) => i < self.rows().len() && self.rows()[i as int].0 == k@,
                None => !has_key(self.rows(), k@),
            },
    {
        let mut i: usize = 0;
        while i < self.rows.len()
            invariant
                i <= self.rows@.len(),
                forall|j: int| 0 <= j < i ==> (#[trigger] self.rows()[j]).0 != k@,
            decreases self.rows@.len() - i,
        {
            if same_text(self.rows[i].0.as_str(), k) {
                return Some(i);
            }
            i = i + 1;
        }
        None
    }

    /// The record under key `k`.
    pub fn get(&self, k: &str) -> (r: Option<&T>)
        requires
            self.wf(),
        ensures
            match r {
                Some(v) => self.map().contains_key(k@) && self.map()[k@] == *v,
                None => !self.map().contains_key(k@),
            },
    {
        match self.position(k) {
            Some(i) => {
                proof {
                    lemma_row_in_map(self.rows(), i as int);
                }
                Some(&self.rows[i].1)
            },
            None => None,
        }
    }

    /// Puts `value` under the key `k`, in place of what was there.
    pub fn put(&mut self, k: &str, value: T)
        requires
            old(self).wf(),
        ensures
            final(self).wf(),
            final(self).map() == old(self).map().insert(k@, value),
    {
        let ghost before = self.rows();
        match self.position(k) {
            Some(i) => {
                proof {
                    lemma_update_row(before, i as int, value);
                }
                self.rows.set(i, (k.to_owned(), value));
                assert(self.rows() =~= before.update(i as int, (k@, value)));
            },
            None => {
                proof {
                    lemma_push_row(before, k@, value);
                }
                self.rows.push((k.to_owned(), value));
                assert(self.rows() =~= before.push((k@, value)));
            },
        }
    }

    /// Removes the row with key `k`, if there is one.
    pub fn remove(&mut self, k: &str)
        requires
            old(self).wf(),
        ensures
            final(self).wf(),
            final(self).map() == old(self).map().remove(k@),
    {
        let ghost before = self.rows();
        match self.position(k) {
            Some(i) => {
                proof {
                    lemma_remove_row(before, i as int);
                }
                let _ = self.rows.remove(i);
                assert(self.rows() =~= before.remove(i as int));
            },
            None => {
                assert(self.map().remove(k@) =~= self.map());
            },
        }
    }
}

} // verus!
