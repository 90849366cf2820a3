//! Rows found by a key.
//!
//! A [`Table`] keeps rows in the order in which their keys first came, at most one row a key.
//! Its view is the map from keys to the models of the rows.

use vstd::prelude::*;

verus! {

/// The map that a list of key-value pairs stands for; of two pairs with one key the later
/// counts.
pub open spec fn pairs_map<K, M>(pairs: Seq<(K, M)>) -> Map<K, M>
    decreases pairs.len(),
{
    if pairs.len() == 0 {
        Map::empty()
    } else {
        pairs_map(pairs.drop_last()).insert(pairs.last().0, pairs.last().1)
    }
}

/// Whether no key occurs twice.
pub open spec fn keys_unique<K, M>(pairs: Seq<(K, M)>) -> bool {
    forall|i: int, j: int|
        0 <= i < j < pairs.len() ==> (#[trigger] pairs[i]).0 != (#[trigger] pairs[j]).0
}

/// A key is in the map if and only if it is in the list.
pub proof fn pairs_map_contains<K, M>(pairs: Seq<(K, M)>, key: K)
    ensures
        pairs_map(pairs).dom().contains(key) <==> exists|i: int|
            0 <= i < pairs.len() && (#[trigger] pairs[i]).0 == key,
    decreases pairs.len(),
{
    if pairs.len() > 0 {
        let init = pairs.drop_last();
        pairs_map_contains(init, key);
        if pairs_map(init).dom().contains(key) {
            let i = choose|i: int| 0 <= i < init.len() && (#[trigger] init[i]).0 == key;
            assert(pairs[i].0 == key);
        }
        if exists|i: int| 0 <= i < pairs.len() && (#[trigger] pairs[i]).0 == key {
            let i = choose|i: int| 0 <= i < pairs.len() && (#[trigger] pairs[i]).0 == key;
            if i < init.len() {
                assert(init[i].0 == key);
            }
        }
    }
}

/// Every pair of a list without repeated keys is in the map.
pub proof fn pairs_map_index<K, M>(pairs: Seq<(K, M)>, i: int)
    requires
        keys_unique(pairs),
        0 <= i < pairs.len(),
    ensures
        pairs_map(pairs).dom().contains(pairs[i].0),
        pairs_map(pairs)[pairs[i].0] == pairs[i].1,
    decreases pairs.len(),
{
    let init = pairs.drop_last();
    if i < init.len() {
        assert forall|a: int, b: int| 0 <= a < b < init.len() implies (#[trigger] init[a]).0 != (
        #[trigger] init[b]).0 by {
            assert(init[a] == pairs[a] && init[b] == pairs[b]);
        }
        pairs_map_index(init, i);
        assert(pairs[i].0 != pairs[pairs.len() - 1].0);
        assert(init[i] == pairs[i]);
    }
}

/// Adding a pair at the end adds it to the map.
pub proof fn pairs_map_push<K, M>(pairs: Seq<(K, M)>, key: K, value: M)
    ensures
        pairs_map(pairs.push((key, value))) == pairs_map(pairs).insert(key, value),
{
    assert(pairs.push((key, value)).drop_last() =~= pairs);
}

/// Replacing the value at a key replaces it in the map.
pub proof fn pairs_map_update<K, M>(pairs: Seq<(K, M)>, i: int, value: M)
    requires
        keys_unique(pairs),
        0 <= i < pairs.len(),
    ensures
        pairs_map(pairs.update(i, (pairs[i].0, value))) == pairs_map(pairs).insert(
            pairs[i].0,
            value,
        ),
        keys_unique(pairs.update(i, (pairs[i].0, value))),
    decreases pairs.len(),
{
    let key = pairs[i].0;
    let changed = pairs.update(i, (key, value));
    let init = pairs.drop_last();
    assert forall|a: int, b: int| 0 <= a < b < changed.len() implies (#[trigger] changed[a]).0 != (
    #[trigger] changed[b]).0 by {
        assert(changed[a].0 == pairs[a].0 && changed[b].0 == pairs[b].0);
    }
    if i < init.len() {
        assert forall|a: int, b: int| 0 <= a < b < init.len() implies (#[trigger] init[a]).0 != (
        #[trigger] init[b]).0 by {
            assert(init[a] == pairs[a] && init[b] == pairs[b]);
        }
        pairs_map_update(init, i, value);
        assert(changed.drop_last() =~= init.update(i, (init[i].0, value)));
        assert(pairs[i].0 != pairs[pairs.len() - 1].0);
        assert(pairs_map(changed) =~= pairs_map(pairs).insert(key, value));
    } else {
        assert(changed.drop_last() =~= init);
        assert(pairs_map(changed) =~= pairs_map(pairs).insert(key, value));
    }
}

/// A row that is found by a text key.
pub trait Keyed: Sized {
    type Model;

    /// The key of the row.
    spec fn row_key(&self) -> Seq<char>;

    /// What the row says, key included.
    spec fn row_model(&self) -> Self::Model;

    /// Whether the row has the given key.
    fn has_key(&self, key: &str) -> (res: bool)
        ensures
            res == (self.row_key() == key@),
    ;
}

/// The pairs of keys and models of a list of rows.
pub open spec fn row_pairs<R: Keyed>(rows: Seq<R>) -> Seq<(Seq<char>, R::Model)> {
    rows.map_values(|r: R| (r.row_key(), r.row_model()))
}

/// Rows found by a text key, at most one a key.
pub struct Table<R> {
    rows: Vec<R>,
}

impl<R: Keyed> View for Table<R> {
    type V = Map<Seq<char>, R::Model>;

    closed spec fn view(&self) -> Map<Seq<char>, R::Model> {
        pairs_map(row_pairs(self.rows@))
    }
}

impl<R: Keyed> Table<R> {
    /// No key occurs twice.
    pub closed spec fn wf(&self) -> bool {
        keys_unique(row_pairs(self.rows@))
    }

    /// A table without rows.
    pub fn new() -> (res: Self)
        ensures
            res.wf(),
            res@ == Map::<Seq<char>, R::Model>::empty(),
    {
        let res = Table { rows: Vec::new() };
        assert(row_pairs(res.rows@).len() == 0);
        res
    }

    fn find(&self, key: &str) -> (res: Option<usize>)
        requires
            self.wf(),
        ensures
            match res {
                Some(i) => i < self.rows@.len() && self.rows@[i as int].row_key() == key@,
                None => !self@.dom().contains(key@),
            },
    {
        let mut i: usize = 0;
        while i < self.rows.len()
            invariant
                i <= self.rows@.len(),
                forall|j: int| 0 <= j < i ==> (#[trigger] self.rows@[j]).row_key() != key@,
            decreases self.rows@.len() - i,
        {
            if self.rows[i].has_key(key) {
                return Some(i);
            }
            i += 1;
        }
        proof {
            let pairs = row_pairs(self.rows@);
            pairs_map_contains(pairs, key@);
            assert forall|j: int| 0 <= j < pairs.len() implies (#[trigger] pairs[j]).0 != key@ by {
                assert(self.rows@[j].row_key() != key@);
            }
        }
        None
    }

    /// The row of a key.
    pub fn get(&self, key: &str) -> (res: Option<&R>)
        requires
            self.wf(),
        ensures
            match res {
                Some(r) => self@.dom().contains(key@) && r.row_key() == key@ && r.row_model()
                    == self@[key@],
                None => !self@.dom().contains(key@),
            },
    {
        match self.find(key) {
            Some(i) => {
                proof {
                    pairs_map_index(row_pairs(self.rows@), i as int);
                }
                Some(&self.rows[i])
            },
            None => None,
        }
    }

    /// Puts a row in the place of the one with the same key, or behind the others.
    pub fn put(&mut self, key: &str, row: R)
        requires
            old(self).wf(),
            row.row_key() == key@,
        ensures
            final(self).wf(),
            final(self)@ == old(self)@.insert(key@, row.row_model()),
    {
        let ghost before = row_pairs(self.rows@);
        match self.find(key) {
            Some(i) => {
                proof {
                    pairs_map_update(before, i as int, row.row_model());
                }
                self.rows[i] = row;
                assert(row_pairs(self.rows@) =~= before.update(
                    i as int,
                    (before[i as int].0, row.row_model()),
                ));
            },
            None => {
                proof {
                    pairs_map_contains(before, key@);
                    pairs_map_push(before, key@, row.row_model());
                }
                self.rows.push(row);
                assert(row_pairs(self.rows@) =~= before.push((key@, row.row_model())));
                proof {
                    let after = row_pairs(self.rows@);
                    assert forall|a: int, b: int| 0 <= a < b < after.len() implies (
                    #[trigger] after[a]).0 != (#[trigger] after[b]).0 by {
                        assert(after[a] == before[a]);
                        if b < before.len() {
                            assert(after[b] == before[b]);
                        }
                    }
                }
            },
        }
    }
}

} // verus!
