//! A small keyed table, used for the upload ledger and the chunk workspaces.
//!
//! The table is an association list over `u64` keys. Its abstraction is a
//! `Map<u64, V::V>`; all operations are specified against that map.

use vstd::prelude::*;

verus! {

/// One key-value pair of a `Table`.
pub struct TableEntry<V> {
    pub key: u64,
    pub val: V,
}

/// A finite map from `u64` keys to values, stored as a vector of entries
/// with pairwise-distinct keys.
pub struct Table<V> {
    pub entries: Vec<TableEntry<V>>,
}

/// The map described by a sequence of entries; later entries shadow earlier
/// ones, though under `distinct_keys` no shadowing occurs.
pub open spec fn table_map<V: View>(s: Seq<TableEntry<V>>) -> Map<u64, V::V>
    decreases s.len(),
{
    if s.len() == 0 {
        Map::empty()
    } else {
        table_map(s.drop_last()).insert(s.last().key, s.last().val@)
    }
}

/// No two entries share a key.
pub open spec fn distinct_keys<V: View>(s: Seq<TableEntry<V>>) -> bool {
    forall|i: int, j: int|
        #![trigger s[i].key, s[j].key]
        0 <= i < j < s.len() ==> s[i].key != s[j].key
}

impl<V: View> View for Table<V> {
    type V = Map<u64, V::V>;

    open spec fn view(&self) -> Map<u64, V::V> {
        table_map(self.entries@)
    }
}

/// A key is in the map exactly when some entry carries it.
pub proof fn lemma_table_map_contains<V: View>(s: Seq<TableEntry<V>>, k: u64)
    ensures
        table_map(s).contains_key(k) <==> exists|i: int| 0 <= i < s.len() && s[i].key == k,
    decreases s.len(),
{
    if s.len() > 0 {
        lemma_table_map_contains(s.drop_last(), k);
        if s.last().key == k {
            assert(s[s.len() - 1].key == k);
        } else if exists|i: int| 0 <= i < s.drop_last().len() && s.drop_last()[i].key == k {
            let i = choose|i: int| 0 <= i < s.drop_last().len() && s.drop_last()[i].key == k;
            assert(s[i].key == k);
        } else if exists|i: int| 0 <= i < s.len() && s[i].key == k {
            let i = choose|i: int| 0 <= i < s.len() && s[i].key == k;
            assert(s.drop_last()[i].key == k);
        }
    }
}

/// Under distinct keys, the entry at index `i` is the map's binding for its key.
pub proof fn lemma_table_map_index<V: View>(s: Seq<TableEntry<V>>, i: int)
    requires
        distinct_keys(s),
        0 <= i < s.len(),
    ensures
        table_map(s).contains_key(s[i].key),
        table_map(s)[s[i].key] == s[i].val@,
    decreases s.len(),
{
    if i < s.len() - 1 {
        assert(distinct_keys(s.drop_last())) by {
            assert forall|p: int, q: int|
                0 <= p < q < s.drop_last().len() implies #[trigger] s.drop_last()[p].key
                != #[trigger] s.drop_last()[q].key by {
                assert(s[p].key != s[q].key);
            }
        }
        lemma_table_map_index(s.drop_last(), i);
        assert(s.drop_last()[i] == s[i]);
        assert(s[i].key != s.last().key);
    }
}

/// Under distinct keys, the number of entries is the size of the map's domain.
pub proof fn lemma_table_map_len<V: View>(s: Seq<TableEntry<V>>)
    requires
        distinct_keys(s),
    ensures
        table_map(s).dom().finite(),
        table_map(s).dom().len() == s.len(),
    decreases s.len(),
{
    if s.len() > 0 {
        assert(distinct_keys(s.drop_last())) by {
            assert forall|p: int, q: int|
                0 <= p < q < s.drop_last().len() implies #[trigger] s.drop_last()[p].key
                != #[trigger] s.drop_last()[q].key by {
                assert(s[p].key != s[q].key);
            }
        }
        lemma_table_map_len(s.drop_last());
        lemma_table_map_contains(s.drop_last(), s.last().key);
        assert(forall|i: int| 0 <= i < s.drop_last().len() ==> s.drop_last()[i] == s[i]);
        assert(!table_map(s.drop_last()).contains_key(s.last().key)) by {
            if exists|i: int| 0 <= i < s.drop_last().len() && s.drop_last()[i].key
                == s.last().key {
                let i = choose|i: int|
                    0 <= i < s.drop_last().len() && s.drop_last()[i].key == s.last().key;
                assert(s[i].key == s[s.len() - 1].key);
            }
        }
        assert(table_map(s).dom() =~= table_map(s.drop_last()).dom().insert(s.last().key));
        vstd::set::axiom_set_insert_len(table_map(s.drop_last()).dom(), s.last().key);
    }
}

/// Appending a fresh entry inserts its binding.
pub proof fn lemma_table_map_push<V: View>(s: Seq<TableEntry<V>>, e: TableEntry<V>)
    ensures
        table_map(s.push(e)) == table_map(s).insert(e.key, e.val@),
{
    assert(s.push(e).drop_last() =~= s);
    assert(s.push(e).last() == e);
}

/// Removing the entry that carries `k` removes `k`'s binding.
pub proof fn lemma_table_map_remove<V: View>(s: Seq<TableEntry<V>>, i: int)
    requires
        distinct_keys(s),
        0 <= i < s.len(),
    ensures
        table_map(s.remove(i)) =~= table_map(s).remove(s[i].key),
    decreases s.len(),
{
    assert(distinct_keys(s.drop_last())) by {
        assert forall|p: int, q: int|
            0 <= p < q < s.drop_last().len() implies #[trigger] s.drop_last()[p].key
            != #[trigger] s.drop_last()[q].key by {
            assert(s[p].key != s[q].key);
        }
    }
    if i == s.len() - 1 {
        assert(s.remove(i) =~= s.drop_last());
        lemma_table_map_contains(s.drop_last(), s[i].key);
        assert(!table_map(s.drop_last()).contains_key(s[i].key)) by {
            if exists|j: int| 0 <= j < s.drop_last().len() && s.drop_last()[j].key == s[i].key {
                let j = choose|j: int|
                    0 <= j < s.drop_last().len() && s.drop_last()[j].key == s[i].key;
                assert(s[j].key == s[i].key);
            }
        }
        assert(table_map(s.remove(i)) =~= table_map(s.drop_last()).insert(
            s.last().key,
            s.last().val@,
        ).remove(s[i].key));
    } else {
        assert(s.remove(i).drop_last() =~= s.drop_last().remove(i));
        assert(s.remove(i).last() == s.last());
        lemma_table_map_remove(s.drop_last(), i);
        assert(s.drop_last()[i] == s[i]);
        assert(s[i].key != s.last().key);
        assert(table_map(s.remove(i)) =~= table_map(s.drop_last().remove(i)).insert(
            s.last().key,
            s.last().val@,
        ));
    }
}

impl<V: View> Table<V> {
    /// The representation invariant: keys are pairwise distinct.
    pub open spec fn wf(&self) -> bool {
        distinct_keys(self.entries@)
    }

    /// An empty table.
    pub fn new() -> (r: Self)
        ensures
            r.wf(),
            r@ == Map::<u64, V::V>::empty(),
            r.entries@.len() == 0,
    {
        Table { entries: Vec::new() }
    }

    /// Number of entries; under `wf` this is the size of the map's domain.
    pub fn len(&self) -> (n: usize)
        ensures
            n == self.entries@.len(),
            self.wf() ==> n == self@.dom().len(),
    {
        proof {
            if self.wf() {
                lemma_table_map_len(self.entries@);
            }
        }
        self.entries.len()
    }

    /// Index of the entry carrying `k`, if any.
    fn find(&self, k: u64) -> (r: Option<usize>)
        ensures
            match r {
                Some(i) => i < self.entries@.len() && self.entries@[i as int].key == k,
                None => forall|i: int| 0 <= i < self.entries@.len() ==> self.entries@[i].key != k,
            },
    {
        let n = self.entries.len();
        for i in 0..n
            invariant
                n == self.entries@.len(),
                forall|j: int| 0 <= j < i ==> self.entries@[j].key != k,
        {
            if self.entries[i].key == k {
                return Some(i);
            }
        }
        None
    }

    /// Whether `k` is bound.
    pub fn contains(&self, k: u64) -> (r: bool)
        requires
            self.wf(),
        ensures
            r == self@.contains_key(k),
    {
        proof {
            lemma_table_map_contains(self.entries@, k);
        }
        self.find(k).is_some()
    }

    /// The value bound to `k`, if any.
    pub fn get(&self, k: u64) -> (r: Option<&V>)
        requires
            self.wf(),
        ensures
            match r {
                Some(v) => self@.contains_key(k) && v@ == self@[k],
                None => !self@.contains_key(k),
            },
    {
        proof {
            lemma_table_map_contains(self.entries@, k);
        }
        match self.find(k) {
            Some(i) => {
                proof {
                    lemma_table_map_index(self.entries@, i as int);
                }
                Some(&self.entries[i].val)
            },
            None => None,
        }
    }

    /// Bind `k` to `v`, replacing any prior binding.
    pub fn upsert(&mut self, k: u64, v: V)
        requires
            old(self).wf(),
        ensures
            final(self).wf(),
            final(self)@ =~= old(self)@.insert(k, v@),
    {
        let ghost s0 = self.entries@;
        match self.find(k) {
            Some(i) => {
                proof {
                    lemma_table_map_remove(s0, i as int);
                }
                self.entries.remove(i);
                proof {
                    assert(distinct_keys(self.entries@)) by {
                        assert forall|p: int, q: int|
                            0 <= p < q < self.entries@.len() implies #[trigger] self.entries@[p].key
                            != #[trigger] self.entries@[q].key by {
                            let pp = if p < i as int { p } else { p + 1 };
                            let qq = if q < i as int { q } else { q + 1 };
                            assert(s0[pp].key != s0[qq].key);
                        }
                    }
                    lemma_table_map_contains(self.entries@, k);
                    if exists|j: int| 0 <= j < self.entries@.len() && self.entries@[j].key == k {
                        let j = choose|j: int|
                            0 <= j < self.entries@.len() && self.entries@[j].key == k;
                        let jj = if j < i as int { j } else { j + 1 };
                        assert(s0[jj].key == k && s0[i as int].key == k);
                    }
                    lemma_table_map_push(self.entries@, TableEntry { key: k, val: v });
                }
                self.entries.push(TableEntry { key: k, val: v });
            },
            None => {
                proof {
                    lemma_table_map_push(self.entries@, TableEntry { key: k, val: v });
                }
                self.entries.push(TableEntry { key: k, val: v });
            },
        }
    }

    /// Remove `k`'s binding, if present.
    pub fn remove(&mut self, k: u64)
        requires
            old(self).wf(),
        ensures
            final(self).wf(),
            final(self)@ =~= old(self)@.remove(k),
    {
        let ghost s0 = self.entries@;
        match self.find(k) {
            Some(i) => {
                proof {
                    lemma_table_map_remove(s0, i as int);
                    assert forall|p: int, q: int|
                        0 <= p < q < s0.remove(i as int).len() implies #[trigger] s0.remove(
                        i as int,
                    )[p].key != #[trigger] s0.remove(i as int)[q].key by {
                        let pp = if p < i as int { p } else { p + 1 };
                        let qq = if q < i as int { q } else { q + 1 };
                        assert(s0[pp].key != s0[qq].key);
                    }
                }
                self.entries.remove(i);
            },
            None => {
                proof {
                    lemma_table_map_contains(self.entries@, k);
                    assert(self@ =~= old(self)@.remove(k));
                }
            },
        }
    }

    /// Remove and return the value bound to `k`, if any.
    pub fn take(&mut self, k: u64) -> (r: Option<V>)
        requires
            old(self).wf(),
        ensures
            final(self).wf(),
            final(self)@ =~= old(self)@.remove(k),
            match r {
                Some(v) => old(self)@.contains_key(k) && v@ == old(self)@[k],
                None => !old(self)@.contains_key(k),
            },
    {
        let ghost s0 = self.entries@;
        proof {
            lemma_table_map_contains(s0, k);
        }
        match self.find(k) {
            Some(i) => {
                proof {
                    lemma_table_map_remove(s0, i as int);
                    lemma_table_map_index(s0, i as int);
                    assert forall|p: int, q: int|
                        0 <= p < q < s0.remove(i as int).len() implies #[trigger] s0.remove(
                        i as int,
                    )[p].key != #[trigger] s0.remove(i as int)[q].key by {
                        let pp = if p < i as int { p } else { p + 1 };
                        let qq = if q < i as int { q } else { q + 1 };
                        assert(s0[pp].key != s0[qq].key);
                    }
                }
                let e = self.entries.remove(i);
                Some(e.val)
            },
            None => {
                proof {
                    assert(self@ =~= old(self)@.remove(k));
                }
                None
            },
        }
    }

    /// The key and value of the entry at position `i`.
    pub fn entry_at(&self, i: usize) -> (r: (u64, &V))
        requires
            i < self.entries@.len(),
        ensures
            r.0 == self.entries@[i as int].key,
            r.1 == &self.entries@[i as int].val,
            self.wf() ==> self@.contains_key(r.0) && self@[r.0] == r.1@,
    {
        proof {
            if self.wf() {
                lemma_table_map_index(self.entries@, i as int);
            }
        }
        (self.entries[i].key, &self.entries[i].val)
    }
}

} // verus!
