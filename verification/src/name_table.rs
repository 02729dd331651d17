//! A table keyed by file name, used for chunk workspaces and for the
//! destination directory of assembled files.
//!
//! Like `table::Table`, this is an association list abstracted as a map; the
//! key is a `String` and the abstraction keys by its character sequence.

use vstd::prelude::*;

verus! {

/// One name-value pair of a `NameTable`.
pub struct NameEntry<V> {
    pub name: String,
    pub val: V,
}

/// A finite map from names to values, stored as a vector of entries with
/// pairwise-distinct names.
pub struct NameTable<V> {
    pub entries: Vec<NameEntry<V>>,
}

/// The map described by a sequence of entries.
pub open spec fn name_map<V: View>(s: Seq<NameEntry<V>>) -> Map<Seq<char>, V::V>
    decreases s.len(),
{
    if s.len() == 0 {
        Map::empty()
    } else {
        name_map(s.drop_last()).insert(s.last().name@, s.last().val@)
    }
}

/// No two entries share a name.
pub open spec fn distinct_names<V: View>(s: Seq<NameEntry<V>>) -> bool {
    forall|i: int, j: int|
        #![trigger s[i].name, s[j].name]
        0 <= i < j < s.len() ==> s[i].name@ != s[j].name@
}

impl<V: View> View for NameTable<V> {
    type V = Map<Seq<char>, V::V>;

    open spec fn view(&self) -> Map<Seq<char>, V::V> {
        name_map(self.entries@)
    }
}

/// A name is in the map exactly when some entry carries it.
pub proof fn lemma_name_map_contains<V: View>(s: Seq<NameEntry<V>>, n: Seq<char>)
    ensures
        name_map(s).contains_key(n) <==> exists|i: int| 0 <= i < s.len() && s[i].name@ == n,
    decreases s.len(),
{
    if s.len() > 0 {
        lemma_name_map_contains(s.drop_last(), n);
        if s.last().name@ == n {
            assert(s[s.len() - 1].name@ == n);
        } else if exists|i: int| 0 <= i < s.drop_last().len() && s.drop_last()[i].name@ == n {
            let i = choose|i: int| 0 <= i < s.drop_last().len() && s.drop_last()[i].name@ == n;
            assert(s[i].name@ == n);
        } else if exists|i: int| 0 <= i < s.len() && s[i].name@ == n {
            let i = choose|i: int| 0 <= i < s.len() && s[i].name@ == n;
            assert(s.drop_last()[i].name@ == n);
        }
    }
}

/// Dropping the last entry keeps names distinct.
proof fn lemma_distinct_names_drop_last<V: View>(s: Seq<NameEntry<V>>)
    requires
        distinct_names(s),
        s.len() > 0,
    ensures
        distinct_names(s.drop_last()),
{
    assert forall|p: int, q: int|
        0 <= p < q < s.drop_last().len() implies #[trigger] s.drop_last()[p].name@
        != #[trigger] s.drop_last()[q].name@ by {
        assert(s[p].name@ != s[q].name@);
    }
}

/// Under distinct names, the entry at index `i` is the map's binding for its name.
pub proof fn lemma_name_map_index<V: View>(s: Seq<NameEntry<V>>, i: int)
    requires
        distinct_names(s),
        0 <= i < s.len(),
    ensures
        name_map(s).contains_key(s[i].name@),
        name_map(s)[s[i].name@] == s[i].val@,
    decreases s.len(),
{
    if i < s.len() - 1 {
        lemma_distinct_names_drop_last(s);
        lemma_name_map_index(s.drop_last(), i);
        assert(s.drop_last()[i] == s[i]);
        assert(s[i].name@ != s.last().name@);
    }
}

/// Under distinct names, the number of entries is the size of the map's domain.
pub proof fn lemma_name_map_len<V: View>(s: Seq<NameEntry<V>>)
    requires
        distinct_names(s),
    ensures
        name_map(s).dom().finite(),
        name_map(s).dom().len() == s.len(),
    decreases s.len(),
{
    if s.len() > 0 {
        lemma_distinct_names_drop_last(s);
        lemma_name_map_len(s.drop_last());
        lemma_name_map_contains(s.drop_last(), s.last().name@);
        assert(!name_map(s.drop_last()).contains_key(s.last().name@)) by {
            if exists|i: int| 0 <= i < s.drop_last().len() && s.drop_last()[i].name@
                == s.last().name@ {
                let i = choose|i: int|
                    0 <= i < s.drop_last().len() && s.drop_last()[i].name@ == s.last().name@;
                assert(s[i].name@ == s[s.len() - 1].name@);
            }
        }
        assert(name_map(s).dom() =~= name_map(s.drop_last()).dom().insert(s.last().name@));
        vstd::set::axiom_set_insert_len(name_map(s.drop_last()).dom(), s.last().name@);
    }
}

/// Appending a fresh entry inserts its binding.
pub proof fn lemma_name_map_push<V: View>(s: Seq<NameEntry<V>>, e: NameEntry<V>)
    ensures
        name_map(s.push(e)) == name_map(s).insert(e.name@, e.val@),
{
    assert(s.push(e).drop_last() =~= s);
    assert(s.push(e).last() == e);
}

/// Removing the entry that carries `n` removes `n`'s binding.
pub proof fn lemma_name_map_remove<V: View>(s: Seq<NameEntry<V>>, i: int)
    requires
        distinct_names(s),
        0 <= i < s.len(),
    ensures
        name_map(s.remove(i)) =~= name_map(s).remove(s[i].name@),
    decreases s.len(),
{
    lemma_distinct_names_drop_last(s);
    if i == s.len() - 1 {
        assert(s.remove(i) =~= s.drop_last());
        lemma_name_map_contains(s.drop_last(), s[i].name@);
        assert(!name_map(s.drop_last()).contains_key(s[i].name@)) by {
            if exists|j: int| 0 <= j < s.drop_last().len() && s.drop_last()[j].name@
                == s[i].name@ {
                let j = choose|j: int|
                    0 <= j < s.drop_last().len() && s.drop_last()[j].name@ == s[i].name@;
                assert(s[j].name@ == s[i].name@);
            }
        }
        assert(name_map(s.remove(i)) =~= name_map(s.drop_last()).insert(
            s.last().name@,
            s.last().val@,
        ).remove(s[i].name@));
    } else {
        assert(s.remove(i).drop_last() =~= s.drop_last().remove(i));
        assert(s.remove(i).last() == s.last());
        lemma_name_map_remove(s.drop_last(), i);
        assert(s.drop_last()[i] == s[i]);
        assert(s[i].name@ != s.last().name@);
        assert(name_map(s.remove(i)) =~= name_map(s.drop_last().remove(i)).insert(
            s.last().name@,
            s.last().val@,
        ));
    }
}

impl<V: View> NameTable<V> {
    /// The representation invariant: names are pairwise distinct.
    pub open spec fn wf(&self) -> bool {
        distinct_names(self.entries@)
    }

    /// Every stored value satisfies `p`; used by wrappers that keep an
    /// invariant on the values themselves.
    pub open spec fn all_vals(&self, p: spec_fn(V) -> bool) -> bool {
        forall|i: int| 0 <= i < self.entries@.len() ==> p(#[trigger] self.entries@[i].val)
    }

    /// An empty table.
    pub fn new() -> (r: Self)
        ensures
            r.wf(),
            r@ == Map::<Seq<char>, V::V>::empty(),
            r.entries@.len() == 0,
    {
        NameTable { entries: Vec::new() }
    }

    /// Number of entries; under `wf` this is the size of the map's domain.
    pub fn len(&self) -> (n: usize)
        ensures
            n == self.entries@.len(),
            self.wf() ==> n == self@.dom().len(),
    {
        proof {
            if self.wf() {
                lemma_name_map_len(self.entries@);
            }
        }
        self.entries.len()
    }

    /// Index of the entry carrying `n`, if any.
    fn find(&self, n: &String) -> (r: Option<usize>)
        ensures
            match r {
                Some(i) => i < self.entries@.len() && self.entries@[i as int].name@ == n@,
                None => forall|i: int|
                    0 <= i < self.entries@.len() ==> self.entries@[i].name@ != n@,
            },
    {
        let len = self.entries.len();
        for i in 0..len
            invariant
                len == self.entries@.len(),
                forall|j: int| 0 <= j < i ==> self.entries@[j].name@ != n@,
        {
            if self.entries[i].name == *n {
                return Some(i);
            }
        }
        None
    }

    /// Whether `n` is bound.
    pub fn contains(&self, n: &String) -> (r: bool)
        requires
            self.wf(),
        ensures
            r == self@.contains_key(n@),
    {
        proof {
            lemma_name_map_contains(self.entries@, n@);
        }
        self.find(n).is_some()
    }

    /// The value bound to `n`, if any. The reference is to a stored value,
    /// so value invariants tracked by `all_vals` apply to it.
    pub fn get(&self, n: &String) -> (r: Option<&V>)
        requires
            self.wf(),
        ensures
            match r {
                Some(v) => self@.contains_key(n@) && v@ == self@[n@] && exists|i: int|
                    0 <= i < self.entries@.len() && *v == #[trigger] self.entries@[i].val,
                None => !self@.contains_key(n@),
            },
    {
        proof {
            lemma_name_map_contains(self.entries@, n@);
        }
        match self.find(n) {
            Some(i) => {
                proof {
                    lemma_name_map_index(self.entries@, i as int);
                }
                Some(&self.entries[i].val)
            },
            None => None,
        }
    }

    /// Remove and return the value bound to `n`, if any.
    pub fn take(&mut self, n: &String) -> (r: Option<V>)
        requires
            old(self).wf(),
        ensures
            final(self).wf(),
            final(self)@ =~= old(self)@.remove(n@),
            match r {
                Some(v) => old(self)@.contains_key(n@) && v@ == old(self)@[n@] && exists|i: int|
                    0 <= i < old(self).entries@.len() && v == #[trigger] old(
                        self,
                    ).entries@[i].val,
                None => !old(self)@.contains_key(n@),
            },
            forall|j: int|
                0 <= j < final(self).entries@.len() ==> exists|k: int|
                    0 <= k < old(self).entries@.len() && #[trigger] final(self).entries@[j].val
                        == old(self).entries@[k].val,
    {
        let ghost s0 = self.entries@;
        proof {
            lemma_name_map_contains(s0, n@);
        }
        match self.find(n) {
            Some(i) => {
                proof {
                    lemma_name_map_remove(s0, i as int);
                    lemma_name_map_index(s0, i as int);
                    assert forall|p: int, q: int|
                        0 <= p < q < s0.remove(i as int).len() implies #[trigger] s0.remove(
                        i as int,
                    )[p].name@ != #[trigger] s0.remove(i as int)[q].name@ by {
                        let pp = if p < i as int { p } else { p + 1 };
                        let qq = if q < i as int { q } else { q + 1 };
                        assert(s0[pp].name@ != s0[qq].name@);
                    }
                }
                let e = self.entries.remove(i);
                proof {
                    assert forall|j: int| 0 <= j < self.entries@.len() implies exists|k: int|
                        0 <= k < s0.len() && #[trigger] self.entries@[j].val == s0[k].val by {
                        let kk = if j < i as int { j } else { j + 1 };
                        assert(self.entries@[j].val == s0[kk].val);
                    }
                }
                Some(e.val)
            },
            None => {
                proof {
                    assert(self@ =~= old(self)@.remove(n@));
                }
                None
            },
        }
    }

    /// Bind `n` to `v`, replacing any prior binding.
    pub fn put(&mut self, n: String, v: V)
        requires
            old(self).wf(),
        ensures
            final(self).wf(),
            final(self)@ =~= old(self)@.insert(n@, v@),
            forall|j: int|
                0 <= j < final(self).entries@.len() ==> final(self).entries@[j].val == v
                    || exists|k: int|
                    0 <= k < old(self).entries@.len() && #[trigger] final(self).entries@[j].val
                        == old(self).entries@[k].val,
    {
        let ghost s0 = self.entries@;
        match self.find(&n) {
            Some(i) => {
                proof {
                    lemma_name_map_remove(s0, i as int);
                    assert forall|p: int, q: int|
                        0 <= p < q < s0.remove(i as int).len() implies #[trigger] s0.remove(
                        i as int,
                    )[p].name@ != #[trigger] s0.remove(i as int)[q].name@ by {
                        let pp = if p < i as int { p } else { p + 1 };
                        let qq = if q < i as int { q } else { q + 1 };
                        assert(s0[pp].name@ != s0[qq].name@);
                    }
                }
                self.entries.remove(i);
                let ghost s1 = self.entries@;
                proof {
                    lemma_name_map_contains(s1, n@);
                    if exists|j: int| 0 <= j < s1.len() && s1[j].name@ == n@ {
                        let j = choose|j: int| 0 <= j < s1.len() && s1[j].name@ == n@;
                        let jj = if j < i as int { j } else { j + 1 };
                        assert(s0[jj].name@ == n@ && s0[i as int].name@ == n@);
                    }
                    lemma_name_map_push(s1, NameEntry { name: n, val: v });
                }
                self.entries.push(NameEntry { name: n, val: v });
                proof {
                    assert forall|j: int|
                        0 <= j < self.entries@.len() implies #[trigger] self.entries@[j].val == v
                        || exists|k: int|
                        0 <= k < s0.len() && self.entries@[j].val == s0[k].val by {
                        if j < self.entries@.len() - 1 {
                            let kk = if j < i as int { j } else { j + 1 };
                            assert(self.entries@[j].val == s0[kk].val);
                        }
                    }
                }
            },
            None => {
                proof {
                    lemma_name_map_push(s0, NameEntry { name: n, val: v });
                }
                self.entries.push(NameEntry { name: n, val: v });
                proof {
                    assert forall|j: int|
                        0 <= j < self.entries@.len() implies #[trigger] self.entries@[j].val == v
                        || exists|k: int|
                        0 <= k < s0.len() && self.entries@[j].val == s0[k].val by {
                        if j < self.entries@.len() - 1 {
                            assert(self.entries@[j].val == s0[j].val);
                        }
                    }
                }
            },
        }
    }

    /// Remove `n`'s binding, if present.
    pub fn remove(&mut self, n: &String)
        requires
            old(self).wf(),
        ensures
            final(self).wf(),
            final(self)@ =~= old(self)@.remove(n@),
            forall|j: int|
                0 <= j < final(self).entries@.len() ==> exists|k: int|
                    0 <= k < old(self).entries@.len() && #[trigger] final(self).entries@[j].val
                        == old(self).entries@[k].val,
    {
        let _ = self.take(n);
    }
}

} // verus!
