//! The chunk store and the destination directory, modelled as data.
//!
//! The chunk store holds, per workspace name, the chunk payloads written so
//! far, keyed by chunk index; resubmitting an index overwrites its bytes in
//! place. The destination store holds the assembled files by name, last
//! writer winning.

use crate::name_table::NameTable;
use crate::table::Table;
use vstd::prelude::*;

verus! {

/// The chunks already present in workspace `name` of store `m`; empty when
/// the workspace does not exist yet.
pub open spec fn chunks_in(m: Map<Seq<char>, Map<u64, Seq<u8>>>, name: Seq<char>) -> Map<
    u64,
    Seq<u8>,
> {
    if m.contains_key(name) {
        m[name]
    } else {
        Map::empty()
    }
}

/// Durable storage of individual chunk payloads, keyed by workspace name
/// and chunk index.
pub struct ChunkStore {
    pub table: NameTable<Table<Vec<u8>>>,
}

impl View for ChunkStore {
    type V = Map<Seq<char>, Map<u64, Seq<u8>>>;

    open spec fn view(&self) -> Map<Seq<char>, Map<u64, Seq<u8>>> {
        self.table@
    }
}

impl ChunkStore {
    /// Well-formedness: distinct workspace names, and distinct chunk
    /// indices within each workspace.
    pub open spec fn wf(&self) -> bool {
        &&& self.table.wf()
        &&& self.table.all_vals(|t: Table<Vec<u8>>| t.wf())
    }

    /// An empty store.
    pub fn new() -> (r: Self)
        ensures
            r.wf(),
            r@ == Map::<Seq<char>, Map<u64, Seq<u8>>>::empty(),
    {
        ChunkStore { table: NameTable::new() }
    }

    /// Persist `bytes` as chunk `index` of workspace `name`, creating the
    /// workspace if absent and overwriting any prior chunk at that index.
    pub fn write_chunk(&mut self, name: &String, index: u64, bytes: Vec<u8>)
        requires
            old(self).wf(),
        ensures
            final(self).wf(),
            final(self)@ =~= old(self)@.insert(
                name@,
                chunks_in(old(self)@, name@).insert(index, bytes@),
            ),
    {
        let ghost pred = |t: Table<Vec<u8>>| t.wf();
        let taken = self.table.take(name);
        let ghost mid = self.table;
        let mut chunks: Table<Vec<u8>> = match taken {
            Some(t) => {
                proof {
                    let i = choose|i: int|
                        0 <= i < old(self).table.entries@.len() && t == old(
                            self,
                        ).table.entries@[i].val;
                    assert(pred(old(self).table.entries@[i].val));
                }
                t
            },
            None => Table::new(),
        };
        chunks.upsert(index, bytes);
        proof {
        }
        self.table.put(name.clone(), chunks);
        proof {
            assert forall|j: int| 0 <= j < self.table.entries@.len() implies pred(
                #[trigger] self.table.entries@[j].val,
            ) by {
                if self.table.entries@[j].val != chunks {
                    let k = choose|k: int|
                        0 <= k < mid.entries@.len() && self.table.entries@[j].val
                            == mid.entries@[k].val;
                    let l = choose|l: int|
                        0 <= l < old(self).table.entries@.len() && mid.entries@[k].val == old(
                            self,
                        ).table.entries@[l].val;
                    assert(pred(old(self).table.entries@[l].val));
                }
            }
            assert(final(self)@ =~= old(self)@.insert(
                name@,
                chunks_in(old(self)@, name@).insert(index, bytes@),
            ));
        }
    }

    /// How many chunk files workspace `name` holds; zero when it does not
    /// exist. This is the count the completion detector inspects.
    pub fn chunk_count(&self, name: &String) -> (n: usize)
        requires
            self.wf(),
        ensures
            self@.contains_key(name@) ==> n == chunks_in(self@, name@).dom().len(),
            !self@.contains_key(name@) ==> n == 0,
    {
        let ghost pred = |t: Table<Vec<u8>>| t.wf();
        match self.table.get(name) {
            Some(t) => {
                proof {
                    let i = choose|i: int|
                        0 <= i < self.table.entries@.len() && *t == self.table.entries@[i].val;
                    assert(pred(self.table.entries@[i].val));
                }
                t.len()
            },
            None => 0,
        }
    }

    /// Whether workspace `name` exists.
    pub fn has_workspace(&self, name: &String) -> (r: bool)
        requires
            self.wf(),
        ensures
            r == self@.contains_key(name@),
    {
        self.table.contains(name)
    }

    /// The bytes of chunk `index` of workspace `name`, if present.
    pub fn get_chunk(&self, name: &String, index: u64) -> (r: Option<&Vec<u8>>)
        requires
            self.wf(),
        ensures
            match r {
                Some(b) => self@.contains_key(name@) && self@[name@].contains_key(index)
                    && b@ == self@[name@][index],
                None => !(self@.contains_key(name@) && self@[name@].contains_key(index)),
            },
    {
        let ghost pred = |t: Table<Vec<u8>>| t.wf();
        match self.table.get(name) {
            Some(t) => {
                proof {
                    let i = choose|i: int|
                        0 <= i < self.table.entries@.len() && *t == self.table.entries@[i].val;
                    assert(pred(self.table.entries@[i].val));
                }
                t.get(index)
            },
            None => None,
        }
    }

    /// Delete workspace `name` and every chunk in it.
    pub fn remove_workspace(&mut self, name: &String)
        requires
            old(self).wf(),
        ensures
            final(self).wf(),
            final(self)@ =~= old(self)@.remove(name@),
    {
        let ghost pred = |t: Table<Vec<u8>>| t.wf();
        self.table.remove(name);
        proof {
            assert forall|j: int| 0 <= j < self.table.entries@.len() implies pred(
                #[trigger] self.table.entries@[j].val,
            ) by {
                let k = choose|k: int|
                    0 <= k < old(self).table.entries@.len() && self.table.entries@[j].val == old(
                        self,
                    ).table.entries@[k].val;
                assert(pred(old(self).table.entries@[k].val));
            }
        }
    }
}

/// A well-formed chunk store abstracts to a finite family of finite
/// workspaces.
pub proof fn lemma_chunk_store_finite(cs: ChunkStore)
    requires
        cs.wf(),
    ensures
        cs@.dom().finite(),
        forall|n: Seq<char>| #[trigger] cs@.contains_key(n) ==> cs@[n].dom().finite(),
{
    let pred = |t: Table<Vec<u8>>| t.wf();
    crate::name_table::lemma_name_map_len(cs.table.entries@);
    assert forall|n: Seq<char>| #[trigger] cs@.contains_key(n) implies cs@[n].dom().finite() by {
        crate::name_table::lemma_name_map_contains(cs.table.entries@, n);
        let i = choose|i: int|
            0 <= i < cs.table.entries@.len() && cs.table.entries@[i].name@ == n;
        crate::name_table::lemma_name_map_index(cs.table.entries@, i);
        assert(pred(cs.table.entries@[i].val));
        crate::table::lemma_table_map_len(cs.table.entries@[i].val.entries@);
    }
}

/// The flat destination directory of assembled files, keyed by sanitized
/// file name; a second assembly under the same name replaces the first.
pub struct DestStore {
    pub table: NameTable<Vec<u8>>,
}

impl View for DestStore {
    type V = Map<Seq<char>, Seq<u8>>;

    open spec fn view(&self) -> Map<Seq<char>, Seq<u8>> {
        self.table@
    }
}

impl DestStore {
    /// Well-formedness: distinct file names.
    pub open spec fn wf(&self) -> bool {
        self.table.wf()
    }

    /// An empty destination directory.
    pub fn new() -> (r: Self)
        ensures
            r.wf(),
            r@ == Map::<Seq<char>, Seq<u8>>::empty(),
    {
        DestStore { table: NameTable::new() }
    }

    /// Write the assembled `bytes` under `name`, replacing any prior file.
    pub fn save(&mut self, name: &String, bytes: Vec<u8>)
        requires
            old(self).wf(),
        ensures
            final(self).wf(),
            final(self)@ =~= old(self)@.insert(name@, bytes@),
    {
        self.table.put(name.clone(), bytes);
    }

    /// The assembled file stored under `name`, if any.
    pub fn get(&self, name: &String) -> (r: Option<&Vec<u8>>)
        requires
            self.wf(),
        ensures
            match r {
                Some(b) => self@.contains_key(name@) && b@ == self@[name@],
                None => !self@.contains_key(name@),
            },
    {
        self.table.get(name)
    }
}

} // verus!
