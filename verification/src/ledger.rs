//! The upload ledger: the persistent record of every logical file and of the
//! upload progress of each file still being transferred.
//!
//! The ledger is the persistence collaborator of the orchestrator. Logical
//! files are keyed by an id the ledger allocates; a progress row exists only
//! for a file that exists and is deleted when the upload completes.

use crate::errors::UploadError;
use crate::table::Table;
use vstd::prelude::*;

verus! {

/// Whether a logical file has every chunk assembled and a duration, or is
/// still awaiting chunks.
#[derive(Clone, Copy, Debug, PartialEq, Eq, Structural)]
pub enum UploadStatus {
    Incomplete,
    Complete,
}

/// One audio upload, in progress or completed.
pub struct LogicalFile {
    /// The uploading user.
    pub owner: u64,
    /// The sanitized file name recorded when the file was created.
    pub file_name: String,
    /// `Complete` exactly once assembly and probing have succeeded.
    pub status: UploadStatus,
    /// The probed play duration; present only once `status` is `Complete`.
    pub duration_seconds: Option<i64>,
}

/// The abstraction of a `LogicalFile`.
#[verifier::ext_equal]
pub ghost struct FileView {
    pub owner: u64,
    pub name: Seq<char>,
    pub status: UploadStatus,
    pub duration_seconds: Option<i64>,
}

impl View for LogicalFile {
    type V = FileView;

    open spec fn view(&self) -> FileView {
        FileView {
            owner: self.owner,
            name: self.file_name@,
            status: self.status,
            duration_seconds: self.duration_seconds,
        }
    }
}

/// Upload progress of one logical file, one-to-one with it while incomplete.
pub struct UploadProgress {
    /// The chunk total most recently declared by the client.
    pub total_chunks: u32,
    /// Count of chunk-write attempts recorded for this file; it is not
    /// deduplicated by chunk index.
    pub uploaded_chunks: u64,
    /// Index of the most recently written chunk.
    pub current_chunk: u32,
    /// Name of the workspace holding this file's unassembled chunks.
    pub workspace: String,
    /// `Complete` when the most recent chunk carried the last declared
    /// index; this reflects the index reached, not the chunks present.
    pub status: UploadStatus,
}

/// The abstraction of an `UploadProgress` row.
#[verifier::ext_equal]
pub ghost struct ProgressView {
    pub total_chunks: u32,
    pub uploaded_chunks: u64,
    pub current_chunk: u32,
    pub workspace: Seq<char>,
    pub status: UploadStatus,
}

impl View for UploadProgress {
    type V = ProgressView;

    open spec fn view(&self) -> ProgressView {
        ProgressView {
            total_chunks: self.total_chunks,
            uploaded_chunks: self.uploaded_chunks,
            current_chunk: self.current_chunk,
            workspace: self.workspace@,
            status: self.status,
        }
    }
}

/// One row of the incomplete-uploads listing: a user's file still awaiting
/// chunks, joined with its progress.
pub struct IncompleteTrackInfo {
    pub track_id: u64,
    pub file_name: String,
    pub total_chunks: u32,
    pub uploaded_chunks: u64,
    pub current_chunk: u32,
}

/// The abstraction of an `IncompleteTrackInfo` row.
#[verifier::ext_equal]
pub ghost struct IncompleteInfoView {
    pub track_id: u64,
    pub name: Seq<char>,
    pub total_chunks: u32,
    pub uploaded_chunks: u64,
    pub current_chunk: u32,
}

impl View for IncompleteTrackInfo {
    type V = IncompleteInfoView;

    open spec fn view(&self) -> IncompleteInfoView {
        IncompleteInfoView {
            track_id: self.track_id,
            name: self.file_name@,
            total_chunks: self.total_chunks,
            uploaded_chunks: self.uploaded_chunks,
            current_chunk: self.current_chunk,
        }
    }
}

/// The abstraction of the whole ledger.
#[verifier::ext_equal]
pub ghost struct LedgerView {
    pub files: Map<u64, FileView>,
    pub progress: Map<u64, ProgressView>,
    pub next_id: u64,
}

/// The record created for a fresh logical file.
pub open spec fn new_file_view(owner: u64, name: Seq<char>) -> FileView {
    FileView { owner, name, status: UploadStatus::Incomplete, duration_seconds: None }
}

/// `f` moved to its terminal state with duration `seconds`.
pub open spec fn finalized_view(f: FileView, seconds: i64) -> FileView {
    FileView {
        owner: f.owner,
        name: f.name,
        status: UploadStatus::Complete,
        duration_seconds: Some(seconds),
    }
}

/// Whether file `id` belongs to user `user`'s incomplete-uploads listing:
/// an incomplete file of that user that still has a progress row.
pub open spec fn listed_incomplete(led: LedgerView, user: u64, id: u64) -> bool {
    &&& led.files.contains_key(id)
    &&& led.files[id].owner == user
    &&& led.files[id].status == UploadStatus::Incomplete
    &&& led.progress.contains_key(id)
}

/// Whether `id` is the key of one of the first `k` table entries.
pub open spec fn id_among_first(entries: Seq<crate::table::TableEntry<LogicalFile>>, k: int, id: u64) -> bool {
    exists|t: int| 0 <= t < k && entries[t].key == id
}

/// Whether one listing row faithfully reports the ledger's data for its id.
pub open spec fn info_matches(led: LedgerView, user: u64, it: IncompleteInfoView) -> bool {
    &&& listed_incomplete(led, user, it.track_id)
    &&& it.name == led.files[it.track_id].name
    &&& it.total_chunks == led.progress[it.track_id].total_chunks
    &&& it.uploaded_chunks == led.progress[it.track_id].uploaded_chunks
    &&& it.current_chunk == led.progress[it.track_id].current_chunk
}

/// The ledger: logical files and progress rows, keyed by file id.
pub struct Ledger {
    pub files: Table<LogicalFile>,
    pub progress: Table<UploadProgress>,
    pub next_id: u64,
}

impl View for Ledger {
    type V = LedgerView;

    open spec fn view(&self) -> LedgerView {
        LedgerView { files: self.files@, progress: self.progress@, next_id: self.next_id }
    }
}

impl Ledger {
    /// Well-formedness: distinct keys, progress rows only for existing
    /// files, and every allocated id below the allocation horizon.
    pub open spec fn wf(&self) -> bool {
        &&& self.files.wf()
        &&& self.progress.wf()
        &&& forall|id: u64|
            #[trigger] self@.progress.contains_key(id) ==> self@.files.contains_key(id)
        &&& forall|id: u64| #[trigger] self@.files.contains_key(id) ==> id < self@.next_id
    }

    /// An empty ledger.
    pub fn new() -> (r: Self)
        ensures
            r.wf(),
            r@.files == Map::<u64, FileView>::empty(),
            r@.progress == Map::<u64, ProgressView>::empty(),
            r@.next_id == 0,
    {
        Ledger { files: Table::new(), progress: Table::new(), next_id: 0 }
    }

    /// An empty ledger that will allocate ids starting at `first_id`; for
    /// resuming after a restart without reusing ids handed out before it.
    pub fn resuming_at(first_id: u64) -> (r: Self)
        ensures
            r.wf(),
            r@.files == Map::<u64, FileView>::empty(),
            r@.progress == Map::<u64, ProgressView>::empty(),
            r@.next_id == first_id,
    {
        Ledger { files: Table::new(), progress: Table::new(), next_id: first_id }
    }

    /// Create the record of a new logical file and return its fresh id.
    /// Fails only when the id space is exhausted.
    pub fn create_logical_file(&mut self, owner: u64, file_name: String) -> (r: Result<
        u64,
        UploadError,
    >)
        requires
            old(self).wf(),
        ensures
            final(self).wf(),
            old(self)@.next_id == u64::MAX ==> r == Err::<u64, UploadError>(
                UploadError::PersistenceFailure,
            ) && final(self)@ == old(self)@,
            old(self)@.next_id < u64::MAX ==> {
                &&& r == Ok::<u64, UploadError>(old(self)@.next_id)
                &&& !old(self)@.files.contains_key(old(self)@.next_id)
                &&& final(self)@.files =~= old(self)@.files.insert(
                    old(self)@.next_id,
                    new_file_view(owner, file_name@),
                )
                &&& final(self)@.progress == old(self)@.progress
                &&& final(self)@.next_id == old(self)@.next_id + 1
            },
    {
        if self.next_id == u64::MAX {
            return Err(UploadError::PersistenceFailure);
        }
        let id = self.next_id;
        self.next_id = self.next_id + 1;
        self.files.upsert(
            id,
            LogicalFile {
                owner,
                file_name,
                status: UploadStatus::Incomplete,
                duration_seconds: None,
            },
        );
        proof {
            assert forall|j: u64| #[trigger] self@.progress.contains_key(j) implies self@
                .files.contains_key(j) by {
                assert(old(self)@.progress.contains_key(j));
                assert(old(self)@.files.contains_key(j));
            }
            assert forall|j: u64| #[trigger] self@.files.contains_key(j) implies j < self@
                .next_id by {
                if j != id {
                    assert(old(self)@.files.contains_key(j));
                }
            }
        }
        Ok(id)
    }

    /// The logical file with id `id`, if any.
    pub fn get_file(&self, id: u64) -> (r: Option<&LogicalFile>)
        requires
            self.wf(),
        ensures
            match r {
                Some(f) => self@.files.contains_key(id) && f@ == self@.files[id],
                None => !self@.files.contains_key(id),
            },
    {
        self.files.get(id)
    }

    /// The progress row of file `id`, if any.
    pub fn get_progress(&self, id: u64) -> (r: Option<&UploadProgress>)
        requires
            self.wf(),
        ensures
            match r {
                Some(p) => self@.progress.contains_key(id) && p@ == self@.progress[id],
                None => !self@.progress.contains_key(id),
            },
    {
        self.progress.get(id)
    }

    /// Insert or replace the progress row of file `id`.
    pub fn upsert_progress(&mut self, id: u64, p: UploadProgress)
        requires
            old(self).wf(),
            old(self)@.files.contains_key(id),
        ensures
            final(self).wf(),
            final(self)@.progress =~= old(self)@.progress.insert(id, p@),
            final(self)@.files == old(self)@.files,
            final(self)@.next_id == old(self)@.next_id,
    {
        self.progress.upsert(id, p);
        proof {
            assert forall|j: u64| #[trigger] self@.progress.contains_key(j) implies self@
                .files.contains_key(j) by {
                if j != id {
                    assert(old(self)@.progress.contains_key(j));
                }
            }
        }
    }

    /// Move file `id` to `Complete` with the probed duration. The progress
    /// row is deleted separately, after this status write.
    pub fn finalize(&mut self, id: u64, duration_seconds: i64)
        requires
            old(self).wf(),
            old(self)@.files.contains_key(id),
        ensures
            final(self).wf(),
            final(self)@.files =~= old(self)@.files.insert(
                id,
                finalized_view(old(self)@.files[id], duration_seconds),
            ),
            final(self)@.progress == old(self)@.progress,
            final(self)@.next_id == old(self)@.next_id,
    {
        let f = self.files.take(id);
        match f {
            Some(f) => {
                self.files.upsert(
                    id,
                    LogicalFile {
                        owner: f.owner,
                        file_name: f.file_name,
                        status: UploadStatus::Complete,
                        duration_seconds: Some(duration_seconds),
                    },
                );
            },
            None => {
                proof {
                    assert(false);
                }
            },
        }
        proof {
            assert forall|j: u64| #[trigger] self@.progress.contains_key(j) implies self@
                .files.contains_key(j) by {
                assert(old(self)@.progress.contains_key(j));
                assert(old(self)@.files.contains_key(j));
            }
            assert forall|j: u64| #[trigger] self@.files.contains_key(j) implies j < self@
                .next_id by {
                assert(old(self)@.files.contains_key(j));
            }
        }
    }

    /// The incomplete uploads of user `user_id`: one row for each of the
    /// user's files that is still `Incomplete` and has a progress row,
    /// each reporting the ledger's data for its id, with no id repeated.
    #[verifier::rlimit(50)]
    pub fn get_incomplete_uploads(&self, user_id: u64) -> (r: Vec<IncompleteTrackInfo>)
        requires
            self.wf(),
        ensures
            forall|j: int| 0 <= j < r@.len() ==> info_matches(self@, user_id, #[trigger] r@[j]@),
            forall|id: u64|
                #[trigger] listed_incomplete(self@, user_id, id) ==> exists|j: int|
                    0 <= j < r@.len() && r@[j]@.track_id == id,
            forall|j1: int, j2: int|
                0 <= j1 < j2 < r@.len() ==> r@[j1]@.track_id != r@[j2]@.track_id,
    {
        let ghost entries = self.files.entries@;
        let mut out: Vec<IncompleteTrackInfo> = Vec::new();
        let n = self.files.len();
        for i in 0..n
            invariant
                self.wf(),
                n == entries.len(),
                entries == self.files.entries@,
                forall|j: int|
                    0 <= j < out@.len() ==> info_matches(self@, user_id, #[trigger] out@[j]@),
                forall|t: int|
                    0 <= t < i ==> (listed_incomplete(self@, user_id, #[trigger] entries[t].key)
                        ==> exists|j: int|
                        0 <= j < out@.len() && out@[j]@.track_id == entries[t].key),
                forall|j: int|
                    0 <= j < out@.len() ==> id_among_first(
                        entries,
                        i as int,
                        #[trigger] out@[j]@.track_id,
                    ),
                forall|j1: int, j2: int|
                    0 <= j1 < j2 < out@.len() ==> out@[j1]@.track_id != out@[j2]@.track_id,
        {
            let (fid, f) = self.files.entry_at(i);
            let ghost out0 = out@;
            let mut pushed = false;
            if f.owner == user_id && f.status == UploadStatus::Incomplete {
                match self.progress.get(fid) {
                    Some(p) => {
                        out.push(
                            IncompleteTrackInfo {
                                track_id: fid,
                                file_name: f.file_name.clone(),
                                total_chunks: p.total_chunks,
                                uploaded_chunks: p.uploaded_chunks,
                                current_chunk: p.current_chunk,
                            },
                        );
                        pushed = true;
                    },
                    None => {},
                }
            }
            proof {
                assert forall|j: int| 0 <= j < out@.len() implies id_among_first(
                    entries,
                    i + 1,
                    #[trigger] out@[j]@.track_id,
                ) by {
                    if j < out0.len() {
                        assert(id_among_first(entries, i as int, out@[j]@.track_id));
                        let t = choose|t: int| 0 <= t < i && entries[t].key == out@[j]@.track_id;
                        assert(0 <= t < i + 1 && entries[t].key == out@[j]@.track_id);
                    } else {
                        assert(out@[j]@.track_id == entries[i as int].key);
                        assert(0 <= i < i + 1 && entries[i as int].key == out@[j]@.track_id);
                    }
                }
                assert forall|j: int| 0 <= j < out@.len() implies info_matches(
                    self@,
                    user_id,
                    #[trigger] out@[j]@,
                ) by {
                    if j < out0.len() {
                        assert(out@[j]@ == out0[j]@);
                    }
                }
                assert forall|j1: int, j2: int|
                    0 <= j1 < j2 < out@.len() implies out@[j1]@.track_id
                    != out@[j2]@.track_id by {
                    if j2 == out@.len() - 1 && out@.len() > out0.len() {
                        assert(id_among_first(entries, i as int, out0[j1]@.track_id));
                        let t = choose|t: int|
                            0 <= t < i && entries[t].key == out0[j1]@.track_id;
                        assert(entries[t].key != entries[i as int].key);
                        assert(out@[j2]@.track_id == entries[i as int].key);
                    }
                }
                assert forall|t: int|
                    0 <= t < i + 1 implies (listed_incomplete(
                    self@,
                    user_id,
                    #[trigger] entries[t].key,
                ) ==> exists|j: int|
                    0 <= j < out@.len() && out@[j]@.track_id == entries[t].key) by {
                    if t < i {
                        if listed_incomplete(self@, user_id, entries[t].key) {
                            let j = choose|j: int|
                                0 <= j < out0.len() && out0[j]@.track_id == entries[t].key;
                            assert(out@[j]@.track_id == entries[t].key);
                        }
                    } else {
                        if listed_incomplete(self@, user_id, entries[t].key) {
                            assert(pushed);
                            assert(out@[out@.len() - 1]@.track_id == entries[i as int].key);
                        }
                    }
                }
            }
        }
        proof {
            crate::table::lemma_table_map_contains(entries, 0);
            assert forall|id: u64| #[trigger] listed_incomplete(self@, user_id, id) implies exists|
                j: int,
            | 0 <= j < out@.len() && out@[j]@.track_id == id by {
                crate::table::lemma_table_map_contains(entries, id);
                let t = choose|t: int| 0 <= t < entries.len() && entries[t].key == id;
                assert(listed_incomplete(self@, user_id, entries[t].key));
            }
        }
        out
    }

    /// Delete the progress row of file `id`, if present.
    pub fn delete_progress(&mut self, id: u64)
        requires
            old(self).wf(),
        ensures
            final(self).wf(),
            final(self)@.progress =~= old(self)@.progress.remove(id),
            final(self)@.files == old(self)@.files,
            final(self)@.next_id == old(self)@.next_id,
    {
        self.progress.remove(id);
        proof {
            assert forall|j: u64| #[trigger] self@.progress.contains_key(j) implies self@
                .files.contains_key(j) by {
                assert(old(self)@.progress.contains_key(j));
                assert(old(self)@.files.contains_key(j));
            }
            assert forall|j: u64| #[trigger] self@.files.contains_key(j) implies j < self@
                .next_id by {
                assert(old(self)@.files.contains_key(j));
            }
        }
    }
}

} // verus!
