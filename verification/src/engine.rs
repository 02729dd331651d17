//! The upload orchestrator.
//!
//! One chunk submission is handled by `submit_chunk`: the name is
//! sanitized, the request validated, the chunk persisted, the ledger
//! updated, and — when the completion detector fires — the chunks are
//! assembled in index order to the destination. The caller then runs the
//! duration probe on the assembled bytes (decoder libraries can abort on
//! hostile input, so that call stays outside the engine) and hands its
//! result, as plain values, to `apply_probe_result`, which finalizes the
//! logical file. Both steps are specified as transition functions on the
//! engine's abstraction and verified to implement them exactly.

use crate::errors::UploadError;
use crate::ledger::new_file_view;
use crate::ledger::finalized_view;
use crate::ledger::Ledger;
use crate::ledger::LedgerView;
use crate::ledger::LogicalFile;
use crate::ledger::ProgressView;
use crate::ledger::UploadProgress;
use crate::ledger::UploadStatus;
use crate::probe::duration_secs_spec;
use crate::probe::duration_seconds;
use crate::sanitize::sanitize_filename;
use crate::sanitize::sanitize_spec;
use crate::store::chunks_in;
use crate::store::ChunkStore;
use crate::store::DestStore;
use vstd::prelude::*;

verus! {

/// The abstraction of the whole engine: the ledger, the chunk workspaces,
/// and the destination directory.
#[verifier::ext_equal]
pub ghost struct EngineView {
    pub ledger: LedgerView,
    pub workspaces: Map<Seq<char>, Map<u64, Seq<u8>>>,
    pub dest: Map<Seq<char>, Seq<u8>>,
}

/// The successful outcome of one chunk submission.
#[derive(Clone, Copy, Debug, PartialEq, Eq, Structural)]
pub enum SubmitOutcome {
    /// The chunk was recorded; the upload is not yet complete.
    Accepted { track_id: u64 },
    /// The count check fired and the chunks were assembled to the
    /// destination; the file now awaits its duration probe.
    Assembled { track_id: u64 },
}

impl SubmitOutcome {
    /// The logical-file id the outcome reports.
    pub open spec fn spec_track_id(self) -> u64 {
        match self {
            SubmitOutcome::Accepted { track_id } => track_id,
            SubmitOutcome::Assembled { track_id } => track_id,
        }
    }

    /// The logical-file id the outcome reports.
    pub fn track_id(&self) -> (r: u64)
        ensures
            r == self.spec_track_id(),
    {
        match self {
            SubmitOutcome::Accepted { track_id } => *track_id,
            SubmitOutcome::Assembled { track_id } => *track_id,
        }
    }
}

/// Every chunk index `0..total` is present in the workspace.
pub open spec fn all_chunks_present(ws: Map<u64, Seq<u8>>, total: u32) -> bool {
    forall|i: u64| i < total ==> ws.contains_key(i)
}

/// Chunks `0..n` concatenated in ascending index order. A missing index
/// contributes nothing; assembly fails before that case matters.
pub open spec fn concat_chunks(ws: Map<u64, Seq<u8>>, n: int) -> Seq<u8>
    decreases n,
{
    if n <= 0 {
        Seq::empty()
    } else {
        concat_chunks(ws, n - 1) + (if ws.contains_key((n - 1) as u64) {
            ws[(n - 1) as u64]
        } else {
            Seq::empty()
        })
    }
}

/// The write-attempt counter recorded for the referenced file before this
/// submission: the existing row's counter, else zero.
pub open spec fn attempts_before(led: LedgerView, track_id: Option<u64>) -> u64 {
    match track_id {
        Some(id) => if led.progress.contains_key(id) {
            led.progress[id].uploaded_chunks
        } else {
            0
        },
        None => 0,
    }
}

/// The counter after one more write attempt; it saturates rather than wrap.
pub open spec fn bump(a: u64) -> u64 {
    if a == u64::MAX {
        a
    } else {
        (a + 1) as u64
    }
}

/// The progress row written for a submission: the declared total, the
/// attempt counter, the index just written, and a status that records
/// whether the last declared index has been reached — not whether every
/// index is present.
pub open spec fn progress_after(name: Seq<char>, idx: u32, total: u32, attempts: u64) -> ProgressView {
    ProgressView {
        total_chunks: total,
        uploaded_chunks: attempts,
        current_chunk: idx,
        workspace: name,
        status: if idx == total - 1 {
            UploadStatus::Complete
        } else {
            UploadStatus::Incomplete
        },
    }
}

/// The chunk write, the ledger update, the count-based completion check,
/// and — when it fires — assembly, probing, and finalization.
pub open spec fn store_and_detect(
    pre: EngineView,
    id: u64,
    name: Seq<char>,
    idx: u32,
    total: u32,
    attempts: u64,
    payload: Seq<u8>,
) -> (EngineView, Result<SubmitOutcome, UploadError>) {
    let ws = chunks_in(pre.workspaces, name).insert(idx as u64, payload);
    let written = EngineView {
        ledger: LedgerView {
            files: pre.ledger.files,
            progress: pre.ledger.progress.insert(id, progress_after(name, idx, total, attempts)),
            next_id: pre.ledger.next_id,
        },
        workspaces: pre.workspaces.insert(name, ws),
        dest: pre.dest,
    };
    if ws.dom().len() == total {
        if all_chunks_present(ws, total) {
            let bytes = concat_chunks(ws, total as int);
            let assembled = EngineView {
                ledger: written.ledger,
                workspaces: written.workspaces.remove(name),
                dest: written.dest.insert(name, bytes),
            };
            (assembled, Ok(SubmitOutcome::Assembled { track_id: id }))
        } else {
            (written, Err(UploadError::AssemblyIoError))
        }
    } else {
        (written, Ok(SubmitOutcome::Accepted { track_id: id }))
    }
}

/// One chunk submission as a transition on the engine's abstraction: the
/// post-state and the response determined by the pre-state and the request.
pub open spec fn submit_transition(
    pre: EngineView,
    user: u64,
    raw_name: Seq<char>,
    chunk_index: u32,
    total_chunks: u32,
    track_id: Option<u64>,
    payload: Seq<u8>,
) -> (EngineView, Result<SubmitOutcome, UploadError>) {
    let name = sanitize_spec(raw_name);
    if name.len() == 0 {
        (pre, Err(UploadError::EmptyFileName))
    } else if payload.len() == 0 {
        (pre, Err(UploadError::EmptyPayload))
    } else {
        let attempts = bump(attempts_before(pre.ledger, track_id));
        if chunk_index == 0 {
            if pre.ledger.next_id == u64::MAX {
                (pre, Err(UploadError::PersistenceFailure))
            } else {
                let id = pre.ledger.next_id;
                let created = EngineView {
                    ledger: LedgerView {
                        files: pre.ledger.files.insert(id, new_file_view(user, name)),
                        progress: pre.ledger.progress,
                        next_id: (id + 1) as u64,
                    },
                    workspaces: pre.workspaces,
                    dest: pre.dest,
                };
                store_and_detect(created, id, name, chunk_index, total_chunks, attempts, payload)
            }
        } else {
            match track_id {
                None => (pre, Err(UploadError::MissingTrackReference)),
                Some(id) => if !pre.ledger.files.contains_key(id) {
                    (pre, Err(UploadError::PersistenceFailure))
                } else {
                    store_and_detect(pre, id, name, chunk_index, total_chunks, attempts, payload)
                },
            }
        }
    }
}

/// Finalization of an assembled file from the caller-run probe's result:
/// `Some((frames, numer, denom))` with a positive denominator yields the
/// truncated duration and moves the file to its terminal state, deleting
/// its progress row; anything else is unprobeable media and changes
/// nothing — the stuck state in which the assembled file exists but the
/// logical file stays `Incomplete`.
pub open spec fn probe_transition(
    pre: EngineView,
    id: u64,
    probe: Option<(u64, u32, u32)>,
) -> (EngineView, Result<i64, UploadError>) {
    if !pre.ledger.files.contains_key(id) {
        (pre, Err(UploadError::PersistenceFailure))
    } else {
        match probe {
            None => (pre, Err(UploadError::UnprobeableMedia)),
            Some(params) => if params.2 == 0 {
                (pre, Err(UploadError::UnprobeableMedia))
            } else {
                let d = duration_secs_spec(params.0, params.1, params.2);
                let finalized = EngineView {
                    ledger: LedgerView {
                        files: pre.ledger.files.insert(id, finalized_view(pre.ledger.files[id], d)),
                        progress: pre.ledger.progress.remove(id),
                        next_id: pre.ledger.next_id,
                    },
                    workspaces: pre.workspaces,
                    dest: pre.dest,
                };
                (finalized, Ok(d))
            },
        }
    }
}

/// The resumable chunked-upload and assembly engine.
pub struct UploadEngine {
    pub ledger: Ledger,
    pub chunks: ChunkStore,
    pub dest: DestStore,
}

impl View for UploadEngine {
    type V = EngineView;

    open spec fn view(&self) -> EngineView {
        EngineView { ledger: self.ledger@, workspaces: self.chunks@, dest: self.dest@ }
    }
}

impl UploadEngine {
    /// Well-formedness of the engine's three stores.
    pub open spec fn wf(&self) -> bool {
        &&& self.ledger.wf()
        &&& self.chunks.wf()
        &&& self.dest.wf()
    }

    /// A fresh engine with nothing uploaded.
    pub fn new() -> (r: Self)
        ensures
            r.wf(),
            r@.ledger.files == Map::<u64, crate::ledger::FileView>::empty(),
            r@.ledger.progress == Map::<u64, ProgressView>::empty(),
            r@.ledger.next_id == 0,
            r@.workspaces == Map::<Seq<char>, Map<u64, Seq<u8>>>::empty(),
            r@.dest == Map::<Seq<char>, Seq<u8>>::empty(),
    {
        UploadEngine { ledger: Ledger::new(), chunks: ChunkStore::new(), dest: DestStore::new() }
    }

    /// A fresh engine that allocates ids starting at `first_id`, for
    /// resuming service after a restart without reusing earlier ids.
    pub fn resuming_at(first_id: u64) -> (r: Self)
        ensures
            r.wf(),
            r@.ledger.files == Map::<u64, crate::ledger::FileView>::empty(),
            r@.ledger.progress == Map::<u64, ProgressView>::empty(),
            r@.ledger.next_id == first_id,
            r@.workspaces == Map::<Seq<char>, Map<u64, Seq<u8>>>::empty(),
            r@.dest == Map::<Seq<char>, Seq<u8>>::empty(),
    {
        UploadEngine {
            ledger: Ledger::resuming_at(first_id),
            chunks: ChunkStore::new(),
            dest: DestStore::new(),
        }
    }

    /// The completion detector: the workspace exists and holds exactly
    /// `total_chunks` entries. A count-based check: it cannot tell every
    /// index apart from a stale or out-of-range entry making up the number.
    pub fn is_upload_complete(&self, workspace_name: &String, total_chunks: u32) -> (r: bool)
        requires
            self.wf(),
        ensures
            r == (self@.workspaces.contains_key(workspace_name@)
                && chunks_in(self@.workspaces, workspace_name@).dom().len() == total_chunks),
    {
        let n = self.chunks.chunk_count(workspace_name);
        if self.chunks.has_workspace(workspace_name) {
            n == total_chunks as usize
        } else {
            false
        }
    }

    /// Read chunks `0..total_chunks` of the workspace in ascending index
    /// order and return their concatenation; a missing index fails the
    /// assembly.
    pub fn read_all_chunks_in_order(&self, workspace_name: &String, total_chunks: u32) -> (r:
        Result<Vec<u8>, UploadError>)
        requires
            self.wf(),
        ensures
            match r {
                Ok(b) => all_chunks_present(chunks_in(self@.workspaces, workspace_name@), total_chunks)
                    && b@ == concat_chunks(
                    chunks_in(self@.workspaces, workspace_name@),
                    total_chunks as int,
                ),
                Err(e) => e == UploadError::AssemblyIoError && !all_chunks_present(
                    chunks_in(self@.workspaces, workspace_name@),
                    total_chunks,
                ),
            },
    {
        let ghost ws = chunks_in(self@.workspaces, workspace_name@);
        let mut out: Vec<u8> = Vec::new();
        let mut i: u32 = 0;
        while i < total_chunks
            invariant
                self.wf(),
                i <= total_chunks,
                ws == chunks_in(self@.workspaces, workspace_name@),
                forall|j: u64| j < i ==> ws.contains_key(j),
                out@ == concat_chunks(ws, i as int),
            decreases total_chunks - i,
        {
            match self.chunks.get_chunk(workspace_name, i as u64) {
                None => {
                    proof {
                        assert(!ws.contains_key(i as u64));
                    }
                    return Err(UploadError::AssemblyIoError);
                },
                Some(c) => {
                    let ghost out0 = out@;
                    let mut k: usize = 0;
                    while k < c.len()
                        invariant
                            k <= c@.len(),
                            out@ == out0 + c@.subrange(0, k as int),
                        decreases c@.len() - k,
                    {
                        proof {
                            assert(c@.subrange(0, k + 1) =~= c@.subrange(0, k as int).push(
                                c@[k as int],
                            ));
                        }
                        out.push(c[k]);
                        k = k + 1;
                    }
                    proof {
                        assert(c@.subrange(0, c@.len() as int) =~= c@);
                        assert(ws.contains_key(i as u64) && ws[i as u64] == c@);
                        assert(out@ == concat_chunks(ws, i as int + 1));
                    }
                },
            }
            i = i + 1;
        }
        Ok(out)
    }

    /// Accept one chunk submission and drive it to its outcome, exactly as
    /// `submit_transition` describes: validation, chunk write, ledger
    /// update, completion detection, and — on completion — assembly to the
    /// destination. An `Assembled` outcome asks the caller to probe the
    /// assembled bytes and hand the result to `apply_probe_result`.
    pub fn submit_chunk(
        &mut self,
        user_id: u64,
        file_name: &str,
        chunk_index: u32,
        total_chunks: u32,
        track_id: Option<u64>,
        payload: Vec<u8>,
    ) -> (r: Result<SubmitOutcome, UploadError>)
        requires
            old(self).wf(),
            total_chunks >= 1,
        ensures
            final(self).wf(),
            final(self)@ == submit_transition(
                old(self)@,
                user_id,
                file_name@,
                chunk_index,
                total_chunks,
                track_id,
                payload@,
            ).0,
            r == submit_transition(
                old(self)@,
                user_id,
                file_name@,
                chunk_index,
                total_chunks,
                track_id,
                payload@,
            ).1,
    {
        let name = sanitize_filename(file_name);
        if name.as_str().is_empty() {
            return Err(UploadError::EmptyFileName);
        }
        if payload.len() == 0 {
            return Err(UploadError::EmptyPayload);
        }
        let attempts_recorded: u64 = match track_id {
            Some(tid) => match self.ledger.get_progress(tid) {
                Some(p) => p.uploaded_chunks,
                None => 0,
            },
            None => 0,
        };
        let attempts: u64 = if attempts_recorded == u64::MAX {
            attempts_recorded
        } else {
            attempts_recorded + 1
        };
        let id: u64;
        if chunk_index == 0 {
            match self.ledger.create_logical_file(user_id, name.clone()) {
                Ok(new_id) => {
                    id = new_id;
                },
                Err(e) => {
                    return Err(e);
                },
            }
        } else {
            match track_id {
                None => {
                    return Err(UploadError::MissingTrackReference);
                },
                Some(tid) => {
                    match self.ledger.get_file(tid) {
                        Some(_) => {
                            id = tid;
                        },
                        None => {
                            return Err(UploadError::PersistenceFailure);
                        },
                    }
                },
            }
        }
        let ghost created = self@;
        self.chunks.write_chunk(&name, chunk_index as u64, payload);
        let status = if chunk_index == total_chunks - 1 {
            UploadStatus::Complete
        } else {
            UploadStatus::Incomplete
        };
        self.ledger.upsert_progress(
            id,
            UploadProgress {
                total_chunks,
                uploaded_chunks: attempts,
                current_chunk: chunk_index,
                workspace: name.clone(),
                status,
            },
        );
        if !self.is_upload_complete(&name, total_chunks) {
            proof {
                assert(self@ =~~= store_and_detect(
                    created,
                    id,
                    name@,
                    chunk_index,
                    total_chunks,
                    attempts,
                    payload@,
                ).0);
            }
            return Ok(SubmitOutcome::Accepted { track_id: id });
        }
        let assembled_bytes = match self.read_all_chunks_in_order(&name, total_chunks) {
            Ok(b) => b,
            Err(e) => {
                proof {
                    assert(self@ =~~= store_and_detect(
                        created,
                        id,
                        name@,
                        chunk_index,
                        total_chunks,
                        attempts,
                        payload@,
                    ).0);
                }
                return Err(e);
            },
        };
        self.dest.save(&name, assembled_bytes);
        self.chunks.remove_workspace(&name);
        proof {
            assert(self@ =~~= store_and_detect(
                created,
                id,
                name@,
                chunk_index,
                total_chunks,
                attempts,
                payload@,
            ).0);
        }
        Ok(SubmitOutcome::Assembled { track_id: id })
    }

    /// Finalize an assembled file from the probe result the caller
    /// obtained, exactly as `probe_transition` describes: a frame count
    /// and a usable time base yield the truncated duration, move the file
    /// to `Complete`, and delete its progress row; no result, or a zero
    /// time-base denominator, is unprobeable media and leaves every record
    /// as it was.
    pub fn apply_probe_result(&mut self, track_id: u64, probe: Option<(u64, u32, u32)>) -> (r:
        Result<i64, UploadError>)
        requires
            old(self).wf(),
        ensures
            final(self).wf(),
            final(self)@ == probe_transition(old(self)@, track_id, probe).0,
            r == probe_transition(old(self)@, track_id, probe).1,
    {
        let known = self.ledger.get_file(track_id).is_some();
        if !known {
            return Err(UploadError::PersistenceFailure);
        }
        match probe {
            None => Err(UploadError::UnprobeableMedia),
            Some((frames, numer, denom)) => {
                if denom == 0 {
                    return Err(UploadError::UnprobeableMedia);
                }
                let d = duration_seconds(frames, numer, denom);
                self.ledger.finalize(track_id, d);
                self.ledger.delete_progress(track_id);
                proof {
                    assert(self@ =~~= probe_transition(old(self)@, track_id, probe).0);
                }
                Ok(d)
            },
        }
    }

    /// The logical file with id `id`, if any.
    pub fn get_file(&self, id: u64) -> (r: Option<&LogicalFile>)
        requires
            self.wf(),
        ensures
            match r {
                Some(f) => self@.ledger.files.contains_key(id) && f@ == self@.ledger.files[id],
                None => !self@.ledger.files.contains_key(id),
            },
    {
        self.ledger.get_file(id)
    }

    /// The progress row of file `id`, if any.
    pub fn get_progress(&self, id: u64) -> (r: Option<&UploadProgress>)
        requires
            self.wf(),
        ensures
            match r {
                Some(p) => self@.ledger.progress.contains_key(id) && p@ == self@.ledger.progress[id],
                None => !self@.ledger.progress.contains_key(id),
            },
    {
        self.ledger.get_progress(id)
    }

    /// The incomplete uploads of user `user_id`: one faithful row for each
    /// of the user's files still awaiting chunks, no id repeated.
    pub fn get_incomplete_uploads(&self, user_id: u64) -> (r: Vec<
        crate::ledger::IncompleteTrackInfo,
    >)
        requires
            self.wf(),
        ensures
            forall|j: int|
                0 <= j < r@.len() ==> crate::ledger::info_matches(
                    self@.ledger,
                    user_id,
                    #[trigger] r@[j]@,
                ),
            forall|id: u64|
                #[trigger] crate::ledger::listed_incomplete(self@.ledger, user_id, id)
                    ==> exists|j: int| 0 <= j < r@.len() && r@[j]@.track_id == id,
            forall|j1: int, j2: int|
                0 <= j1 < j2 < r@.len() ==> r@[j1]@.track_id != r@[j2]@.track_id,
    {
        self.ledger.get_incomplete_uploads(user_id)
    }

    /// The assembled file stored under `name`, if any.
    pub fn assembled_file(&self, name: &String) -> (r: Option<&Vec<u8>>)
        requires
            self.wf(),
        ensures
            match r {
                Some(b) => self@.dest.contains_key(name@) && b@ == self@.dest[name@],
                None => !self@.dest.contains_key(name@),
            },
    {
        self.dest.get(name)
    }

    /// The bytes currently stored as chunk `index` of workspace `name`.
    pub fn workspace_chunk(&self, name: &String, index: u64) -> (r: Option<&Vec<u8>>)
        requires
            self.wf(),
        ensures
            match r {
                Some(b) => self@.workspaces.contains_key(name@)
                    && self@.workspaces[name@].contains_key(index)
                    && b@ == self@.workspaces[name@][index],
                None => !(self@.workspaces.contains_key(name@)
                    && self@.workspaces[name@].contains_key(index)),
            },
    {
        self.chunks.get_chunk(name, index)
    }
}

} // verus!
