//! Laws of the upload engine, proved once over the transition functions.
//!
//! Each law is stated over `submit_transition` or `probe_transition`, which
//! `submit_chunk` and `apply_probe_result` are verified to implement
//! exactly, so each holds of every run of the engine.

use crate::engine::all_chunks_present;
use crate::engine::bump;
use crate::engine::concat_chunks;
use crate::engine::probe_transition;
use crate::engine::progress_after;
use crate::engine::submit_transition;
use crate::engine::EngineView;
use crate::engine::SubmitOutcome;
use crate::engine::UploadEngine;
use crate::errors::UploadError;
use crate::ledger::new_file_view;
use crate::ledger::UploadStatus;
use crate::probe::duration_secs_spec;
use crate::probe::lemma_duration_nonneg;
use crate::sanitize::sanitize_spec;
use crate::store::chunks_in;
use crate::store::lemma_chunk_store_finite;
use vstd::prelude::*;

verus! {

/// Well-formedness of an engine abstraction: progress rows belong to
/// existing files, allocated ids lie below the allocation horizon, and the
/// workspace family is finite.
pub open spec fn view_wf(v: EngineView) -> bool {
    &&& forall|id: u64|
        #[trigger] v.ledger.progress.contains_key(id) ==> v.ledger.files.contains_key(id)
    &&& forall|id: u64| #[trigger] v.ledger.files.contains_key(id) ==> id < v.ledger.next_id
    &&& v.workspaces.dom().finite()
    &&& forall|n: Seq<char>|
        #[trigger] v.workspaces.contains_key(n) ==> v.workspaces[n].dom().finite()
}

/// A well-formed engine has a well-formed abstraction, so every law below
/// applies to it.
pub proof fn lemma_engine_view_wf(e: &UploadEngine)
    requires
        e.wf(),
    ensures
        view_wf(e@),
{
    lemma_chunk_store_finite(e.chunks);
}

/// The payloads `ps[0..n]` concatenated in index order.
pub open spec fn concat_payloads(ps: Seq<Seq<u8>>, n: int) -> Seq<u8>
    decreases n,
{
    if n <= 0 {
        Seq::empty()
    } else {
        concat_payloads(ps, n - 1) + ps[n - 1]
    }
}

/// The workspace holding exactly chunks `0..k`, chunk `i` with bytes
/// `ps[i]`.
pub open spec fn prefix_chunks(ps: Seq<Seq<u8>>, k: int) -> Map<u64, Seq<u8>>
    decreases k,
{
    if k <= 0 {
        Map::empty()
    } else {
        prefix_chunks(ps, k - 1).insert((k - 1) as u64, ps[k - 1])
    }
}

/// Shape of `prefix_chunks`: its domain is exactly the indices below `k`.
proof fn lemma_prefix_chunks_props(ps: Seq<Seq<u8>>, k: int)
    requires
        0 <= k <= u32::MAX as int,
    ensures
        prefix_chunks(ps, k).dom().finite(),
        prefix_chunks(ps, k).dom().len() == k,
        forall|i: u64| i < k ==> #[trigger] prefix_chunks(ps, k).contains_key(i),
        forall|i: u64| i >= k ==> !(#[trigger] prefix_chunks(ps, k).contains_key(i)),
        forall|i: u64| i < k ==> #[trigger] prefix_chunks(ps, k)[i] == ps[i as int],
    decreases k,
{
    if k > 0 {
        lemma_prefix_chunks_props(ps, k - 1);
        assert(prefix_chunks(ps, k).dom() =~= prefix_chunks(ps, k - 1).dom().insert(
            (k - 1) as u64,
        ));
        vstd::set::axiom_set_insert_len(prefix_chunks(ps, k - 1).dom(), (k - 1) as u64);
    }
}

/// When a workspace holds `ps[i]` at every index below `n`, its
/// concatenation equals that of the payloads.
proof fn lemma_concat_matches(ws: Map<u64, Seq<u8>>, ps: Seq<Seq<u8>>, n: int)
    requires
        0 <= n <= u32::MAX as int,
        forall|i: u64| i < n ==> #[trigger] ws.contains_key(i),
        forall|i: u64| i < n ==> #[trigger] ws[i] == ps[i as int],
    ensures
        concat_chunks(ws, n) == concat_payloads(ps, n),
    decreases n,
{
    if n > 0 {
        lemma_concat_matches(ws, ps, n - 1);
        assert(ws.contains_key((n - 1) as u64));
        assert(ws[(n - 1) as u64] == ps[n - 1]);
    }
}

/// The state after submitting chunks `0..k` of one file in order: chunk 0
/// creates the logical file, later chunks reference the id it was given.
pub open spec fn run_sequential(
    pre: EngineView,
    user: u64,
    raw_name: Seq<char>,
    total: u32,
    ps: Seq<Seq<u8>>,
    k: int,
) -> EngineView
    decreases k,
{
    if k <= 0 {
        pre
    } else {
        let prev = run_sequential(pre, user, raw_name, total, ps, k - 1);
        let tid: Option<u64> = if k - 1 == 0 {
            None
        } else {
            Some(pre.ledger.next_id)
        };
        submit_transition(prev, user, raw_name, (k - 1) as u32, total, tid, ps[k - 1]).0
    }
}

/// The hypotheses of the sequential-upload law: a well-formed state with no
/// stale workspace under the upload's name, a sanitizable name, non-empty
/// payloads for every declared index, and an allocatable id.
pub open spec fn sequential_setup(
    pre: EngineView,
    raw_name: Seq<char>,
    total: u32,
    ps: Seq<Seq<u8>>,
) -> bool {
    &&& view_wf(pre)
    &&& 1 <= total
    &&& ps.len() == total
    &&& forall|i: int| 0 <= i < ps.len() ==> #[trigger] ps[i].len() > 0
    &&& sanitize_spec(raw_name).len() > 0
    &&& !pre.workspaces.contains_key(sanitize_spec(raw_name))
    &&& pre.ledger.next_id < u64::MAX
}

/// The engine state midway through a sequential upload, after `k` of the
/// declared chunks, none of which has yet triggered the detector.
pub open spec fn mid_upload_state(
    pre: EngineView,
    user: u64,
    raw_name: Seq<char>,
    total: u32,
    ps: Seq<Seq<u8>>,
    k: int,
    s: EngineView,
) -> bool {
    let name = sanitize_spec(raw_name);
    let id = pre.ledger.next_id;
    if k <= 0 {
        s == pre
    } else {
        &&& s.ledger.files =~= pre.ledger.files.insert(id, new_file_view(user, name))
        &&& s.ledger.progress =~= pre.ledger.progress.insert(
            id,
            progress_after(name, (k - 1) as u32, total, k as u64),
        )
        &&& s.ledger.next_id == pre.ledger.next_id + 1
        &&& s.workspaces =~= pre.workspaces.insert(name, prefix_chunks(ps, k))
        &&& s.dest =~= pre.dest
    }
}

/// Chunks `0..k` of a sequential upload, for `k` short of the declared
/// total, leave the engine in `mid_upload_state`: each submission writes
/// its chunk and bumps the counters, and none triggers assembly.
proof fn lemma_run_prefix(
    pre: EngineView,
    user: u64,
    raw_name: Seq<char>,
    total: u32,
    ps: Seq<Seq<u8>>,
    k: int,
)
    requires
        sequential_setup(pre, raw_name, total, ps),
        0 <= k <= total - 1,
    ensures
        mid_upload_state(pre, user, raw_name, total, ps, k, run_sequential(
            pre,
            user,
            raw_name,
            total,
            ps,
            k,
        )),
    decreases k,
{
    let name = sanitize_spec(raw_name);
    let id = pre.ledger.next_id;
    if k > 0 {
        lemma_run_prefix(pre, user, raw_name, total, ps, k - 1);
        let prev = run_sequential(pre, user, raw_name, total, ps, k - 1);
        lemma_prefix_chunks_props(ps, k - 1);
        lemma_prefix_chunks_props(ps, k);
        assert(ps[k - 1].len() > 0);
        if k == 1 {
            // Chunk 0: a fresh logical file, then the first chunk write.
            assert(!pre.ledger.files.contains_key(id)) by {
                if pre.ledger.files.contains_key(id) {
                    assert(id < pre.ledger.next_id);
                }
            }
            assert(!pre.ledger.progress.contains_key(id)) by {
                if pre.ledger.progress.contains_key(id) {
                    assert(pre.ledger.files.contains_key(id));
                }
            }
            let ws = chunks_in(pre.workspaces, name).insert(0u64, ps[0]);
            assert(ws =~= prefix_chunks(ps, 1));
            assert(ws.dom().len() == 1);
            assert(total != 1);
            let s = run_sequential(pre, user, raw_name, total, ps, 1);
            assert(s.ledger.progress =~= pre.ledger.progress.insert(
                id,
                progress_after(name, 0u32, total, 1u64),
            ));
            assert(s.workspaces =~= pre.workspaces.insert(name, prefix_chunks(ps, 1)));
        } else {
            // A later chunk: the write and the counter bump, no detection.
            assert(prev.ledger.files.contains_key(id));
            assert(prev.ledger.progress.contains_key(id));
            assert(prev.ledger.progress[id].uploaded_chunks == (k - 1) as u64);
            assert(bump((k - 1) as u64) == k as u64);
            assert(prev.workspaces.contains_key(name));
            assert(chunks_in(prev.workspaces, name) == prefix_chunks(ps, k - 1));
            let ws = chunks_in(prev.workspaces, name).insert((k - 1) as u64, ps[k - 1]);
            assert(ws =~= prefix_chunks(ps, k));
            assert(ws.dom().len() == k) by {
                assert(ws.dom() =~= prefix_chunks(ps, k).dom());
            }
            assert(k != total);
            let s = run_sequential(pre, user, raw_name, total, ps, k);
            assert(s.ledger.progress =~= pre.ledger.progress.insert(
                id,
                progress_after(name, (k - 1) as u32, total, k as u64),
            ));
            assert(s.workspaces =~= pre.workspaces.insert(name, prefix_chunks(ps, k)));
        }
    }
}

/// The sequential-upload law, assembly half: submitting chunks `0..N-1` of
/// a file in order, with non-empty payloads and no stale workspace, ends
/// with an `Assembled` outcome whose destination file holds exactly the
/// concatenation of the payloads in index order; the workspace is removed,
/// and the logical file is still `Incomplete` with its progress row
/// present, awaiting the probe.
pub proof fn lemma_sequential_upload(
    pre: EngineView,
    user: u64,
    raw_name: Seq<char>,
    total: u32,
    ps: Seq<Seq<u8>>,
)
    requires
        sequential_setup(pre, raw_name, total, ps),
    ensures
        ({
            let name = sanitize_spec(raw_name);
            let id = pre.ledger.next_id;
            let bytes = concat_payloads(ps, total as int);
            let fin = run_sequential(pre, user, raw_name, total, ps, total as int);
            let last_tid: Option<u64> = if total == 1 {
                None
            } else {
                Some(id)
            };
            let r = submit_transition(
                run_sequential(pre, user, raw_name, total, ps, total - 1),
                user,
                raw_name,
                (total - 1) as u32,
                total,
                last_tid,
                ps[total - 1],
            ).1;
            &&& fin.dest =~= pre.dest.insert(name, bytes)
            &&& !fin.workspaces.contains_key(name)
            &&& fin.ledger.files =~= pre.ledger.files.insert(id, new_file_view(user, name))
            &&& fin.ledger.files[id].status == UploadStatus::Incomplete
            &&& fin.ledger.progress =~= pre.ledger.progress.insert(
                id,
                progress_after(name, (total - 1) as u32, total, total as u64),
            )
            &&& fin.ledger.next_id == pre.ledger.next_id + 1
            &&& r == Ok::<SubmitOutcome, UploadError>(SubmitOutcome::Assembled { track_id: id })
        }),
{
    let name = sanitize_spec(raw_name);
    let id = pre.ledger.next_id;
    let k = total as int;
    lemma_run_prefix(pre, user, raw_name, total, ps, k - 1);
    let prev = run_sequential(pre, user, raw_name, total, ps, k - 1);
    lemma_prefix_chunks_props(ps, k - 1);
    lemma_prefix_chunks_props(ps, k);
    assert(ps[k - 1].len() > 0);
    assert(!pre.ledger.files.contains_key(id)) by {
        if pre.ledger.files.contains_key(id) {
            assert(id < pre.ledger.next_id);
        }
    }
    assert(!pre.ledger.progress.contains_key(id)) by {
        if pre.ledger.progress.contains_key(id) {
            assert(pre.ledger.files.contains_key(id));
        }
    }
    if total != 1 {
        assert(prev.ledger.files.contains_key(id));
        assert(prev.ledger.progress[id].uploaded_chunks == (k - 1) as u64);
        assert(bump((k - 1) as u64) == k as u64);
    }
    let pre_ws = if total == 1 {
        chunks_in(pre.workspaces, name)
    } else {
        chunks_in(prev.workspaces, name)
    };
    assert(pre_ws == prefix_chunks(ps, k - 1)) by {
        if total == 1 {
            assert(pre_ws =~= prefix_chunks(ps, 0));
        } else {
            assert(prev.workspaces.contains_key(name));
        }
    }
    let ws = pre_ws.insert((k - 1) as u64, ps[k - 1]);
    assert(ws =~= prefix_chunks(ps, k));
    assert(ws.dom().len() == total) by {
        assert(ws.dom() =~= prefix_chunks(ps, k).dom());
    }
    assert(all_chunks_present(ws, total));
    lemma_concat_matches(ws, ps, k);
    assert(concat_chunks(ws, k) == concat_payloads(ps, k));
    let fin = run_sequential(pre, user, raw_name, total, ps, k);
    assert(fin.dest =~= pre.dest.insert(name, concat_payloads(ps, k))) by {
        if total != 1 {
            assert(prev.dest =~= pre.dest);
        }
    }
    assert(fin.ledger.files =~= pre.ledger.files.insert(id, new_file_view(user, name)));
    assert(fin.ledger.progress =~= pre.ledger.progress.insert(
        id,
        progress_after(name, (total - 1) as u32, total, total as u64),
    ));
}

/// The sequential-upload law, finalization half: after the assembly above,
/// applying a successful probe result (a frame count with a usable time
/// base) moves the logical file to `Complete` with the truncated,
/// non-negative duration and deletes its progress row, while the assembled
/// bytes stay at the destination; a failed probe changes nothing — the
/// stuck state.
pub proof fn lemma_sequential_upload_probed(
    pre: EngineView,
    user: u64,
    raw_name: Seq<char>,
    total: u32,
    ps: Seq<Seq<u8>>,
    probe: Option<(u64, u32, u32)>,
)
    requires
        sequential_setup(pre, raw_name, total, ps),
    ensures
        ({
            let name = sanitize_spec(raw_name);
            let id = pre.ledger.next_id;
            let bytes = concat_payloads(ps, total as int);
            let fin = run_sequential(pre, user, raw_name, total, ps, total as int);
            let step = probe_transition(fin, id, probe);
            match probe {
                Some(params) => params.2 != 0 ==> {
                    &&& step.1 == Ok::<i64, UploadError>(
                        duration_secs_spec(params.0, params.1, params.2),
                    )
                    &&& duration_secs_spec(params.0, params.1, params.2) >= 0
                    &&& step.0.ledger.files[id].status == UploadStatus::Complete
                    &&& step.0.ledger.files[id].duration_seconds == Some(
                        duration_secs_spec(params.0, params.1, params.2),
                    )
                    &&& !step.0.ledger.progress.contains_key(id)
                    &&& step.0.dest == fin.dest && step.0.dest[name] == bytes
                },
                None => step == (fin, Err::<i64, UploadError>(UploadError::UnprobeableMedia)),
            }
        }),
{
    let id = pre.ledger.next_id;
    let fin = run_sequential(pre, user, raw_name, total, ps, total as int);
    lemma_sequential_upload(pre, user, raw_name, total, ps);
    match probe {
        Some(params) => {
            if params.2 != 0 {
                lemma_probe_success_finalizes(fin, id, params.0, params.1, params.2);
            }
        },
        None => {},
    }
}

/// Submitting a non-zero chunk index without a logical-file reference fails
/// with `MissingTrackReference` and changes nothing: no chunk is written,
/// no ledger row touched, no file assembled.
pub proof fn lemma_missing_track_reference(
    pre: EngineView,
    user: u64,
    raw_name: Seq<char>,
    chunk_index: u32,
    total_chunks: u32,
    payload: Seq<u8>,
)
    requires
        chunk_index > 0,
        sanitize_spec(raw_name).len() > 0,
        payload.len() > 0,
    ensures
        submit_transition(pre, user, raw_name, chunk_index, total_chunks, None, payload).0 == pre,
        submit_transition(pre, user, raw_name, chunk_index, total_chunks, None, payload).1
            == Err::<SubmitOutcome, UploadError>(UploadError::MissingTrackReference),
{
}

/// Submitting chunk index zero always creates a new logical file under a
/// fresh id — even when a file with the same name already exists — and
/// leaves every existing file record in place; the submission itself
/// succeeds unless a stale, gapped workspace makes its triggered assembly
/// fail.
pub proof fn lemma_chunk_zero_creates_fresh(
    pre: EngineView,
    user: u64,
    raw_name: Seq<char>,
    total_chunks: u32,
    track_id: Option<u64>,
    payload: Seq<u8>,
)
    requires
        view_wf(pre),
        sanitize_spec(raw_name).len() > 0,
        payload.len() > 0,
        pre.ledger.next_id < u64::MAX,
    ensures
        ({
            let step = submit_transition(
                pre,
                user,
                raw_name,
                0,
                total_chunks,
                track_id,
                payload,
            );
            let id = pre.ledger.next_id;
            &&& !pre.ledger.files.contains_key(id)
            &&& step.0.ledger.files.contains_key(id)
            &&& step.0.ledger.files[id].owner == user
            &&& step.0.ledger.files[id].name == sanitize_spec(raw_name)
            &&& step.0.ledger.next_id == pre.ledger.next_id + 1
            &&& forall|j: u64|
                #[trigger] pre.ledger.files.contains_key(j) ==> step.0.ledger.files.contains_key(
                    j,
                )
            &&& (step.1 == Ok::<SubmitOutcome, UploadError>(
                SubmitOutcome::Accepted { track_id: id },
            ) || step.1 == Ok::<SubmitOutcome, UploadError>(
                SubmitOutcome::Assembled { track_id: id },
            ) || step.1 == Err::<SubmitOutcome, UploadError>(UploadError::AssemblyIoError))
        }),
{
    let id = pre.ledger.next_id;
    assert(!pre.ledger.files.contains_key(id)) by {
        if pre.ledger.files.contains_key(id) {
            assert(id < pre.ledger.next_id);
        }
    }
}

/// Resubmitting an already-written chunk index before completion overwrites
/// that chunk's bytes without changing the set of present indices, leaves
/// every other chunk's bytes unchanged, and triggers no assembly.
pub proof fn lemma_resubmit_overwrites(
    pre: EngineView,
    user: u64,
    raw_name: Seq<char>,
    chunk_index: u32,
    total_chunks: u32,
    id: u64,
    payload: Seq<u8>,
)
    requires
        view_wf(pre),
        chunk_index > 0,
        sanitize_spec(raw_name).len() > 0,
        payload.len() > 0,
        pre.ledger.files.contains_key(id),
        pre.workspaces.contains_key(sanitize_spec(raw_name)),
        pre.workspaces[sanitize_spec(raw_name)].contains_key(chunk_index as u64),
        pre.workspaces[sanitize_spec(raw_name)].dom().len() != total_chunks,
    ensures
        ({
            let name = sanitize_spec(raw_name);
            let step = submit_transition(
                pre,
                user,
                raw_name,
                chunk_index,
                total_chunks,
                Some(id),
                payload,
            );
            &&& step.1 == Ok::<SubmitOutcome, UploadError>(
                SubmitOutcome::Accepted { track_id: id },
            )
            &&& step.0.workspaces.contains_key(name)
            &&& step.0.workspaces[name] == pre.workspaces[name].insert(
                chunk_index as u64,
                payload,
            )
            &&& step.0.workspaces[name].dom() =~= pre.workspaces[name].dom()
            &&& forall|i: u64|
                i != chunk_index && #[trigger] pre.workspaces[name].contains_key(i)
                    ==> step.0.workspaces[name][i] == pre.workspaces[name][i]
            &&& step.0.dest == pre.dest
            &&& step.0.ledger.files == pre.ledger.files
        }),
{
    let name = sanitize_spec(raw_name);
    let ws = chunks_in(pre.workspaces, name).insert(chunk_index as u64, payload);
    assert(ws.dom() =~= pre.workspaces[name].dom());
}

/// A failed probe (no result, or a zero time-base denominator) reports
/// `UnprobeableMedia` and changes nothing: the assembled file stays at the
/// destination and the logical file stays `Incomplete` with its progress
/// row — the stuck state that needs operator intervention.
pub proof fn lemma_probe_failure_leaves_incomplete(
    pre: EngineView,
    id: u64,
    probe: Option<(u64, u32, u32)>,
)
    requires
        pre.ledger.files.contains_key(id),
        match probe {
            None => true,
            Some(params) => params.2 == 0,
        },
    ensures
        probe_transition(pre, id, probe).0 == pre,
        probe_transition(pre, id, probe).1 == Err::<i64, UploadError>(
            UploadError::UnprobeableMedia,
        ),
{
}

/// A successful probe finalizes the file: status `Complete`, the truncated
/// non-negative duration stored, the progress row deleted, and neither the
/// destination nor any workspace touched.
pub proof fn lemma_probe_success_finalizes(
    pre: EngineView,
    id: u64,
    frames: u64,
    numer: u32,
    denom: u32,
)
    requires
        pre.ledger.files.contains_key(id),
        denom > 0,
    ensures
        ({
            let d = duration_secs_spec(frames, numer, denom);
            let step = probe_transition(pre, id, Some((frames, numer, denom)));
            &&& step.1 == Ok::<i64, UploadError>(d)
            &&& d >= 0
            &&& step.0.ledger.files.contains_key(id)
            &&& step.0.ledger.files[id].status == UploadStatus::Complete
            &&& step.0.ledger.files[id].duration_seconds == Some(d)
            &&& step.0.ledger.files[id].owner == pre.ledger.files[id].owner
            &&& step.0.ledger.files[id].name == pre.ledger.files[id].name
            &&& !step.0.ledger.progress.contains_key(id)
            &&& step.0.workspaces == pre.workspaces
            &&& step.0.dest == pre.dest
        }),
{
    lemma_duration_nonneg(frames, numer, denom);
}

} // verus!
