//! End-to-end tests of the chunked upload engine: submission, completion
//! detection, assembly, probing, and finalization.

use upload_engine::engine::SubmitOutcome;
use upload_engine::engine::UploadEngine;
use upload_engine::errors::UploadError;
use upload_engine::ledger::UploadStatus;
use upload_engine::sanitize::extension_of;

/// A minimal canonical WAV file: 16-bit mono PCM at `sample_rate`.
fn wav_bytes(sample_rate: u32, samples: &[i16]) -> Vec<u8> {
    let data_len = (samples.len() * 2) as u32;
    let mut v: Vec<u8> = Vec::new();
    v.extend_from_slice(b"RIFF");
    v.extend_from_slice(&(36 + data_len).to_le_bytes());
    v.extend_from_slice(b"WAVE");
    v.extend_from_slice(b"fmt ");
    v.extend_from_slice(&16u32.to_le_bytes());
    v.extend_from_slice(&1u16.to_le_bytes()); // PCM
    v.extend_from_slice(&1u16.to_le_bytes()); // mono
    v.extend_from_slice(&sample_rate.to_le_bytes());
    v.extend_from_slice(&(sample_rate * 2).to_le_bytes());
    v.extend_from_slice(&2u16.to_le_bytes()); // block align
    v.extend_from_slice(&16u16.to_le_bytes()); // bits per sample
    v.extend_from_slice(b"data");
    v.extend_from_slice(&data_len.to_le_bytes());
    for s in samples {
        v.extend_from_slice(&s.to_le_bytes());
    }
    v
}

/// The probe step the transport layer runs between an `Assembled` outcome
/// and `apply_probe_result`: the default track's frame count and time
/// base, read from the bytes' container headers.
fn probe_params(bytes: &[u8], ext: &str) -> Option<(u64, u32, u32)> {
    let src = std::io::Cursor::new(bytes.to_vec());
    let mss = symphonia::core::io::MediaSourceStream::new(Box::new(src), Default::default());
    let mut hint = symphonia::core::probe::Hint::new();
    hint.with_extension(ext);
    let fmt_opts = symphonia::core::formats::FormatOptions::default();
    let meta_opts = symphonia::core::meta::MetadataOptions::default();
    let probed = symphonia::default::get_probe()
        .format(&hint, mss, &fmt_opts, &meta_opts)
        .ok()?;
    let track = probed.format.default_track()?;
    let tb = track.codec_params.time_base?;
    let frames = track.codec_params.n_frames?;
    Some((frames, tb.numer, tb.denom))
}

/// Probe the assembled file stored under `name` and finalize it, as the
/// transport layer does after an `Assembled` outcome.
fn probe_and_finalize(engine: &mut UploadEngine, name: &String, id: u64) -> Result<i64, UploadError> {
    let probe = match engine.assembled_file(name) {
        Some(assembled) => probe_params(assembled, &extension_of(name)),
        None => None,
    };
    engine.apply_probe_result(id, probe)
}

#[test]
fn sequential_three_chunks_assembles_and_completes() {
    // Three seconds of audio at 100 Hz, split into three distinct chunks.
    let samples: Vec<i16> = (0..300).map(|i| (i % 7) as i16).collect();
    let wav = wav_bytes(100, &samples);
    let a = wav[0..100].to_vec();
    let b = wav[100..200].to_vec();
    let c = wav[200..].to_vec();

    let mut engine = UploadEngine::new();
    let first = engine
        .submit_chunk(1, "song.wav", 0, 3, None, a.clone())
        .expect("chunk 0 accepted");
    let id = first.track_id();
    assert_eq!(first, SubmitOutcome::Accepted { track_id: id });
    let second = engine
        .submit_chunk(1, "song.wav", 1, 3, Some(id), b.clone())
        .expect("chunk 1 accepted");
    assert_eq!(second, SubmitOutcome::Accepted { track_id: id });
    let third = engine
        .submit_chunk(1, "song.wav", 2, 3, Some(id), c.clone())
        .expect("final chunk accepted");
    assert_eq!(third, SubmitOutcome::Assembled { track_id: id });

    // The assembled bytes are exactly the payload concatenation.
    let name = String::from("song.wav");
    assert_eq!(engine.assembled_file(&name).expect("file assembled"), &wav);

    // The workspace was removed; the file awaits its probe.
    assert!(engine.workspace_chunk(&name, 0).is_none());
    assert_eq!(engine.get_file(id).unwrap().status, UploadStatus::Incomplete);

    // The probe finalizes the file with its duration.
    let seconds = probe_and_finalize(&mut engine, &name, id).expect("probe succeeds");
    assert_eq!(seconds, 3);
    let f = engine.get_file(id).expect("file exists");
    assert_eq!(f.status, UploadStatus::Complete);
    assert_eq!(f.duration_seconds, Some(3));
    assert!(f.duration_seconds.unwrap() >= 0);

    // The progress row is gone once complete; the assembled file stays.
    assert!(engine.get_progress(id).is_none());
    assert_eq!(engine.assembled_file(&name).unwrap(), &wav);
}

#[test]
fn duration_truncates_to_whole_seconds() {
    // 250 samples at 100 Hz is 2.5 seconds; stored truncated.
    let samples: Vec<i16> = vec![0; 250];
    let wav = wav_bytes(100, &samples);
    let mut engine = UploadEngine::new();
    let outcome = engine
        .submit_chunk(4, "beep.wav", 0, 1, None, wav)
        .expect("single chunk assembles");
    let id = outcome.track_id();
    assert_eq!(outcome, SubmitOutcome::Assembled { track_id: id });
    let name = String::from("beep.wav");
    let seconds = probe_and_finalize(&mut engine, &name, id).expect("probe succeeds");
    assert_eq!(seconds, 2);
    assert_eq!(engine.get_file(id).unwrap().duration_seconds, Some(2));
}

#[test]
fn finalization_from_plain_probe_values() {
    // The duration formula applied to handed-back probe values: 300 frames
    // of a 1/100 time base truncate to 3 whole seconds.
    let mut engine = UploadEngine::new();
    let id = engine
        .submit_chunk(1, "raw.bin", 0, 2, None, vec![1])
        .expect("chunk 0")
        .track_id();
    assert_eq!(engine.apply_probe_result(id, Some((300, 1, 100))), Ok(3));
    let f = engine.get_file(id).unwrap();
    assert_eq!(f.status, UploadStatus::Complete);
    assert_eq!(f.duration_seconds, Some(3));
}

#[test]
fn zero_time_base_denominator_is_unprobeable() {
    let mut engine = UploadEngine::new();
    let id = engine
        .submit_chunk(1, "odd.bin", 0, 2, None, vec![1])
        .expect("chunk 0")
        .track_id();
    assert_eq!(
        engine.apply_probe_result(id, Some((10, 1, 0))),
        Err(UploadError::UnprobeableMedia)
    );
    assert_eq!(engine.get_file(id).unwrap().status, UploadStatus::Incomplete);
}

#[test]
fn probe_result_for_unknown_file_is_a_persistence_failure() {
    let mut engine = UploadEngine::new();
    assert_eq!(
        engine.apply_probe_result(5, Some((10, 1, 1))),
        Err(UploadError::PersistenceFailure)
    );
}

#[test]
fn resubmitting_chunk_overwrites_without_new_index() {
    let mut engine = UploadEngine::new();
    let id = engine
        .submit_chunk(1, "take.bin", 0, 3, None, vec![1, 1, 1])
        .expect("chunk 0")
        .track_id();
    engine
        .submit_chunk(1, "take.bin", 1, 3, Some(id), vec![2, 2, 2])
        .expect("chunk 1");
    engine
        .submit_chunk(1, "take.bin", 1, 3, Some(id), vec![9, 9])
        .expect("chunk 1 again");

    let name = String::from("take.bin");
    // The bytes at index 1 were overwritten in place.
    assert_eq!(engine.workspace_chunk(&name, 1).unwrap(), &vec![9u8, 9u8]);
    // The set of present indices is unchanged: 0 and 1, not 2.
    assert!(engine.workspace_chunk(&name, 0).is_some());
    assert!(engine.workspace_chunk(&name, 2).is_none());
    // The attempt counter counts attempts, not distinct indices.
    let p = engine.get_progress(id).unwrap();
    assert_eq!(p.uploaded_chunks, 3);
    assert_eq!(p.current_chunk, 1);
    assert_eq!(p.total_chunks, 3);
    // Nothing was assembled.
    assert!(engine.assembled_file(&name).is_none());
}

#[test]
fn chunk_zero_always_creates_a_new_logical_file() {
    let mut engine = UploadEngine::new();
    let first = engine
        .submit_chunk(1, "same-name.bin", 0, 2, None, vec![1])
        .expect("first upload")
        .track_id();
    let second = engine
        .submit_chunk(1, "same-name.bin", 0, 2, None, vec![2])
        .expect("second upload, same name")
        .track_id();
    assert_ne!(first, second);
    assert!(engine.get_file(first).is_some());
    assert!(engine.get_file(second).is_some());
}

#[test]
fn missing_track_reference_rejects_and_writes_nothing() {
    let mut engine = UploadEngine::new();
    let r = engine.submit_chunk(1, "orphan.bin", 1, 3, None, vec![5, 5]);
    assert_eq!(r, Err(UploadError::MissingTrackReference));
    let name = String::from("orphan.bin");
    assert!(engine.workspace_chunk(&name, 1).is_none());
    assert!(engine.get_file(0).is_none());
    assert!(engine.get_progress(0).is_none());
}

#[test]
fn unknown_track_reference_is_a_persistence_failure() {
    let mut engine = UploadEngine::new();
    let r = engine.submit_chunk(1, "ghost.bin", 1, 3, Some(99), vec![5]);
    assert_eq!(r, Err(UploadError::PersistenceFailure));
    let name = String::from("ghost.bin");
    assert!(engine.workspace_chunk(&name, 1).is_none());
}

#[test]
fn empty_payload_rejected() {
    let mut engine = UploadEngine::new();
    let r = engine.submit_chunk(1, "empty.bin", 0, 1, None, Vec::new());
    assert_eq!(r, Err(UploadError::EmptyPayload));
    assert!(engine.get_file(0).is_none());
}

#[test]
fn name_that_sanitizes_to_nothing_rejected() {
    let mut engine = UploadEngine::new();
    let r = engine.submit_chunk(1, "../..//", 0, 1, None, vec![1]);
    assert_eq!(r, Err(UploadError::EmptyFileName));
    assert!(engine.get_file(0).is_none());
}

#[test]
fn exhausted_id_space_is_a_persistence_failure() {
    let mut engine = UploadEngine::resuming_at(u64::MAX);
    let r = engine.submit_chunk(1, "late.bin", 0, 1, None, vec![1]);
    assert_eq!(r, Err(UploadError::PersistenceFailure));
}

#[test]
fn resumed_engine_continues_id_allocation() {
    let mut engine = UploadEngine::resuming_at(1000);
    let id = engine
        .submit_chunk(1, "next.bin", 0, 2, None, vec![1])
        .expect("chunk 0")
        .track_id();
    assert_eq!(id, 1000);
}

#[test]
fn count_satisfied_with_gap_fails_assembly() {
    // Indices 0, 1, 3 make the count reach 3, but index 2 is missing:
    // the detector fires and assembly then fails on the gap.
    let mut engine = UploadEngine::new();
    let id = engine
        .submit_chunk(1, "gap.bin", 0, 3, None, vec![1])
        .expect("chunk 0")
        .track_id();
    engine
        .submit_chunk(1, "gap.bin", 1, 3, Some(id), vec![2])
        .expect("chunk 1");
    let r = engine.submit_chunk(1, "gap.bin", 3, 3, Some(id), vec![4]);
    assert_eq!(r, Err(UploadError::AssemblyIoError));
    let name = String::from("gap.bin");
    // The workspace is left as-is for a future retry; nothing assembled.
    assert!(engine.workspace_chunk(&name, 0).is_some());
    assert!(engine.assembled_file(&name).is_none());
    assert_eq!(engine.get_file(id).unwrap().status, UploadStatus::Incomplete);
}

#[test]
fn stale_workspace_chunks_assemble_silently_corrupted() {
    // Known gap of the count-based detector: an abandoned upload leaves
    // chunks under the same name. The new upload rewrites index 0 and
    // writes index 2, never index 1 — yet the count reaches the declared
    // total and assembly proceeds, mixing bytes of both uploads.
    let mut engine = UploadEngine::new();
    let abandoned = engine
        .submit_chunk(1, "mix.bin", 0, 3, None, vec![0xA0])
        .expect("old chunk 0")
        .track_id();
    engine
        .submit_chunk(1, "mix.bin", 1, 3, Some(abandoned), vec![0xB0])
        .expect("old chunk 1");

    let fresh = engine
        .submit_chunk(1, "mix.bin", 0, 3, None, vec![0xA1])
        .expect("new chunk 0 overwrites")
        .track_id();
    assert_ne!(fresh, abandoned);
    let r = engine.submit_chunk(1, "mix.bin", 2, 3, Some(fresh), vec![0xC1]);
    // Assembly proceeds on the mixed bytes with no content validation.
    assert_eq!(r, Ok(SubmitOutcome::Assembled { track_id: fresh }));

    let name = String::from("mix.bin");
    let assembled = engine.assembled_file(&name).expect("corrupted file assembled");
    assert_eq!(assembled, &vec![0xA1u8, 0xB0u8, 0xC1u8]);
    // Only the probe then rejects the mixture.
    let r = probe_and_finalize(&mut engine, &name, fresh);
    assert_eq!(r, Err(UploadError::UnprobeableMedia));
    assert_eq!(engine.get_file(fresh).unwrap().status, UploadStatus::Incomplete);
}

#[test]
fn probe_failure_leaves_file_stuck_incomplete() {
    // Non-audio bytes assemble fine but cannot be probed: the assembled
    // file exists at the destination while the logical file never reaches
    // its terminal state.
    let mut engine = UploadEngine::new();
    let outcome = engine
        .submit_chunk(1, "noise.wav", 0, 1, None, vec![7, 7, 7, 7])
        .expect("single chunk assembles");
    let id = outcome.track_id();
    assert_eq!(outcome, SubmitOutcome::Assembled { track_id: id });
    let name = String::from("noise.wav");
    let r = probe_and_finalize(&mut engine, &name, id);
    assert_eq!(r, Err(UploadError::UnprobeableMedia));
    assert_eq!(engine.assembled_file(&name).unwrap(), &vec![7u8, 7, 7, 7]);
    let f = engine.get_file(id).expect("file record exists");
    assert_eq!(f.status, UploadStatus::Incomplete);
    assert_eq!(f.duration_seconds, None);
    // The workspace is gone but the progress row remains.
    assert!(engine.workspace_chunk(&name, 0).is_none());
    assert!(engine.get_progress(id).is_some());
}

#[test]
fn incomplete_uploads_lists_only_that_users_unfinished_files() {
    let mut engine = UploadEngine::new();
    let ua = engine
        .submit_chunk(1, "a.bin", 0, 2, None, vec![1])
        .expect("user 1 upload")
        .track_id();
    engine
        .submit_chunk(2, "b.bin", 0, 2, None, vec![2])
        .expect("user 2 upload");
    // A finished upload of user 1 must not be listed.
    let wav = wav_bytes(100, &vec![0i16; 100]);
    let done = engine
        .submit_chunk(1, "done.wav", 0, 1, None, wav)
        .expect("completed upload")
        .track_id();
    let done_name = String::from("done.wav");
    probe_and_finalize(&mut engine, &done_name, done).expect("probe succeeds");

    let listing = engine.get_incomplete_uploads(1);
    assert_eq!(listing.len(), 1);
    assert_eq!(listing[0].track_id, ua);
    assert_eq!(listing[0].file_name, "a.bin");
    assert_eq!(listing[0].total_chunks, 2);
    assert_eq!(listing[0].uploaded_chunks, 1);
    assert_eq!(listing[0].current_chunk, 0);
}

#[test]
fn progress_status_reflects_last_index_reached() {
    // The progress status records "last declared index reached", not
    // "all indices present": submitting only the final index marks it.
    let mut engine = UploadEngine::new();
    let id = engine
        .submit_chunk(1, "tail.bin", 0, 3, None, vec![1])
        .expect("chunk 0")
        .track_id();
    engine
        .submit_chunk(1, "tail.bin", 2, 3, Some(id), vec![3])
        .expect("chunk 2");
    let p = engine.get_progress(id).unwrap();
    assert_eq!(p.status, UploadStatus::Complete);
    assert_eq!(p.current_chunk, 2);
    // Yet the upload is not actually complete: only two chunks present.
    assert!(engine.assembled_file(&String::from("tail.bin")).is_none());
}

#[test]
fn upload_error_classifies_client_faults() {
    assert!(UploadError::EmptyFileName.is_client_error());
    assert!(UploadError::EmptyPayload.is_client_error());
    assert!(UploadError::MissingTrackReference.is_client_error());
    assert!(!UploadError::PersistenceFailure.is_client_error());
    assert!(!UploadError::AssemblyIoError.is_client_error());
    assert!(!UploadError::UnprobeableMedia.is_client_error());
}
