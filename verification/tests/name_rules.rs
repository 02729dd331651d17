//! Tests of file-name sanitization and the extension hint.

use upload_engine::engine::UploadEngine;
use upload_engine::sanitize::extension_of;
use upload_engine::sanitize::sanitize_filename;

#[test]
fn traversal_name_is_neutralized() {
    // The canonical path-traversal attempt keeps neither separators nor
    // dot-dot sequences.
    let s = sanitize_filename("../../etc/passwd");
    assert_eq!(s, "etcpasswd");
    assert!(!s.contains('/'));
    assert!(!s.contains('\\'));
    assert!(!s.contains(".."));
}

#[test]
fn separators_are_stripped() {
    assert_eq!(sanitize_filename("a/b\\c/d"), "abcd");
    assert_eq!(sanitize_filename("///"), "");
    assert_eq!(sanitize_filename("\\\\"), "");
}

#[test]
fn dotdot_sequences_are_removed_leftmost_first() {
    assert_eq!(sanitize_filename("a..b"), "ab");
    assert_eq!(sanitize_filename("..."), ".");
    assert_eq!(sanitize_filename("...."), "");
    assert_eq!(sanitize_filename("x...y"), "x.y");
    assert_eq!(sanitize_filename(".."), "");
}

#[test]
fn separator_stripping_runs_before_dotdot_removal() {
    // `./.` holds no `..` as written, but stripping the separator forms
    // one, which is then removed.
    assert_eq!(sanitize_filename("./."), "");
}

#[test]
fn ordinary_names_pass_unchanged() {
    assert_eq!(sanitize_filename("song.mp3"), "song.mp3");
    assert_eq!(sanitize_filename("My Track (live).wav"), "My Track (live).wav");
    assert_eq!(sanitize_filename(""), "");
}

#[test]
fn extension_is_the_part_after_the_last_dot() {
    assert_eq!(extension_of("song.mp3"), "mp3");
    assert_eq!(extension_of("archive.tar.gz"), "gz");
    assert_eq!(extension_of("noext"), "noext");
    assert_eq!(extension_of("trailing."), "");
    assert_eq!(extension_of(""), "");
}

#[test]
fn traversal_name_stores_chunks_under_sanitized_workspace() {
    // Through the engine, the hostile name is only ever used sanitized:
    // the chunk lands in the `etcpasswd` workspace.
    let mut engine = UploadEngine::new();
    let id = engine
        .submit_chunk(1, "../../etc/passwd", 0, 2, None, vec![1, 2])
        .expect("chunk accepted under sanitized name")
        .track_id();
    let safe = String::from("etcpasswd");
    assert_eq!(engine.workspace_chunk(&safe, 0).unwrap(), &vec![1u8, 2u8]);
    assert_eq!(engine.get_file(id).unwrap().file_name, "etcpasswd");
}
