//! A verified resumable chunked-upload and assembly engine for audio files.
//!
//! The engine accepts an audio file as an ordered sequence of independently
//! delivered byte chunks, tracks upload progress per logical file, detects
//! completion, reassembles the chunks in index order, probes the assembled
//! bytes for their play duration, and moves the logical file into its
//! terminal state.

pub mod dtos;
pub mod engine;
pub mod errors;
pub mod laws;
pub mod ledger;
pub mod name_table;
pub mod probe;
pub mod sanitize;
pub mod store;
pub mod table;

