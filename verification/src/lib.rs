//! Verified core of a voice-response lookup service.
//!
//! The library ingests wiki-style markup describing recorded voice lines,
//! extracts (audio-file, utterance) records from it, canonicalizes utterance
//! text into exact-match lookup keys, batches file references for remote URL
//! resolution under a request-size budget, and stores the materialized
//! responses for query-time matching.

pub mod bot;
pub mod canon;
pub mod data;
pub mod dota;
pub mod links;
pub mod parsing;
pub mod patch_notes;
mod random;
pub mod response;
pub mod serde_response;
pub mod strutil;

pub use canon::process_text;
