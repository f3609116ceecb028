//! What speech recognition produces.

use vstd::prelude::*;

verus! {

/// A recognised stretch of speech with its time range in milliseconds.
#[derive(Debug, Clone)]
pub struct Segment {
    /// Position in the transcript, from zero.
    pub index: usize,
    pub start_ms: u64,
    pub end_ms: u64,
    pub text: String,
    /// Detected language (ISO 639-1), or `unknown`.
    pub language: String,
}

/// A language the recogniser offers.
#[derive(Debug, Clone)]
pub struct LanguageInfo {
    pub code: String,
    pub name: String,
}

} // verus!
