//! Subtitle data structures, format writers, the SRT parser and the merger of
//! recognised segments with their translations.

pub mod types;
pub mod ass;
pub mod merger;
pub mod srt;
pub mod srt_laws;
pub mod vtt;
pub mod vtt_laws;
