//! Speech recognition planning: region and chunk planning, and the decisions
//! made around the recogniser.

pub mod capabilities;
pub mod engine;
pub mod models;
pub mod vad;
pub mod vad_laws;
pub mod whisper;
