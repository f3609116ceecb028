//! Audio extraction settings and the WAV container the extracted audio is
//! stored in.

pub mod extractor;
pub mod wav;
