//! The processing pipeline: its configuration, stage flow, output naming
//! and rendering, and progress tracking.

pub mod orchestrator;
pub mod progress;
