//! Subtitle generation core: timecodes, subtitle formats, VAD chunk planning,
//! translation service configuration and pipeline decisions.
#![allow(unused_imports)]

pub mod asr;
pub mod audio;
pub mod commands;
pub mod config;
pub mod error;
pub mod logging;
pub mod paths;
pub mod pipeline;
pub mod subtitle;
pub mod text;
pub mod translate;

use vstd::prelude::*;

verus! {

} // verus!
