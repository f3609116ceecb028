//! Cloud language models.

pub mod ark;
pub mod deepseek;
