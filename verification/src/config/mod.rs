//! Application settings.

pub mod settings;
