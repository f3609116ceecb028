//! Language models served locally over HTTP.

pub mod ollama;
