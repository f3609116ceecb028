//! GGUF models loaded by a bundled llama.cpp server.

pub mod llama_cpp;
pub mod models;
