//! Translation: requests and results, services and their configuration,
//! prompts and reply parsing, caching, retries and fallback.

pub mod deepl;
pub mod engine;
pub mod factory;
pub mod fields;
pub mod google;
pub mod libre;
pub mod llm_api;
pub mod middleware;
pub mod offline;
pub mod ollama;
pub mod plugin;
pub mod service;
pub mod services;
pub mod shared;
