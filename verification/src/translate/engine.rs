//! Translation requests and results.

use vstd::prelude::*;

verus! {

/// Texts to translate between two languages, with an optional hint about
/// their context.
#[derive(Debug, Clone)]
pub struct TranslateRequest {
    pub texts: Vec<String>,
    pub source_lang: String,
    pub target_lang: String,
    pub context_hint: Option<String>,
}

/// The translated texts, one per requested text, and the engine that made
/// them.
#[derive(Debug, Clone)]
pub struct TranslateResult {
    pub texts: Vec<String>,
    pub engine: String,
}

} // verus!
