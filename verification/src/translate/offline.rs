//! The offline engine, which is not available yet.

use crate::error::TranslateError;
use crate::translate::engine::{TranslateRequest, TranslateResult};
use vstd::prelude::*;

verus! {

/// An offline (Opus-MT) engine over a model directory.
pub struct OfflineTranslateEngine {
    pub model_dir: String,
}

impl OfflineTranslateEngine {
    pub fn new(model_dir: String) -> (e: Self)
        ensures
            e.model_dir == model_dir,
    {
        OfflineTranslateEngine { model_dir }
    }

    /// Always fails: offline translation is not implemented.
    pub fn translate(&self, _request: &TranslateRequest) -> (r: Result<TranslateResult, TranslateError>)
        ensures
            r matches Err(TranslateError::Network(m)) && m@
                == "Offline translation (Opus-MT) is not yet implemented. Requires ort + tokenizers crates."@,
    {
        Err(
            TranslateError::Network(
                "Offline translation (Opus-MT) is not yet implemented. Requires ort + tokenizers crates.".to_owned(),
            ),
        )
    }

    pub fn name(&self) -> (s: &'static str)
        ensures
            s@ == "Opus-MT (Offline)"@,
    {
        "Opus-MT (Offline)"
    }

    pub fn requires_network(&self) -> (b: bool)
        ensures
            !b,
    {
        false
    }

    /// No pairs are listed.
    pub fn supported_pairs(&self) -> (v: Vec<(String, String)>)
        ensures
            v@.len() == 0,
    {
        Vec::new()
    }
}

} // verus!
