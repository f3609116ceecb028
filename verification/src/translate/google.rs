//! The Google Translate plugin: metadata and language codes.

use crate::text::str_eq;
use crate::translate::plugin::{metadata, metadata_view, PluginCategory, PluginMetadata};
use crate::translate::services::online_translate::google::google_lang;
use crate::translate::shared::{item_step, item_step_of, join_present, joined_present, ItemStep};
use vstd::prelude::*;

verus! {

/// The free Google Translate plugin.
pub struct GoogleTranslatePlugin {
    pub metadata: PluginMetadata,
}

impl GoogleTranslatePlugin {
    pub fn new() -> (p: Self)
        ensures
            metadata_view(p.metadata) == ("google/v1"@, "Google Translate"@, "Free Google Translate API — no API key required"@, "1.0.0"@, PluginCategory::RemoteApi, true),
            p.metadata.config_schema@.len() == 0,
    {
        GoogleTranslatePlugin {
            metadata: metadata(
                "google/v1",
                "Google Translate",
                "Free Google Translate API — no API key required",
                "1.0.0",
                PluginCategory::RemoteApi,
                true,
                Vec::new(),
            ),
        }
    }

    pub fn metadata(&self) -> (m: &PluginMetadata)
        ensures
            *m == self.metadata,
    {
        &self.metadata
    }

    /// Google's code for a language: mainland Chinese for `zh`, Brazilian
    /// Portuguese for `pt`, others unchanged.
    pub fn to_google_lang(lang: &str) -> (s: &str)
        ensures
            s@ == google_lang(lang@),
    {
        if str_eq(lang, "zh") {
            "zh-CN"
        } else if str_eq(lang, "pt") {
            "pt-BR"
        } else {
            lang
        }
    }

    /// The step for text `index` of `total`: blank texts are skipped,
    /// progress goes out after every fifth text and the last, and the loop
    /// rests 200 ms after every tenth text.
    pub fn item_step(index: usize, total: usize, text: &str) -> (s: ItemStep)
        requires
            index < total,
        ensures
            s == item_step_of(index as int, total as int, text@, 10, 200),
    {
        item_step(index, total, text, 10, 200)
    }

    /// The translation of `original` read from a reply: the sentence pieces
    /// joined, or `original` itself when that gives nothing. `sentences`
    /// holds, for each sentence entry, its first item where that is text.
    pub fn reply_text(sentences: Option<Vec<Option<String>>>, original: &str) -> (s: String)
        ensures
            ({
                let joined = match sentences {
                    Some(v) => joined_present(v@),
                    None => Seq::<char>::empty(),
                };
                s@ == if joined.len() == 0 {
                    original@
                } else {
                    joined
                }
            }),
    {
        let joined = match sentences {
            Some(v) => join_present(v.as_slice()),
            None => String::new(),
        };
        if joined.as_str().is_empty() {
            original.to_owned()
        } else {
            joined
        }
    }
}

} // verus!
