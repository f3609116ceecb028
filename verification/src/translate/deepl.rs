//! The DeepL engine: endpoint by key type and language codes.

use crate::text::{ends_with, str_ends_with, str_eq};
use crate::translate::services::online_translate::deepl::uppercase_of;
use vstd::prelude::*;

verus! {

/// A DeepL account key and whether it is a free one.
pub struct DeepLTranslateEngine {
    pub api_key: String,
    pub is_free: bool,
}

/// The engine's code for a language code.
pub open spec fn engine_deepl_lang(l: Seq<char>) -> Seq<char> {
    if l == "ru"@ {
        "RU"@
    } else if l == "it"@ {
        "IT"@
    } else {
        crate::translate::services::online_translate::deepl::deepl_lang(l)
    }
}

impl DeepLTranslateEngine {
    /// An engine for the key; keys ending in `:fx` are free ones.
    pub fn new(api_key: String) -> (e: Self)
        ensures
            e.api_key == api_key,
            e.is_free == ends_with(api_key@, ":fx"@),
    {
        let is_free = str_ends_with(api_key.as_str(), ":fx");
        DeepLTranslateEngine { api_key, is_free }
    }

    /// The API base for the key type.
    pub fn base_url(&self) -> (s: &'static str)
        ensures
            s@ == if self.is_free {
                "https://api-free.deepl.com/v2"@
            } else {
                "https://api.deepl.com/v2"@
            },
    {
        if self.is_free {
            "https://api-free.deepl.com/v2"
        } else {
            "https://api.deepl.com/v2"
        }
    }

    /// DeepL's code for a language.
    pub fn to_deepl_lang(lang: &str) -> (s: String)
        ensures
            s@ == engine_deepl_lang(lang@),
    {
        if str_eq(lang, "ru") {
            "RU".to_owned()
        } else if str_eq(lang, "it") {
            "IT".to_owned()
        } else {
            crate::translate::services::online_translate::deepl::DeepLService::map_lang(lang)
        }
    }

    pub fn name(&self) -> (s: &'static str)
        ensures
            s@ == "DeepL"@,
    {
        "DeepL"
    }

    pub fn requires_network(&self) -> (b: bool)
        ensures
            b,
    {
        true
    }

    /// No pairs are listed.
    pub fn supported_pairs(&self) -> (v: Vec<(String, String)>)
        ensures
            v@.len() == 0,
    {
        Vec::new()
    }
}

} // verus!
