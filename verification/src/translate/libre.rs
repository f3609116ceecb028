//! The LibreTranslate plugin: metadata and language codes.

use crate::text::str_eq;
use crate::translate::plugin::{metadata, metadata_view, PluginCategory, PluginMetadata};
use crate::translate::service::ConfigFieldType;
use crate::translate::services::{field, schema_view};
use crate::translate::shared::{item_step, item_step_of, ItemStep};
use crate::error::TranslateError;
use vstd::prelude::*;

verus! {

/// The LibreTranslate plugin.
pub struct LibreTranslatePlugin {
    pub metadata: PluginMetadata,
}

impl LibreTranslatePlugin {
    pub fn new() -> (p: Self)
        ensures
            metadata_view(p.metadata) == ("libre/v1"@, "LibreTranslate"@, "Open-source translation API — self-hosted or public instance"@, "1.0.0"@, PluginCategory::RemoteApi, true),
            schema_view(p.metadata.config_schema@) == seq![
                ("base_url"@, "LibreTranslate URL"@, "https://libretranslate.de"@, true, Some("https://libretranslate.de"@), Some("Self-host or use a public instance"@)),
                ("api_key"@, "API Key (optional)"@, ""@, false, Some("Required for some instances"@), None::<Seq<char>>),
            ],
            p.metadata.config_schema@[0].field_type == ConfigFieldType::Url,
            p.metadata.config_schema@[1].field_type == ConfigFieldType::Password,
    {
        let schema = vec![
            field(
                "base_url",
                "LibreTranslate URL",
                ConfigFieldType::Url,
                "https://libretranslate.de",
                true,
                Some("https://libretranslate.de"),
                Some("Self-host or use a public instance"),
            ),
            field(
                "api_key",
                "API Key (optional)",
                ConfigFieldType::Password,
                "",
                false,
                Some("Required for some instances"),
                None,
            ),
        ];
        let m = metadata(
            "libre/v1",
            "LibreTranslate",
            "Open-source translation API — self-hosted or public instance",
            "1.0.0",
            PluginCategory::RemoteApi,
            true,
            schema,
        );
        proof {
            assert(schema_view(m.config_schema@) =~= seq![
                ("base_url"@, "LibreTranslate URL"@, "https://libretranslate.de"@, true, Some("https://libretranslate.de"@), Some("Self-host or use a public instance"@)),
                ("api_key"@, "API Key (optional)"@, ""@, false, Some("Required for some instances"@), None::<Seq<char>>),
            ]);
        }
        LibreTranslatePlugin { metadata: m }
    }

    pub fn metadata(&self) -> (m: &PluginMetadata)
        ensures
            *m == self.metadata,
    {
        &self.metadata
    }

    /// LibreTranslate takes the language codes as they are.
    pub fn to_libre_lang(lang: &str) -> (s: &str)
        ensures
            s@ == lang@,
    {
        if str_eq(lang, "zh") {
            "zh"
        } else if str_eq(lang, "pt") {
            "pt"
        } else {
            lang
        }
    }
}

impl LibreTranslatePlugin {
    /// The step for text `index` of `total`: blank texts are skipped,
    /// progress goes out after every fifth text and the last, and the loop
    /// rests 300 ms after every fifth text.
    pub fn item_step(index: usize, total: usize, text: &str) -> (s: ItemStep)
        requires
            index < total,
        ensures
            s == item_step_of(index as int, total as int, text@, 5, 300),
    {
        item_step(index, total, text, 5, 300)
    }

    /// The error for a refused request: status 403 means the key was
    /// rejected; any other status is reported with the reply's body.
    pub fn status_error(status: u16, body: String) -> (e: TranslateError)
        ensures
            status == 403 ==> e is InvalidApiKey,
            status != 403 ==> (e matches TranslateError::Api { status: s, message: m } && s == status
                && m == body),
    {
        if status == 403 {
            TranslateError::InvalidApiKey
        } else {
            TranslateError::Api { status, message: body }
        }
    }
}

} // verus!
