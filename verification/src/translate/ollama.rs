//! The Ollama plugin: metadata and its prompt.

use crate::text::string_views;
use crate::translate::llm_api::{opt_str_view, translator_prompt, translator_prompt_text};
use crate::translate::plugin::{metadata, metadata_view, PluginCategory, PluginMetadata};
use crate::translate::service::ConfigFieldType;
use crate::translate::services::{field, schema_view};
use vstd::prelude::*;

verus! {

/// The local Ollama plugin.
pub struct OllamaTranslatePlugin {
    pub metadata: PluginMetadata,
}

impl OllamaTranslatePlugin {
    pub fn new() -> (p: Self)
        ensures
            metadata_view(p.metadata) == ("ollama/v1"@, "Ollama (Local LLM)"@, "Privacy-first via local Ollama, no network required"@, "1.0.0"@, PluginCategory::LocalLlm, false),
            schema_view(p.metadata.config_schema@) == seq![
                ("base_url"@, "Ollama URL"@, "http://localhost:11434"@, true, None::<Seq<char>>, None::<Seq<char>>),
                ("model"@, "Model"@, "qwen2.5:7b"@, true, Some("qwen2.5:7b"@), None::<Seq<char>>),
                ("batch_size"@, "Batch Size"@, "20"@, false, None::<Seq<char>>, Some("Segments per generation call"@)),
            ],
            p.metadata.config_schema@[0].field_type == ConfigFieldType::Url,
            p.metadata.config_schema@[1].field_type == ConfigFieldType::Text,
            p.metadata.config_schema@[2].field_type == ConfigFieldType::Number,
    {
        let schema = vec![
            field("base_url", "Ollama URL", ConfigFieldType::Url, "http://localhost:11434", true, None, None),
            field("model", "Model", ConfigFieldType::Text, "qwen2.5:7b", true, Some("qwen2.5:7b"), None),
            field(
                "batch_size",
                "Batch Size",
                ConfigFieldType::Number,
                "20",
                false,
                None,
                Some("Segments per generation call"),
            ),
        ];
        let m = metadata(
            "ollama/v1",
            "Ollama (Local LLM)",
            "Privacy-first via local Ollama, no network required",
            "1.0.0",
            PluginCategory::LocalLlm,
            false,
            schema,
        );
        proof {
            assert(schema_view(m.config_schema@) =~= seq![
                ("base_url"@, "Ollama URL"@, "http://localhost:11434"@, true, None::<Seq<char>>, None::<Seq<char>>),
                ("model"@, "Model"@, "qwen2.5:7b"@, true, Some("qwen2.5:7b"@), None::<Seq<char>>),
                ("batch_size"@, "Batch Size"@, "20"@, false, None::<Seq<char>>, Some("Segments per generation call"@)),
            ]);
        }
        OllamaTranslatePlugin { metadata: m }
    }

    pub fn metadata(&self) -> (m: &PluginMetadata)
        ensures
            *m == self.metadata,
    {
        &self.metadata
    }

    /// The prompt for one batch.
    pub fn build_prompt(texts: &[String], source_lang: &str, target_lang: &str, context_hint: Option<&str>) -> (s: String)
        ensures
            s@ == translator_prompt(
                source_lang@,
                target_lang@,
                opt_str_view(context_hint),
                "SAME ORDER"@,
                string_views(texts@),
            ),
    {
        translator_prompt_text(texts, source_lang, target_lang, context_hint, "SAME ORDER")
    }
}

} // verus!
