//! The application's settings and their defaults, and the number of
//! recognition threads to use.

use vstd::prelude::*;

verus! {

/// All settings.
#[derive(Debug, Clone)]
pub struct AppConfig {
    pub general: GeneralConfig,
    pub asr: AsrSettings,
    pub translation: TranslationSettings,
    pub subtitle: SubtitleSettings,
}

/// Interface language, theme, output directory and GPU use.
#[derive(Debug, Clone)]
pub struct GeneralConfig {
    pub ui_language: String,
    /// `system`, `light` or `dark`.
    pub theme: String,
    pub output_dir: Option<String>,
    pub use_gpu: bool,
}

/// Model, source language and thread count (0 = automatic).
#[derive(Debug, Clone)]
pub struct AsrSettings {
    pub model_size: String,
    pub default_language: String,
    pub n_threads: u32,
}

/// Engine (`llm`, `deepl`, `offline`), target language and engine settings.
#[derive(Debug, Clone)]
pub struct TranslationSettings {
    pub engine: String,
    pub default_target_language: String,
    pub llm: LlmSettings,
    pub deepl: DeepLSettings,
}

#[derive(Debug, Clone)]
pub struct LlmSettings {
    pub api_key: String,
    pub api_base: String,
    pub model: String,
    pub batch_size: usize,
}

#[derive(Debug, Clone)]
pub struct DeepLSettings {
    pub api_key: String,
}

/// Output format (`srt`, `ass`, `vtt`), ASS style, and whether a byte-order
/// mark is written.
#[derive(Debug, Clone)]
pub struct SubtitleSettings {
    pub default_format: String,
    pub ass_style: AssStyleSettings,
    pub add_bom: bool,
}

#[derive(Debug, Clone)]
pub struct AssStyleSettings {
    pub primary_font: String,
    pub primary_size: u32,
    pub secondary_font: String,
    pub secondary_size: u32,
}

impl Default for GeneralConfig {
    fn default() -> (c: Self)
        ensures
            c.ui_language@ == "en"@,
            c.theme@ == "system"@,
            c.output_dir is None,
            !c.use_gpu,
    {
        GeneralConfig { ui_language: "en".to_owned(), theme: "system".to_owned(), output_dir: None, use_gpu: false }
    }
}

impl Default for AsrSettings {
    fn default() -> (c: Self)
        ensures
            c.model_size@ == "base"@,
            c.default_language@ == "auto"@,
            c.n_threads == 0,
    {
        AsrSettings { model_size: "base".to_owned(), default_language: "auto".to_owned(), n_threads: 0 }
    }
}

impl Default for LlmSettings {
    fn default() -> (c: Self)
        ensures
            c.api_key@ == Seq::<char>::empty(),
            c.api_base@ == "https://api.openai.com/v1"@,
            c.model@ == "gpt-4o-mini"@,
            c.batch_size == 20,
    {
        LlmSettings {
            api_key: String::new(),
            api_base: "https://api.openai.com/v1".to_owned(),
            model: "gpt-4o-mini".to_owned(),
            batch_size: 20,
        }
    }
}

impl Default for DeepLSettings {
    fn default() -> (c: Self)
        ensures
            c.api_key@ == Seq::<char>::empty(),
    {
        DeepLSettings { api_key: String::new() }
    }
}

/// The defaults of the LLM settings.
pub open spec fn llm_defaults(c: LlmSettings) -> bool {
    c.api_key@ == Seq::<char>::empty() && c.api_base@ == "https://api.openai.com/v1"@ && c.model@
        == "gpt-4o-mini"@ && c.batch_size == 20
}

impl Default for TranslationSettings {
    fn default() -> (c: Self)
        ensures
            c.engine@ == "llm"@,
            c.default_target_language@ == "zh"@,
            llm_defaults(c.llm),
            c.deepl.api_key@ == Seq::<char>::empty(),
    {
        TranslationSettings {
            engine: "llm".to_owned(),
            default_target_language: "zh".to_owned(),
            llm: LlmSettings::default(),
            deepl: DeepLSettings::default(),
        }
    }
}

impl Default for AssStyleSettings {
    fn default() -> (c: Self)
        ensures
            c.primary_font@ == "Arial"@,
            c.primary_size == 48,
            c.secondary_font@ == "Arial"@,
            c.secondary_size == 36,
    {
        AssStyleSettings {
            primary_font: "Arial".to_owned(),
            primary_size: 48,
            secondary_font: "Arial".to_owned(),
            secondary_size: 36,
        }
    }
}

impl Default for SubtitleSettings {
    fn default() -> (c: Self)
        ensures
            c.default_format@ == "srt"@,
            c.ass_style.primary_font@ == "Arial"@,
            c.ass_style.primary_size == 48,
            c.ass_style.secondary_font@ == "Arial"@,
            c.ass_style.secondary_size == 36,
            c.add_bom,
    {
        SubtitleSettings { default_format: "srt".to_owned(), ass_style: AssStyleSettings::default(), add_bom: true }
    }
}

impl Default for AppConfig {
    fn default() -> (c: Self)
        ensures
            c.general.ui_language@ == "en"@,
            c.general.theme@ == "system"@,
            c.general.output_dir is None,
            !c.general.use_gpu,
            c.asr.model_size@ == "base"@,
            c.asr.default_language@ == "auto"@,
            c.asr.n_threads == 0,
            c.translation.engine@ == "llm"@,
            c.translation.default_target_language@ == "zh"@,
            llm_defaults(c.translation.llm),
            c.translation.deepl.api_key@ == Seq::<char>::empty(),
            c.subtitle.default_format@ == "srt"@,
            c.subtitle.add_bom,
            c.subtitle.ass_style.primary_size == 48,
            c.subtitle.ass_style.secondary_size == 36,
    {
        AppConfig {
            general: GeneralConfig::default(),
            asr: AsrSettings::default(),
            translation: TranslationSettings::default(),
            subtitle: SubtitleSettings::default(),
        }
    }
}

/// The number of logical CPUs (`num_cpus::get`), which the crate documents
/// as always at least one.
#[verifier::external_body]
fn logical_cpus() -> (n: usize)
    ensures
        n >= 1,
{
    num_cpus::get()
}

/// The number of physical cores (`num_cpus::get_physical`), which the crate
/// documents as always at least one.
#[verifier::external_body]
fn physical_cpus() -> (n: usize)
    ensures
        n >= 1,
{
    num_cpus::get_physical()
}

/// The thread count for given core counts: the physical cores (the logical
/// CPUs when none are reported), kept between one and eight.
pub open spec fn threads_for(physical: usize, logical: usize) -> u32 {
    let preferred = if physical > 0 {
        physical
    } else {
        logical
    };
    if preferred < 1 {
        1
    } else if preferred > 8 {
        8
    } else {
        preferred as u32
    }
}

/// The thread count for given core counts (see `threads_for`).
pub fn threads_from_counts(physical: usize, logical: usize) -> (n: u32)
    ensures
        n == threads_for(physical, logical),
        1 <= n <= 8,
{
    let preferred = if physical > 0 {
        physical
    } else {
        logical
    };
    if preferred < 1 {
        1
    } else if preferred > 8 {
        8
    } else {
        preferred as u32
    }
}

/// The recommended number of recognition threads on this machine: between
/// one and eight.
pub fn recommended_asr_threads() -> (n: u32)
    ensures
        1 <= n <= 8,
{
    let physical = physical_cpus();
    let logical = logical_cpus();
    threads_from_counts(physical, logical)
}

impl AppConfig {
    /// The configured thread count, or the recommended one when it is zero.
    pub fn resolved_asr_threads(&self) -> (n: u32)
        ensures
            self.asr.n_threads > 0 ==> n == self.asr.n_threads,
            self.asr.n_threads == 0 ==> 1 <= n <= 8,
    {
        let configured = self.asr.n_threads;
        if configured > 0 {
            configured
        } else {
            recommended_asr_threads()
        }
    }
}

} // verus!
