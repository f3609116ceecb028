//! Google Translate's free endpoint: descriptor, configuration check and
//! language codes.

use crate::error::TranslateError;
use crate::text::{str_eq, trim};
use crate::translate::fields::value_or_empty;
use crate::translate::service::{
    required_issues, validate_required, ConfigFieldType, ServiceConfig, ServiceDescriptor,
    TranslateMode, ValidationIssue, issues_view,
};
use crate::translate::services::{descriptor, descriptor_view, field, schema_view};
use crate::translate::shared::{endpoint_at, join_present, joined_present, strip_trailing, validate_http_url};
use crate::text::starts_with;
use vstd::prelude::*;

verus! {

/// The free Google Translate endpoint.
pub struct GoogleTranslateService {
    pub descriptor: ServiceDescriptor,
}

/// Google's code for a language code.
pub open spec fn google_lang(l: Seq<char>) -> Seq<char> {
    if l == "zh"@ {
        "zh-CN"@
    } else if l == "pt"@ {
        "pt-BR"@
    } else {
        l
    }
}

impl GoogleTranslateService {
    pub fn new() -> (s: Self)
        ensures
            descriptor_view(s.descriptor) == ("google"@, "Google Translate"@, "使用 Google 免费翻译端点，不需要 API Key。"@, TranslateMode::OnlineTranslate, true),
            schema_view(s.descriptor.config_schema@) == seq![
                ("base_url"@, "基础地址"@, "https://translate.googleapis.com"@, true, None::<Seq<char>>, Some("默认使用 Google Translate 免费端点。"@)),
            ],
            s.descriptor.config_schema@[0].field_type == ConfigFieldType::Url,
    {
        let schema = vec![
            field(
                "base_url",
                "基础地址",
                ConfigFieldType::Url,
                "https://translate.googleapis.com",
                true,
                None,
                Some("默认使用 Google Translate 免费端点。"),
            ),
        ];
        let d = descriptor(
            "google",
            "Google Translate",
            "使用 Google 免费翻译端点，不需要 API Key。",
            TranslateMode::OnlineTranslate,
            true,
            schema,
        );
        proof {
            assert(schema_view(d.config_schema@) =~= seq![
                ("base_url"@, "基础地址"@, "https://translate.googleapis.com"@, true, None::<Seq<char>>, Some("默认使用 Google Translate 免费端点。"@)),
            ]);
        }
        GoogleTranslateService { descriptor: d }
    }

    pub fn descriptor(&self) -> (d: &ServiceDescriptor)
        ensures
            *d == self.descriptor,
    {
        &self.descriptor
    }

    /// Google's code for a language: mainland Chinese for `zh`, Brazilian
    /// Portuguese for `pt`, others unchanged.
    pub fn map_lang(lang: &str) -> (s: &str)
        ensures
            s@ == google_lang(lang@),
    {
        if str_eq(lang, "zh") {
            "zh-CN"
        } else if str_eq(lang, "pt") {
            "pt-BR"
        } else {
            lang
        }
    }

    /// Required fields must not be blank.
    pub fn validate_config(&self, config: &ServiceConfig) -> (r: Result<(), Vec<ValidationIssue>>)
        ensures
            match r {
                Ok(()) => required_issues(self.descriptor.config_schema@, config.fields@).len() == 0,
                Err(v) => issues_view(v@) == required_issues(self.descriptor.config_schema@, config.fields@)
                    && v@.len() > 0,
            },
    {
        validate_required(self.descriptor.config_schema.as_slice(), config)
    }

    /// The translation address under the configured base.
    pub fn endpoint(config: &ServiceConfig) -> (s: String)
        ensures
            s@ == strip_trailing(value_or_empty(config.fields@, "base_url"@), '/') + "/translate_a/single"@,
    {
        endpoint_at(config.get("base_url"), "/translate_a/single")
    }

    /// The translation of `original` read from a reply: the sentence pieces
    /// joined, or `original` itself when the reply has no sentence list.
    /// `sentences` holds, for each sentence entry, its first item where that
    /// is text.
    pub fn reply_text(sentences: Option<Vec<Option<String>>>, original: &str) -> (s: String)
        ensures
            match sentences {
                Some(v) => s@ == joined_present(v@),
                None => s@ == original@,
            },
    {
        match sentences {
            Some(v) => join_present(v.as_slice()),
            None => original.to_owned(),
        }
    }

    /// Checks that the base address is an HTTP(S) address.
    pub fn initialize(&self, config: &ServiceConfig) -> (r: Result<(), TranslateError>)
        ensures
            r is Ok <==> (trim(value_or_empty(config.fields@, "base_url"@)).len() > 0 && (starts_with(
                value_or_empty(config.fields@, "base_url"@),
                "http://"@,
            ) || starts_with(value_or_empty(config.fields@, "base_url"@), "https://"@))),
            r matches Err(e) ==> e is Config,
    {
        match validate_http_url("基础地址", config.get("base_url")) {
            Ok(()) => Ok(()),
            Err(m) => Err(TranslateError::Config(m)),
        }
    }
}

} // verus!
