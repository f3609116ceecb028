//! DeepL: descriptor, configuration check, endpoints and language codes.

use crate::error::TranslateError;
use crate::text::{chars_to_string, ends_with, str_ends_with, str_eq, trim};
use crate::translate::fields::value_or_empty;
use crate::translate::service::{
    config_error, is_blank, issue, issues_view, ConfigFieldType, ServiceConfig, ServiceDescriptor,
    TranslateMode, ValidationIssue,
};
use crate::translate::services::{descriptor, descriptor_view, field, schema_view};
use vstd::prelude::*;

verus! {

/// The DeepL translation API.
pub struct DeepLService {
    pub descriptor: ServiceDescriptor,
}

/// Upper case of a string (`str::to_uppercase`, Unicode case mapping).
pub uninterp spec fn uppercase_of(s: Seq<char>) -> Seq<char>;

/// `str::to_uppercase`: the Unicode upper case of `s`.
#[verifier::external_body]
fn to_uppercase(s: &str) -> (r: String)
    ensures
        r@ == uppercase_of(s@),
{
    s.to_uppercase()
}

/// DeepL's code for a language code.
pub open spec fn deepl_lang(l: Seq<char>) -> Seq<char> {
    if l == "en"@ {
        "EN"@
    } else if l == "zh"@ {
        "ZH"@
    } else if l == "ja"@ {
        "JA"@
    } else if l == "ko"@ {
        "KO"@
    } else if l == "fr"@ {
        "FR"@
    } else if l == "de"@ {
        "DE"@
    } else if l == "es"@ {
        "ES"@
    } else if l == "pt"@ {
        "PT-BR"@
    } else {
        uppercase_of(l)
    }
}

impl DeepLService {
    pub fn new() -> (s: Self)
        ensures
            descriptor_view(s.descriptor) == ("deepl"@, "DeepL"@, "使用 DeepL 翻译 API 执行高质量翻译。"@, TranslateMode::OnlineTranslate, true),
            schema_view(s.descriptor.config_schema@) == seq![
                ("api_key"@, "API Key"@, ""@, true, Some("可使用 :fx 结尾的 Free Key"@), Some("DeepL Free 和 Pro 均可。"@)),
            ],
            s.descriptor.config_schema@[0].field_type == ConfigFieldType::Password,
    {
        let schema = vec![
            field(
                "api_key",
                "API Key",
                ConfigFieldType::Password,
                "",
                true,
                Some("可使用 :fx 结尾的 Free Key"),
                Some("DeepL Free 和 Pro 均可。"),
            ),
        ];
        let d = descriptor(
            "deepl",
            "DeepL",
            "使用 DeepL 翻译 API 执行高质量翻译。",
            TranslateMode::OnlineTranslate,
            true,
            schema,
        );
        proof {
            assert(schema_view(d.config_schema@) =~= seq![
                ("api_key"@, "API Key"@, ""@, true, Some("可使用 :fx 结尾的 Free Key"@), Some("DeepL Free 和 Pro 均可。"@)),
            ]);
        }
        DeepLService { descriptor: d }
    }

    pub fn descriptor(&self) -> (d: &ServiceDescriptor)
        ensures
            *d == self.descriptor,
    {
        &self.descriptor
    }

    /// The API base: the free endpoint for keys ending in `:fx`.
    pub fn api_base(api_key: &str) -> (s: &'static str)
        ensures
            s@ == if ends_with(api_key@, ":fx"@) {
                "https://api-free.deepl.com/v2"@
            } else {
                "https://api.deepl.com/v2"@
            },
    {
        if str_ends_with(api_key, ":fx") {
            "https://api-free.deepl.com/v2"
        } else {
            "https://api.deepl.com/v2"
        }
    }

    /// DeepL's code for a language: upper case, Brazilian Portuguese for
    /// `pt`.
    pub fn map_lang(lang: &str) -> (s: String)
        ensures
            s@ == deepl_lang(lang@),
    {
        if str_eq(lang, "en") {
            "EN".to_owned()
        } else if str_eq(lang, "zh") {
            "ZH".to_owned()
        } else if str_eq(lang, "ja") {
            "JA".to_owned()
        } else if str_eq(lang, "ko") {
            "KO".to_owned()
        } else if str_eq(lang, "fr") {
            "FR".to_owned()
        } else if str_eq(lang, "de") {
            "DE".to_owned()
        } else if str_eq(lang, "es") {
            "ES".to_owned()
        } else if str_eq(lang, "pt") {
            "PT-BR".to_owned()
        } else {
            to_uppercase(lang)
        }
    }

    /// The key must not be blank.
    pub fn validate_config(&self, config: &ServiceConfig) -> (r: Result<(), Vec<ValidationIssue>>)
        ensures
            match r {
                Ok(()) => trim(value_or_empty(config.fields@, "api_key"@)).len() > 0,
                Err(v) => trim(value_or_empty(config.fields@, "api_key"@)).len() == 0 && issues_view(v@)
                    == seq![("api_key"@, "API Key不能为空"@)],
            },
    {
        if is_blank(config.get("api_key")) {
            let v = vec![issue("api_key", "API Key不能为空".to_owned())];
            assert(issues_view(v@) =~= seq![("api_key"@, "API Key不能为空"@)]);
            Err(v)
        } else {
            Ok(())
        }
    }

    /// Checks the configuration before use.
    pub fn initialize(&self, config: &ServiceConfig) -> (r: Result<(), TranslateError>)
        ensures
            r is Ok <==> trim(value_or_empty(config.fields@, "api_key"@)).len() > 0,
            r matches Err(TranslateError::Config(m)) ==> m@ == "API Key不能为空"@,
            !(r matches Err(TranslateError::Api { .. })),
    {
        match self.validate_config(config) {
            Ok(()) => Ok(()),
            Err(issues) => {
                proof {
                    assert(issues_view(issues@).len() == issues@.len());
                    assert(issues_view(issues@)[0] == (issues@[0].field@, issues@[0].message@));
                }
                Err(config_error(issues))
            },
        }
    }

    /// The error for a failed request: an invalid key on 403.
    pub fn status_error(status: u16, message: String) -> (e: TranslateError)
        ensures
            status == 403 ==> e is InvalidApiKey,
            status != 403 ==> (e matches TranslateError::Api { status: s, message: m } && s == status
                && m == message),
    {
        if status == 403 {
            TranslateError::InvalidApiKey
        } else {
            TranslateError::Api { status, message }
        }
    }
}

} // verus!
