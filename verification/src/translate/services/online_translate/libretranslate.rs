//! LibreTranslate: descriptor and configuration check.

use crate::error::TranslateError;
use crate::text::{starts_with, trim};
use crate::translate::fields::value_or_empty;
use crate::translate::service::{
    issue, issues_view, validation_outcome, ConfigFieldType, ServiceConfig, ServiceDescriptor,
    TranslateMode, ValidationIssue,
};
use crate::translate::services::{descriptor, descriptor_view, field, schema_view};
use crate::translate::shared::{endpoint_at, strip_trailing, validate_http_url};
use vstd::prelude::*;

verus! {

/// A LibreTranslate instance, public or self-hosted.
pub struct LibreTranslateService {
    pub descriptor: ServiceDescriptor,
}

/// The value is an HTTP(S) address.
pub open spec fn is_http_url(v: Seq<char>) -> bool {
    trim(v).len() > 0 && (starts_with(v, "http://"@) || starts_with(v, "https://"@))
}

/// The message `validate_http_url` gives for the base address.
pub open spec fn base_url_message(v: Seq<char>) -> Seq<char> {
    if trim(v).len() == 0 {
        "基础地址"@ + "不能为空"@
    } else {
        "基础地址"@ + "必须以 http:// 或 https:// 开头"@
    }
}

impl LibreTranslateService {
    pub fn new() -> (s: Self)
        ensures
            descriptor_view(s.descriptor) == ("libretranslate"@, "LibreTranslate"@, "使用 LibreTranslate 公共实例或自部署实例执行翻译。"@, TranslateMode::OnlineTranslate, true),
            schema_view(s.descriptor.config_schema@) == seq![
                ("base_url"@, "基础地址"@, "https://libretranslate.de"@, true, Some("https://libretranslate.de"@), Some("支持自部署实例地址。"@)),
                ("api_key"@, "API Key"@, ""@, false, Some("可选"@), Some("部分实例需要 API Key。"@)),
            ],
            s.descriptor.config_schema@[0].field_type == ConfigFieldType::Url,
            s.descriptor.config_schema@[1].field_type == ConfigFieldType::Password,
    {
        let schema = vec![
            field(
                "base_url",
                "基础地址",
                ConfigFieldType::Url,
                "https://libretranslate.de",
                true,
                Some("https://libretranslate.de"),
                Some("支持自部署实例地址。"),
            ),
            field(
                "api_key",
                "API Key",
                ConfigFieldType::Password,
                "",
                false,
                Some("可选"),
                Some("部分实例需要 API Key。"),
            ),
        ];
        let d = descriptor(
            "libretranslate",
            "LibreTranslate",
            "使用 LibreTranslate 公共实例或自部署实例执行翻译。",
            TranslateMode::OnlineTranslate,
            true,
            schema,
        );
        proof {
            assert(schema_view(d.config_schema@) =~= seq![
                ("base_url"@, "基础地址"@, "https://libretranslate.de"@, true, Some("https://libretranslate.de"@), Some("支持自部署实例地址。"@)),
                ("api_key"@, "API Key"@, ""@, false, Some("可选"@), Some("部分实例需要 API Key。"@)),
            ]);
        }
        LibreTranslateService { descriptor: d }
    }

    pub fn descriptor(&self) -> (d: &ServiceDescriptor)
        ensures
            *d == self.descriptor,
    {
        &self.descriptor
    }

    /// The translation address under the configured base.
    pub fn endpoint(config: &ServiceConfig) -> (s: String)
        ensures
            s@ == strip_trailing(value_or_empty(config.fields@, "base_url"@), '/') + "/translate"@,
    {
        endpoint_at(config.get("base_url"), "/translate")
    }

    /// The base address must be an HTTP(S) address.
    pub fn validate_config(&self, config: &ServiceConfig) -> (r: Result<(), Vec<ValidationIssue>>)
        ensures
            match r {
                Ok(()) => is_http_url(value_or_empty(config.fields@, "base_url"@)),
                Err(v) => !is_http_url(value_or_empty(config.fields@, "base_url"@)) && issues_view(v@)
                    == seq![("base_url"@, base_url_message(value_or_empty(config.fields@, "base_url"@)))],
            },
    {
        match validate_http_url("基础地址", config.get("base_url")) {
            Ok(()) => Ok(()),
            Err(message) => {
                let v = vec![issue("base_url", message)];
                assert(issues_view(v@) =~= seq![("base_url"@, v@[0].message@)]);
                Err(v)
            },
        }
    }

    /// Checks the configuration before use.
    pub fn initialize(&self, config: &ServiceConfig) -> (r: Result<(), TranslateError>)
        ensures
            r is Ok <==> is_http_url(value_or_empty(config.fields@, "base_url"@)),
            r matches Err(TranslateError::Config(m)) ==> m@ == base_url_message(
                value_or_empty(config.fields@, "base_url"@),
            ),
            r matches Err(e) ==> e is Config,
    {
        let r = self.validate_config(config);
        proof {
            if r is Err {
                let v = r->Err_0;
                assert(issues_view(v@).len() == v@.len());
                assert(issues_view(v@)[0] == (v@[0].field@, v@[0].message@));
            }
        }
        validation_outcome(r)
    }

    /// The error for a failed request: an invalid key on 401 or 403.
    pub fn status_error(status: u16, message: String) -> (e: TranslateError)
        ensures
            (status == 401 || status == 403) ==> e is InvalidApiKey,
            !(status == 401 || status == 403) ==> (e matches TranslateError::Api { status: s, message: m }
                && s == status && m == message),
    {
        if status == 401 || status == 403 {
            TranslateError::InvalidApiKey
        } else {
            TranslateError::Api { status, message }
        }
    }
}

} // verus!
