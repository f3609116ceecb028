//! Volcano Engine Ark (OpenAI-compatible): descriptor and configuration
//! check.

use crate::error::TranslateError;
use crate::text::trim;
use crate::translate::fields::value_or_empty;
use crate::translate::service::{
    is_blank, issue, issues_result, issues_view, validation_outcome, ConfigFieldType, ServiceConfig,
    ServiceDescriptor, TranslateMode, ValidationIssue,
};
use crate::translate::services::online_translate::libretranslate::{base_url_message, is_http_url};
use crate::translate::services::{descriptor, descriptor_view, field, schema_view};
use crate::translate::shared::validate_http_url;
use vstd::prelude::*;

verus! {

/// The Ark cloud model service.
pub struct ArkService {
    pub descriptor: ServiceDescriptor,
}

/// `(field, message)` if `bad`.
pub open spec fn issue_if(bad: bool, f: Seq<char>, m: Seq<char>) -> Seq<(Seq<char>, Seq<char>)> {
    if bad {
        seq![(f, m)]
    } else {
        Seq::empty()
    }
}

/// The issues of an Ark configuration: blank key, bad base address, blank
/// endpoint, in that order.
pub open spec fn ark_issues(m: Map<Seq<char>, Seq<char>>) -> Seq<(Seq<char>, Seq<char>)> {
    issue_if(trim(value_or_empty(m, "api_key"@)).len() == 0, "api_key"@, "API Key不能为空"@)
        + issue_if(
        !is_http_url(value_or_empty(m, "base_url"@)),
        "base_url"@,
        base_url_message(value_or_empty(m, "base_url"@)),
    ) + issue_if(
        trim(value_or_empty(m, "model"@)).len() == 0,
        "model"@,
        "Endpoint ID / 模型不能为空"@,
    )
}

impl ArkService {
    pub fn new() -> (s: Self)
        ensures
            descriptor_view(s.descriptor) == ("ark"@, "方舟"@, "使用火山引擎方舟 OpenAI 兼容接口执行字幕翻译。"@, TranslateMode::OnlineLlm, true),
            schema_view(s.descriptor.config_schema@) == seq![
                ("api_key"@, "API Key"@, ""@, true, Some("Bearer Token"@), Some("方舟控制台生成的 API Key。"@)),
                ("base_url"@, "基础地址"@, "https://ark.cn-beijing.volces.com/api/v3"@, true, None::<Seq<char>>, Some("默认使用方舟 OpenAI 兼容接口地址。"@)),
                ("model"@, "Endpoint ID / 模型"@, "ep-xxxxxxxxxxxxxxxx"@, true, Some("ep-..."@), Some("通常填写方舟 Endpoint ID。"@)),
                ("batch_size"@, "批大小"@, "20"@, false, None::<Seq<char>>, Some("每次请求处理的字幕段数。"@)),
            ],
            s.descriptor.config_schema@[0].field_type == ConfigFieldType::Password,
            s.descriptor.config_schema@[1].field_type == ConfigFieldType::Url,
            s.descriptor.config_schema@[2].field_type == ConfigFieldType::Text,
            s.descriptor.config_schema@[3].field_type == ConfigFieldType::Number,
    {
        let schema = vec![
            field(
                "api_key",
                "API Key",
                ConfigFieldType::Password,
                "",
                true,
                Some("Bearer Token"),
                Some("方舟控制台生成的 API Key。"),
            ),
            field(
                "base_url",
                "基础地址",
                ConfigFieldType::Url,
                "https://ark.cn-beijing.volces.com/api/v3",
                true,
                None,
                Some("默认使用方舟 OpenAI 兼容接口地址。"),
            ),
            field(
                "model",
                "Endpoint ID / 模型",
                ConfigFieldType::Text,
                "ep-xxxxxxxxxxxxxxxx",
                true,
                Some("ep-..."),
                Some("通常填写方舟 Endpoint ID。"),
            ),
            field(
                "batch_size",
                "批大小",
                ConfigFieldType::Number,
                "20",
                false,
                None,
                Some("每次请求处理的字幕段数。"),
            ),
        ];
        let d = descriptor(
            "ark",
            "方舟",
            "使用火山引擎方舟 OpenAI 兼容接口执行字幕翻译。",
            TranslateMode::OnlineLlm,
            true,
            schema,
        );
        proof {
            assert(schema_view(d.config_schema@) =~= seq![
                ("api_key"@, "API Key"@, ""@, true, Some("Bearer Token"@), Some("方舟控制台生成的 API Key。"@)),
                ("base_url"@, "基础地址"@, "https://ark.cn-beijing.volces.com/api/v3"@, true, None::<Seq<char>>, Some("默认使用方舟 OpenAI 兼容接口地址。"@)),
                ("model"@, "Endpoint ID / 模型"@, "ep-xxxxxxxxxxxxxxxx"@, true, Some("ep-..."@), Some("通常填写方舟 Endpoint ID。"@)),
                ("batch_size"@, "批大小"@, "20"@, false, None::<Seq<char>>, Some("每次请求处理的字幕段数。"@)),
            ]);
        }
        ArkService { descriptor: d }
    }

    pub fn descriptor(&self) -> (d: &ServiceDescriptor)
        ensures
            *d == self.descriptor,
    {
        &self.descriptor
    }

    /// Key and endpoint must not be blank; the base address must be an
    /// HTTP(S) address.
    pub fn validate_config(&self, config: &ServiceConfig) -> (r: Result<(), Vec<ValidationIssue>>)
        ensures
            match r {
                Ok(()) => ark_issues(config.fields@).len() == 0,
                Err(v) => issues_view(v@) == ark_issues(config.fields@) && v@.len() > 0,
            },
    {
        let mut issues: Vec<ValidationIssue> = Vec::new();
        let ghost m = config.fields@;
        if is_blank(config.get("api_key")) {
            issues.push(issue("api_key", "API Key不能为空".to_owned()));
        }
        let ghost a = issues_view(issues@);
        assert(a =~= issue_if(trim(value_or_empty(m, "api_key"@)).len() == 0, "api_key"@, "API Key不能为空"@));
        match validate_http_url("基础地址", config.get("base_url")) {
            Ok(()) => {},
            Err(message) => {
                issues.push(issue("base_url", message));
            },
        }
        let ghost b = issues_view(issues@);
        assert(b =~= a + issue_if(
            !is_http_url(value_or_empty(m, "base_url"@)),
            "base_url"@,
            base_url_message(value_or_empty(m, "base_url"@)),
        ));
        if is_blank(config.get("model")) {
            issues.push(issue("model", "Endpoint ID / 模型不能为空".to_owned()));
        }
        assert(issues_view(issues@) =~= ark_issues(m));
        issues_result(issues)
    }

    /// Checks the configuration before use.
    pub fn initialize(&self, config: &ServiceConfig) -> (r: Result<(), TranslateError>)
        ensures
            r is Ok <==> ark_issues(config.fields@).len() == 0,
            r matches Err(TranslateError::Config(m)) ==> m@ == ark_issues(config.fields@)[0].1,
            r matches Err(e) ==> e is Config,
    {
        let r = self.validate_config(config);
        proof {
            if r is Err {
                let v = r->Err_0;
                assert(issues_view(v@).len() == v@.len());
                assert(issues_view(v@)[0] == (v@[0].field@, v@[0].message@));
            }
        }
        validation_outcome(r)
    }
}

} // verus!
