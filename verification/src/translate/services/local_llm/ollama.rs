//! Ollama (OpenAI-compatible, local): descriptor, configuration check and
//! the address of its model list.

use crate::error::TranslateError;
use crate::text::trim;
use crate::translate::fields::value_or_empty;
use crate::translate::service::{
    is_blank, issue, issues_result, issues_view, validation_outcome, ConfigFieldType, ServiceConfig,
    ServiceDescriptor, TranslateMode, ValidationIssue,
};
use crate::translate::services::online_llm::ark::issue_if;
use crate::translate::services::online_translate::libretranslate::{base_url_message, is_http_url};
use crate::translate::services::{descriptor, descriptor_view, field, schema_view};
use crate::translate::shared::{
    normalize_base_url, route_beside_api, sibling_route, strip_trailing, validate_http_url,
};
use vstd::prelude::*;

verus! {

/// A local Ollama server.
pub struct OllamaService {
    pub descriptor: ServiceDescriptor,
}

/// The issues of an Ollama configuration: bad base address, blank model.
pub open spec fn ollama_issues(m: Map<Seq<char>, Seq<char>>) -> Seq<(Seq<char>, Seq<char>)> {
    issue_if(
        !is_http_url(value_or_empty(m, "base_url"@)),
        "base_url"@,
        base_url_message(value_or_empty(m, "base_url"@)),
    ) + issue_if(trim(value_or_empty(m, "model"@)).len() == 0, "model"@, "翻译模型不能为空"@)
}

impl OllamaService {
    pub fn new() -> (s: Self)
        ensures
            descriptor_view(s.descriptor) == ("ollama"@, "Ollama"@, "通过本地 Ollama 服务执行字幕翻译。"@, TranslateMode::LocalLlm, false),
            schema_view(s.descriptor.config_schema@) == seq![
                ("base_url"@, "基础地址"@, "http://127.0.0.1:11434/v1"@, true, None::<Seq<char>>, Some("本地 Ollama 的 OpenAI 兼容入口。"@)),
                ("model"@, "翻译模型"@, "qwen2.5:7b"@, true, Some("qwen2.5:7b"@), None::<Seq<char>>),
                ("batch_size"@, "批大小"@, "20"@, false, None::<Seq<char>>, Some("每次请求处理的字幕段数。"@)),
            ],
            s.descriptor.config_schema@[0].field_type == ConfigFieldType::Url,
            s.descriptor.config_schema@[1].field_type == ConfigFieldType::Text,
            s.descriptor.config_schema@[2].field_type == ConfigFieldType::Number,
    {
        let schema = vec![
            field(
                "base_url",
                "基础地址",
                ConfigFieldType::Url,
                "http://127.0.0.1:11434/v1",
                true,
                None,
                Some("本地 Ollama 的 OpenAI 兼容入口。"),
            ),
            field("model", "翻译模型", ConfigFieldType::Text, "qwen2.5:7b", true, Some("qwen2.5:7b"), None),
            field(
                "batch_size",
                "批大小",
                ConfigFieldType::Number,
                "20",
                false,
                None,
                Some("每次请求处理的字幕段数。"),
            ),
        ];
        let d = descriptor(
            "ollama",
            "Ollama",
            "通过本地 Ollama 服务执行字幕翻译。",
            TranslateMode::LocalLlm,
            false,
            schema,
        );
        proof {
            assert(schema_view(d.config_schema@) =~= seq![
                ("base_url"@, "基础地址"@, "http://127.0.0.1:11434/v1"@, true, None::<Seq<char>>, Some("本地 Ollama 的 OpenAI 兼容入口。"@)),
                ("model"@, "翻译模型"@, "qwen2.5:7b"@, true, Some("qwen2.5:7b"@), None::<Seq<char>>),
                ("batch_size"@, "批大小"@, "20"@, false, None::<Seq<char>>, Some("每次请求处理的字幕段数。"@)),
            ]);
        }
        OllamaService { descriptor: d }
    }

    pub fn descriptor(&self) -> (d: &ServiceDescriptor)
        ensures
            *d == self.descriptor,
    {
        &self.descriptor
    }

    /// The base address must be an HTTP(S) address and the model not blank.
    pub fn validate_config(&self, config: &ServiceConfig) -> (r: Result<(), Vec<ValidationIssue>>)
        ensures
            match r {
                Ok(()) => ollama_issues(config.fields@).len() == 0,
                Err(v) => issues_view(v@) == ollama_issues(config.fields@) && v@.len() > 0,
            },
    {
        let mut issues: Vec<ValidationIssue> = Vec::new();
        let ghost m = config.fields@;
        match validate_http_url("基础地址", config.get("base_url")) {
            Ok(()) => {},
            Err(message) => {
                issues.push(issue("base_url", message));
            },
        }
        let ghost a = issues_view(issues@);
        assert(a =~= issue_if(
            !is_http_url(value_or_empty(m, "base_url"@)),
            "base_url"@,
            base_url_message(value_or_empty(m, "base_url"@)),
        ));
        if is_blank(config.get("model")) {
            issues.push(issue("model", "翻译模型不能为空".to_owned()));
        }
        assert(issues_view(issues@) =~= ollama_issues(m));
        issues_result(issues)
    }

    /// Checks the configuration before use.
    pub fn initialize(&self, config: &ServiceConfig) -> (r: Result<(), TranslateError>)
        ensures
            r is Ok <==> ollama_issues(config.fields@).len() == 0,
            r matches Err(TranslateError::Config(m)) ==> m@ == ollama_issues(config.fields@)[0].1,
            r matches Err(e) ==> e is Config,
    {
        let r = self.validate_config(config);
        proof {
            if r is Err {
                let v = r->Err_0;
                assert(issues_view(v@).len() == v@.len());
                assert(issues_view(v@)[0] == (v@[0].field@, v@[0].message@));
            }
        }
        validation_outcome(r)
    }

    /// The address of the model list, beside the OpenAI-compatible API.
    pub fn health_url(config: &ServiceConfig) -> (s: String)
        ensures
            s@ == sibling_route(
                strip_trailing(trim(value_or_empty(config.fields@, "base_url"@)), '/'),
                "/api/tags"@,
            ),
    {
        let base = normalize_base_url(config.get("base_url"));
        route_beside_api(base.as_str(), "/api/tags")
    }
}

} // verus!
