use std::path::PathBuf;
use subtitle_forge::translate::services::embedded_llm::llama_cpp::LaunchedServers;
use subtitle_forge::translate::shared::{endpoint_at, health_of_reply, join_present};
use subtitle_forge::translate::llm_api::{LlmConfig, LlmTranslateEngine};
use subtitle_forge::translate::deepl::DeepLTranslateEngine;
use subtitle_forge::translate::google::GoogleTranslatePlugin;
use subtitle_forge::translate::libre::LibreTranslatePlugin;
use subtitle_forge::translate::offline::OfflineTranslateEngine;
use subtitle_forge::translate::ollama::OllamaTranslatePlugin;
use subtitle_forge::translate::plugin::PluginConfig;

use subtitle_forge::error::TranslateError;
use subtitle_forge::translate::engine::{TranslateRequest, TranslateResult};
use subtitle_forge::translate::factory::{
    build_factory, default_settings, health_gate, issues_message, with_engine, FallbackAction,
    FallbackRun,
};
use subtitle_forge::translate::fields::FieldMap;
use subtitle_forge::translate::middleware::{
    fill_fresh, hash_key_text, is_retryable, split_cached, RetryDecision, RetryPolicy, TranslationCache,
};
use subtitle_forge::translate::service::{
    HealthStatus, ServiceConfig, TranslateMode, ValidationIssue,
};
use subtitle_forge::translate::services::embedded_llm::llama_cpp::LlamaCppService;
use subtitle_forge::translate::services::local_llm::ollama::OllamaService;
use subtitle_forge::translate::services::online_llm::ark::ArkService;
use subtitle_forge::translate::services::online_llm::deepseek::DeepSeekService;
use subtitle_forge::translate::services::online_translate::deepl::DeepLService;
use subtitle_forge::translate::services::online_translate::google::GoogleTranslateService;
use subtitle_forge::translate::services::online_translate::libretranslate::LibreTranslateService;
use subtitle_forge::translate::shared::{
    bearer_header, build_translation_prompt, chat_completions_endpoint, completion_status_error,
    normalize_base_url, parse_multiline_translation, route_beside_api, validate_http_url,
};

#[test]
fn validates_api_key() {
    let service = DeepLService::new();
    let config = ServiceConfig::new("deepl");
    assert!(service.validate_config(&config).is_err());
}

#[test]
fn validates_base_url() {
    let service = LibreTranslateService::new();
    let mut config = ServiceConfig::new("libretranslate");
    config.set("base_url", "invalid-url");
    assert!(service.validate_config(&config).is_err());
}

#[test]
fn ark_validates_required_fields() {
    let service = ArkService::new();
    let config = ServiceConfig::new("ark");
    let issues = service.validate_config(&config).unwrap_err();
    assert!(issues.iter().any(|issue| issue.field == "api_key"));
    assert!(issues.iter().any(|issue| issue.field == "base_url"));
    assert!(issues.iter().any(|issue| issue.field == "model"));
}

#[test]
fn ollama_validates_required_fields() {
    let service = OllamaService::new();
    let config = ServiceConfig::new("ollama");
    let issues = service.validate_config(&config).unwrap_err();
    assert!(issues.iter().any(|issue| issue.field == "base_url"));
    assert!(issues.iter().any(|issue| issue.field == "model"));
}

#[test]
fn llama_cpp_validates_required_fields() {
    let service = LlamaCppService::new(PathBuf::from("/tmp/subtitle-forge-test"));
    let config = ServiceConfig::new("llama_cpp");
    let issues = service.validate_config(&config).unwrap_err();
    assert!(issues.iter().any(|issue| issue.field == "model_key"));
}

#[test]
fn valid_configurations_pass() {
    let mut deepl = ServiceConfig::new("deepl");
    deepl.set("api_key", "secret:fx");
    assert!(DeepLService::new().validate_config(&deepl).is_ok());
    assert!(DeepLService::new().initialize(&deepl).is_ok());

    let mut libre = ServiceConfig::new("libretranslate");
    libre.set("base_url", "https://libretranslate.com");
    assert!(LibreTranslateService::new().validate_config(&libre).is_ok());

    let mut ark = ServiceConfig::new("ark");
    ark.set("api_key", "k");
    ark.set("base_url", "https://ark.example.com/api/v3");
    ark.set("model", "ep-1");
    assert!(ArkService::new().validate_config(&ark).is_ok());

    let mut llama = ServiceConfig::new("llama_cpp");
    llama.set("model_key", "qwen2.5-3b-instruct-q4km");
    let service = LlamaCppService::new(PathBuf::from("/tmp/subtitle-forge-test"));
    assert!(service.validate_config(&llama).is_ok());
    llama.set("model_key", "no-such-model");
    let issues = service.validate_config(&llama).unwrap_err();
    assert_eq!(issues.len(), 1);
    assert_eq!(issues[0].message, "内嵌模型无效");
}

#[test]
fn initialize_reports_the_first_issue() {
    let config = ServiceConfig::new("deepl");
    match DeepLService::new().initialize(&config) {
        Err(TranslateError::Config(m)) => assert_eq!(m, "API Key不能为空"),
        _ => panic!("expected a configuration error"),
    }
    let mut libre = ServiceConfig::new("libretranslate");
    libre.set("base_url", "ftp://host");
    match LibreTranslateService::new().initialize(&libre) {
        Err(TranslateError::Config(m)) => assert_eq!(m, "基础地址必须以 http:// 或 https:// 开头"),
        _ => panic!("expected a configuration error"),
    }
}

#[test]
fn language_codes_per_service() {
    assert_eq!(DeepLService::map_lang("pt"), "PT-BR");
    assert_eq!(DeepLService::map_lang("zh"), "ZH");
    assert_eq!(DeepLService::map_lang("it"), "IT");
    assert_eq!(DeepLService::map_lang("nl"), "NL");
    assert_eq!(GoogleTranslateService::map_lang("zh"), "zh-CN");
    assert_eq!(GoogleTranslateService::map_lang("pt"), "pt-BR");
    assert_eq!(GoogleTranslateService::map_lang("ja"), "ja");
    assert_eq!(DeepLService::api_base("abc:fx"), "https://api-free.deepl.com/v2");
    assert_eq!(DeepLService::api_base("abc"), "https://api.deepl.com/v2");
}

#[test]
fn status_codes_become_errors() {
    assert!(matches!(DeepLService::status_error(403, "x".to_string()), TranslateError::InvalidApiKey));
    assert!(matches!(
        DeepLService::status_error(500, "x".to_string()),
        TranslateError::Api { status: 500, .. }
    ));
    assert!(matches!(completion_status_error(401, "x".to_string()), TranslateError::InvalidApiKey));
    match completion_status_error(502, "bad gateway".to_string()) {
        TranslateError::Api { status, message } => {
            assert_eq!(status, 502);
            assert_eq!(message, "bad gateway");
        }
        _ => panic!("expected an API error"),
    }
}

#[test]
fn service_addresses() {
    assert_eq!(normalize_base_url("  http://host:8080/v1//  "), "http://host:8080/v1");
    assert_eq!(chat_completions_endpoint("https://api.x.com/v1/"), "https://api.x.com/v1/chat/completions");
    assert_eq!(route_beside_api("http://127.0.0.1:18080/v1", "/health"), "http://127.0.0.1:18080/health");
    assert_eq!(route_beside_api("http://host", "/api/tags"), "http://host/api/tags");
    let service = LlamaCppService::new(PathBuf::from("/tmp/subtitle-forge-test"));
    assert_eq!(service.health_url(), "http://127.0.0.1:18080/health");
    let mut ollama = ServiceConfig::new("ollama");
    ollama.set("base_url", " http://localhost:11434/v1/ ");
    assert_eq!(OllamaService::health_url(&ollama), "http://localhost:11434/api/tags");
    assert_eq!(validate_http_url("地址", "http://a"), Ok(()));
    assert_eq!(validate_http_url("地址", "  "), Err("地址不能为空".to_string()));
    assert_eq!(bearer_header(Some("k1")), Some("Bearer k1".to_string()));
    assert_eq!(bearer_header(Some(" ")), None);
    assert_eq!(bearer_header(None), None);
}

#[test]
fn llama_server_arguments() {
    let mut config = ServiceConfig::new("llama_cpp");
    assert_eq!(LlamaCppService::ctx_size_arg(&config), "4096");
    config.set("ctx_size", "8192");
    assert_eq!(LlamaCppService::ctx_size_arg(&config), "8192");
}

#[test]
fn prompt_lists_numbered_lines() {
    let request = TranslateRequest {
        texts: vec!["Hello".to_string(), "World".to_string()],
        source_lang: "en".to_string(),
        target_lang: "zh".to_string(),
        context_hint: None,
    };
    assert_eq!(
        build_translation_prompt(&request),
        "You are a subtitle translation engine.\nTranslate from en to zh.\nKeep the number of lines exactly the same.\nReturn only one translated line per input line, in order, with no extra notes.\n\n[1] Hello\n[2] World"
    );
    let with_context = TranslateRequest { context_hint: Some("A film".to_string()), ..request.clone() };
    assert!(build_translation_prompt(&with_context).ends_with("notes.\n\nContext: A film\n\n[1] Hello\n[2] World"));
    let blank_context = TranslateRequest { context_hint: Some("  ".to_string()), ..request };
    assert!(build_translation_prompt(&blank_context).ends_with("notes.\n\n[1] Hello\n[2] World"));
}

#[test]
fn replies_give_one_line_per_text() {
    assert_eq!(
        parse_multiline_translation("  a \n\n b\n", 3),
        vec!["a".to_string(), "b".to_string(), "[Translation Error]".to_string()]
    );
    assert_eq!(parse_multiline_translation("a\nb\nc", 2), vec!["a".to_string(), "b".to_string()]);
    assert!(parse_multiline_translation("", 0).is_empty());
}

#[test]
fn groups_services_by_mode() {
    let factory = build_factory(PathBuf::from("/tmp/subtitle-forge-test"));
    assert_eq!(factory.services_by_mode(TranslateMode::OnlineTranslate).len(), 3);
    assert_eq!(factory.services_by_mode(TranslateMode::OnlineLlm).len(), 2);
    assert_eq!(factory.services_by_mode(TranslateMode::LocalLlm).len(), 1);
    assert_eq!(factory.services_by_mode(TranslateMode::EmbeddedLlm).len(), 1);
}

#[test]
fn creates_default_settings_for_all_services() {
    let factory = build_factory(PathBuf::from("/tmp/subtitle-forge-test"));
    let settings = default_settings(&factory);
    assert_eq!(settings.active_mode, TranslateMode::OnlineTranslate);
    assert_eq!(settings.active_service, "google");
    assert!(settings.service_configs.contains_key("google"));
    assert!(settings.service_configs.contains_key("libretranslate"));
    assert!(settings.service_configs.contains_key("deepl"));
    assert!(settings.service_configs.contains_key("deepseek"));
    assert!(settings.service_configs.contains_key("ark"));
    assert!(settings.service_configs.contains_key("ollama"));
    assert!(settings.service_configs.contains_key("llama_cpp"));
}

#[test]
fn catalogue_lookups_and_fallback_order() {
    let factory = build_factory(PathBuf::from("/tmp/subtitle-forge-test"));
    assert_eq!(
        factory.fallback_candidates(TranslateMode::OnlineTranslate, "google"),
        vec!["google".to_string(), "libretranslate".to_string(), "deepl".to_string()]
    );
    assert_eq!(
        factory.fallback_candidates(TranslateMode::OnlineLlm, "ark"),
        vec!["ark".to_string(), "deepseek".to_string()]
    );
    assert!(factory.get("ark").is_some());
    assert!(factory.get("deepseek").is_some());
    assert!(factory.get("nothing").is_none());
    assert_eq!(factory.mode_infos().len(), 4);
    assert_eq!(factory.mode_infos()[0].key, "online_translate");
    let settings = default_settings(&factory);
    let ollama = settings.service_configs.get("ollama").unwrap();
    assert_eq!(ollama.get("base_url"), "http://127.0.0.1:11434/v1");
    let deepseek = settings.service_configs.get("deepseek").unwrap();
    assert_eq!(deepseek.get("model"), "deepseek-chat");
}

#[test]
fn deepseek_checks_key_address_and_model() {
    let service = DeepSeekService::new();
    assert_eq!(service.descriptor().key, "deepseek");
    assert_eq!(service.descriptor().mode, TranslateMode::OnlineLlm);
    let mut config = ServiceConfig::new("deepseek");
    config.set("base_url", "ftp://x");
    let issues = service.validate_config(&config).unwrap_err();
    let fields: Vec<&str> = issues.iter().map(|i| i.field.as_str()).collect();
    assert_eq!(fields, vec!["api_key", "base_url", "model"]);
    config.set("api_key", "sk-1");
    config.set("base_url", "https://api.deepseek.com");
    config.set("model", "deepseek-chat");
    assert!(service.validate_config(&config).is_ok());
    assert!(service.initialize(&config).is_ok());
}

#[test]
fn mode_keys_round_trip() {
    for mode in TranslateMode::all() {
        assert_eq!(TranslateMode::from_key(mode.key()), Some(mode));
    }
    assert_eq!(TranslateMode::from_key("other"), None);
}

#[test]
fn field_map_reads_what_was_set() {
    let mut m = FieldMap::new();
    assert_eq!(m.get("a"), "");
    m.set("a", "1");
    m.set("b", "2");
    m.set("a", "3");
    assert_eq!(m.get("a"), "3");
    assert_eq!(m.get("b"), "2");
    assert!(m.contains_key("b"));
    assert!(!m.contains_key("c"));
}

#[test]
fn issues_are_joined() {
    let issues = vec![
        ValidationIssue { field: "a".to_string(), message: "x".to_string() },
        ValidationIssue { field: "b".to_string(), message: "y".to_string() },
    ];
    assert_eq!(issues_message(&issues), "a: x; b: y");
    assert_eq!(issues_message(&[]), "");
}

#[test]
fn health_and_fallback() {
    assert!(health_gate(&HealthStatus::Healthy).is_ok());
    assert!(health_gate(&HealthStatus::Degraded("slow".to_string())).is_ok());
    match health_gate(&HealthStatus::Unhealthy("down".to_string())) {
        Err(TranslateError::Initialization(m)) => assert_eq!(m, "down"),
        _ => panic!("expected an initialization error"),
    }
    let r = with_engine(TranslateResult { texts: vec!["t".to_string()], engine: "m".to_string() }, "ark".to_string());
    assert_eq!(r.engine, "ark");
    assert_eq!(r.texts, vec!["t".to_string()]);

    let empty = FallbackRun::new(vec![]);
    assert!(matches!(empty.next_action(), FallbackAction::GiveUp));
    match empty.finish() {
        TranslateError::Initialization(m) => assert_eq!(m, "没有可用的翻译服务"),
        _ => panic!("expected an initialization error"),
    }

    let keys = vec!["google".to_string(), "deepl".to_string(), "gone".to_string(), "libretranslate".to_string()];
    let mut run = FallbackRun::new(keys);
    assert!(matches!(run.next_action(), FallbackAction::Validate(k) if k == "google"));
    run.validated(Ok(()));
    assert!(matches!(run.next_action(), FallbackAction::Initialize(k) if k == "google"));
    run.initialized(Ok(()));
    assert!(matches!(run.next_action(), FallbackAction::CheckHealth(k) if k == "google"));
    run.health_checked(&HealthStatus::Unhealthy("down".to_string()));
    assert!(matches!(run.next_action(), FallbackAction::Validate(k) if k == "deepl"));
    run.validated(Err(vec![ValidationIssue { field: "api_key".to_string(), message: "empty".to_string() }]));
    assert!(matches!(&run.last_error, Some(TranslateError::Config(m)) if m == "api_key: empty"));
    run.service_missing();
    assert!(matches!(run.next_action(), FallbackAction::Validate(k) if k == "libretranslate"));
    // Events for another step change nothing.
    run.initialized(Err(TranslateError::InvalidApiKey));
    assert!(matches!(run.next_action(), FallbackAction::Validate(k) if k == "libretranslate"));
    run.validated(Ok(()));
    run.initialized(Ok(()));
    run.health_checked(&HealthStatus::Degraded("slow".to_string()));
    let failed = run.translated(Err(TranslateError::Network("timeout".to_string())));
    assert!(failed.is_none());
    assert!(matches!(run.next_action(), FallbackAction::GiveUp));
    assert!(matches!(run.finish(), TranslateError::Network(m) if m == "timeout"));

    let mut ok_run = FallbackRun::new(vec!["ark".to_string()]);
    ok_run.validated(Ok(()));
    ok_run.initialized(Ok(()));
    ok_run.health_checked(&HealthStatus::Healthy);
    let done = ok_run
        .translated(Ok(TranslateResult { texts: vec!["x".to_string()], engine: "model".to_string() }))
        .unwrap();
    assert_eq!(done.engine, "ark");
    assert_eq!(done.texts, vec!["x".to_string()]);
}

#[test]
fn retries_back_off_then_give_up() {
    let policy = RetryPolicy::default();
    let net = TranslateError::Network("x".to_string());
    assert_eq!(policy.after_failure(0, &net), RetryDecision::RetryAfterMs(1000));
    assert_eq!(policy.after_failure(1, &net), RetryDecision::RetryAfterMs(2000));
    assert_eq!(policy.after_failure(2, &net), RetryDecision::RetryAfterMs(4000));
    assert_eq!(policy.after_failure(3, &net), RetryDecision::GiveUp);
    assert_eq!(policy.after_failure(0, &TranslateError::InvalidApiKey), RetryDecision::GiveUp);
    let capped = RetryPolicy { max_retries: 10, base_delay_ms: 1000, max_delay_ms: 3000 };
    assert_eq!(capped.after_failure(5, &net), RetryDecision::RetryAfterMs(3000));
    assert!(is_retryable(&TranslateError::Api { status: 503, message: String::new() }));
    assert!(is_retryable(&TranslateError::Api { status: 429, message: String::new() }));
    assert!(!is_retryable(&TranslateError::Api { status: 400, message: String::new() }));
    assert!(is_retryable(&TranslateError::RateLimited { retry_after_secs: 1 }));
}

#[test]
fn cache_gives_back_fresh_entries() {
    let mut cache = TranslationCache::new(1000, 2);
    cache.insert("a".to_string(), "A".to_string(), 0);
    assert_eq!(cache.get("a", 500), Some("A"));
    assert_eq!(cache.get("a", 1000), None);
    assert_eq!(cache.get("b", 0), None);
    cache.insert("b".to_string(), "B".to_string(), 10);
    cache.insert("c".to_string(), "C".to_string(), 20);
    assert_eq!(cache.len(), 2);
    assert_eq!(cache.get("a", 20), None);
    assert_eq!(cache.get("c", 20), Some("C"));
    cache.insert("b".to_string(), "B2".to_string(), 30);
    assert_eq!(cache.get("b", 30), Some("B2"));
    assert_eq!(cache.len(), 2);
    cache.clear();
    assert_eq!(cache.len(), 0);
}

#[test]
fn cached_and_fresh_results_are_merged() {
    let (mut results, missing) = split_cached(vec![Some("a".to_string()), None, Some("c".to_string()), None]);
    assert_eq!(results, vec!["a".to_string(), String::new(), "c".to_string(), String::new()]);
    assert_eq!(missing, vec![1, 3]);
    fill_fresh(&mut results, &missing, vec!["b".to_string(), "d".to_string()]);
    assert_eq!(results, vec!["a".to_string(), "b".to_string(), "c".to_string(), "d".to_string()]);
}

#[test]
fn llm_engine_batches_and_backs_off() {
    let engine = LlmTranslateEngine::new(LlmConfig::default());
    assert_eq!(engine.name(), "LLM API");
    assert!(engine.requires_network());
    assert_eq!(engine.batch_bounds(45), vec![(0, 20), (20, 40), (40, 45)]);
    assert!(engine.batch_bounds(0).is_empty());
    assert_eq!(engine.on_rate_limited(0).unwrap(), 2);
    assert_eq!(engine.on_rate_limited(2).unwrap(), 8);
    assert!(matches!(
        engine.on_rate_limited(3),
        Err(TranslateError::RateLimited { retry_after_secs: 60 })
    ));
    assert_eq!(
        LlmTranslateEngine::parse_reply("x\n\ny", 3),
        vec!["x".to_string(), "y".to_string(), "[Translation Error]".to_string()]
    );
    let prompt = engine.build_prompt(&["Hi".to_string(), "Bye".to_string()], "en", "fr", Some("A play"));
    assert!(prompt.starts_with("You are a professional subtitle translator specializing in en to fr translation.\n\nContext: A play\n"));
    assert!(prompt.contains("in the SAME order\n5."));
    assert!(prompt.ends_with("Translate the following 2 subtitle segments:\n\n[1] Hi\n[2] Bye"));
}

#[test]
fn plugin_engines() {

    let free = DeepLTranslateEngine::new("k:fx".to_string());
    assert!(free.is_free);
    assert_eq!(free.base_url(), "https://api-free.deepl.com/v2");
    assert_eq!(DeepLTranslateEngine::new("k".to_string()).base_url(), "https://api.deepl.com/v2");
    assert_eq!(DeepLTranslateEngine::to_deepl_lang("ru"), "RU");
    assert_eq!(DeepLTranslateEngine::to_deepl_lang("pt"), "PT-BR");

    assert_eq!(GoogleTranslatePlugin::to_google_lang("zh"), "zh-CN");
    assert_eq!(GoogleTranslatePlugin::new().metadata().namespace, "google/v1");
    assert_eq!(LibreTranslatePlugin::to_libre_lang("de"), "de");
    assert_eq!(LibreTranslatePlugin::new().metadata().config_schema.len(), 2);
    let ollama = OllamaTranslatePlugin::new();
    assert_eq!(ollama.metadata().config_schema[1].default, "qwen2.5:7b");
    let prompt = OllamaTranslatePlugin::build_prompt(&["Hi".to_string()], "en", "zh", None);
    assert!(prompt.contains("in the SAME ORDER\n5."));

    let offline = OfflineTranslateEngine::new("/m".to_string());
    assert!(!offline.requires_network());
    let request = TranslateRequest {
        texts: vec![],
        source_lang: "en".to_string(),
        target_lang: "zh".to_string(),
        context_hint: None,
    };
    assert!(matches!(offline.translate(&request), Err(TranslateError::Network(_))));

    let mut config = PluginConfig::new("libre/v1");
    config.set("base_url", "https://x");
    assert_eq!(config.get("base_url"), "https://x");
    assert_eq!(config.get("api_key"), "");
    let from_schema = PluginConfig::from_schema("libre/v1", &LibreTranslatePlugin::new().metadata().config_schema);
    assert_eq!(from_schema.get("base_url"), "https://libretranslate.de");
}

#[test]
fn reply_texts_and_endpoints() {
    assert_eq!(endpoint_at("https://h//", "/x"), "https://h/x");
    assert_eq!(endpoint_at(" a ", "/x"), " a /x");
    let mut google = ServiceConfig::new("google");
    google.set("base_url", "https://translate.googleapis.com/");
    assert_eq!(GoogleTranslateService::endpoint(&google), "https://translate.googleapis.com/translate_a/single");
    let mut libre = ServiceConfig::new("libretranslate");
    libre.set("base_url", "https://libretranslate.de");
    assert_eq!(LibreTranslateService::endpoint(&libre), "https://libretranslate.de/translate");

    let pieces = vec![Some("Bon".to_string()), None, Some("jour".to_string())];
    assert_eq!(join_present(&pieces), "Bonjour");
    assert_eq!(GoogleTranslateService::reply_text(Some(pieces.clone()), "Hello"), "Bonjour");
    assert_eq!(GoogleTranslateService::reply_text(None, "Hello"), "Hello");
    assert_eq!(GoogleTranslateService::reply_text(Some(vec![]), "Hello"), "");
    assert_eq!(GoogleTranslatePlugin::reply_text(Some(pieces), "Hello"), "Bonjour");
    assert_eq!(GoogleTranslatePlugin::reply_text(Some(vec![None]), "Hello"), "Hello");
    assert_eq!(GoogleTranslatePlugin::reply_text(None, "Hello"), "Hello");
}

#[test]
fn llama_server_decisions() {
    let service = LlamaCppService::new(PathBuf::from("/nonexistent/subtitle-forge-models"));
    let mut config = ServiceConfig::new("llama_cpp");
    match service.launch_model(&config) {
        Err(TranslateError::Config(m)) => assert_eq!(m, "未选择有效的内嵌模型"),
        _ => panic!("expected a configuration error"),
    }
    assert!(LlamaCppService::served_model_id(&config).is_err());
    config.set("model_key", "qwen2.5-3b-instruct-q4km");
    assert_eq!(LlamaCppService::served_model_id(&config).unwrap(), "qwen2.5-3b-instruct");
    match service.launch_model(&config) {
        Err(TranslateError::Initialization(m)) => assert!(m.starts_with(
            "Embedded LLM model 'Qwen2.5-3B-Instruct-Q4_K_M.gguf' not found. Please download it in Settings.\nPath: "
        )),
        _ => panic!("expected an initialization error"),
    }

    let mut launched = LaunchedServers::new();
    assert!(launched.claim("llama-server|a"));
    assert!(launched.claim("llama-server|b"));
    assert!(!launched.claim("llama-server|a"));
}

#[test]
fn health_from_reply_status() {
    assert!(matches!(health_of_reply(200, Some(401), "200 OK"), HealthStatus::Healthy));
    assert!(matches!(health_of_reply(401, Some(401), "401 Unauthorized"), HealthStatus::Unhealthy(m) if m == "API Key 无效"));
    assert!(matches!(health_of_reply(401, None, "401 Unauthorized"), HealthStatus::Degraded(m) if m == "HTTP 401 Unauthorized"));
    assert!(matches!(health_of_reply(503, Some(403), "503 Service Unavailable"), HealthStatus::Degraded(m) if m == "HTTP 503 Service Unavailable"));
}

#[test]
fn per_text_steps_skip_blanks_report_and_pause() {
    let s = GoogleTranslatePlugin::item_step(0, 12, "  \n");
    assert!(s.skip && !s.report && s.pause_ms == 0);
    let s = GoogleTranslatePlugin::item_step(5, 12, "hi");
    assert!(!s.skip && s.report && s.pause_ms == 0);
    let s = GoogleTranslatePlugin::item_step(9, 12, "hi");
    assert!(!s.report);
    assert_eq!(s.pause_ms, 200);
    let s = GoogleTranslatePlugin::item_step(11, 12, "hi");
    assert!(s.report && s.pause_ms == 0);
    let s = LibreTranslatePlugin::item_step(4, 12, "hi");
    assert!(!s.report);
    assert_eq!(s.pause_ms, 300);
    let s = LibreTranslatePlugin::item_step(9, 10, "hi");
    assert!(s.report);
    assert_eq!(s.pause_ms, 300);
}

#[test]
fn libre_refusals_map_403_to_bad_key() {
    assert!(matches!(LibreTranslatePlugin::status_error(403, "no".to_string()), TranslateError::InvalidApiKey));
    match LibreTranslatePlugin::status_error(500, "boom".to_string()) {
        TranslateError::Api { status, message } => {
            assert_eq!(status, 500);
            assert_eq!(message, "boom");
        }
        _ => panic!("expected an API error"),
    }
}

#[test]
fn cached_batch_is_served_within_its_lifetime() {
    let mut cache = TranslationCache::new(100, 10);
    cache.insert("old".to_string(), "alt".to_string(), 0);
    for (k, r) in [("a", "A"), ("b", "B"), ("c", "C")] {
        cache.insert(k.to_string(), r.to_string(), 50);
    }
    assert_eq!(cache.get("a", 149), Some("A"));
    assert_eq!(cache.get("b", 120), Some("B"));
    assert_eq!(cache.get("c", 50), Some("C"));
    assert_eq!(cache.get("a", 150), None);
    assert_eq!(cache.get("old", 100), None);
}

#[test]
fn hash_keys_are_sixteen_hex_digits() {
    assert_eq!(hash_key_text(0xab), "00000000000000ab");
    assert_eq!(hash_key_text(u64::MAX), "ffffffffffffffff");
    assert_eq!(hash_key_text(0x0123_4567_89ab_cdef), "0123456789abcdef");
}
