//! llama.cpp serving an embedded GGUF model: descriptor, configuration
//! check and the decisions about the managed server.

use crate::error::TranslateError;
use crate::text::{chars_to_string, push_str, trim};
use crate::translate::fields::value_or_empty;
use crate::translate::service::{
    is_blank, issue, issues_result, issues_view, validation_outcome, ConfigFieldType, SelectOption,
    ServiceConfig, ServiceDescriptor, TranslateMode, ValidationIssue,
};
use crate::translate::services::embedded_llm::models::{
    all_presets, missing_preset_text, preset_display_name, preset_key, preset_model_id,
    preset_of_key, EmbeddedModelManager, EmbeddedModelPreset,
};
use crate::text::{str_eq, string_views};
use crate::translate::services::online_llm::ark::issue_if;
use crate::translate::services::{descriptor, descriptor_view, field, schema_view};
use crate::translate::shared::{route_beside_api, sibling_route};
use vstd::prelude::*;

verus! {

/// Host of the managed server.
pub const INTERNAL_HOST: &'static str = "127.0.0.1";

/// Port of the managed server.
pub const INTERNAL_PORT: u16 = 18080;

/// The launches of the managed server already started, by launch key; no
/// key occurs twice.
pub struct LaunchedServers {
    keys: Vec<String>,
}

impl View for LaunchedServers {
    type V = Set<Seq<char>>;

    closed spec fn view(&self) -> Set<Seq<char>> {
        string_views(self.keys@).to_set()
    }
}

impl LaunchedServers {
    /// No key occurs twice.
    pub closed spec fn wf(&self) -> bool {
        string_views(self.keys@).no_duplicates()
    }

    /// Nothing launched yet.
    pub fn new() -> (l: Self)
        ensures
            l.wf(),
            l@ == Set::<Seq<char>>::empty(),
    {
        let l = LaunchedServers { keys: Vec::new() };
        assert(string_views(l.keys@) =~= Seq::<Seq<char>>::empty());
        l
    }

    /// Records a launch under `key`; true when it is the first one, so that
    /// the caller starts the server only then.
    pub fn claim(&mut self, key: &str) -> (first: bool)
        requires
            old(self).wf(),
        ensures
            final(self).wf(),
            first == !old(self)@.contains(key@),
            final(self)@ == old(self)@.insert(key@),
    {
        let ghost v0 = string_views(self.keys@);
        let mut i: usize = 0;
        while i < self.keys.len()
            invariant
                i <= self.keys@.len(),
                v0 == string_views(self.keys@),
                v0.no_duplicates(),
                forall|j: int| 0 <= j < i ==> v0[j] != key@,
            decreases self.keys.len() - i,
        {
            if str_eq(self.keys[i].as_str(), key) {
                assert(v0[i as int] == key@);
                assert(v0.contains(key@));
                assert(v0.to_set().insert(key@) =~= v0.to_set());
                return false;
            }
            i = i + 1;
        }
        assert(!v0.contains(key@));
        self.keys.push(key.to_owned());
        let ghost v1 = v0.push(key@);
        assert(string_views(self.keys@) =~= v1);
        assert forall|x: Seq<char>| #[trigger] v1.contains(x) <==> (v0.contains(x) || x == key@) by {
            if v0.contains(x) {
                let j = choose|j: int| 0 <= j < v0.len() && v0[j] == x;
                assert(v1[j] == x);
            }
            if x == key@ {
                assert(v1[v0.len() as int] == x);
            }
            if v1.contains(x) {
                let j = choose|j: int| 0 <= j < v1.len() && v1[j] == x;
                if j < v0.len() {
                    assert(v0[j] == x);
                }
            }
        }
        assert(v1.to_set() =~= v0.to_set().insert(key@));
        assert forall|a: int, b: int| 0 <= a < v1.len() && 0 <= b < v1.len() && a != b implies v1[a] != v1[b] by {
            if a == v0.len() {
                assert(v1[b] == v0[b]);
            } else if b == v0.len() {
                assert(v1[a] == v0[a]);
            }
        }
        true
    }
}

/// The embedded llama.cpp service.
pub struct LlamaCppService {
    pub descriptor: ServiceDescriptor,
    pub model_manager: EmbeddedModelManager,
}

/// The issue of a llama.cpp configuration: no model chosen, or an unknown
/// one.
pub open spec fn llama_issues(m: Map<Seq<char>, Seq<char>>) -> Seq<(Seq<char>, Seq<char>)> {
    let k = value_or_empty(m, "model_key"@);
    if trim(k).len() == 0 {
        seq![("model_key"@, "请选择一个内嵌模型"@)]
    } else if preset_of_key(k) is None {
        seq![("model_key"@, "内嵌模型无效"@)]
    } else {
        Seq::empty()
    }
}

/// An option as (value, label).
pub open spec fn option_view(o: SelectOption) -> (Seq<char>, Seq<char>) {
    (o.value@, o.label@)
}

/// The model choices: every preset's key and display name.
pub open spec fn preset_options() -> Seq<(Seq<char>, Seq<char>)> {
    all_presets().map_values(|p: EmbeddedModelPreset| (preset_key(p), preset_display_name(p)))
}

fn preset_select_options() -> (v: Vec<SelectOption>)
    ensures
        v@.map_values(|o: SelectOption| option_view(o)) == preset_options(),
{
    let presets = EmbeddedModelPreset::all();
    let mut v: Vec<SelectOption> = Vec::new();
    let mut i: usize = 0;
    while i < 3
        invariant
            i <= 3,
            presets@ == all_presets(),
            v@.map_values(|o: SelectOption| option_view(o)) == preset_options().take(i as int),
        decreases 3 - i,
    {
        let p = presets[i];
        assert(p == all_presets()[i as int]);
        let ghost before = v@;
        let o = SelectOption { value: p.key().to_owned(), label: p.display_name().to_owned() };
        assert(option_view(o) == preset_options()[i as int]);
        v.push(o);
        proof {
            assert(v@.map_values(|o: SelectOption| option_view(o)) =~= before.map_values(
                |o: SelectOption| option_view(o),
            ).push(preset_options()[i as int]));
            assert(v@.map_values(|o: SelectOption| option_view(o)) =~= preset_options().take(i + 1));
        }
        i = i + 1;
    }
    assert(preset_options().take(3) =~= preset_options());
    v
}

impl LlamaCppService {
    pub fn new(models_dir: std::path::PathBuf) -> (s: Self)
        ensures
            descriptor_view(s.descriptor) == ("llama_cpp"@, "llama.cpp GGUF"@, "通过 llama.cpp 直接加载本地 GGUF 模型。"@, TranslateMode::EmbeddedLlm, false),
            schema_view(s.descriptor.config_schema@) == seq![
                ("model_key"@, "内嵌模型"@, "qwen2.5-1.5b-instruct-q4km"@, true, None::<Seq<char>>, Some("选择已下载的 GGUF 模型，由应用内部自动加载。"@)),
                ("ctx_size"@, "上下文长度"@, "4096"@, false, None::<Seq<char>>, Some("启动 llama-server 时传入 --ctx-size。"@)),
            ],
            s.descriptor.config_schema@[0].field_type matches ConfigFieldType::Select { options }
                && options@.map_values(|o: SelectOption| option_view(o)) == preset_options(),
            s.descriptor.config_schema@[1].field_type == ConfigFieldType::Number,
            s.model_manager.models_dir == models_dir,
    {
        let options = preset_select_options();
        let schema = vec![
            field(
                "model_key",
                "内嵌模型",
                ConfigFieldType::Select { options },
                EmbeddedModelPreset::Qwen25_15B.key(),
                true,
                None,
                Some("选择已下载的 GGUF 模型，由应用内部自动加载。"),
            ),
            field(
                "ctx_size",
                "上下文长度",
                ConfigFieldType::Number,
                "4096",
                false,
                None,
                Some("启动 llama-server 时传入 --ctx-size。"),
            ),
        ];
        let d = descriptor(
            "llama_cpp",
            "llama.cpp GGUF",
            "通过 llama.cpp 直接加载本地 GGUF 模型。",
            TranslateMode::EmbeddedLlm,
            false,
            schema,
        );
        proof {
            assert(schema_view(d.config_schema@) =~= seq![
                ("model_key"@, "内嵌模型"@, "qwen2.5-1.5b-instruct-q4km"@, true, None::<Seq<char>>, Some("选择已下载的 GGUF 模型，由应用内部自动加载。"@)),
                ("ctx_size"@, "上下文长度"@, "4096"@, false, None::<Seq<char>>, Some("启动 llama-server 时传入 --ctx-size。"@)),
            ]);
        }
        LlamaCppService { descriptor: d, model_manager: EmbeddedModelManager::new(models_dir) }
    }

    pub fn descriptor(&self) -> (d: &ServiceDescriptor)
        ensures
            *d == self.descriptor,
    {
        &self.descriptor
    }

    /// The OpenAI-compatible base address of the managed server.
    pub fn internal_base_url(&self) -> (s: &'static str)
        ensures
            s@ == "http://127.0.0.1:18080/v1"@,
    {
        "http://127.0.0.1:18080/v1"
    }

    /// A model must be chosen, and it must be one of the presets.
    pub fn validate_config(&self, config: &ServiceConfig) -> (r: Result<(), Vec<ValidationIssue>>)
        ensures
            match r {
                Ok(()) => llama_issues(config.fields@).len() == 0,
                Err(v) => issues_view(v@) == llama_issues(config.fields@) && v@.len() > 0,
            },
    {
        let mut issues: Vec<ValidationIssue> = Vec::new();
        let model_key = config.get("model_key");
        if is_blank(model_key) {
            issues.push(issue("model_key", "请选择一个内嵌模型".to_owned()));
        } else if EmbeddedModelPreset::from_key(model_key).is_none() {
            issues.push(issue("model_key", "内嵌模型无效".to_owned()));
        }
        assert(issues_view(issues@) =~= llama_issues(config.fields@));
        issues_result(issues)
    }

    /// The configuration check done before the server is started.
    pub fn validate_before_start(&self, config: &ServiceConfig) -> (r: Result<(), TranslateError>)
        ensures
            r is Ok <==> llama_issues(config.fields@).len() == 0,
            r matches Err(TranslateError::Config(m)) ==> m@ == llama_issues(config.fields@)[0].1,
            r matches Err(e) ==> e is Config,
    {
        let r = self.validate_config(config);
        proof {
            if r is Err {
                let v = r->Err_0;
                assert(issues_view(v@).len() == v@.len());
                assert(issues_view(v@)[0] == (v@[0].field@, v@[0].message@));
            }
        }
        validation_outcome(r)
    }

    /// The health route of the managed server.
    pub fn health_url(&self) -> (s: String)
        ensures
            s@ == sibling_route("http://127.0.0.1:18080/v1"@, "/health"@),
    {
        route_beside_api(self.internal_base_url(), "/health")
    }

    /// The model the server is started with: the configured preset and its
    /// file. A key that names no preset is a configuration error; a preset
    /// whose file is not on disk now fails initialization (with the message
    /// of `EmbeddedModelManager::check_model`).
    pub fn launch_model(&self, config: &ServiceConfig) -> (r: Result<(EmbeddedModelPreset, std::path::PathBuf), TranslateError>)
        ensures
            preset_of_key(value_or_empty(config.fields@, "model_key"@)) is None ==> (r matches Err(
                TranslateError::Config(m),
            ) && m@ == "未选择有效的内嵌模型"@),
            preset_of_key(value_or_empty(config.fields@, "model_key"@)) matches Some(p) ==> ((r matches Ok(
                (q, _),
            ) && q == p) || (r matches Err(TranslateError::Initialization(m)) && exists|t: Seq<char>|
                m@ == missing_preset_text(p, t))),
    {
        let model_key = config.get("model_key");
        let preset = match EmbeddedModelPreset::from_key(model_key) {
            Some(p) => p,
            None => {
                return Err(TranslateError::Config("未选择有效的内嵌模型".to_owned()));
            },
        };
        match self.model_manager.check_model(model_key) {
            Ok(path) => Ok((preset, path)),
            Err(m) => Err(TranslateError::Initialization(m)),
        }
    }

    /// The model name asked of the server: that of the configured preset.
    pub fn served_model_id(config: &ServiceConfig) -> (r: Result<&'static str, TranslateError>)
        ensures
            match preset_of_key(value_or_empty(config.fields@, "model_key"@)) {
                Some(p) => r matches Ok(s) && s@ == preset_model_id(p),
                None => r matches Err(TranslateError::Config(m)) && m@ == "未选择有效的内嵌模型"@,
            },
    {
        match EmbeddedModelPreset::from_key(config.get("model_key")) {
            Some(p) => Ok(p.default_model_id()),
            None => Err(TranslateError::Config("未选择有效的内嵌模型".to_owned())),
        }
    }

    /// The name under which a launch of the server for a preset is
    /// remembered.
    pub fn launch_key(preset: EmbeddedModelPreset) -> (s: String)
        ensures
            s@ == "llama-server|"@ + preset_key(preset),
    {
        let mut out: Vec<char> = Vec::new();
        push_str(&mut out, "llama-server|");
        push_str(&mut out, preset.key());
        chars_to_string(out.as_slice())
    }

    /// The context size passed to the server: the configured one, 4096 when
    /// empty.
    pub fn ctx_size_arg(config: &ServiceConfig) -> (s: &str)
        ensures
            s@ == if value_or_empty(config.fields@, "ctx_size"@).len() == 0 {
                "4096"@
            } else {
                value_or_empty(config.fields@, "ctx_size"@)
            },
    {
        let ctx = config.get("ctx_size");
        if ctx.is_empty() {
            proof {
                reveal_strlit("4096");
            }
            "4096"
        } else {
            ctx
        }
    }
}

} // verus!
