//! Translation modes, service descriptors and their configuration schemas,
//! per-service configuration values and the settings that select a service.

use crate::error::TranslateError;
use crate::text::{chars_to_string, push_str, push_string, str_chars, str_eq, trim, trim_chars};
use crate::translate::fields::{
    find_key, keys_distinct, lemma_find_key, lemma_find_push, lemma_find_same_keys, lemma_push_keeps_distinct, value_or_empty,
    FieldMap,
};
use vstd::prelude::*;

verus! {

/// How a translation is produced.
#[derive(Debug, Clone, Copy, PartialEq, Eq, Structural)]
pub enum TranslateMode {
    OnlineTranslate,
    OnlineLlm,
    LocalLlm,
    EmbeddedLlm,
}

/// A mode as listed to the user.
#[derive(Debug, Clone)]
pub struct TranslateModeInfo {
    pub key: String,
    pub name: String,
    pub description: String,
}

/// The kind of input a configuration field takes.
#[derive(Debug, Clone)]
pub enum ConfigFieldType {
    Text,
    Password,
    Url,
    Number,
    Path,
    Select { options: Vec<SelectOption> },
    Toggle,
}

/// One choice of a `Select` field.
#[derive(Debug, Clone)]
pub struct SelectOption {
    pub value: String,
    pub label: String,
}

/// One field of a service's configuration schema.
#[derive(Debug, Clone)]
pub struct ConfigField {
    pub key: String,
    pub label: String,
    pub field_type: ConfigFieldType,
    pub default: String,
    pub required: bool,
    pub placeholder: Option<String>,
    pub description: Option<String>,
}

/// What a translation service is and what configuration it takes.
#[derive(Debug, Clone)]
pub struct ServiceDescriptor {
    pub key: String,
    pub name: String,
    pub description: String,
    pub mode: TranslateMode,
    pub requires_network: bool,
    pub config_schema: Vec<ConfigField>,
}

/// The outcome of checking a service.
#[derive(Debug, Clone)]
pub enum HealthStatus {
    Healthy,
    Degraded(String),
    Unhealthy(String),
    Unknown,
}

/// A service as listed to the user.
#[derive(Debug, Clone)]
pub struct ServiceInfo {
    pub descriptor: ServiceDescriptor,
    pub health_status: Option<HealthStatus>,
}

/// The configuration values of one service.
#[derive(Debug, Clone)]
pub struct ServiceConfig {
    pub service_key: String,
    pub fields: FieldMap,
}

/// The configurations of all services, by service key.
#[derive(Debug, Clone)]
pub struct ServiceConfigs {
    pub entries: Vec<(String, ServiceConfig)>,
}

/// The selected mode and service, and every service's configuration.
#[derive(Debug, Clone)]
pub struct TranslationSettings {
    pub active_mode: TranslateMode,
    pub active_service: String,
    pub service_configs: ServiceConfigs,
}

/// A configuration problem of one field.
#[derive(Debug, Clone)]
pub struct ValidationIssue {
    pub field: String,
    pub message: String,
}

/// The kind of a field, with the choices of a selection.
pub enum FieldKind {
    Text,
    Password,
    Url,
    Number,
    Path,
    Select(Seq<(Seq<char>, Seq<char>)>),
    Toggle,
}

/// The content of a schema field.
pub struct FieldView {
    pub key: Seq<char>,
    pub label: Seq<char>,
    pub kind: FieldKind,
    pub default: Seq<char>,
    pub required: bool,
    pub placeholder: Option<Seq<char>>,
    pub description: Option<Seq<char>>,
}

/// The content of a service descriptor.
pub struct DescriptorView {
    pub key: Seq<char>,
    pub name: Seq<char>,
    pub description: Seq<char>,
    pub mode: TranslateMode,
    pub requires_network: bool,
    pub schema: Seq<FieldView>,
}

pub open spec fn opt_string_view(o: Option<String>) -> Option<Seq<char>> {
    match o {
        Some(s) => Some(s@),
        None => None,
    }
}

impl View for SelectOption {
    type V = (Seq<char>, Seq<char>);

    open spec fn view(&self) -> (Seq<char>, Seq<char>) {
        (self.value@, self.label@)
    }
}

impl View for ConfigFieldType {
    type V = FieldKind;

    open spec fn view(&self) -> FieldKind {
        match self {
            ConfigFieldType::Text => FieldKind::Text,
            ConfigFieldType::Password => FieldKind::Password,
            ConfigFieldType::Url => FieldKind::Url,
            ConfigFieldType::Number => FieldKind::Number,
            ConfigFieldType::Path => FieldKind::Path,
            ConfigFieldType::Select { options } => FieldKind::Select(
                options@.map_values(|o: SelectOption| o@),
            ),
            ConfigFieldType::Toggle => FieldKind::Toggle,
        }
    }
}

impl View for ConfigField {
    type V = FieldView;

    open spec fn view(&self) -> FieldView {
        FieldView {
            key: self.key@,
            label: self.label@,
            kind: self.field_type@,
            default: self.default@,
            required: self.required,
            placeholder: opt_string_view(self.placeholder),
            description: opt_string_view(self.description),
        }
    }
}

impl View for ServiceDescriptor {
    type V = DescriptorView;

    open spec fn view(&self) -> DescriptorView {
        DescriptorView {
            key: self.key@,
            name: self.name@,
            description: self.description@,
            mode: self.mode,
            requires_network: self.requires_network,
            schema: self.config_schema@.map_values(|f: ConfigField| f@),
        }
    }
}

fn copy_opt(o: &Option<String>) -> (r: Option<String>)
    ensures
        opt_string_view(r) == opt_string_view(*o),
{
    match o {
        Some(s) => Some(s.clone()),
        None => None,
    }
}

impl SelectOption {
    /// A copy with the same content.
    pub fn copy(&self) -> (r: SelectOption)
        ensures
            r@ == self@,
    {
        SelectOption { value: self.value.clone(), label: self.label.clone() }
    }
}

impl ConfigFieldType {
    /// A copy with the same content.
    pub fn copy(&self) -> (r: ConfigFieldType)
        ensures
            r@ == self@,
    {
        match self {
            ConfigFieldType::Text => ConfigFieldType::Text,
            ConfigFieldType::Password => ConfigFieldType::Password,
            ConfigFieldType::Url => ConfigFieldType::Url,
            ConfigFieldType::Number => ConfigFieldType::Number,
            ConfigFieldType::Path => ConfigFieldType::Path,
            ConfigFieldType::Select { options } => {
                let mut v: Vec<SelectOption> = Vec::new();
                let mut i: usize = 0;
                while i < options.len()
                    invariant
                        i <= options@.len(),
                        v@.map_values(|o: SelectOption| o@) == options@.map_values(
                            |o: SelectOption| o@,
                        ).take(i as int),
                    decreases options.len() - i,
                {
                    let ghost before = v@;
                    let c = options[i].copy();
                    v.push(c);
                    proof {
                        assert(v@.map_values(|o: SelectOption| o@) =~= before.map_values(
                            |o: SelectOption| o@,
                        ).push(options@[i as int]@));
                        assert(v@.map_values(|o: SelectOption| o@) =~= options@.map_values(
                            |o: SelectOption| o@,
                        ).take(i + 1));
                    }
                    i = i + 1;
                }
                assert(options@.map_values(|o: SelectOption| o@).take(options@.len() as int)
                    =~= options@.map_values(|o: SelectOption| o@));
                ConfigFieldType::Select { options: v }
            },
            ConfigFieldType::Toggle => ConfigFieldType::Toggle,
        }
    }
}

impl ConfigField {
    /// A copy with the same content.
    pub fn copy(&self) -> (r: ConfigField)
        ensures
            r@ == self@,
    {
        ConfigField {
            key: self.key.clone(),
            label: self.label.clone(),
            field_type: self.field_type.copy(),
            default: self.default.clone(),
            required: self.required,
            placeholder: copy_opt(&self.placeholder),
            description: copy_opt(&self.description),
        }
    }
}

impl ServiceDescriptor {
    /// A copy with the same content.
    pub fn copy(&self) -> (r: ServiceDescriptor)
        ensures
            r@ == self@,
    {
        let mut schema: Vec<ConfigField> = Vec::new();
        let mut i: usize = 0;
        while i < self.config_schema.len()
            invariant
                i <= self.config_schema@.len(),
                schema@.map_values(|f: ConfigField| f@) == self.config_schema@.map_values(
                    |f: ConfigField| f@,
                ).take(i as int),
            decreases self.config_schema.len() - i,
        {
            let ghost before = schema@;
            let c = self.config_schema[i].copy();
            schema.push(c);
            proof {
                assert(schema@.map_values(|f: ConfigField| f@) =~= before.map_values(
                    |f: ConfigField| f@,
                ).push(self.config_schema@[i as int]@));
                assert(schema@.map_values(|f: ConfigField| f@) =~= self.config_schema@.map_values(
                    |f: ConfigField| f@,
                ).take(i + 1));
            }
            i = i + 1;
        }
        assert(self.config_schema@.map_values(|f: ConfigField| f@).take(
            self.config_schema@.len() as int,
        ) =~= self.config_schema@.map_values(|f: ConfigField| f@));
        ServiceDescriptor {
            key: self.key.clone(),
            name: self.name.clone(),
            description: self.description.clone(),
            mode: self.mode,
            requires_network: self.requires_network,
            config_schema: schema,
        }
    }
}

pub open spec fn mode_key(m: TranslateMode) -> Seq<char> {
    match m {
        TranslateMode::OnlineTranslate => "online_translate"@,
        TranslateMode::OnlineLlm => "online_llm"@,
        TranslateMode::LocalLlm => "local_llm"@,
        TranslateMode::EmbeddedLlm => "embedded_llm"@,
    }
}

pub open spec fn mode_label(m: TranslateMode) -> Seq<char> {
    match m {
        TranslateMode::OnlineTranslate => "在线翻译服务"@,
        TranslateMode::OnlineLlm => "在线LLM服务"@,
        TranslateMode::LocalLlm => "本地LLM服务"@,
        TranslateMode::EmbeddedLlm => "内嵌LLM服务"@,
    }
}

pub open spec fn mode_description(m: TranslateMode) -> Seq<char> {
    match m {
        TranslateMode::OnlineTranslate => "通过专用翻译 API 执行翻译，例如 Google、LibreTranslate、DeepL。"@,
        TranslateMode::OnlineLlm => "通过云端大模型服务执行翻译，例如 DeepSeek、方舟。"@,
        TranslateMode::LocalLlm => "通过本地 HTTP API 调用模型服务，例如 Ollama。"@,
        TranslateMode::EmbeddedLlm => "通过 llama.cpp 等框架直接加载本地 GGUF 模型。"@,
    }
}

pub open spec fn mode_of_key(k: Seq<char>) -> Option<TranslateMode> {
    if k == "online_translate"@ {
        Some(TranslateMode::OnlineTranslate)
    } else if k == "online_llm"@ {
        Some(TranslateMode::OnlineLlm)
    } else if k == "local_llm"@ {
        Some(TranslateMode::LocalLlm)
    } else if k == "embedded_llm"@ {
        Some(TranslateMode::EmbeddedLlm)
    } else {
        None
    }
}

/// All modes, in the order they are offered.
pub open spec fn all_modes() -> Seq<TranslateMode> {
    seq![
        TranslateMode::OnlineTranslate,
        TranslateMode::OnlineLlm,
        TranslateMode::LocalLlm,
        TranslateMode::EmbeddedLlm,
    ]
}

impl TranslateMode {
    pub fn key(&self) -> (s: &'static str)
        ensures
            s@ == mode_key(*self),
    {
        match self {
            TranslateMode::OnlineTranslate => "online_translate",
            TranslateMode::OnlineLlm => "online_llm",
            TranslateMode::LocalLlm => "local_llm",
            TranslateMode::EmbeddedLlm => "embedded_llm",
        }
    }

    pub fn label_zh(&self) -> (s: &'static str)
        ensures
            s@ == mode_label(*self),
    {
        match self {
            TranslateMode::OnlineTranslate => "在线翻译服务",
            TranslateMode::OnlineLlm => "在线LLM服务",
            TranslateMode::LocalLlm => "本地LLM服务",
            TranslateMode::EmbeddedLlm => "内嵌LLM服务",
        }
    }

    pub fn description_zh(&self) -> (s: &'static str)
        ensures
            s@ == mode_description(*self),
    {
        match self {
            TranslateMode::OnlineTranslate => "通过专用翻译 API 执行翻译，例如 Google、LibreTranslate、DeepL。",
            TranslateMode::OnlineLlm => "通过云端大模型服务执行翻译，例如 DeepSeek、方舟。",
            TranslateMode::LocalLlm => "通过本地 HTTP API 调用模型服务，例如 Ollama。",
            TranslateMode::EmbeddedLlm => "通过 llama.cpp 等框架直接加载本地 GGUF 模型。",
        }
    }

    /// The mode named by a key.
    pub fn from_key(value: &str) -> (r: Option<Self>)
        ensures
            r == mode_of_key(value@),
    {
        if str_eq(value, "online_translate") {
            Some(TranslateMode::OnlineTranslate)
        } else if str_eq(value, "online_llm") {
            Some(TranslateMode::OnlineLlm)
        } else if str_eq(value, "local_llm") {
            Some(TranslateMode::LocalLlm)
        } else if str_eq(value, "embedded_llm") {
            Some(TranslateMode::EmbeddedLlm)
        } else {
            None
        }
    }

    /// All modes, in the order they are offered.
    pub fn all() -> (v: Vec<Self>)
        ensures
            v@ == all_modes(),
    {
        let v = vec![
            TranslateMode::OnlineTranslate,
            TranslateMode::OnlineLlm,
            TranslateMode::LocalLlm,
            TranslateMode::EmbeddedLlm,
        ];
        assert(v@ =~= all_modes());
        v
    }
}

/// A mode's key names it again.
pub proof fn lemma_mode_key_roundtrip(m: TranslateMode)
    ensures
        mode_of_key(mode_key(m)) == Some(m),
{
    reveal_strlit("online_translate");
    reveal_strlit("online_llm");
    reveal_strlit("local_llm");
    reveal_strlit("embedded_llm");
    let k = mode_key(m);
    assert(k =~= "online_translate"@ ==> m == TranslateMode::OnlineTranslate) by {
        if m != TranslateMode::OnlineTranslate {
            assert(k.len() != 16 || k[7] != 't');
        }
    }
    assert(k =~= "online_llm"@ ==> m == TranslateMode::OnlineLlm) by {
        if m != TranslateMode::OnlineLlm {
            assert(k.len() != 10 || k[0] != 'o');
        }
    }
    assert(k =~= "local_llm"@ ==> m == TranslateMode::LocalLlm) by {
        if m != TranslateMode::LocalLlm {
            assert(k[0] != 'l');
        }
    }
}

/// The values a schema's defaults give, later fields overriding earlier
/// ones with the same key.
pub open spec fn schema_defaults(schema: Seq<ConfigField>) -> Map<Seq<char>, Seq<char>>
    decreases schema.len(),
{
    if schema.len() == 0 {
        Map::empty()
    } else {
        schema_defaults(schema.drop_last()).insert(schema.last().key@, schema.last().default@)
    }
}

/// The issues of required fields left blank: `<label>不能为空` for each
/// required field whose value is empty after trimming, in schema order.
pub open spec fn required_issues(schema: Seq<ConfigField>, values: Map<Seq<char>, Seq<char>>) -> Seq<
    (Seq<char>, Seq<char>),
>
    decreases schema.len(),
{
    if schema.len() == 0 {
        Seq::empty()
    } else {
        let f = schema.last();
        let rest = required_issues(schema.drop_last(), values);
        if f.required && trim(value_or_empty(values, f.key@)).len() == 0 {
            rest.push((f.key@, f.label@ + "不能为空"@))
        } else {
            rest
        }
    }
}

/// An issue as (field, message).
pub open spec fn issue_view(i: ValidationIssue) -> (Seq<char>, Seq<char>) {
    (i.field@, i.message@)
}

pub open spec fn issues_view(v: Seq<ValidationIssue>) -> Seq<(Seq<char>, Seq<char>)> {
    v.map_values(|i: ValidationIssue| issue_view(i))
}

/// An issue for `field` with the given message.
pub fn issue(field: &str, message: String) -> (i: ValidationIssue)
    ensures
        i.field@ == field@,
        i.message == message,
{
    ValidationIssue { field: field.to_owned(), message }
}

/// `text` plus `不能为空` ("must not be empty").
pub fn must_not_be_empty(text: &str) -> (s: String)
    ensures
        s@ == text@ + "不能为空"@,
{
    let mut out: Vec<char> = Vec::new();
    push_str(&mut out, text);
    push_str(&mut out, "不能为空");
    chars_to_string(out.as_slice())
}

/// The value is empty or only whitespace.
pub fn is_blank(s: &str) -> (b: bool)
    ensures
        b == (trim(s@).len() == 0),
{
    let chars = str_chars(s);
    let t = trim_chars(chars.as_slice());
    t.len() == 0
}

/// The error a failed validation turns into: the first issue's message as a
/// configuration error.
pub fn config_error(issues: Vec<ValidationIssue>) -> (e: TranslateError)
    requires
        issues@.len() > 0,
    ensures
        e matches TranslateError::Config(m) && m == issues@[0].message,
{
    let mut issues = issues;
    let first = issues.swap_remove(0);
    TranslateError::Config(first.message)
}

/// What `initialize` reports for a validation outcome: success, or the
/// first issue's message as a configuration error.
pub fn validation_outcome(r: Result<(), Vec<ValidationIssue>>) -> (e: Result<(), TranslateError>)
    requires
        r matches Err(v) ==> v@.len() > 0,
    ensures
        r is Ok <==> e is Ok,
        r matches Err(v) ==> (e matches Err(TranslateError::Config(m)) && m == v@[0].message),
{
    match r {
        Ok(()) => Ok(()),
        Err(issues) => Err(config_error(issues)),
    }
}

/// No issues is success.
pub fn issues_result(issues: Vec<ValidationIssue>) -> (r: Result<(), Vec<ValidationIssue>>)
    ensures
        issues@.len() == 0 ==> r is Ok,
        issues@.len() > 0 ==> r == Err::<(), Vec<ValidationIssue>>(issues),
{
    if issues.len() == 0 {
        Ok(())
    } else {
        Err(issues)
    }
}

impl ServiceConfig {
    /// A configuration of `service_key` with no values.
    pub fn new(service_key: &str) -> (c: Self)
        ensures
            c.service_key@ == service_key@,
            c.fields@ == Map::<Seq<char>, Seq<char>>::empty(),
            c.fields.wf(),
    {
        ServiceConfig { service_key: service_key.to_owned(), fields: FieldMap::new() }
    }

    /// A configuration holding every field's default.
    pub fn from_schema(service_key: &str, schema: &[ConfigField]) -> (c: Self)
        ensures
            c.service_key@ == service_key@,
            c.fields@ == schema_defaults(schema@),
            c.fields.wf(),
    {
        let mut fields = FieldMap::new();
        let mut i: usize = 0;
        while i < schema.len()
            invariant
                i <= schema@.len(),
                fields@ == schema_defaults(schema@.take(i as int)),
                fields.wf(),
            decreases schema.len() - i,
        {
            fields.set(schema[i].key.as_str(), schema[i].default.as_str());
            proof {
                assert(schema@.take(i + 1).drop_last() =~= schema@.take(i as int));
                assert(schema@.take(i + 1).last() == schema@[i as int]);
            }
            i = i + 1;
        }
        assert(schema@.take(schema@.len() as int) =~= schema@);
        ServiceConfig { service_key: service_key.to_owned(), fields }
    }

    /// The value of `key`, or `""`.
    pub fn get(&self, key: &str) -> (v: &str)
        ensures
            v@ == value_or_empty(self.fields@, key@),
    {
        self.fields.get(key)
    }

    /// Sets `key` to `value`.
    pub fn set(&mut self, key: &str, value: &str)
        ensures
            final(self).fields@ == old(self).fields@.insert(key@, value@),
            old(self).fields.wf() ==> final(self).fields.wf(),
            final(self).service_key == old(self).service_key,
    {
        self.fields.set(key, value);
    }
}

/// Checks the required fields of `schema` against `config`: one issue per
/// required field left blank, or none.
pub fn validate_required(schema: &[ConfigField], config: &ServiceConfig) -> (r: Result<(), Vec<ValidationIssue>>)
    ensures
        match r {
            Ok(()) => required_issues(schema@, config.fields@).len() == 0,
            Err(v) => issues_view(v@) == required_issues(schema@, config.fields@) && v@.len() > 0,
        },
{
    let mut issues: Vec<ValidationIssue> = Vec::new();
    let mut i: usize = 0;
    while i < schema.len()
        invariant
            i <= schema@.len(),
            issues_view(issues@) == required_issues(schema@.take(i as int), config.fields@),
        decreases schema.len() - i,
    {
        let field = &schema[i];
        proof {
            assert(schema@.take(i + 1).drop_last() =~= schema@.take(i as int));
            assert(schema@.take(i + 1).last() == schema@[i as int]);
        }
        if field.required && is_blank(config.get(field.key.as_str())) {
            let ghost before = issues@;
            issues.push(issue(field.key.as_str(), must_not_be_empty(field.label.as_str())));
            proof {
                assert(issues_view(issues@) =~= issues_view(before).push(
                    (field.key@, field.label@ + "不能为空"@),
                ));
            }
        }
        i = i + 1;
    }
    assert(schema@.take(schema@.len() as int) =~= schema@);
    if issues.len() == 0 {
        Ok(())
    } else {
        Err(issues)
    }
}

/// The configuration stored under each service key.
pub open spec fn configs_map(s: Seq<(String, ServiceConfig)>) -> Map<Seq<char>, ServiceConfig> {
    Map::new(|k: Seq<char>| find_key(s, k, 0) >= 0, |k: Seq<char>| s[find_key(s, k, 0)].1)
}

impl View for ServiceConfigs {
    type V = Map<Seq<char>, ServiceConfig>;

    open spec fn view(&self) -> Map<Seq<char>, ServiceConfig> {
        configs_map(self.entries@)
    }
}

impl ServiceConfigs {
    /// Well-formed: each service key is stored once.
    pub open spec fn wf(&self) -> bool {
        keys_distinct(self.entries@)
    }

    /// No configurations.
    pub fn new() -> (t: Self)
        ensures
            t@ == Map::<Seq<char>, ServiceConfig>::empty(),
            t.wf(),
    {
        let t = ServiceConfigs { entries: Vec::new() };
        assert(t@ =~= Map::<Seq<char>, ServiceConfig>::empty());
        t
    }

    fn position(&self, key: &str) -> (r: Option<usize>)
        ensures
            match r {
                Some(i) => i as int == find_key(self.entries@, key@, 0) && i < self.entries@.len(),
                None => find_key(self.entries@, key@, 0) == -1,
            },
    {
        let mut i: usize = 0;
        while i < self.entries.len()
            invariant
                i <= self.entries@.len(),
                find_key(self.entries@, key@, 0) == find_key(self.entries@, key@, i as int),
            decreases self.entries.len() - i,
        {
            if str_eq(self.entries[i].0.as_str(), key) {
                return Some(i);
            }
            i = i + 1;
        }
        None
    }

    /// The configuration of a service, if stored.
    pub fn get(&self, key: &str) -> (r: Option<&ServiceConfig>)
        ensures
            match r {
                Some(c) => self@.contains_key(key@) && *c == self@[key@],
                None => !self@.contains_key(key@),
            },
    {
        match self.position(key) {
            Some(i) => Some(&self.entries[i].1),
            None => None,
        }
    }

    /// A configuration is stored for the service.
    pub fn contains_key(&self, key: &str) -> (b: bool)
        ensures
            b == self@.contains_key(key@),
    {
        self.position(key).is_some()
    }

    /// Stores `config` under `key` unless something is stored there already.
    pub fn insert_if_absent(&mut self, key: &str, config: ServiceConfig)
        ensures
            old(self)@.contains_key(key@) ==> final(self)@ == old(self)@,
            !old(self)@.contains_key(key@) ==> final(self)@ == old(self)@.insert(key@, config),
            old(self).wf() ==> final(self).wf(),
    {
        if self.position(key).is_some() {
            return;
        }
        let ghost s0 = self.entries@;
        let pair = (key.to_owned(), config);
        let ghost p = pair;
        self.entries.push(pair);
        proof {
            let s1 = self.entries@;
            assert(s1 =~= s0.push(p));
            if keys_distinct(s0) {
                lemma_push_keeps_distinct(s0, p);
            }
            let m1 = configs_map(s1);
            let m2 = configs_map(s0).insert(key@, config);
            assert forall|k2: Seq<char>| #[trigger] m1.dom().contains(k2) == m2.dom().contains(k2) by {
                lemma_find_push(s0, p, k2);
                lemma_find_key(s0, k2, 0);
            }
            assert forall|k2: Seq<char>| #[trigger] m2.dom().contains(k2) implies m1[k2] == m2[k2] by {
                lemma_find_push(s0, p, k2);
                if k2 != key@ {
                    let f = find_key(s0, k2, 0);
                    lemma_find_key(s0, k2, 0);
                    assert(s1[f] == s0[f]);
                } else {
                    assert(s1[s0.len() as int] == p);
                }
            }
            assert(m1.dom() =~= m2.dom());
            assert(m1 =~= m2);
        }
    }
}

impl TranslationSettings {
    /// Settings selecting `active_service` in `active_mode`, with no stored
    /// configurations.
    pub fn new(active_mode: TranslateMode, active_service: &str) -> (s: Self)
        ensures
            s.active_mode == active_mode,
            s.active_service@ == active_service@,
            s.service_configs@ == Map::<Seq<char>, ServiceConfig>::empty(),
            s.service_configs.wf(),
    {
        TranslationSettings {
            active_mode,
            active_service: active_service.to_owned(),
            service_configs: ServiceConfigs::new(),
        }
    }
}

} // verus!
