//! The catalogue of translation services: registration, listing by mode,
//! default settings, and the decisions of translating with fallback.

use crate::error::TranslateError;
use crate::text::{chars_to_string, join, push_str, push_string, str_eq, string_views};
use crate::translate::engine::TranslateResult;
use crate::translate::fields::{find_key, lemma_find_key};
use crate::translate::service::{
    all_modes, mode_description, mode_key, mode_label, schema_defaults, HealthStatus, ServiceConfig,
    ServiceConfigs, ServiceDescriptor, ServiceInfo, TranslateMode, TranslateModeInfo,
    TranslationSettings, ValidationIssue,
};
use crate::translate::services::embedded_llm::llama_cpp::LlamaCppService;
use crate::translate::services::local_llm::ollama::OllamaService;
use crate::translate::services::online_llm::ark::ArkService;
use crate::translate::services::online_llm::deepseek::DeepSeekService;
use crate::translate::services::online_translate::deepl::DeepLService;
use crate::translate::services::online_translate::google::GoogleTranslateService;
use crate::translate::services::online_translate::libretranslate::LibreTranslateService;
use vstd::prelude::*;

verus! {

/// The registered services' descriptors, in order of registration, each key
/// at most once.
pub struct TranslationServiceFactory {
    pub descriptors: Vec<ServiceDescriptor>,
}

/// The keys of the descriptors.
pub open spec fn descriptor_keys(ds: Seq<ServiceDescriptor>) -> Seq<Seq<char>> {
    ds.map_values(|d: ServiceDescriptor| d.key@)
}

/// No key occurs twice.
pub open spec fn keys_unique(ds: Seq<ServiceDescriptor>) -> bool {
    forall|i: int, j: int|
        0 <= i < j < ds.len() ==> #[trigger] ds[i].key@ != #[trigger] ds[j].key@
}

/// Position of the descriptor with key `k`, or -1.
pub open spec fn descriptor_index(ds: Seq<ServiceDescriptor>, k: Seq<char>) -> int {
    if exists|i: int| 0 <= i < ds.len() && ds[i].key@ == k {
        choose|i: int| 0 <= i < ds.len() && ds[i].key@ == k
    } else {
        -1
    }
}

/// The descriptors of the services of one mode, in catalogue order.
pub open spec fn of_mode(ds: Seq<ServiceDescriptor>, mode: TranslateMode) -> Seq<ServiceDescriptor>
    decreases ds.len(),
{
    if ds.len() == 0 {
        Seq::empty()
    } else {
        let rest = of_mode(ds.drop_last(), mode);
        if ds.last().mode == mode {
            rest.push(ds.last())
        } else {
            rest
        }
    }
}

/// The services tried for a translation: the active one first, then the
/// other services of the active mode, in catalogue order.
pub open spec fn candidates(ds: Seq<ServiceDescriptor>, mode: TranslateMode, active: Seq<char>) -> Seq<
    Seq<char>,
>
    decreases ds.len(),
{
    if ds.len() == 0 {
        seq![active]
    } else {
        let rest = candidates(ds.drop_last(), mode, active);
        if ds.last().mode == mode && ds.last().key@ != active {
            rest.push(ds.last().key@)
        } else {
            rest
        }
    }
}

/// `m2` is `m` with defaults added for the services of `ds`: nothing stored
/// changes, every service of `ds` has a configuration, and each added one
/// is its service's schema defaults under its key.
pub open spec fn defaults_added(
    m: Map<Seq<char>, ServiceConfig>,
    m2: Map<Seq<char>, ServiceConfig>,
    ds: Seq<ServiceDescriptor>,
) -> bool {
    &&& forall|k: Seq<char>| #[trigger] m.contains_key(k) ==> m2.contains_key(k) && m2[k] == m[k]
    &&& forall|i: int| 0 <= i < ds.len() ==> m2.contains_key(#[trigger] ds[i].key@)
    &&& forall|k: Seq<char>|
        #[trigger] m2.contains_key(k) && !m.contains_key(k) ==> exists|i: int|
            0 <= i < ds.len() && #[trigger] ds[i].key@ == k && m2[k].service_key@ == k
                && m2[k].fields@ == schema_defaults(ds[i].config_schema@)
}

/// `field: message` of every issue, joined with `; `.
pub open spec fn issues_text(v: Seq<ValidationIssue>) -> Seq<char> {
    join(v.map_values(|i: ValidationIssue| i.field@ + ": "@ + i.message@), "; "@)
}

/// The text of a health check that fails a candidate, if it does.
pub open spec fn health_failure(h: HealthStatus) -> Option<Seq<char>> {
    match h {
        HealthStatus::Unhealthy(m) => Some(m@),
        _ => None,
    }
}

impl TranslationServiceFactory {
    /// An empty catalogue.
    pub fn new() -> (f: Self)
        ensures
            f.descriptors@.len() == 0,
            f.wf(),
    {
        TranslationServiceFactory { descriptors: Vec::new() }
    }

    /// Well-formed: no service key is registered twice.
    pub open spec fn wf(&self) -> bool {
        keys_unique(self.descriptors@)
    }

    /// Adds a service; one with the same key is replaced in place.
    pub fn register(&mut self, d: ServiceDescriptor)
        requires
            keys_unique(old(self).descriptors@),
        ensures
            keys_unique(final(self).descriptors@),
            forall|i: int|
                0 <= i < old(self).descriptors@.len() && #[trigger] old(self).descriptors@[i].key@
                    == d.key@ ==> final(self).descriptors@ == old(self).descriptors@.update(i, d),
            (forall|i: int| 0 <= i < old(self).descriptors@.len() ==> old(self).descriptors@[i].key@ != d.key@)
                ==> final(self).descriptors@ == old(self).descriptors@.push(d),
    {
        let ghost s0 = self.descriptors@;
        let mut i: usize = 0;
        while i < self.descriptors.len()
            invariant
                i <= self.descriptors@.len(),
                self.descriptors@ == s0,
                s0 == old(self).descriptors@,
                keys_unique(s0),
                forall|j: int| 0 <= j < i ==> #[trigger] s0[j].key@ != d.key@,
            decreases self.descriptors.len() - i,
        {
            if str_eq(self.descriptors[i].key.as_str(), d.key.as_str()) {
                let ghost key = d.key@;
                let ghost dd = d;
                assert(s0[i as int].key@ == key);
                self.descriptors.set(i, d);
                assert(self.descriptors@ == s0.update(i as int, dd));
                assert(!(forall|j: int| 0 <= j < s0.len() ==> s0[j].key@ != key));
                proof {
                    let s1 = self.descriptors@;
                    assert forall|a: int, b: int| 0 <= a < b < s1.len() implies #[trigger] s1[a].key@
                        != #[trigger] s1[b].key@ by {
                        if a == i {
                            assert(s1[b] == s0[b]);
                            assert(s0[i as int].key@ == key);
                        } else if b == i {
                            assert(s1[a] == s0[a]);
                            assert(s0[i as int].key@ == key);
                        } else {
                            assert(s1[a] == s0[a]);
                            assert(s1[b] == s0[b]);
                        }
                    }
                    assert forall|j: int| 0 <= j < s0.len() && #[trigger] s0[j].key@ == key implies j == i by {
                        if j != i {
                            if j < i {
                                assert(s0[j].key@ != s0[i as int].key@);
                            } else {
                                assert(s0[i as int].key@ != s0[j].key@);
                            }
                        }
                    }
                }
                return;
            }
            i = i + 1;
        }
        self.descriptors.push(d);
        proof {
            let s1 = self.descriptors@;
            assert forall|a: int, b: int| 0 <= a < b < s1.len() implies #[trigger] s1[a].key@
                != #[trigger] s1[b].key@ by {
                if b == s0.len() {
                    assert(s1[a] == s0[a]);
                } else {
                    assert(s1[a] == s0[a]);
                    assert(s1[b] == s0[b]);
                }
            }
        }
    }

    /// The descriptor of a service, if registered.
    pub fn get(&self, service_key: &str) -> (r: Option<&ServiceDescriptor>)
        ensures
            match r {
                Some(d) => d.key@ == service_key@ && exists|i: int|
                    0 <= i < self.descriptors@.len() && self.descriptors@[i] == *d,
                None => forall|i: int|
                    0 <= i < self.descriptors@.len() ==> #[trigger] self.descriptors@[i].key@
                        != service_key@,
            },
    {
        let mut i: usize = 0;
        while i < self.descriptors.len()
            invariant
                i <= self.descriptors@.len(),
                forall|j: int| 0 <= j < i ==> #[trigger] self.descriptors@[j].key@ != service_key@,
            decreases self.descriptors.len() - i,
        {
            if str_eq(self.descriptors[i].key.as_str(), service_key) {
                return Some(&self.descriptors[i]);
            }
            i = i + 1;
        }
        None
    }

    /// All descriptors, in catalogue order.
    pub fn descriptors(&self) -> (v: Vec<ServiceDescriptor>)
        ensures
            v@.map_values(|d: ServiceDescriptor| d@) == self.descriptors@.map_values(
                |d: ServiceDescriptor| d@,
            ),
    {
        let mut v: Vec<ServiceDescriptor> = Vec::new();
        let mut i: usize = 0;
        while i < self.descriptors.len()
            invariant
                i <= self.descriptors@.len(),
                v@.map_values(|d: ServiceDescriptor| d@) == self.descriptors@.map_values(
                    |d: ServiceDescriptor| d@,
                ).take(i as int),
            decreases self.descriptors.len() - i,
        {
            let ghost before = v@;
            let c = self.descriptors[i].copy();
            v.push(c);
            proof {
                assert(v@.map_values(|d: ServiceDescriptor| d@) =~= before.map_values(
                    |d: ServiceDescriptor| d@,
                ).push(self.descriptors@[i as int]@));
            }
            i = i + 1;
            proof {
                assert(v@.map_values(|d: ServiceDescriptor| d@) =~= self.descriptors@.map_values(
                    |d: ServiceDescriptor| d@,
                ).take(i as int));
            }
        }
        assert(self.descriptors@.map_values(|d: ServiceDescriptor| d@).take(
            self.descriptors@.len() as int,
        ) =~= self.descriptors@.map_values(|d: ServiceDescriptor| d@));
        v
    }

    /// Every mode with its label and description.
    pub fn mode_infos(&self) -> (v: Vec<TranslateModeInfo>)
        ensures
            v@.len() == 4,
            forall|i: int|
                0 <= i < 4 ==> (#[trigger] v@[i]).key@ == mode_key(all_modes()[i]) && v@[i].name@
                    == mode_label(all_modes()[i]) && v@[i].description@ == mode_description(
                    all_modes()[i],
                ),
    {
        let modes = TranslateMode::all();
        let mut v: Vec<TranslateModeInfo> = Vec::new();
        let mut i: usize = 0;
        while i < modes.len()
            invariant
                i <= modes@.len(),
                modes@ == all_modes(),
                v@.len() == i,
                forall|j: int|
                    0 <= j < i ==> (#[trigger] v@[j]).key@ == mode_key(all_modes()[j]) && v@[j].name@
                        == mode_label(all_modes()[j]) && v@[j].description@ == mode_description(
                        all_modes()[j],
                    ),
            decreases modes.len() - i,
        {
            let m = modes[i];
            v.push(
                TranslateModeInfo {
                    key: m.key().to_owned(),
                    name: m.label_zh().to_owned(),
                    description: m.description_zh().to_owned(),
                },
            );
            i = i + 1;
        }
        v
    }

    /// The services of one mode, each with an unknown health status.
    pub fn services_by_mode(&self, mode: TranslateMode) -> (v: Vec<ServiceInfo>)
        ensures
            v@.map_values(|s: ServiceInfo| s.descriptor@) == of_mode(self.descriptors@, mode).map_values(
                |d: ServiceDescriptor| d@,
            ),
            forall|i: int| 0 <= i < v@.len() ==> (#[trigger] v@[i]).health_status matches Some(
                HealthStatus::Unknown,
            ),
    {
        let mut v: Vec<ServiceInfo> = Vec::new();
        let mut i: usize = 0;
        while i < self.descriptors.len()
            invariant
                i <= self.descriptors@.len(),
                v@.map_values(|s: ServiceInfo| s.descriptor@) == of_mode(self.descriptors@.take(i as int), mode).map_values(
                    |d: ServiceDescriptor| d@,
                ),
                forall|j: int| 0 <= j < v@.len() ==> (#[trigger] v@[j]).health_status matches Some(
                    HealthStatus::Unknown,
                ),
            decreases self.descriptors.len() - i,
        {
            let d = &self.descriptors[i];
            proof {
                assert(self.descriptors@.take(i + 1).drop_last() =~= self.descriptors@.take(i as int));
                assert(self.descriptors@.take(i + 1).last() == *d);
            }
            if d.mode == mode {
                let ghost before = v@;
                v.push(ServiceInfo { descriptor: d.copy(), health_status: Some(HealthStatus::Unknown) });
                proof {
                    assert(v@.map_values(|s: ServiceInfo| s.descriptor@) =~= before.map_values(
                        |s: ServiceInfo| s.descriptor@,
                    ).push(d@));
                }
            }
            i = i + 1;
        }
        assert(self.descriptors@.take(self.descriptors@.len() as int) =~= self.descriptors@);
        v
    }

    /// Gives every registered service without a stored configuration its
    /// default one (the schema's defaults).
    pub fn ensure_default_settings(&self, settings: &mut TranslationSettings)
        ensures
            defaults_added(old(settings).service_configs@, final(settings).service_configs@, self.descriptors@),
            final(settings).active_mode == old(settings).active_mode,
            final(settings).active_service == old(settings).active_service,
            old(settings).service_configs.wf() ==> final(settings).service_configs.wf(),
    {
        let ghost m0 = settings.service_configs@;
        let mut i: usize = 0;
        while i < self.descriptors.len()
            invariant
                i <= self.descriptors@.len(),
                settings.active_mode == old(settings).active_mode,
                settings.active_service == old(settings).active_service,
                m0 == old(settings).service_configs@,
                old(settings).service_configs.wf() ==> settings.service_configs.wf(),
                defaults_added(m0, settings.service_configs@, self.descriptors@.take(i as int)),
            decreases self.descriptors.len() - i,
        {
            let d = &self.descriptors[i];
            let ghost m1 = settings.service_configs@;
            if !settings.service_configs.contains_key(d.key.as_str()) {
                let cfg = ServiceConfig::from_schema(d.key.as_str(), d.config_schema.as_slice());
                settings.service_configs.insert_if_absent(d.key.as_str(), cfg);
            }
            proof {
                let m2 = settings.service_configs@;
                let ds = self.descriptors@.take(i + 1);
                assert(ds[i as int] == *d);
                assert forall|j: int| 0 <= j < ds.len() implies m2.contains_key(#[trigger] ds[j].key@) by {
                    if j < i {
                        assert(ds[j] == self.descriptors@.take(i as int)[j]);
                    }
                }
                assert forall|k: Seq<char>| #[trigger] m2.contains_key(k) && !m0.contains_key(k) implies exists|j: int|
                    0 <= j < ds.len() && #[trigger] ds[j].key@ == k && m2[k].service_key@ == k
                        && m2[k].fields@ == schema_defaults(ds[j].config_schema@) by {
                    if m1.contains_key(k) {
                        let j = choose|j: int|
                            0 <= j < self.descriptors@.take(i as int).len()
                                && #[trigger] self.descriptors@.take(i as int)[j].key@ == k
                                && m1[k].service_key@ == k && m1[k].fields@ == schema_defaults(
                                self.descriptors@.take(i as int)[j].config_schema@,
                            );
                        assert(ds[j] == self.descriptors@.take(i as int)[j]);
                    } else {
                        assert(ds[i as int].key@ == k);
                    }
                }
            }
            i = i + 1;
        }
        assert(self.descriptors@.take(self.descriptors@.len() as int) =~= self.descriptors@);
    }

    /// The services to try: the active one, then the others of its mode.
    pub fn fallback_candidates(&self, mode: TranslateMode, active_service: &str) -> (v: Vec<String>)
        ensures
            string_views(v@) == candidates(self.descriptors@, mode, active_service@),
    {
        let mut v: Vec<String> = vec![active_service.to_owned()];
        assert(string_views(v@) =~= candidates(self.descriptors@.take(0), mode, active_service@));
        let mut i: usize = 0;
        while i < self.descriptors.len()
            invariant
                i <= self.descriptors@.len(),
                string_views(v@) == candidates(self.descriptors@.take(i as int), mode, active_service@),
            decreases self.descriptors.len() - i,
        {
            let d = &self.descriptors[i];
            proof {
                assert(self.descriptors@.take(i + 1).drop_last() =~= self.descriptors@.take(i as int));
                assert(self.descriptors@.take(i + 1).last() == *d);
            }
            if d.mode == mode && !str_eq(d.key.as_str(), active_service) {
                let ghost before = v@;
                v.push(d.key.clone());
                assert(string_views(v@) =~= string_views(before).push(d.key@));
            }
            i = i + 1;
        }
        assert(self.descriptors@.take(self.descriptors@.len() as int) =~= self.descriptors@);
        v
    }
}

/// The mode of each descriptor, in order.
pub open spec fn descriptor_modes(ds: Seq<ServiceDescriptor>) -> Seq<TranslateMode> {
    ds.map_values(|d: ServiceDescriptor| d.mode)
}

/// Each registered descriptor's key differs from `k`.
pub open spec fn key_absent(ds: Seq<ServiceDescriptor>, k: Seq<char>) -> bool {
    forall|i: int| 0 <= i < ds.len() ==> ds[i].key@ != k
}

/// The catalogue of all services, in registration order: three online
/// translation services, two cloud language models, one local and one
/// embedded model.
pub fn build_factory(models_dir: std::path::PathBuf) -> (f: TranslationServiceFactory)
    ensures
        keys_unique(f.descriptors@),
        descriptor_keys(f.descriptors@) == seq![
            "google"@,
            "libretranslate"@,
            "deepl"@,
            "deepseek"@,
            "ark"@,
            "ollama"@,
            "llama_cpp"@,
        ],
        descriptor_modes(f.descriptors@) == seq![
            TranslateMode::OnlineTranslate,
            TranslateMode::OnlineTranslate,
            TranslateMode::OnlineTranslate,
            TranslateMode::OnlineLlm,
            TranslateMode::OnlineLlm,
            TranslateMode::LocalLlm,
            TranslateMode::EmbeddedLlm,
        ],
{
    let mut f = TranslationServiceFactory::new();
    let google = GoogleTranslateService::new();
    let libre = LibreTranslateService::new();
    let deepl = DeepLService::new();
    let deepseek = DeepSeekService::new();
    let ark = ArkService::new();
    let ollama = OllamaService::new();
    let llama = LlamaCppService::new(models_dir);
    proof {
        reveal_strlit("google");
        reveal_strlit("libretranslate");
        reveal_strlit("deepl");
        reveal_strlit("deepseek");
        reveal_strlit("ark");
        reveal_strlit("ollama");
        reveal_strlit("llama_cpp");
    }
    f.register(google.descriptor);
    assert(descriptor_keys(f.descriptors@) =~= seq!["google"@]);
    assert(key_absent(f.descriptors@, "libretranslate"@)) by {
        assert forall|i: int| 0 <= i < f.descriptors@.len() implies f.descriptors@[i].key@ != "libretranslate"@ by {
            assert(descriptor_keys(f.descriptors@)[i] == f.descriptors@[i].key@);
        }
    }
    f.register(libre.descriptor);
    assert(descriptor_keys(f.descriptors@) =~= seq!["google"@, "libretranslate"@]);
    assert(key_absent(f.descriptors@, "deepl"@)) by {
        assert forall|i: int| 0 <= i < f.descriptors@.len() implies f.descriptors@[i].key@ != "deepl"@ by {
            assert(descriptor_keys(f.descriptors@)[i] == f.descriptors@[i].key@);
        }
    }
    f.register(deepl.descriptor);
    assert(descriptor_keys(f.descriptors@) =~= seq!["google"@, "libretranslate"@, "deepl"@]);
    assert(key_absent(f.descriptors@, "deepseek"@)) by {
        assert forall|i: int| 0 <= i < f.descriptors@.len() implies f.descriptors@[i].key@ != "deepseek"@ by {
            assert(descriptor_keys(f.descriptors@)[i] == f.descriptors@[i].key@);
        }
    }
    f.register(deepseek.descriptor);
    assert(descriptor_keys(f.descriptors@) =~= seq!["google"@, "libretranslate"@, "deepl"@, "deepseek"@]);
    assert(key_absent(f.descriptors@, "ark"@)) by {
        assert forall|i: int| 0 <= i < f.descriptors@.len() implies f.descriptors@[i].key@ != "ark"@ by {
            assert(descriptor_keys(f.descriptors@)[i] == f.descriptors@[i].key@);
        }
    }
    f.register(ark.descriptor);
    assert(descriptor_keys(f.descriptors@) =~= seq!["google"@, "libretranslate"@, "deepl"@, "deepseek"@, "ark"@]);
    assert(key_absent(f.descriptors@, "ollama"@)) by {
        assert forall|i: int| 0 <= i < f.descriptors@.len() implies f.descriptors@[i].key@ != "ollama"@ by {
            assert(descriptor_keys(f.descriptors@)[i] == f.descriptors@[i].key@);
            assert("google"@[0] != "ollama"@[0]);
        }
    }
    f.register(ollama.descriptor);
    assert(descriptor_keys(f.descriptors@) =~= seq!["google"@, "libretranslate"@, "deepl"@, "deepseek"@, "ark"@, "ollama"@]);
    assert(key_absent(f.descriptors@, "llama_cpp"@)) by {
        assert forall|i: int| 0 <= i < f.descriptors@.len() implies f.descriptors@[i].key@ != "llama_cpp"@ by {
            assert(descriptor_keys(f.descriptors@)[i] == f.descriptors@[i].key@);
        }
    }
    f.register(llama.descriptor);
    assert(descriptor_keys(f.descriptors@) =~= seq!["google"@, "libretranslate"@, "deepl"@, "deepseek"@, "ark"@, "ollama"@, "llama_cpp"@]);
    assert(descriptor_modes(f.descriptors@) =~= seq![
        TranslateMode::OnlineTranslate,
        TranslateMode::OnlineTranslate,
        TranslateMode::OnlineTranslate,
        TranslateMode::OnlineLlm,
        TranslateMode::OnlineLlm,
        TranslateMode::LocalLlm,
        TranslateMode::EmbeddedLlm,
    ]);
    f
}

/// Settings selecting Google in the online-translation mode, with every
/// service's default configuration.
pub fn default_settings(factory: &TranslationServiceFactory) -> (s: TranslationSettings)
    ensures
        s.active_mode == TranslateMode::OnlineTranslate,
        s.active_service@ == "google"@,
        defaults_added(Map::empty(), s.service_configs@, factory.descriptors@),
        s.service_configs.wf(),
{
    let mut settings = TranslationSettings::new(TranslateMode::OnlineTranslate, "google");
    factory.ensure_default_settings(&mut settings);
    settings
}

impl ServiceConfig {
    /// A copy with the same key and values.
    pub fn copy(&self) -> (r: ServiceConfig)
        ensures
            r.service_key@ == self.service_key@,
            r.fields@ == self.fields@,
    {
        ServiceConfig { service_key: self.service_key.clone(), fields: self.fields.copy() }
    }
}

/// The configuration a candidate is tried with: the stored one, or the
/// service's defaults.
pub fn config_for(settings: &TranslationSettings, service: &ServiceDescriptor) -> (c: ServiceConfig)
    ensures
        settings.service_configs@.contains_key(service.key@) ==> c.service_key@
            == settings.service_configs@[service.key@].service_key@ && c.fields@
            == settings.service_configs@[service.key@].fields@,
        !settings.service_configs@.contains_key(service.key@) ==> c.service_key@ == service.key@
            && c.fields@ == schema_defaults(service.config_schema@),
{
    match settings.service_configs.get(service.key.as_str()) {
        Some(c) => c.copy(),
        None => ServiceConfig::from_schema(service.key.as_str(), service.config_schema.as_slice()),
    }
}

/// `field: message` of every issue, joined with `; `.
pub fn issues_message(issues: &[ValidationIssue]) -> (s: String)
    ensures
        s@ == issues_text(issues@),
{
    let ghost parts = issues@.map_values(|i: ValidationIssue| i.field@ + ": "@ + i.message@);
    let mut out: Vec<char> = Vec::new();
    let mut i: usize = 0;
    while i < issues.len()
        invariant
            i <= issues@.len(),
            parts == issues@.map_values(|i: ValidationIssue| i.field@ + ": "@ + i.message@),
            out@ == join(parts.take(i as int), "; "@),
        decreases issues.len() - i,
    {
        let ghost before = out@;
        if i > 0 {
            push_str(&mut out, "; ");
        }
        push_string(&mut out, &issues[i].field);
        push_str(&mut out, ": ");
        push_string(&mut out, &issues[i].message);
        proof {
            assert(parts.take(i + 1).drop_last() =~= parts.take(i as int));
            assert(parts.take(i + 1).last() == parts[i as int]);
            if i == 0 {
                assert(parts.take(1) =~= seq![parts[0]]);
                assert(out@ =~= join(parts.take(1), "; "@));
            } else {
                assert(out@ =~= join(parts.take(i + 1), "; "@));
            }
        }
        i = i + 1;
    }
    assert(parts.take(issues@.len() as int) =~= parts);
    chars_to_string(out.as_slice())
}

/// A failed health check rules a candidate out; a degraded one does not.
pub fn health_gate(h: &HealthStatus) -> (r: Result<(), TranslateError>)
    ensures
        health_failure(*h) is None ==> r is Ok,
        health_failure(*h) matches Some(m) ==> (r matches Err(TranslateError::Initialization(e)) && e@ == m),
{
    match h {
        HealthStatus::Unhealthy(m) => Err(TranslateError::Initialization(m.clone())),
        _ => Ok(()),
    }
}

/// A result credited to the service that produced it.
pub fn with_engine(result: TranslateResult, service_key: String) -> (r: TranslateResult)
    ensures
        r.texts == result.texts,
        r.engine == service_key,
{
    TranslateResult { texts: result.texts, engine: service_key }
}

/// The step a fallback run is at for its current candidate.
#[derive(Debug, Clone, Copy, PartialEq, Eq, Structural)]
pub enum FallbackStage {
    Validate,
    Initialize,
    CheckHealth,
    Translate,
}

/// What the caller does next for a fallback run.
#[derive(Debug, Clone)]
pub enum FallbackAction {
    /// Look the named service up and check its configuration.
    Validate(String),
    /// Initialize the named service.
    Initialize(String),
    /// Check the named service's health.
    CheckHealth(String),
    /// Translate with the named service.
    Translate(String),
    /// Every candidate failed: end with the error `FallbackRun::finish`
    /// gives.
    GiveUp,
}

/// A translation with fallback in progress: the candidates in order, the
/// current one and its step, and the last failure met.
pub struct FallbackRun {
    pub candidates: Vec<String>,
    pub position: usize,
    pub stage: FallbackStage,
    pub last_error: Option<TranslateError>,
}

/// The rank of a step: how many steps of a candidate precede it.
pub open spec fn stage_rank(s: FallbackStage) -> int {
    match s {
        FallbackStage::Validate => 0,
        FallbackStage::Initialize => 1,
        FallbackStage::CheckHealth => 2,
        FallbackStage::Translate => 3,
    }
}

/// The error a run ends with when nothing is left to try.
pub open spec fn final_error(last: Option<TranslateError>, e: TranslateError) -> bool {
    match last {
        Some(l) => e == l,
        None => e matches TranslateError::Initialization(m) && m@ == "没有可用的翻译服务"@,
    }
}

impl FallbackRun {
    /// How many more steps the run can take at most: four per candidate
    /// left, less the steps the current one has passed.
    pub open spec fn remaining(&self) -> int {
        4 * (self.candidates@.len() - self.position) - stage_rank(self.stage)
    }

    /// The run is at step `s` of a candidate.
    pub open spec fn at(&self, s: FallbackStage) -> bool {
        self.position < self.candidates@.len() && self.stage == s
    }

    /// The run is over: every candidate was tried.
    pub open spec fn exhausted(&self) -> bool {
        self.position >= self.candidates@.len()
    }

    /// `self` moved on from `old` to the next candidate, having met `e` (or
    /// nothing new).
    pub open spec fn moved_on(&self, old: FallbackRun, e: Option<TranslateError>) -> bool {
        &&& self.candidates == old.candidates
        &&& self.position == old.position + 1
        &&& self.stage == FallbackStage::Validate
        &&& self.last_error == match e {
            Some(x) => Some(x),
            None => old.last_error,
        }
    }

    /// `self` went on to step `s` of the same candidate.
    pub open spec fn stepped(&self, old: FallbackRun, s: FallbackStage) -> bool {
        &&& self.candidates == old.candidates
        &&& self.position == old.position
        &&& self.stage == s
        &&& self.last_error == old.last_error
    }

    /// A run over `candidates`, at the first one's configuration check.
    pub fn new(candidates: Vec<String>) -> (r: Self)
        ensures
            r.candidates == candidates,
            r.position == 0,
            r.stage == FallbackStage::Validate,
            r.last_error is None,
    {
        FallbackRun { candidates, position: 0, stage: FallbackStage::Validate, last_error: None }
    }

    /// What to do next: the current step for the current candidate, or give
    /// up once all were tried.
    pub fn next_action(&self) -> (a: FallbackAction)
        ensures
            self.exhausted() ==> a is GiveUp,
            !self.exhausted() ==> {
                let k = self.candidates@[self.position as int]@;
                match self.stage {
                    FallbackStage::Validate => a matches FallbackAction::Validate(s) && s@ == k,
                    FallbackStage::Initialize => a matches FallbackAction::Initialize(s) && s@ == k,
                    FallbackStage::CheckHealth => a matches FallbackAction::CheckHealth(s) && s@ == k,
                    FallbackStage::Translate => a matches FallbackAction::Translate(s) && s@ == k,
                }
            },
    {
        if self.position >= self.candidates.len() {
            return FallbackAction::GiveUp;
        }
        let key = self.candidates[self.position].clone();
        match self.stage {
            FallbackStage::Validate => FallbackAction::Validate(key),
            FallbackStage::Initialize => FallbackAction::Initialize(key),
            FallbackStage::CheckHealth => FallbackAction::CheckHealth(key),
            FallbackStage::Translate => FallbackAction::Translate(key),
        }
    }

    /// The error the run ends with after giving up: the last failure, or
    /// "no service available" when nothing could be tried.
    pub fn finish(self) -> (e: TranslateError)
        ensures
            final_error(self.last_error, e),
    {
        match self.last_error {
            Some(e) => e,
            None => TranslateError::Initialization("没有可用的翻译服务".to_owned()),
        }
    }

    fn move_on(&mut self, e: Option<TranslateError>)
        requires
            old(self).position < old(self).candidates@.len(),
        ensures
            final(self).moved_on(*old(self), e),
    {
        let n = self.candidates.len();
        assert(self.position < n);
        self.position = self.position + 1;
        self.stage = FallbackStage::Validate;
        match e {
            Some(x) => {
                self.last_error = Some(x);
            },
            None => {},
        }
    }

    /// The current service is not registered: skip it.
    pub fn service_missing(&mut self)
        ensures
            !old(self).exhausted() ==> final(self).moved_on(*old(self), None),
            old(self).exhausted() ==> *final(self) == *old(self),
            !old(self).exhausted() ==> final(self).remaining() < old(self).remaining(),
    {
        if self.position < self.candidates.len() {
            self.move_on(None);
        }
    }

    /// The configuration check of the current service ended with `r`: on to
    /// its initialization, or, with issues, to the next candidate with a
    /// configuration error listing them.
    pub fn validated(&mut self, r: Result<(), Vec<ValidationIssue>>)
        ensures
            !old(self).at(FallbackStage::Validate) ==> *final(self) == *old(self),
            old(self).at(FallbackStage::Validate) ==> match r {
                Ok(()) => final(self).stepped(*old(self), FallbackStage::Initialize),
                Err(v) => final(self).candidates == old(self).candidates && final(self).position
                    == old(self).position + 1 && final(self).stage == FallbackStage::Validate
                    && (final(self).last_error matches Some(TranslateError::Config(m)) && m@
                    == issues_text(v@)),
            },
            old(self).at(FallbackStage::Validate) ==> final(self).remaining() < old(self).remaining(),
    {
        if !(self.position < self.candidates.len() && self.stage == FallbackStage::Validate) {
            return;
        }
        match r {
            Ok(()) => {
                self.stage = FallbackStage::Initialize;
            },
            Err(issues) => {
                let m = issues_message(issues.as_slice());
                self.move_on(Some(TranslateError::Config(m)));
            },
        }
    }

    /// The initialization of the current service ended with `r`: on to its
    /// health check, or to the next candidate with that failure.
    pub fn initialized(&mut self, r: Result<(), TranslateError>)
        ensures
            !old(self).at(FallbackStage::Initialize) ==> *final(self) == *old(self),
            old(self).at(FallbackStage::Initialize) ==> match r {
                Ok(()) => final(self).stepped(*old(self), FallbackStage::CheckHealth),
                Err(e) => final(self).moved_on(*old(self), Some(e)),
            },
            old(self).at(FallbackStage::Initialize) ==> final(self).remaining() < old(self).remaining(),
    {
        if !(self.position < self.candidates.len() && self.stage == FallbackStage::Initialize) {
            return;
        }
        match r {
            Ok(()) => {
                self.stage = FallbackStage::CheckHealth;
            },
            Err(e) => {
                self.move_on(Some(e));
            },
        }
    }

    /// The health check of the current service gave `h`: an unhealthy
    /// service is left for the next candidate (with an initialization
    /// error); any other state goes on to translating.
    pub fn health_checked(&mut self, h: &HealthStatus)
        ensures
            !old(self).at(FallbackStage::CheckHealth) ==> *final(self) == *old(self),
            old(self).at(FallbackStage::CheckHealth) ==> match health_failure(*h) {
                None => final(self).stepped(*old(self), FallbackStage::Translate),
                Some(m) => final(self).candidates == old(self).candidates && final(self).position
                    == old(self).position + 1 && final(self).stage == FallbackStage::Validate
                    && (final(self).last_error matches Some(TranslateError::Initialization(e)) && e@
                    == m),
            },
            old(self).at(FallbackStage::CheckHealth) ==> final(self).remaining() < old(self).remaining(),
    {
        if !(self.position < self.candidates.len() && self.stage == FallbackStage::CheckHealth) {
            return;
        }
        match health_gate(h) {
            Ok(()) => {
                self.stage = FallbackStage::Translate;
            },
            Err(e) => {
                self.move_on(Some(e));
            },
        }
    }

    /// The translation by the current service ended with `r`: its result,
    /// credited to that service, ends the run; a failure moves on to the next
    /// candidate.
    pub fn translated(&mut self, r: Result<TranslateResult, TranslateError>) -> (done: Option<TranslateResult>)
        ensures
            !old(self).at(FallbackStage::Translate) ==> *final(self) == *old(self) && done is None,
            old(self).at(FallbackStage::Translate) ==> match r {
                Ok(res) => *final(self) == *old(self) && (done matches Some(d) && d.texts == res.texts
                    && d.engine@ == old(self).candidates@[old(self).position as int]@),
                Err(e) => final(self).moved_on(*old(self), Some(e)) && done is None,
            },
            old(self).at(FallbackStage::Translate) && r is Err ==> final(self).remaining() < old(self).remaining(),
    {
        if !(self.position < self.candidates.len() && self.stage == FallbackStage::Translate) {
            return None;
        }
        match r {
            Ok(res) => {
                let key = self.candidates[self.position].clone();
                Some(with_engine(res, key))
            },
            Err(e) => {
                self.move_on(Some(e));
                None
            },
        }
    }
}

} // verus!
