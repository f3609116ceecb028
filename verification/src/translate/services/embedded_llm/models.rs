//! The GGUF models on offer for the embedded llama.cpp server.

use crate::paths::{
    join_path, path_components, path_debug_form, path_debug_text, path_exists, path_lossy_text,
    path_text, plain_component,
};
use crate::text::{chars_to_string, push_str};
use crate::text::str_eq;
use vstd::prelude::*;

verus! {

/// The GGUF models on offer.
#[derive(Debug, Clone, Copy, PartialEq, Eq, Structural)]
pub enum EmbeddedModelPreset {
    Qwen25_15B,
    Qwen25_3B,
    Llama32_3B,
}

/// One embedded model as listed to the user.
#[derive(Debug, Clone)]
pub struct EmbeddedModelInfo {
    pub key: String,
    pub name: String,
    pub size_mb: u64,
    pub description: String,
    pub path: String,
    pub downloaded: bool,
    pub download_url: String,
    pub model_id: String,
}

/// The directory that holds the models (in its `embedded_llm`
/// subdirectory).
pub struct EmbeddedModelManager {
    pub models_dir: std::path::PathBuf,
}

pub open spec fn preset_key(p: EmbeddedModelPreset) -> Seq<char> {
    match p {
        EmbeddedModelPreset::Qwen25_15B => "qwen2.5-1.5b-instruct-q4km"@,
        EmbeddedModelPreset::Qwen25_3B => "qwen2.5-3b-instruct-q4km"@,
        EmbeddedModelPreset::Llama32_3B => "llama-3.2-3b-instruct-q4km"@,
    }
}

pub open spec fn preset_filename(p: EmbeddedModelPreset) -> Seq<char> {
    match p {
        EmbeddedModelPreset::Qwen25_15B => "Qwen2.5-1.5B-Instruct-Q4_K_M.gguf"@,
        EmbeddedModelPreset::Qwen25_3B => "Qwen2.5-3B-Instruct-Q4_K_M.gguf"@,
        EmbeddedModelPreset::Llama32_3B => "Llama-3.2-3B-Instruct-Q4_K_M.gguf"@,
    }
}

pub open spec fn preset_display_name(p: EmbeddedModelPreset) -> Seq<char> {
    match p {
        EmbeddedModelPreset::Qwen25_15B => "Qwen2.5 1.5B Instruct Q4_K_M"@,
        EmbeddedModelPreset::Qwen25_3B => "Qwen2.5 3B Instruct Q4_K_M"@,
        EmbeddedModelPreset::Llama32_3B => "Llama 3.2 3B Instruct Q4_K_M"@,
    }
}

/// The preset whose key is `k`, if any.
pub open spec fn preset_of_key(k: Seq<char>) -> Option<EmbeddedModelPreset> {
    if k == "qwen2.5-1.5b-instruct-q4km"@ {
        Some(EmbeddedModelPreset::Qwen25_15B)
    } else if k == "qwen2.5-3b-instruct-q4km"@ {
        Some(EmbeddedModelPreset::Qwen25_3B)
    } else if k == "llama-3.2-3b-instruct-q4km"@ {
        Some(EmbeddedModelPreset::Llama32_3B)
    } else {
        None
    }
}

/// All presets, the default first.
pub open spec fn all_presets() -> Seq<EmbeddedModelPreset> {
    seq![EmbeddedModelPreset::Qwen25_15B, EmbeddedModelPreset::Qwen25_3B, EmbeddedModelPreset::Llama32_3B]
}

pub open spec fn preset_size_mb(p: EmbeddedModelPreset) -> u64 {
    match p {
        EmbeddedModelPreset::Qwen25_15B => 980u64,
        EmbeddedModelPreset::Qwen25_3B => 1900u64,
        EmbeddedModelPreset::Llama32_3B => 2010u64,
    }
}

pub open spec fn preset_description(p: EmbeddedModelPreset) -> Seq<char> {
    match p {
        EmbeddedModelPreset::Qwen25_15B => "体积较小，适合本地双语字幕翻译调试"@,
        EmbeddedModelPreset::Qwen25_3B => "效果和速度更均衡，适合作为默认本地翻译模型"@,
        EmbeddedModelPreset::Llama32_3B => "通用能力较强，适合英文与多语种翻译场景"@,
    }
}

pub open spec fn preset_download_url(p: EmbeddedModelPreset) -> Seq<char> {
    match p {
        EmbeddedModelPreset::Qwen25_15B => "https://huggingface.co/bartowski/Qwen2.5-1.5B-Instruct-GGUF/resolve/main/Qwen2.5-1.5B-Instruct-Q4_K_M.gguf"@,
        EmbeddedModelPreset::Qwen25_3B => "https://huggingface.co/bartowski/Qwen2.5-3B-Instruct-GGUF/resolve/main/Qwen2.5-3B-Instruct-Q4_K_M.gguf"@,
        EmbeddedModelPreset::Llama32_3B => "https://huggingface.co/bartowski/Llama-3.2-3B-Instruct-GGUF/resolve/main/Llama-3.2-3B-Instruct-Q4_K_M.gguf"@,
    }
}

pub open spec fn preset_model_id(p: EmbeddedModelPreset) -> Seq<char> {
    match p {
        EmbeddedModelPreset::Qwen25_15B => "qwen2.5-1.5b-instruct"@,
        EmbeddedModelPreset::Qwen25_3B => "qwen2.5-3b-instruct"@,
        EmbeddedModelPreset::Llama32_3B => "llama-3.2-3b-instruct"@,
    }
}
/// `i` lists preset `p`: everything but where it is kept and whether it is
/// there.
pub open spec fn lists_preset(i: EmbeddedModelInfo, p: EmbeddedModelPreset) -> bool {
    &&& i.key@ == preset_key(p)
    &&& i.name@ == preset_display_name(p)
    &&& i.size_mb == preset_size_mb(p)
    &&& i.description@ == preset_description(p)
    &&& i.download_url@ == preset_download_url(p)
    &&& i.model_id@ == preset_model_id(p)
}

/// The message for a preset that is not on disk; `path` is the path as
/// `Debug` prints it.
pub open spec fn missing_preset_text(p: EmbeddedModelPreset, path: Seq<char>) -> Seq<char> {
    "Embedded LLM model '"@ + preset_filename(p) + "' not found. Please download it in Settings.\nPath: "@
        + path
}

impl EmbeddedModelPreset {
    pub fn key(&self) -> (s: &'static str)
        ensures
            s@ == preset_key(*self),
    {
        match self {
            EmbeddedModelPreset::Qwen25_15B => "qwen2.5-1.5b-instruct-q4km",
            EmbeddedModelPreset::Qwen25_3B => "qwen2.5-3b-instruct-q4km",
            EmbeddedModelPreset::Llama32_3B => "llama-3.2-3b-instruct-q4km",
        }
    }

    pub fn filename(&self) -> (s: &'static str)
        ensures
            s@ == preset_filename(*self),
    {
        match self {
            EmbeddedModelPreset::Qwen25_15B => "Qwen2.5-1.5B-Instruct-Q4_K_M.gguf",
            EmbeddedModelPreset::Qwen25_3B => "Qwen2.5-3B-Instruct-Q4_K_M.gguf",
            EmbeddedModelPreset::Llama32_3B => "Llama-3.2-3B-Instruct-Q4_K_M.gguf",
        }
    }

    pub fn display_name(&self) -> (s: &'static str)
        ensures
            s@ == preset_display_name(*self),
    {
        match self {
            EmbeddedModelPreset::Qwen25_15B => "Qwen2.5 1.5B Instruct Q4_K_M",
            EmbeddedModelPreset::Qwen25_3B => "Qwen2.5 3B Instruct Q4_K_M",
            EmbeddedModelPreset::Llama32_3B => "Llama 3.2 3B Instruct Q4_K_M",
        }
    }

    pub fn size_mb(&self) -> (n: u64)
        ensures
            n == preset_size_mb(*self),
    {
        match self {
            EmbeddedModelPreset::Qwen25_15B => 980,
            EmbeddedModelPreset::Qwen25_3B => 1900,
            EmbeddedModelPreset::Llama32_3B => 2010,
        }
    }

    pub fn description(&self) -> (s: &'static str)
        ensures
            s@ == preset_description(*self),
    {
        match self {
            EmbeddedModelPreset::Qwen25_15B => "体积较小，适合本地双语字幕翻译调试",
            EmbeddedModelPreset::Qwen25_3B => "效果和速度更均衡，适合作为默认本地翻译模型",
            EmbeddedModelPreset::Llama32_3B => "通用能力较强，适合英文与多语种翻译场景",
        }
    }

    pub fn download_url(&self) -> (s: &'static str)
        ensures
            s@ == preset_download_url(*self),
    {
        match self {
            EmbeddedModelPreset::Qwen25_15B => "https://huggingface.co/bartowski/Qwen2.5-1.5B-Instruct-GGUF/resolve/main/Qwen2.5-1.5B-Instruct-Q4_K_M.gguf",
            EmbeddedModelPreset::Qwen25_3B => "https://huggingface.co/bartowski/Qwen2.5-3B-Instruct-GGUF/resolve/main/Qwen2.5-3B-Instruct-Q4_K_M.gguf",
            EmbeddedModelPreset::Llama32_3B => "https://huggingface.co/bartowski/Llama-3.2-3B-Instruct-GGUF/resolve/main/Llama-3.2-3B-Instruct-Q4_K_M.gguf",
        }
    }

    /// The model name the server is asked for.
    pub fn default_model_id(&self) -> (s: &'static str)
        ensures
            s@ == preset_model_id(*self),
    {
        match self {
            EmbeddedModelPreset::Qwen25_15B => "qwen2.5-1.5b-instruct",
            EmbeddedModelPreset::Qwen25_3B => "qwen2.5-3b-instruct",
            EmbeddedModelPreset::Llama32_3B => "llama-3.2-3b-instruct",
        }
    }

    /// The preset named by a key.
    pub fn from_key(key: &str) -> (r: Option<Self>)
        ensures
            r == preset_of_key(key@),
    {
        if str_eq(key, "qwen2.5-1.5b-instruct-q4km") {
            Some(EmbeddedModelPreset::Qwen25_15B)
        } else if str_eq(key, "qwen2.5-3b-instruct-q4km") {
            Some(EmbeddedModelPreset::Qwen25_3B)
        } else if str_eq(key, "llama-3.2-3b-instruct-q4km") {
            Some(EmbeddedModelPreset::Llama32_3B)
        } else {
            None
        }
    }

    /// All presets, the default first.
    pub fn all() -> (a: [Self; 3])
        ensures
            a@ == all_presets(),
    {
        let a = [EmbeddedModelPreset::Qwen25_15B, EmbeddedModelPreset::Qwen25_3B, EmbeddedModelPreset::Llama32_3B];
        assert(a@ =~= all_presets());
        a
    }
}

/// A preset's key names it again.
pub proof fn lemma_preset_key_roundtrip(p: EmbeddedModelPreset)
    ensures
        preset_of_key(preset_key(p)) == Some(p),
{
    reveal_strlit("qwen2.5-1.5b-instruct-q4km");
    reveal_strlit("qwen2.5-3b-instruct-q4km");
    reveal_strlit("llama-3.2-3b-instruct-q4km");
    let k = preset_key(p);
    assert(k =~= "qwen2.5-1.5b-instruct-q4km"@ ==> p == EmbeddedModelPreset::Qwen25_15B) by {
        if p != EmbeddedModelPreset::Qwen25_15B {
            assert(k[0] != 'q' || k[7] != '1');
        }
    }
    assert(k =~= "qwen2.5-3b-instruct-q4km"@ ==> p == EmbeddedModelPreset::Qwen25_3B) by {
        if p != EmbeddedModelPreset::Qwen25_3B {
            assert(k[0] != 'q' || k[7] != '3');
        }
    }
}

/// Where the file of preset `p` is kept under `dir`, as path components:
/// `<dir>/embedded_llm/<filename>`.
pub open spec fn preset_file_components(dir: std::path::PathBuf, p: EmbeddedModelPreset) -> Seq<
    Seq<char>,
> {
    path_components(dir).push("embedded_llm"@).push(preset_filename(p))
}

/// `i` gives, for preset `p` kept under `dir`, the text of a path to its file
/// and the answer `present` gave for that same path.
pub open spec fn preset_listed_at<F: Fn(&std::path::PathBuf) -> bool>(
    i: EmbeddedModelInfo,
    dir: std::path::PathBuf,
    p: EmbeddedModelPreset,
    present: F,
) -> bool {
    exists|q: std::path::PathBuf|
        #![trigger path_components(q)]
        path_components(q) == preset_file_components(dir, p) && i.path@ == path_lossy_text(q)
            && call_ensures(present, (&q,), i.downloaded)
}

/// The directory name and every preset file name are plain names.
proof fn lemma_preset_names_plain(p: EmbeddedModelPreset)
    ensures
        plain_component("embedded_llm"@),
        plain_component(preset_filename(p)),
{
    reveal_strlit("embedded_llm");
    let w = "embedded_llm"@;
    assert(w =~= seq!['e', 'm', 'b', 'e', 'd', 'd', 'e', 'd', '_', 'l', 'l', 'm']);
    assert forall|i: int| 0 <= i < w.len() implies #[trigger] w[i] != '/' && w[i] != '\\' && w[i] != ':' by {
        assert(w =~= seq!['e', 'm', 'b', 'e', 'd', 'd', 'e', 'd', '_', 'l', 'l', 'm']);
    }
    let f = preset_filename(p);
    match p {
        EmbeddedModelPreset::Qwen25_15B => {
            reveal_strlit("Qwen2.5-1.5B-Instruct-Q4_K_M.gguf");
            assert(f =~= seq!['Q', 'w', 'e', 'n', '2', '.', '5', '-', '1', '.', '5', 'B', '-', 'I', 'n', 's', 't', 'r', 'u', 'c', 't', '-', 'Q', '4', '_', 'K', '_', 'M', '.', 'g', 'g', 'u', 'f']);
            assert forall|i: int| 0 <= i < f.len() implies #[trigger] f[i] != '/' && f[i] != '\\' && f[i]
                != ':' by {
                assert(f =~= seq!['Q', 'w', 'e', 'n', '2', '.', '5', '-', '1', '.', '5', 'B', '-', 'I', 'n', 's', 't', 'r', 'u', 'c', 't', '-', 'Q', '4', '_', 'K', '_', 'M', '.', 'g', 'g', 'u', 'f']);
            }
        },
        EmbeddedModelPreset::Qwen25_3B => {
            reveal_strlit("Qwen2.5-3B-Instruct-Q4_K_M.gguf");
            assert(f =~= seq!['Q', 'w', 'e', 'n', '2', '.', '5', '-', '3', 'B', '-', 'I', 'n', 's', 't', 'r', 'u', 'c', 't', '-', 'Q', '4', '_', 'K', '_', 'M', '.', 'g', 'g', 'u', 'f']);
            assert forall|i: int| 0 <= i < f.len() implies #[trigger] f[i] != '/' && f[i] != '\\' && f[i]
                != ':' by {
                assert(f =~= seq!['Q', 'w', 'e', 'n', '2', '.', '5', '-', '3', 'B', '-', 'I', 'n', 's', 't', 'r', 'u', 'c', 't', '-', 'Q', '4', '_', 'K', '_', 'M', '.', 'g', 'g', 'u', 'f']);
            }
        },
        EmbeddedModelPreset::Llama32_3B => {
            reveal_strlit("Llama-3.2-3B-Instruct-Q4_K_M.gguf");
            assert(f =~= seq!['L', 'l', 'a', 'm', 'a', '-', '3', '.', '2', '-', '3', 'B', '-', 'I', 'n', 's', 't', 'r', 'u', 'c', 't', '-', 'Q', '4', '_', 'K', '_', 'M', '.', 'g', 'g', 'u', 'f']);
            assert forall|i: int| 0 <= i < f.len() implies #[trigger] f[i] != '/' && f[i] != '\\' && f[i]
                != ':' by {
                assert(f =~= seq!['L', 'l', 'a', 'm', 'a', '-', '3', '.', '2', '-', '3', 'B', '-', 'I', 'n', 's', 't', 'r', 'u', 'c', 't', '-', 'Q', '4', '_', 'K', '_', 'M', '.', 'g', 'g', 'u', 'f']);
            }
        },
    }
}

impl EmbeddedModelManager {
    pub fn new(models_dir: std::path::PathBuf) -> (m: Self)
        ensures
            m.models_dir == models_dir,
    {
        EmbeddedModelManager { models_dir }
    }

    /// The file of a preset: `<models_dir>/embedded_llm/<filename>`.
    pub fn model_path(&self, preset: EmbeddedModelPreset) -> (q: std::path::PathBuf)
        ensures
            path_components(q) == preset_file_components(self.models_dir, preset),
    {
        proof {
            lemma_preset_names_plain(preset);
        }
        let dir = join_path(&self.models_dir, "embedded_llm");
        join_path(&dir, preset.filename())
    }

    /// Every preset, the default first, with the text of the path to its file
    /// and what `present` answers for that path.
    pub fn list_models_with<F: Fn(&std::path::PathBuf) -> bool>(&self, present: F) -> (v: Vec<
        EmbeddedModelInfo,
    >)
        requires
            forall|q: std::path::PathBuf| call_requires(present, (&q,)),
        ensures
            v@.len() == all_presets().len(),
            forall|i: int|
                0 <= i < v@.len() ==> lists_preset(#[trigger] v@[i], all_presets()[i])
                    && preset_listed_at(v@[i], self.models_dir, all_presets()[i], present),
    {
        let presets = EmbeddedModelPreset::all();
        let mut v: Vec<EmbeddedModelInfo> = Vec::new();
        let mut i: usize = 0;
        while i < 3
            invariant
                i <= 3,
                presets@ == all_presets(),
                v@.len() == i,
                forall|q: std::path::PathBuf| call_requires(present, (&q,)),
                forall|j: int|
                    0 <= j < i ==> lists_preset(#[trigger] v@[j], all_presets()[j])
                        && preset_listed_at(v@[j], self.models_dir, all_presets()[j], present),
            decreases 3 - i,
        {
            let path = self.model_path(presets[i]);
            let downloaded = present(&path);
            let info = EmbeddedModelInfo::for_preset(presets[i], path_text(&path), downloaded);
            assert(preset_listed_at(info, self.models_dir, all_presets()[i as int], present));
            v.push(info);
            i = i + 1;
        }
        v
    }

    /// Every preset, the default first, with the text of the path to its file
    /// and whether a file is there now.
    pub fn list_models(&self) -> (v: Vec<EmbeddedModelInfo>)
        ensures
            v@.len() == all_presets().len(),
            forall|i: int|
                0 <= i < v@.len() ==> lists_preset(#[trigger] v@[i], all_presets()[i]) && exists|
                    q: std::path::PathBuf,
                |
                    #![trigger path_components(q)]
                    path_components(q) == preset_file_components(self.models_dir, all_presets()[i])
                        && v@[i].path@ == path_lossy_text(q),
    {
        let present = |q: &std::path::PathBuf| path_exists(q);
        let v = self.list_models_with(present);
        assert forall|i: int| 0 <= i < v@.len() implies #[trigger] lists_preset(v@[i], all_presets()[i])
            && exists|q: std::path::PathBuf|
            #![trigger path_components(q)]
            path_components(q) == preset_file_components(self.models_dir, all_presets()[i])
                && v@[i].path@ == path_lossy_text(q) by {
            assert(preset_listed_at(v@[i], self.models_dir, all_presets()[i], present));
            let q = choose|q: std::path::PathBuf|
                #![trigger path_components(q)]
                path_components(q) == preset_file_components(self.models_dir, all_presets()[i])
                    && v@[i].path@ == path_lossy_text(q) && call_ensures(
                    present,
                    (&q,),
                    v@[i].downloaded,
                );
            assert(path_components(q) == preset_file_components(self.models_dir, all_presets()[i]));
        }
        v
    }

    /// The file of the preset named `model_key`, if that names a preset and
    /// `present` answers yes for its path; otherwise the reason.
    pub fn check_model_with<F: Fn(&std::path::PathBuf) -> bool>(
        &self,
        model_key: &str,
        present: F,
    ) -> (r: Result<std::path::PathBuf, String>)
        requires
            forall|q: std::path::PathBuf| call_requires(present, (&q,)),
        ensures
            preset_of_key(model_key@) is None ==> (r matches Err(m) && m@ == "Unknown embedded model: "@
                + model_key@),
            preset_of_key(model_key@) matches Some(p) ==> match r {
                Ok(q) => path_components(q) == preset_file_components(self.models_dir, p)
                    && call_ensures(present, (&q,), true),
                Err(m) => exists|q: std::path::PathBuf|
                    #![trigger path_components(q)]
                    path_components(q) == preset_file_components(self.models_dir, p)
                        && call_ensures(present, (&q,), false) && m@ == missing_preset_text(
                        p,
                        path_debug_form(q),
                    ),
            },
    {
        let preset = match EmbeddedModelPreset::from_key(model_key) {
            Some(p) => p,
            None => {
                let mut out: Vec<char> = Vec::new();
                push_str(&mut out, "Unknown embedded model: ");
                push_str(&mut out, model_key);
                return Err(chars_to_string(out.as_slice()));
            },
        };
        let path = self.model_path(preset);
        if present(&path) {
            Ok(path)
        } else {
            let shown = path_debug_text(&path);
            Err(Self::missing_model_message(preset, shown.as_str()))
        }
    }

    /// The file of the preset named `model_key`, if that names a preset and
    /// its file is on disk now; otherwise the reason.
    pub fn check_model(&self, model_key: &str) -> (r: Result<std::path::PathBuf, String>)
        ensures
            preset_of_key(model_key@) is None ==> (r matches Err(m) && m@ == "Unknown embedded model: "@
                + model_key@),
            preset_of_key(model_key@) matches Some(p) ==> match r {
                Ok(q) => path_components(q) == preset_file_components(self.models_dir, p),
                Err(m) => exists|q: std::path::PathBuf|
                    #![trigger path_components(q)]
                    path_components(q) == preset_file_components(self.models_dir, p) && m@
                        == missing_preset_text(p, path_debug_form(q)),
            },
    {
        self.check_model_with(model_key, |q: &std::path::PathBuf| path_exists(q))
    }

    /// The message for a preset whose file is not on disk; `shown_path` is
    /// the path as `Debug` prints it.
    pub fn missing_model_message(preset: EmbeddedModelPreset, shown_path: &str) -> (s: String)
        ensures
            s@ == missing_preset_text(preset, shown_path@),
    {
        let mut out: Vec<char> = Vec::new();
        push_str(&mut out, "Embedded LLM model '");
        push_str(&mut out, preset.filename());
        push_str(&mut out, "' not found. Please download it in Settings.\nPath: ");
        push_str(&mut out, shown_path);
        chars_to_string(out.as_slice())
    }
}

impl EmbeddedModelInfo {
    /// The listing of preset `p`, kept at `path`, downloaded or not.
    pub fn for_preset(p: EmbeddedModelPreset, path: String, downloaded: bool) -> (i: EmbeddedModelInfo)
        ensures
            lists_preset(i, p),
            i.path == path,
            i.downloaded == downloaded,
    {
        EmbeddedModelInfo {
            key: p.key().to_owned(),
            name: p.display_name().to_owned(),
            size_mb: p.size_mb(),
            description: p.description().to_owned(),
            path,
            downloaded,
            download_url: p.download_url().to_owned(),
            model_id: p.default_model_id().to_owned(),
        }
    }
}

} // verus!
