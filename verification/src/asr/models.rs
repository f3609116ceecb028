//! The Whisper models on offer and where they are kept.

use crate::paths::{
    join_path, path_components, path_debug_form, path_debug_text, path_exists, path_lossy_text,
    path_text, plain_component,
};
use crate::text::{chars_to_string, push_str, str_eq};
use vstd::prelude::*;

verus! {

/// The Whisper model sizes on offer.
#[derive(Debug, Clone, Copy, PartialEq, Eq, Structural)]
pub enum WhisperModelSize {
    Tiny,
    Base,
    Small,
    Medium,
    Large,
}

/// One model as listed to the user.
#[derive(Debug, Clone)]
pub struct ModelInfo {
    pub key: String,
    pub name: String,
    pub size_mb: u64,
    pub description: String,
    pub path: String,
    pub downloaded: bool,
    pub download_url: String,
}

/// The directory that holds the models (in its `whisper` subdirectory).
pub struct ModelManager {
    pub models_dir: std::path::PathBuf,
}

pub open spec fn model_filename(m: WhisperModelSize) -> Seq<char> {
    match m {
        WhisperModelSize::Tiny => "ggml-tiny.bin"@,
        WhisperModelSize::Base => "ggml-base.bin"@,
        WhisperModelSize::Small => "ggml-small.bin"@,
        WhisperModelSize::Medium => "ggml-medium.bin"@,
        WhisperModelSize::Large => "ggml-large-v3.bin"@,
    }
}

pub open spec fn model_size_mb(m: WhisperModelSize) -> u64 {
    match m {
        WhisperModelSize::Tiny => 75,
        WhisperModelSize::Base => 142,
        WhisperModelSize::Small => 466,
        WhisperModelSize::Medium => 1500,
        WhisperModelSize::Large => 3100,
    }
}

pub open spec fn model_key(m: WhisperModelSize) -> Seq<char> {
    match m {
        WhisperModelSize::Tiny => "tiny"@,
        WhisperModelSize::Base => "base"@,
        WhisperModelSize::Small => "small"@,
        WhisperModelSize::Medium => "medium"@,
        WhisperModelSize::Large => "large"@,
    }
}

/// The size whose key is `key`, if any.
pub open spec fn model_of_key(key: Seq<char>) -> Option<WhisperModelSize> {
    if key == "tiny"@ {
        Some(WhisperModelSize::Tiny)
    } else if key == "base"@ {
        Some(WhisperModelSize::Base)
    } else if key == "small"@ {
        Some(WhisperModelSize::Small)
    } else if key == "medium"@ {
        Some(WhisperModelSize::Medium)
    } else if key == "large"@ {
        Some(WhisperModelSize::Large)
    } else {
        None
    }
}

/// Where models are downloaded from.
pub open spec fn model_url_base() -> Seq<char> {
    "https://huggingface.co/ggerganov/whisper.cpp/resolve/main/"@
}

pub open spec fn model_display_name(m: WhisperModelSize) -> Seq<char> {
    match m {
        WhisperModelSize::Tiny => "Tiny (75 MB)"@,
        WhisperModelSize::Base => "Base (142 MB)"@,
        WhisperModelSize::Small => "Small (466 MB)"@,
        WhisperModelSize::Medium => "Medium (1.5 GB)"@,
        WhisperModelSize::Large => "Large V3 (3.1 GB)"@,
    }
}

pub open spec fn model_description(m: WhisperModelSize) -> Seq<char> {
    match m {
        WhisperModelSize::Tiny => "Fastest, lower accuracy"@,
        WhisperModelSize::Base => "Good balance of speed and accuracy"@,
        WhisperModelSize::Small => "Better accuracy, slower"@,
        WhisperModelSize::Medium => "High accuracy, requires more RAM"@,
        WhisperModelSize::Large => "Best accuracy, requires significant RAM & GPU"@,
    }
}

/// The sizes in the order they are listed, smallest first.
pub open spec fn listed_sizes() -> Seq<WhisperModelSize> {
    seq![
        WhisperModelSize::Tiny,
        WhisperModelSize::Base,
        WhisperModelSize::Small,
        WhisperModelSize::Medium,
        WhisperModelSize::Large,
    ]
}

/// `i` lists `size`: its key, name, size, description and download address.
pub open spec fn lists_size(i: ModelInfo, size: WhisperModelSize) -> bool {
    &&& i.key@ == model_key(size)
    &&& i.name@ == model_display_name(size)
    &&& i.size_mb == model_size_mb(size)
    &&& i.description@ == model_description(size)
    &&& i.download_url@ == model_url_base() + model_filename(size)
}

/// The message for a model that is not on disk; `path` is the path as
/// `Debug` prints it.
pub open spec fn missing_model_text(size: WhisperModelSize, path: Seq<char>) -> Seq<char> {
    "Whisper model '"@ + model_filename(size)
        + "' not found. Please download it in Settings > Models.\nPath: "@ + path
}

/// Where the file of `size` is kept under `dir`, as path components:
/// `<dir>/whisper/<filename>`.
pub open spec fn model_file_components(dir: std::path::PathBuf, size: WhisperModelSize) -> Seq<
    Seq<char>,
> {
    path_components(dir).push("whisper"@).push(model_filename(size))
}

/// `i` gives, for `size` kept under `dir`, the text of a path to its file
/// and the answer `exists` gave for that same path.
pub open spec fn listed_at<F: Fn(&std::path::PathBuf) -> bool>(
    i: ModelInfo,
    dir: std::path::PathBuf,
    size: WhisperModelSize,
    present: F,
) -> bool {
    exists|p: std::path::PathBuf|
        #![trigger path_components(p)]
        path_components(p) == model_file_components(dir, size) && i.path@ == path_lossy_text(p)
            && call_ensures(present, (&p,), i.downloaded)
}

/// The directory name and every model file name are plain names.
proof fn lemma_model_names_plain(size: WhisperModelSize)
    ensures
        plain_component("whisper"@),
        plain_component(model_filename(size)),
{
    reveal_strlit("whisper");
    let w = "whisper"@;
    assert(w.len() == 7);
    assert forall|i: int| 0 <= i < w.len() implies #[trigger] w[i] != '/' && w[i] != '\\' && w[i] != ':' by {
        assert(w =~= seq!['w', 'h', 'i', 's', 'p', 'e', 'r']);
    }
    let f = model_filename(size);
    match size {
        WhisperModelSize::Tiny => {
            reveal_strlit("ggml-tiny.bin");
            assert(f =~= seq!['g', 'g', 'm', 'l', '-', 't', 'i', 'n', 'y', '.', 'b', 'i', 'n']);
            assert forall|i: int| 0 <= i < f.len() implies #[trigger] f[i] != '/' && f[i] != '\\' && f[i]
                != ':' by {
                assert(f =~= seq!['g', 'g', 'm', 'l', '-', 't', 'i', 'n', 'y', '.', 'b', 'i', 'n']);
            }
        },
        WhisperModelSize::Base => {
            reveal_strlit("ggml-base.bin");
            assert(f =~= seq!['g', 'g', 'm', 'l', '-', 'b', 'a', 's', 'e', '.', 'b', 'i', 'n']);
            assert forall|i: int| 0 <= i < f.len() implies #[trigger] f[i] != '/' && f[i] != '\\' && f[i]
                != ':' by {
                assert(f =~= seq!['g', 'g', 'm', 'l', '-', 'b', 'a', 's', 'e', '.', 'b', 'i', 'n']);
            }
        },
        WhisperModelSize::Small => {
            reveal_strlit("ggml-small.bin");
            assert(f =~= seq!['g', 'g', 'm', 'l', '-', 's', 'm', 'a', 'l', 'l', '.', 'b', 'i', 'n']);
            assert forall|i: int| 0 <= i < f.len() implies #[trigger] f[i] != '/' && f[i] != '\\' && f[i]
                != ':' by {
                assert(f =~= seq!['g', 'g', 'm', 'l', '-', 's', 'm', 'a', 'l', 'l', '.', 'b', 'i', 'n']);
            }
        },
        WhisperModelSize::Medium => {
            reveal_strlit("ggml-medium.bin");
            assert(f =~= seq!['g', 'g', 'm', 'l', '-', 'm', 'e', 'd', 'i', 'u', 'm', '.', 'b', 'i', 'n']);
            assert forall|i: int| 0 <= i < f.len() implies #[trigger] f[i] != '/' && f[i] != '\\' && f[i]
                != ':' by {
                assert(f =~= seq!['g', 'g', 'm', 'l', '-', 'm', 'e', 'd', 'i', 'u', 'm', '.', 'b', 'i', 'n']);
            }
        },
        WhisperModelSize::Large => {
            reveal_strlit("ggml-large-v3.bin");
            assert(f =~= seq!['g', 'g', 'm', 'l', '-', 'l', 'a', 'r', 'g', 'e', '-', 'v', '3', '.', 'b', 'i', 'n']);
            assert forall|i: int| 0 <= i < f.len() implies #[trigger] f[i] != '/' && f[i] != '\\' && f[i]
                != ':' by {
                assert(f =~= seq!['g', 'g', 'm', 'l', '-', 'l', 'a', 'r', 'g', 'e', '-', 'v', '3', '.', 'b', 'i', 'n']);
            }
        },
    }
}

impl WhisperModelSize {
    /// The model's file name.
    pub fn filename(&self) -> (s: &'static str)
        ensures
            s@ == model_filename(*self),
    {
        match self {
            WhisperModelSize::Tiny => "ggml-tiny.bin",
            WhisperModelSize::Base => "ggml-base.bin",
            WhisperModelSize::Small => "ggml-small.bin",
            WhisperModelSize::Medium => "ggml-medium.bin",
            WhisperModelSize::Large => "ggml-large-v3.bin",
        }
    }

    /// The approximate download size in megabytes.
    pub fn size_mb(&self) -> (n: u64)
        ensures
            n == model_size_mb(*self),
    {
        match self {
            WhisperModelSize::Tiny => 75,
            WhisperModelSize::Base => 142,
            WhisperModelSize::Small => 466,
            WhisperModelSize::Medium => 1500,
            WhisperModelSize::Large => 3100,
        }
    }

    /// The download address: the model repository followed by the file name.
    pub fn download_url(&self) -> (s: String)
        ensures
            s@ == model_url_base() + model_filename(*self),
    {
        let mut out: Vec<char> = Vec::new();
        push_str(&mut out, "https://huggingface.co/ggerganov/whisper.cpp/resolve/main/");
        push_str(&mut out, self.filename());
        chars_to_string(out.as_slice())
    }

    pub fn display_name(&self) -> (s: &'static str)
        ensures
            s@ == model_display_name(*self),
    {
        match self {
            WhisperModelSize::Tiny => "Tiny (75 MB)",
            WhisperModelSize::Base => "Base (142 MB)",
            WhisperModelSize::Small => "Small (466 MB)",
            WhisperModelSize::Medium => "Medium (1.5 GB)",
            WhisperModelSize::Large => "Large V3 (3.1 GB)",
        }
    }

    pub fn description(&self) -> (s: &'static str)
        ensures
            s@ == model_description(*self),
    {
        match self {
            WhisperModelSize::Tiny => "Fastest, lower accuracy",
            WhisperModelSize::Base => "Good balance of speed and accuracy",
            WhisperModelSize::Small => "Better accuracy, slower",
            WhisperModelSize::Medium => "High accuracy, requires more RAM",
            WhisperModelSize::Large => "Best accuracy, requires significant RAM & GPU",
        }
    }

    /// The size named by a key (`tiny`, `base`, `small`, `medium`, `large`).
    pub fn from_key(key: &str) -> (r: Option<Self>)
        ensures
            r == model_of_key(key@),
    {
        if str_eq(key, "tiny") {
            Some(WhisperModelSize::Tiny)
        } else if str_eq(key, "base") {
            Some(WhisperModelSize::Base)
        } else if str_eq(key, "small") {
            Some(WhisperModelSize::Small)
        } else if str_eq(key, "medium") {
            Some(WhisperModelSize::Medium)
        } else if str_eq(key, "large") {
            Some(WhisperModelSize::Large)
        } else {
            None
        }
    }

    /// The model's key.
    pub fn key(&self) -> (s: &'static str)
        ensures
            s@ == model_key(*self),
    {
        match self {
            WhisperModelSize::Tiny => "tiny",
            WhisperModelSize::Base => "base",
            WhisperModelSize::Small => "small",
            WhisperModelSize::Medium => "medium",
            WhisperModelSize::Large => "large",
        }
    }

    /// A file of `actual` bytes holds this model when it is more than nine
    /// tenths of the expected size.
    pub fn plausible_size(&self, actual: u64) -> (b: bool)
        ensures
            b == (actual > (model_size_mb(*self) * 1024 * 1024) * 9 / 10),
    {
        let expected = self.size_mb() * 1024 * 1024;
        actual > expected * 9 / 10
    }
}

/// A model's key names it again.
pub proof fn lemma_model_key_roundtrip(m: WhisperModelSize)
    ensures
        model_of_key(model_key(m)) == Some(m),
{
    reveal_strlit("tiny");
    reveal_strlit("base");
    reveal_strlit("small");
    reveal_strlit("medium");
    reveal_strlit("large");
    let k = model_key(m);
    assert(k =~= "tiny"@ ==> m == WhisperModelSize::Tiny) by {
        if m != WhisperModelSize::Tiny {
            assert(k[0] != 't');
        }
    }
    assert(k =~= "base"@ ==> m == WhisperModelSize::Base) by {
        if m != WhisperModelSize::Base {
            assert(k[0] != 'b');
        }
    }
    assert(k =~= "small"@ ==> m == WhisperModelSize::Small) by {
        if m != WhisperModelSize::Small {
            assert(k[0] != 's');
        }
    }
    assert(k =~= "medium"@ ==> m == WhisperModelSize::Medium) by {
        if m != WhisperModelSize::Medium {
            assert(k[0] != 'm');
        }
    }
}

impl ModelManager {
    pub fn new(models_dir: std::path::PathBuf) -> (m: Self)
        ensures
            m.models_dir == models_dir,
    {
        ModelManager { models_dir }
    }

    /// The file of a model: `<models_dir>/whisper/<filename>`.
    pub fn model_path(&self, size: WhisperModelSize) -> (p: std::path::PathBuf)
        ensures
            path_components(p) == model_file_components(self.models_dir, size),
    {
        proof {
            lemma_model_names_plain(size);
        }
        let dir = join_path(&self.models_dir, "whisper");
        join_path(&dir, size.filename())
    }

    /// Every model, smallest first, with the text of the path to its file
    /// and what `present` answers for that path.
    pub fn list_models_with<F: Fn(&std::path::PathBuf) -> bool>(&self, present: F) -> (v: Vec<
        ModelInfo,
    >)
        requires
            forall|p: std::path::PathBuf| call_requires(present, (&p,)),
        ensures
            v@.len() == listed_sizes().len(),
            forall|i: int|
                0 <= i < v@.len() ==> lists_size(#[trigger] v@[i], listed_sizes()[i]) && listed_at(
                    v@[i],
                    self.models_dir,
                    listed_sizes()[i],
                    present,
                ),
    {
        let sizes = [
            WhisperModelSize::Tiny,
            WhisperModelSize::Base,
            WhisperModelSize::Small,
            WhisperModelSize::Medium,
            WhisperModelSize::Large,
        ];
        assert(sizes@ =~= listed_sizes());
        let mut v: Vec<ModelInfo> = Vec::new();
        let mut i: usize = 0;
        while i < 5
            invariant
                i <= 5,
                sizes@ == listed_sizes(),
                v@.len() == i,
                forall|p: std::path::PathBuf| call_requires(present, (&p,)),
                forall|j: int|
                    0 <= j < i ==> lists_size(#[trigger] v@[j], listed_sizes()[j]) && listed_at(
                        v@[j],
                        self.models_dir,
                        listed_sizes()[j],
                        present,
                    ),
            decreases 5 - i,
        {
            let path = self.model_path(sizes[i]);
            let downloaded = present(&path);
            let info = ModelInfo::for_size(sizes[i], path_text(&path), downloaded);
            assert(listed_at(info, self.models_dir, listed_sizes()[i as int], present));
            v.push(info);
            i = i + 1;
        }
        v
    }

    /// Every model, smallest first, with the text of the path to its file and
    /// whether a file is there now.
    pub fn list_models(&self) -> (v: Vec<ModelInfo>)
        ensures
            v@.len() == listed_sizes().len(),
            forall|i: int|
                0 <= i < v@.len() ==> lists_size(#[trigger] v@[i], listed_sizes()[i]) && exists|
                    p: std::path::PathBuf,
                |
                    #![trigger path_components(p)]
                    path_components(p) == model_file_components(self.models_dir, listed_sizes()[i])
                        && v@[i].path@ == path_lossy_text(p),
    {
        let present = |p: &std::path::PathBuf| path_exists(p);
        let v = self.list_models_with(present);
        assert forall|i: int| 0 <= i < v@.len() implies #[trigger] lists_size(v@[i], listed_sizes()[i])
            && exists|p: std::path::PathBuf|
            #![trigger path_components(p)]
            path_components(p) == model_file_components(self.models_dir, listed_sizes()[i])
                && v@[i].path@ == path_lossy_text(p) by {
            assert(listed_at(v@[i], self.models_dir, listed_sizes()[i], present));
            let p = choose|p: std::path::PathBuf|
                #![trigger path_components(p)]
                path_components(p) == model_file_components(self.models_dir, listed_sizes()[i])
                    && v@[i].path@ == path_lossy_text(p) && call_ensures(
                    present,
                    (&p,),
                    v@[i].downloaded,
                );
            assert(path_components(p) == model_file_components(self.models_dir, listed_sizes()[i]));
        }
        v
    }

    /// Whether the file of a model is on disk now.
    pub fn is_downloaded(&self, size: WhisperModelSize) -> bool {
        path_exists(&self.model_path(size))
    }

    /// The file of the model named `model_key`, if that names a model and
    /// `present` answers yes for its path; otherwise the reason.
    pub fn check_model_with<F: Fn(&std::path::PathBuf) -> bool>(
        &self,
        model_key: &str,
        present: F,
    ) -> (r: Result<std::path::PathBuf, String>)
        requires
            forall|p: std::path::PathBuf| call_requires(present, (&p,)),
        ensures
            model_of_key(model_key@) is None ==> (r matches Err(m) && m@ == "Unknown model: "@
                + model_key@),
            model_of_key(model_key@) matches Some(size) ==> match r {
                Ok(p) => path_components(p) == model_file_components(self.models_dir, size)
                    && call_ensures(present, (&p,), true),
                Err(m) => exists|p: std::path::PathBuf|
                    #![trigger path_components(p)]
                    path_components(p) == model_file_components(self.models_dir, size)
                        && call_ensures(present, (&p,), false) && m@ == missing_model_text(
                        size,
                        path_debug_form(p),
                    ),
            },
    {
        let size = match WhisperModelSize::from_key(model_key) {
            Some(size) => size,
            None => {
                let mut out: Vec<char> = Vec::new();
                push_str(&mut out, "Unknown model: ");
                push_str(&mut out, model_key);
                return Err(chars_to_string(out.as_slice()));
            },
        };
        let path = self.model_path(size);
        if present(&path) {
            Ok(path)
        } else {
            let shown = path_debug_text(&path);
            Err(Self::missing_model_message(size, shown.as_str()))
        }
    }

    /// The file of the model named `model_key`, if that names a model and its
    /// file is on disk now; otherwise the reason.
    pub fn check_model(&self, model_key: &str) -> (r: Result<std::path::PathBuf, String>)
        ensures
            model_of_key(model_key@) is None ==> (r matches Err(m) && m@ == "Unknown model: "@
                + model_key@),
            model_of_key(model_key@) matches Some(size) ==> match r {
                Ok(p) => path_components(p) == model_file_components(self.models_dir, size),
                Err(m) => exists|p: std::path::PathBuf|
                    #![trigger path_components(p)]
                    path_components(p) == model_file_components(self.models_dir, size) && m@
                        == missing_model_text(size, path_debug_form(p)),
            },
    {
        self.check_model_with(model_key, |p: &std::path::PathBuf| path_exists(p))
    }

    /// The message for a model whose file is not on disk; `shown_path` is
    /// the path as `Debug` prints it.
    pub fn missing_model_message(size: WhisperModelSize, shown_path: &str) -> (s: String)
        ensures
            s@ == missing_model_text(size, shown_path@),
    {
        let mut out: Vec<char> = Vec::new();
        push_str(&mut out, "Whisper model '");
        push_str(&mut out, size.filename());
        push_str(&mut out, "' not found. Please download it in Settings > Models.\nPath: ");
        push_str(&mut out, shown_path);
        chars_to_string(out.as_slice())
    }
}

impl ModelInfo {
    /// The listing of `size`, kept at `path`, downloaded or not.
    pub fn for_size(size: WhisperModelSize, path: String, downloaded: bool) -> (i: ModelInfo)
        ensures
            lists_size(i, size),
            i.path == path,
            i.downloaded == downloaded,
    {
        ModelInfo {
            key: size.key().to_owned(),
            name: size.display_name().to_owned(),
            size_mb: size.size_mb(),
            description: size.description().to_owned(),
            path,
            downloaded,
            download_url: size.download_url(),
        }
    }
}

} // verus!
