//! What the recogniser was built with: GPU and BLAS back ends.
//!
//! Which back ends exist is fixed when the program is compiled; the flags
//! are handed in as a `BuildFeatures` value.

use crate::text::string_views;
use vstd::prelude::*;

verus! {

/// The build flags that decide the available back ends.
#[derive(Debug, Clone, Copy, PartialEq, Eq, Structural)]
pub struct BuildFeatures {
    pub macos: bool,
    pub metal: bool,
    pub coreml: bool,
    pub cuda: bool,
    pub hipblas: bool,
    pub opencl: bool,
    pub openblas: bool,
}

/// One back end or feature as shown to the user.
#[derive(Debug, Clone)]
pub struct AsrFeatureStatus {
    pub key: String,
    pub label: String,
    pub enabled: bool,
    pub detail: String,
}

/// Everything the recogniser can use in this build.
#[derive(Debug, Clone)]
pub struct AsrRuntimeCapabilities {
    pub app_version: String,
    pub whisper_backend: String,
    pub gpu_backend_available: bool,
    pub enabled_gpu_backends: Vec<String>,
    pub features: Vec<AsrFeatureStatus>,
}

/// Metal is there on macOS, and wherever it was asked for.
pub fn metal_enabled(f: &BuildFeatures) -> (b: bool)
    ensures
        b == (f.macos || f.metal),
{
    f.macos || f.metal
}

pub fn coreml_enabled(f: &BuildFeatures) -> (b: bool)
    ensures
        b == f.coreml,
{
    f.coreml
}

pub fn cuda_enabled(f: &BuildFeatures) -> (b: bool)
    ensures
        b == f.cuda,
{
    f.cuda
}

pub fn hipblas_enabled(f: &BuildFeatures) -> (b: bool)
    ensures
        b == f.hipblas,
{
    f.hipblas
}

pub fn opencl_enabled(f: &BuildFeatures) -> (b: bool)
    ensures
        b == f.opencl,
{
    f.opencl
}

pub fn openblas_enabled(f: &BuildFeatures) -> (b: bool)
    ensures
        b == f.openblas,
{
    f.openblas
}

/// Some GPU back end (Metal, Core ML, CUDA, hipBLAS or OpenCL) is there.
pub fn gpu_backend_available(f: &BuildFeatures) -> (b: bool)
    ensures
        b == (f.macos || f.metal || f.coreml || f.cuda || f.hipblas || f.opencl),
{
    metal_enabled(f) || coreml_enabled(f) || cuda_enabled(f) || hipblas_enabled(f) || opencl_enabled(f)
}

/// `name`, if `on`.
pub open spec fn named_if(on: bool, name: Seq<char>) -> Seq<Seq<char>> {
    if on {
        seq![name]
    } else {
        Seq::empty()
    }
}

/// The names of the GPU back ends there, in a fixed order.
pub open spec fn gpu_backend_names(f: BuildFeatures) -> Seq<Seq<char>> {
    named_if(f.macos || f.metal, "metal"@) + named_if(f.coreml, "coreml"@) + named_if(f.cuda, "cuda"@)
        + named_if(f.hipblas, "hipblas"@) + named_if(f.opencl, "opencl"@)
}

fn push_if(v: &mut Vec<String>, on: bool, name: &str)
    ensures
        string_views(final(v)@) == string_views(old(v)@) + named_if(on, name@),
{
    let ghost v0 = v@;
    if on {
        v.push(name.to_owned());
        assert(string_views(v@) =~= string_views(v0) + named_if(on, name@));
    } else {
        assert(string_views(v@) =~= string_views(v0) + named_if(on, name@));
    }
}

/// The names of the GPU back ends there: metal, coreml, cuda, hipblas,
/// opencl.
pub fn enabled_gpu_backends(f: &BuildFeatures) -> (v: Vec<String>)
    ensures
        string_views(v@) == gpu_backend_names(*f),
{
    let mut v: Vec<String> = Vec::new();
    assert(string_views(v@) =~= Seq::<Seq<char>>::empty());
    push_if(&mut v, metal_enabled(f), "metal");
    push_if(&mut v, coreml_enabled(f), "coreml");
    push_if(&mut v, cuda_enabled(f), "cuda");
    push_if(&mut v, hipblas_enabled(f), "hipblas");
    push_if(&mut v, opencl_enabled(f), "opencl");
    assert(string_views(v@) =~= gpu_backend_names(*f));
    v
}

/// The feature rows (key, label, enabled, detail) shown to the user.
pub open spec fn feature_rows(f: BuildFeatures) -> Seq<(Seq<char>, Seq<char>, bool, Seq<char>)> {
    seq![
        ("metal"@, "Metal"@, f.macos || f.metal, if f.macos {
            "macOS 构建默认包含 Metal Whisper 后端"@
        } else {
            "Whisper GPU 后端（Apple Metal）"@
        }),
        ("coreml"@, "Core ML"@, f.coreml, "Apple Neural Engine / Core ML 推理加速"@),
        ("cuda"@, "CUDA"@, f.cuda, "NVIDIA GPU 推理加速"@),
        ("hipblas"@, "hipBLAS"@, f.hipblas, "AMD GPU 推理加速"@),
        ("opencl"@, "OpenCL"@, f.opencl, "通用 OpenCL GPU 推理加速"@),
        ("openblas"@, "OpenBLAS"@, f.openblas, "CPU BLAS 加速，提升部分矩阵计算性能"@),
        ("thread_control"@, "线程控制"@, true, "支持在设置中调整 ASR 推理线程数"@),
    ]
}

pub open spec fn feature_row(s: AsrFeatureStatus) -> (Seq<char>, Seq<char>, bool, Seq<char>) {
    (s.key@, s.label@, s.enabled, s.detail@)
}

fn feature(key: &str, label: &str, enabled: bool, detail: &str) -> (s: AsrFeatureStatus)
    ensures
        feature_row(s) == (key@, label@, enabled, detail@),
{
    AsrFeatureStatus {
        key: key.to_owned(),
        label: label.to_owned(),
        enabled,
        detail: detail.to_owned(),
    }
}

/// The capabilities of this build, reported under `app_version`.
pub fn runtime_capabilities(f: &BuildFeatures, app_version: String) -> (c: AsrRuntimeCapabilities)
    ensures
        c.app_version == app_version,
        c.whisper_backend@ == "whisper.cpp"@,
        string_views(c.enabled_gpu_backends@) == gpu_backend_names(*f),
        c.gpu_backend_available == (gpu_backend_names(*f).len() > 0),
        c.features@.map_values(|s: AsrFeatureStatus| feature_row(s)) == feature_rows(*f),
{
    let gpu_backends = enabled_gpu_backends(f);
    let metal_detail = if f.macos {
        "macOS 构建默认包含 Metal Whisper 后端"
    } else {
        "Whisper GPU 后端（Apple Metal）"
    };
    let features = vec![
        feature("metal", "Metal", metal_enabled(f), metal_detail),
        feature("coreml", "Core ML", coreml_enabled(f), "Apple Neural Engine / Core ML 推理加速"),
        feature("cuda", "CUDA", cuda_enabled(f), "NVIDIA GPU 推理加速"),
        feature("hipblas", "hipBLAS", hipblas_enabled(f), "AMD GPU 推理加速"),
        feature("opencl", "OpenCL", opencl_enabled(f), "通用 OpenCL GPU 推理加速"),
        feature("openblas", "OpenBLAS", openblas_enabled(f), "CPU BLAS 加速，提升部分矩阵计算性能"),
        feature("thread_control", "线程控制", true, "支持在设置中调整 ASR 推理线程数"),
    ];
    assert(features@.map_values(|s: AsrFeatureStatus| feature_row(s)) =~= feature_rows(*f));
    proof {
        assert(string_views(gpu_backends@).len() == gpu_backends@.len());
    }
    AsrRuntimeCapabilities {
        app_version,
        whisper_backend: "whisper.cpp".to_owned(),
        gpu_backend_available: gpu_backends.len() > 0,
        enabled_gpu_backends: gpu_backends,
        features,
    }
}

} // verus!
