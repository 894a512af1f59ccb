//! Speech-recognition catalogue: GPU backends, engine kinds and model
//! profiles, execution routing, and model download bookkeeping.
use vstd::prelude::*;

use crate::config::join_path;
use crate::models::METAL_MODEL_SHA1;
use crate::text::{
    ascii_lower_chars, chars_are, chars_of, is_blank, is_blank_str, lower_seq, owned, push_chars,
    push_str, string_of, trim, trimmed_chars, two_words, two_words_of, parse_u64, parse_u64_spec,
    str_eq,
};

verus! {

// ---------------------------------------------------------------- GPU backends

/// Hardware acceleration backends.
#[derive(Debug, Clone, Copy, PartialEq, Eq, Structural)]
pub enum GpuBackend {
    /// NVIDIA CUDA (sherpa-onnx CUDA provider).
    Cuda,
    /// Apple Silicon Metal (whisper.cpp adapter).
    Metal,
    /// Windows Vulkan GPU (whisper.cpp adapter).
    Vulkan,
    /// No supported GPU: CPU inference.
    Cpu,
}

/// The host the library runs on, as far as backend selection cares.
#[derive(Debug, Clone, Copy, PartialEq, Eq, Structural)]
pub enum HostPlatform {
    MacArm,
    MacIntel,
    /// Windows x86-64, built with or without the whisper.cpp Vulkan backend.
    WindowsX64 { vulkan_build: bool },
    Other,
}

pub open spec fn select_spec(platform: HostPlatform, vulkan_loadable: bool, cuda_loadable: bool) -> GpuBackend {
    match platform {
        HostPlatform::MacArm => GpuBackend::Metal,
        HostPlatform::MacIntel => GpuBackend::Cpu,
        HostPlatform::WindowsX64 { vulkan_build } => if vulkan_build && vulkan_loadable {
            GpuBackend::Vulkan
        } else if cuda_loadable {
            GpuBackend::Cuda
        } else {
            GpuBackend::Cpu
        },
        HostPlatform::Other => if cuda_loadable {
            GpuBackend::Cuda
        } else {
            GpuBackend::Cpu
        },
    }
}

pub open spec fn provider_spec(b: GpuBackend) -> Seq<char> {
    match b {
        GpuBackend::Cuda => "cuda"@,
        GpuBackend::Metal => "metal"@,
        GpuBackend::Vulkan => "vulkan"@,
        GpuBackend::Cpu => "cpu"@,
    }
}

pub open spec fn backend_name_spec(b: GpuBackend) -> Seq<char> {
    match b {
        GpuBackend::Cuda => "NVIDIA CUDA"@,
        GpuBackend::Metal => "Apple Metal (whisper.cpp)"@,
        GpuBackend::Vulkan => "Vulkan GPU (whisper.cpp)"@,
        GpuBackend::Cpu => "CPU"@,
    }
}

pub open spec fn hardware_candidate_spec(platform: HostPlatform, detected: GpuBackend) -> Seq<char> {
    match platform {
        HostPlatform::MacArm => "Apple Silicon GPU（Metal）"@,
        HostPlatform::MacIntel => "Intel Mac（尚无本地 GPU 后端）"@,
        _ => backend_name_spec(detected),
    }
}

pub open spec fn availability_note_spec(platform: HostPlatform, detected: GpuBackend) -> Seq<char> {
    match platform {
        HostPlatform::MacArm => "已检测到 Apple Silicon GPU；本地 ASR 使用 whisper.cpp Metal adapter，不使用会回退 CPU 的 sherpa-onnx CoreML provider"@,
        HostPlatform::MacIntel => "已检测到 Intel Mac；当前尚未接入 Intel GPU ASR 后端"@,
        _ => match detected {
            GpuBackend::Cuda => "已检测到可供 ASR 使用的 NVIDIA CUDA runtime"@,
            GpuBackend::Metal => "已检测到可供 ASR 使用的 Apple Metal runtime"@,
            GpuBackend::Vulkan => "已检测到可供 ASR 使用的 Vulkan GPU（whisper.cpp）"@,
            GpuBackend::Cpu => "未检测到当前 ASR 运行时支持的 GPU 后端"@,
        },
    }
}

impl GpuBackend {
    /// The best backend for the platform, given what the runtime probes found:
    /// Metal on Apple Silicon; on Windows x86-64 Vulkan (when built for it and
    /// loadable), then CUDA; elsewhere CUDA; otherwise the CPU.
    pub fn select(platform: HostPlatform, vulkan_loadable: bool, cuda_loadable: bool) -> (b: Self)
        ensures
            b == select_spec(platform, vulkan_loadable, cuda_loadable),
    {
        match platform {
            HostPlatform::MacArm => GpuBackend::Metal,
            HostPlatform::MacIntel => GpuBackend::Cpu,
            HostPlatform::WindowsX64 { vulkan_build } => {
                if vulkan_build && vulkan_loadable {
                    GpuBackend::Vulkan
                } else if cuda_loadable {
                    GpuBackend::Cuda
                } else {
                    GpuBackend::Cpu
                }
            },
            HostPlatform::Other => {
                if cuda_loadable {
                    GpuBackend::Cuda
                } else {
                    GpuBackend::Cpu
                }
            },
        }
    }

    /// The sherpa-onnx `provider` value.
    pub fn provider_str(self) -> (r: &'static str)
        ensures
            r@ == provider_spec(self),
    {
        match self {
            GpuBackend::Cuda => "cuda",
            GpuBackend::Metal => "metal",
            GpuBackend::Vulkan => "vulkan",
            GpuBackend::Cpu => "cpu",
        }
    }

    /// Faster than the CPU.
    pub fn is_accelerated(self) -> (b: bool)
        ensures
            b == (self != GpuBackend::Cpu),
    {
        !matches!(self, GpuBackend::Cpu)
    }

    /// Human-readable name.
    pub fn display_name(self) -> (r: &'static str)
        ensures
            r@ == backend_name_spec(self),
    {
        match self {
            GpuBackend::Cuda => "NVIDIA CUDA",
            GpuBackend::Metal => "Apple Metal (whisper.cpp)",
            GpuBackend::Vulkan => "Vulkan GPU (whisper.cpp)",
            GpuBackend::Cpu => "CPU",
        }
    }

    /// The physical platform's GPU, kept apart from the backend ASR really uses.
    pub fn hardware_candidate(platform: HostPlatform, detected: GpuBackend) -> (r: &'static str)
        ensures
            r@ == hardware_candidate_spec(platform, detected),
    {
        match platform {
            HostPlatform::MacArm => "Apple Silicon GPU（Metal）",
            HostPlatform::MacIntel => "Intel Mac（尚无本地 GPU 后端）",
            _ => detected.display_name(),
        }
    }

    /// Why the physical GPU and the inference backend may differ.
    pub fn availability_note(platform: HostPlatform, detected: GpuBackend) -> (r: &'static str)
        ensures
            r@ == availability_note_spec(platform, detected),
    {
        match platform {
            HostPlatform::MacArm => "已检测到 Apple Silicon GPU；本地 ASR 使用 whisper.cpp Metal adapter，不使用会回退 CPU 的 sherpa-onnx CoreML provider",
            HostPlatform::MacIntel => "已检测到 Intel Mac；当前尚未接入 Intel GPU ASR 后端",
            _ => match detected {
                GpuBackend::Cuda => "已检测到可供 ASR 使用的 NVIDIA CUDA runtime",
                GpuBackend::Metal => "已检测到可供 ASR 使用的 Apple Metal runtime",
                GpuBackend::Vulkan => "已检测到可供 ASR 使用的 Vulkan GPU（whisper.cpp）",
                GpuBackend::Cpu => "未检测到当前 ASR 运行时支持的 GPU 后端",
            },
        }
    }
}

// ---------------------------------------------------------------- engine kinds

/// Recognition engine (the `user_engine` / `client_engine` settings).
#[derive(Debug, Clone, Copy, PartialEq, Eq, Structural)]
pub enum EngineKind {
    ZipformerEn,
    ParaformerZh,
    WhisperBase,
    WhisperSmall,
    Qwen3Asr,
    WhisperLargeV3TurboMetal,
    AliyunCloud,
}

/// Capability profile of one model (shared by the settings page and the API).
#[derive(Debug, Clone, Copy, PartialEq, Eq)]
pub struct ModelProfile {
    pub kind: EngineKind,
    pub label: &'static str,
    pub languages: &'static str,
    pub streaming: bool,
    /// `realtime` / `balanced` / `accurate`.
    pub speed: &'static str,
    pub description: &'static str,
    /// Whether an engine adapter can run it (otherwise download only).
    pub selectable: bool,
}

pub open spec fn engine_names() -> Seq<(Seq<char>, EngineKind)> {
    seq![
        ("zipformer-en"@, EngineKind::ZipformerEn),
        ("paraformer-zh"@, EngineKind::ParaformerZh),
        ("whisper"@, EngineKind::WhisperBase),
        ("whisper-base"@, EngineKind::WhisperBase),
        ("whisper-small"@, EngineKind::WhisperSmall),
        ("qwen3-asr"@, EngineKind::Qwen3Asr),
        ("qwen3"@, EngineKind::Qwen3Asr),
        ("whisper-large-v3-turbo-metal"@, EngineKind::WhisperLargeV3TurboMetal),
        ("large-v3-turbo-metal"@, EngineKind::WhisperLargeV3TurboMetal),
        ("aliyun"@, EngineKind::AliyunCloud),
        ("aliyun-cloud"@, EngineKind::AliyunCloud),
    ]
}

/// The first entry of the name table, from index `i` on, whose name is `l`.
pub open spec fn engine_lookup(l: Seq<char>, i: int) -> Option<EngineKind>
    decreases engine_names().len() - i,
{
    if i < 0 || i >= engine_names().len() {
        None
    } else if engine_names()[i].0 == l {
        Some(engine_names()[i].1)
    } else {
        engine_lookup(l, i + 1)
    }
}

/// The engine a (case-insensitive) configuration name stands for.
pub open spec fn engine_by_name(name: Seq<char>) -> Option<EngineKind> {
    engine_lookup(lower_seq(name), 0)
}


proof fn lemma_lower_seq_idempotent(s: Seq<char>)
    ensures
        lower_seq(lower_seq(s)) == lower_seq(s),
{
    assert(lower_seq(lower_seq(s)) =~= lower_seq(s));
}

/// Engine names are read without regard to ASCII case, and every engine's
/// display name, in any ASCII case, is read back as that engine.
pub proof fn lemma_display_names_parse_back(k: EngineKind, s: Seq<char>)
    ensures
        engine_by_name(engine_display_spec(k)) == Some(k),
        lower_seq(s) == engine_display_spec(k) ==> engine_by_name(s) == Some(k),
        engine_by_name(lower_seq(s)) == engine_by_name(s),
{
    lemma_lower_seq_idempotent(s);
    reveal_strlit("zipformer-en");
    reveal_strlit("paraformer-zh");
    reveal_strlit("whisper");
    reveal_strlit("whisper-base");
    reveal_strlit("whisper-small");
    reveal_strlit("qwen3-asr");
    reveal_strlit("qwen3");
    reveal_strlit("whisper-large-v3-turbo-metal");
    reveal_strlit("large-v3-turbo-metal");
    reveal_strlit("aliyun");
    reveal_strlit("aliyun-cloud");
    let d = engine_display_spec(k);
    assert(lower_seq(d) =~= d);
    let names = engine_names();
    assert(names.len() == 11);
    let idx: int = match k {
        EngineKind::ZipformerEn => 0,
        EngineKind::ParaformerZh => 1,
        EngineKind::WhisperBase => 3,
        EngineKind::WhisperSmall => 4,
        EngineKind::Qwen3Asr => 5,
        EngineKind::WhisperLargeV3TurboMetal => 7,
        EngineKind::AliyunCloud => 10,
    };
    assert(names[idx] == (d, k));
    assert forall|i: int| 0 <= i < idx implies #[trigger] names[i].0 != d by {
        assert(names[i].0.len() != d.len() || names[i].0[0] != d[0]);
    }
    lemma_lookup_skips(d, 0, idx);
}

proof fn lemma_lookup_skips(l: Seq<char>, i: int, idx: int)
    requires
        0 <= i <= idx < engine_names().len(),
        engine_names()[idx].0 == l,
        forall|q: int| 0 <= q < idx ==> #[trigger] engine_names()[q].0 != l,
    ensures
        engine_lookup(l, i) == Some(engine_names()[idx].1),
    decreases idx - i,
{
    if i < idx {
        assert(engine_names()[i].0 != l);
        lemma_lookup_skips(l, i + 1, idx);
    }
}

pub open spec fn engine_display_spec(k: EngineKind) -> Seq<char> {
    match k {
        EngineKind::ZipformerEn => "zipformer-en"@,
        EngineKind::ParaformerZh => "paraformer-zh"@,
        EngineKind::WhisperBase => "whisper-base"@,
        EngineKind::WhisperSmall => "whisper-small"@,
        EngineKind::Qwen3Asr => "qwen3-asr"@,
        EngineKind::WhisperLargeV3TurboMetal => "whisper-large-v3-turbo-metal"@,
        EngineKind::AliyunCloud => "aliyun-cloud"@,
    }
}

pub open spec fn is_streaming_spec(k: EngineKind) -> bool {
    k == EngineKind::ParaformerZh || k == EngineKind::ZipformerEn || k == EngineKind::AliyunCloud
}

pub open spec fn model_dir_spec(k: EngineKind) -> Seq<char> {
    match k {
        EngineKind::ParaformerZh => "sherpa-onnx-streaming-paraformer-zh"@,
        EngineKind::ZipformerEn => "sherpa-onnx-streaming-zipformer-en-2023-06-26"@,
        EngineKind::WhisperBase => "sherpa-onnx-whisper-base"@,
        EngineKind::WhisperSmall => "sherpa-onnx-whisper-small"@,
        EngineKind::Qwen3Asr => "sherpa-onnx-qwen3-asr-0.6b"@,
        EngineKind::WhisperLargeV3TurboMetal => "whisper.cpp-large-v3-turbo-q5_0"@,
        EngineKind::AliyunCloud => "aliyun-cloud"@,
    }
}

/// (label, languages, speed, description, selectable) of each profile.
pub open spec fn profile_spec(k: EngineKind, gpu_whisper_build: bool) -> (Seq<char>, Seq<char>, bool, Seq<char>, Seq<char>, bool) {
    match k {
        EngineKind::ParaformerZh => ("Paraformer 中文（旧诊断模型）"@, "zh"@, true, "realtime"@, "仅保留给自动化测试，不再作为产品模型"@, false),
        EngineKind::ZipformerEn => ("Zipformer 英文（旧诊断模型）"@, "en"@, true, "realtime"@, "仅保留给自动化测试，不再作为产品模型"@, false),
        EngineKind::WhisperBase => ("Whisper base ONNX（旧模型）"@, "multilingual"@, false, "balanced"@, "旧 sherpa ONNX 模型，不再提供下载"@, false),
        EngineKind::WhisperSmall => ("Whisper small ONNX（旧模型）"@, "multilingual"@, false, "accurate"@, "旧 sherpa ONNX 模型，不再提供下载"@, false),
        EngineKind::Qwen3Asr => ("Qwen3-ASR 0.6B int8"@, "multilingual"@, false, "accurate"@, "CUDA/CPU 本地高精度模型；中文与专业术语优先"@, true),
        EngineKind::WhisperLargeV3TurboMetal => ("Whisper large-v3-turbo Q5_0（whisper.cpp GPU）"@, "multilingual"@, false, "balanced"@, "whisper.cpp GPU 段级识别（macOS Metal / Windows Vulkan），约 547 MiB；中文/中英混说鲁棒性好"@, gpu_whisper_build),
        EngineKind::AliyunCloud => ("阿里云实时语音"@, "zh,en"@, true, "realtime"@, "云端流式识别，需配置 AccessKey；无本地 GPU 时自动启用"@, true),
    }
}

pub open spec fn profile_view(p: ModelProfile) -> (Seq<char>, Seq<char>, bool, Seq<char>, Seq<char>, bool) {
    (p.label@, p.languages@, p.streaming, p.speed@, p.description@, p.selectable)
}

/// The product model catalogue.
pub open spec fn product_models() -> Seq<EngineKind> {
    seq![EngineKind::Qwen3Asr, EngineKind::WhisperLargeV3TurboMetal]
}

impl EngineKind {
    /// The product model catalogue (older engines still parse, for tests).
    pub fn all() -> (v: [EngineKind; 2])
        ensures
            v@ == product_models(),
    {
        let v = [EngineKind::Qwen3Asr, EngineKind::WhisperLargeV3TurboMetal];
        assert(v@ =~= product_models());
        v
    }

    pub fn is_product_model(self) -> (b: bool)
        ensures
            b == product_models().contains(self),
    {
        let r = self == EngineKind::Qwen3Asr || self == EngineKind::WhisperLargeV3TurboMetal;
        proof {
            if r {
                if self == EngineKind::Qwen3Asr {
                    assert(product_models()[0] == self);
                } else {
                    assert(product_models()[1] == self);
                }
            }
        }
        r
    }

    /// Parses a configuration name (case-insensitive ASCII).
    pub fn from_name(name: &str) -> (r: Option<Self>)
        ensures
            r == engine_by_name(name@),
    {
        let cs = chars_of(name);
        let l = ascii_lower_chars(cs.as_slice());
        let names: [&str; 11] = [
            "zipformer-en",
            "paraformer-zh",
            "whisper",
            "whisper-base",
            "whisper-small",
            "qwen3-asr",
            "qwen3",
            "whisper-large-v3-turbo-metal",
            "large-v3-turbo-metal",
            "aliyun",
            "aliyun-cloud",
        ];
        let kinds: [EngineKind; 11] = [
            EngineKind::ZipformerEn,
            EngineKind::ParaformerZh,
            EngineKind::WhisperBase,
            EngineKind::WhisperBase,
            EngineKind::WhisperSmall,
            EngineKind::Qwen3Asr,
            EngineKind::Qwen3Asr,
            EngineKind::WhisperLargeV3TurboMetal,
            EngineKind::WhisperLargeV3TurboMetal,
            EngineKind::AliyunCloud,
            EngineKind::AliyunCloud,
        ];
        proof {
            assert forall|k: int| 0 <= k < 11 implies #[trigger] engine_names()[k] == (names@[k]@, kinds@[k]) by {}
        }
        let mut k: usize = 0;
        while k < 11
            invariant
                k <= 11,
                l@ == lower_seq(name@),
                forall|q: int| 0 <= q < 11 ==> #[trigger] engine_names()[q] == (names@[q]@, kinds@[q]),
                engine_lookup(l@, 0) == engine_lookup(l@, k as int),
            decreases 11 - k,
        {
            let n = chars_of(names[k]);
            if crate::text::chars_eq(n.as_slice(), l.as_slice()) {
                return Some(kinds[k]);
            }
            k += 1;
        }
        None
    }

    pub fn display_name(self) -> (r: &'static str)
        ensures
            r@ == engine_display_spec(self),
    {
        match self {
            EngineKind::ZipformerEn => "zipformer-en",
            EngineKind::ParaformerZh => "paraformer-zh",
            EngineKind::WhisperBase => "whisper-base",
            EngineKind::WhisperSmall => "whisper-small",
            EngineKind::Qwen3Asr => "qwen3-asr",
            EngineKind::WhisperLargeV3TurboMetal => "whisper-large-v3-turbo-metal",
            EngineKind::AliyunCloud => "aliyun-cloud",
        }
    }

    /// Streaming engines emit partial text block by block; the others
    /// recognise a whole segment once it ends.
    pub fn is_streaming(self) -> (b: bool)
        ensures
            b == is_streaming_spec(self),
    {
        matches!(self, EngineKind::ParaformerZh | EngineKind::ZipformerEn | EngineKind::AliyunCloud)
    }

    /// Model directory name (as the download script lays it out).
    pub fn model_dir_name(self) -> (r: &'static str)
        ensures
            r@ == model_dir_spec(self),
    {
        match self {
            EngineKind::ParaformerZh => "sherpa-onnx-streaming-paraformer-zh",
            EngineKind::ZipformerEn => "sherpa-onnx-streaming-zipformer-en-2023-06-26",
            EngineKind::WhisperBase => "sherpa-onnx-whisper-base",
            EngineKind::WhisperSmall => "sherpa-onnx-whisper-small",
            EngineKind::Qwen3Asr => "sherpa-onnx-qwen3-asr-0.6b",
            EngineKind::WhisperLargeV3TurboMetal => "whisper.cpp-large-v3-turbo-q5_0",
            EngineKind::AliyunCloud => "aliyun-cloud",
        }
    }

    /// The model's profile; `gpu_whisper_build` says whether this build runs
    /// whisper.cpp on a GPU (Apple Silicon, or Windows with Vulkan).
    pub fn profile(self, gpu_whisper_build: bool) -> (p: ModelProfile)
        ensures
            p.kind == self,
            profile_view(p) == profile_spec(self, gpu_whisper_build),
    {
        match self {
            EngineKind::ParaformerZh => ModelProfile { kind: self, label: "Paraformer 中文（旧诊断模型）", languages: "zh", streaming: true, speed: "realtime", description: "仅保留给自动化测试，不再作为产品模型", selectable: false },
            EngineKind::ZipformerEn => ModelProfile { kind: self, label: "Zipformer 英文（旧诊断模型）", languages: "en", streaming: true, speed: "realtime", description: "仅保留给自动化测试，不再作为产品模型", selectable: false },
            EngineKind::WhisperBase => ModelProfile { kind: self, label: "Whisper base ONNX（旧模型）", languages: "multilingual", streaming: false, speed: "balanced", description: "旧 sherpa ONNX 模型，不再提供下载", selectable: false },
            EngineKind::WhisperSmall => ModelProfile { kind: self, label: "Whisper small ONNX（旧模型）", languages: "multilingual", streaming: false, speed: "accurate", description: "旧 sherpa ONNX 模型，不再提供下载", selectable: false },
            EngineKind::Qwen3Asr => ModelProfile { kind: self, label: "Qwen3-ASR 0.6B int8", languages: "multilingual", streaming: false, speed: "accurate", description: "CUDA/CPU 本地高精度模型；中文与专业术语优先", selectable: true },
            EngineKind::WhisperLargeV3TurboMetal => ModelProfile { kind: self, label: "Whisper large-v3-turbo Q5_0（whisper.cpp GPU）", languages: "multilingual", streaming: false, speed: "balanced", description: "whisper.cpp GPU 段级识别（macOS Metal / Windows Vulkan），约 547 MiB；中文/中英混说鲁棒性好", selectable: gpu_whisper_build },
            EngineKind::AliyunCloud => ModelProfile { kind: self, label: "阿里云实时语音", languages: "zh,en", streaming: true, speed: "realtime", description: "云端流式识别，需配置 AccessKey；无本地 GPU 时自动启用", selectable: true },
        }
    }
}

/// Right-context padding fed to streaming models when a segment ends
/// (2400 ms of samples); it is model input only and moves no timestamps.
pub fn streaming_tail_padding_samples(sample_rate: i32) -> (n: usize)
    requires
        (if sample_rate < 0 { 0 } else { sample_rate as int }) * 2400 <= usize::MAX,
    ensures
        n == (if sample_rate < 0 { 0 } else { sample_rate as int }) * 2400 / 1000,
{
    let sr: usize = if sample_rate < 0 {
        0
    } else {
        sample_rate as usize
    };
    sr * 2400 / 1000
}

// ---------------------------------------------------------------- model availability

/// The size listed for `name` in a model directory listing (relative paths
/// with `/` separators, and the sizes of the regular files): that of its
/// first entry.
pub open spec fn listed_size(files: Seq<(Seq<char>, u64)>, name: Seq<char>) -> Option<u64>
    decreases files.len(),
{
    if files.len() == 0 {
        None
    } else if files[0].0 == name {
        Some(files[0].1)
    } else {
        listed_size(files.drop_first(), name)
    }
}

/// A non-empty regular file named `name` is listed.
pub open spec fn has_file(files: Seq<(Seq<char>, u64)>, name: Seq<char>) -> bool {
    match listed_size(files, name) {
        Some(n) => n > 0,
        None => false,
    }
}

/// A file of at least 100 MiB named `name` is listed.
pub open spec fn has_large_file(files: Seq<(Seq<char>, u64)>, name: Seq<char>) -> bool {
    match listed_size(files, name) {
        Some(n) => n >= 104857600,
        None => false,
    }
}

/// The verification marker of the whisper.cpp weights (`<sha1> <size>`)
/// names the pinned hash and the size the weights file has now.
pub open spec fn marker_matches(files: Seq<(Seq<char>, u64)>, marker: Option<Seq<char>>) -> bool {
    match marker {
        None => false,
        Some(m) => match two_words(m) {
            None => false,
            Some((hash, size)) => hash == METAL_MODEL_SHA1@ && parse_u64_spec(size) is Some
                && listed_size(files, "ggml-large-v3-turbo-q5_0.bin"@) == parse_u64_spec(size),
        },
    }
}

/// Whether a model directory with these files (and this verification
/// marker text, for the whisper.cpp weights) holds a usable model.
pub open spec fn model_available_spec(k: EngineKind, files: Seq<(Seq<char>, u64)>, marker: Option<Seq<char>>) -> bool {
    match k {
        EngineKind::ParaformerZh => has_file(files, "tokens.txt"@) && ((has_file(files, "encoder.onnx"@) && has_file(
            files,
            "decoder.onnx"@,
        )) || (has_file(files, "encoder.int8.onnx"@) && has_file(files, "decoder.int8.onnx"@))),
        EngineKind::ZipformerEn => has_file(files, "tokens.txt"@) && has_file(files, "bpe.model"@) && has_file(
            files,
            "encoder-epoch-99-avg-1-chunk-16-left-64.int8.onnx"@,
        ) && has_file(files, "decoder-epoch-99-avg-1-chunk-16-left-64.int8.onnx"@) && has_file(
            files,
            "joiner-epoch-99-avg-1-chunk-16-left-64.int8.onnx"@,
        ),
        EngineKind::WhisperBase => has_file(files, "base-tokens.txt"@) && ((has_file(files, "base-encoder.onnx"@)
            && has_file(files, "base-decoder.onnx"@)) || (has_file(files, "base-encoder.int8.onnx"@) && has_file(
            files,
            "base-decoder.int8.onnx"@,
        ))),
        EngineKind::WhisperSmall => has_file(files, "small-tokens.txt"@) && ((has_file(files, "small-encoder.onnx"@)
            && has_file(files, "small-decoder.onnx"@)) || (has_file(files, "small-encoder.int8.onnx"@) && has_file(
            files,
            "small-decoder.int8.onnx"@,
        ))),
        EngineKind::Qwen3Asr => has_file(files, "conv_frontend.onnx"@) && ((has_large_file(files, "encoder.onnx"@)
            && has_large_file(files, "decoder.onnx"@)) || (has_large_file(files, "encoder.int8.onnx"@)
            && has_large_file(files, "decoder.int8.onnx"@))) && (has_file(files, "tokenizer.json"@) || has_file(
            files,
            "tokenizer/vocab.json"@,
        )),
        EngineKind::WhisperLargeV3TurboMetal => has_file(files, "ggml-large-v3-turbo-q5_0.bin"@)
            && marker_matches(files, marker),
        EngineKind::AliyunCloud => true,
    }
}

pub open spec fn listing_view(files: Seq<(String, u64)>) -> Seq<(Seq<char>, u64)> {
    files.map_values(|e: (String, u64)| (e.0@, e.1))
}

fn size_listed(files: &Vec<(String, u64)>, name: &str) -> (r: Option<u64>)
    ensures
        r == listed_size(listing_view(files@), name@),
{
    let ghost fv = listing_view(files@);
    assert(fv.subrange(0, fv.len() as int) =~= fv);
    let mut i: usize = 0;
    while i < files.len()
        invariant
            i <= files@.len(),
            fv == listing_view(files@),
            listed_size(fv, name@) == listed_size(fv.subrange(i as int, fv.len() as int), name@),
        decreases files@.len() - i,
    {
        let ghost rest = fv.subrange(i as int, fv.len() as int);
        assert(rest[0] == fv[i as int]);
        if str_eq(files[i].0.as_str(), name) {
            return Some(files[i].1);
        }
        assert(rest.drop_first() =~= fv.subrange(i + 1, fv.len() as int));
        i += 1;
    }
    None
}

fn has(files: &Vec<(String, u64)>, name: &str) -> (b: bool)
    ensures
        b == has_file(listing_view(files@), name@),
{
    match size_listed(files, name) {
        Some(n) => n > 0,
        None => false,
    }
}

fn has_large(files: &Vec<(String, u64)>, name: &str) -> (b: bool)
    ensures
        b == has_large_file(listing_view(files@), name@),
{
    match size_listed(files, name) {
        Some(n) => n >= 104857600,
        None => false,
    }
}

fn marker_ok(files: &Vec<(String, u64)>, marker: Option<&str>) -> (b: bool)
    ensures
        b == marker_matches(
            listing_view(files@),
            match marker {
                Some(m) => Some(m@),
                None => None,
            },
        ),
{
    match marker {
        None => false,
        Some(m) => {
            let cs = chars_of(m);
            match two_words_of(cs.as_slice()) {
                None => false,
                Some((hash, size)) => {
                    let sha = chars_of(METAL_MODEL_SHA1);
                    if !crate::text::chars_eq(hash.as_slice(), sha.as_slice()) {
                        return false;
                    }
                    match parse_u64(size.as_slice()) {
                        None => false,
                        Some(v) => match size_listed(files, "ggml-large-v3-turbo-q5_0.bin") {
                            Some(n) => n == v,
                            None => false,
                        },
                    }
                },
            }
        },
    }
}

impl EngineKind {
    /// Whether the model is installed, judged from a listing of its model
    /// directory (every regular file, by relative path with `/` separators,
    /// with its size) and the text of the whisper.cpp verification marker
    /// `ggml-large-v3-turbo-q5_0.sha1` when it could be read. The cloud
    /// engine needs no files.
    pub fn is_available_in(self, files: &Vec<(String, u64)>, marker: Option<&str>) -> (b: bool)
        ensures
            b == model_available_spec(
                self,
                listing_view(files@),
                match marker {
                    Some(m) => Some(m@),
                    None => None,
                },
            ),
    {
        match self {
            EngineKind::ParaformerZh => has(files, "tokens.txt") && ((has(files, "encoder.onnx") && has(
                files,
                "decoder.onnx",
            )) || (has(files, "encoder.int8.onnx") && has(files, "decoder.int8.onnx"))),
            EngineKind::ZipformerEn => has(files, "tokens.txt") && has(files, "bpe.model") && has(
                files,
                "encoder-epoch-99-avg-1-chunk-16-left-64.int8.onnx",
            ) && has(files, "decoder-epoch-99-avg-1-chunk-16-left-64.int8.onnx") && has(
                files,
                "joiner-epoch-99-avg-1-chunk-16-left-64.int8.onnx",
            ),
            EngineKind::WhisperBase => has(files, "base-tokens.txt") && ((has(files, "base-encoder.onnx") && has(
                files,
                "base-decoder.onnx",
            )) || (has(files, "base-encoder.int8.onnx") && has(files, "base-decoder.int8.onnx"))),
            EngineKind::WhisperSmall => has(files, "small-tokens.txt") && ((has(files, "small-encoder.onnx")
                && has(files, "small-decoder.onnx")) || (has(files, "small-encoder.int8.onnx") && has(
                files,
                "small-decoder.int8.onnx",
            ))),
            EngineKind::Qwen3Asr => has(files, "conv_frontend.onnx") && ((has_large(files, "encoder.onnx")
                && has_large(files, "decoder.onnx")) || (has_large(files, "encoder.int8.onnx") && has_large(
                files,
                "decoder.int8.onnx",
            ))) && (has(files, "tokenizer.json") || has(files, "tokenizer/vocab.json")),
            EngineKind::WhisperLargeV3TurboMetal => has(files, "ggml-large-v3-turbo-q5_0.bin") && marker_ok(
                files,
                marker,
            ),
            EngineKind::AliyunCloud => true,
        }
    }
}

// ---------------------------------------------------------------- routing

/// Where recognition runs.
#[derive(Debug, Clone, Copy, PartialEq, Eq, Structural)]
pub enum AsrRoute {
    Local { backend: GpuBackend },
    AliyunCloud,
}

pub open spec fn route_name_spec(r: AsrRoute) -> Seq<char> {
    match r {
        AsrRoute::Local { backend } => backend_name_spec(backend),
        AsrRoute::AliyunCloud => "阿里云实时语音识别"@,
    }
}

impl AsrRoute {
    /// The inference provider of a local route; none for the cloud.
    pub fn provider(self) -> (r: Option<&'static str>)
        ensures
            match self {
                AsrRoute::Local { backend } => r is Some && r->0@ == provider_spec(backend),
                AsrRoute::AliyunCloud => r is None,
            },
    {
        match self {
            AsrRoute::Local { backend } => Some(backend.provider_str()),
            AsrRoute::AliyunCloud => None,
        }
    }

    pub fn display_name(self) -> (r: &'static str)
        ensures
            r@ == route_name_spec(self),
    {
        match self {
            AsrRoute::Local { backend } => backend.display_name(),
            AsrRoute::AliyunCloud => "阿里云实时语音识别",
        }
    }
}

/// Aliyun credentials as configured.
#[derive(Debug, Clone, Copy)]
pub struct CloudCredentials<'a> {
    pub access_key_id: &'a str,
    pub access_key_secret: &'a str,
    pub app_key: &'a str,
}

pub open spec fn credentials_complete(id: Seq<char>, secret: Seq<char>, app: Seq<char>) -> bool {
    !is_blank(id) && !is_blank(secret) && !is_blank(app)
}

impl<'a> CloudCredentials<'a> {
    pub open spec fn complete(self) -> bool {
        credentials_complete(self.access_key_id@, self.access_key_secret@, self.app_key@)
    }

    /// All three values are present (not blank).
    pub fn is_complete(self) -> (b: bool)
        ensures
            b == self.complete(),
    {
        !is_blank_str(self.access_key_id) && !is_blank_str(self.access_key_secret)
            && !is_blank_str(self.app_key)
    }
}

/// A setting value as it is compared: trimmed and ASCII lower-cased.
pub open spec fn setting_key(s: Seq<char>) -> Seq<char> {
    lower_seq(trim(s))
}

pub open spec fn local_backend_spec(preference: Seq<char>, detected: GpuBackend) -> Result<AsrRoute, Seq<char>> {
    let p = setting_key(preference);
    if p == ""@ || p == "auto"@ {
        Ok(AsrRoute::Local { backend: detected })
    } else if p == "cpu"@ {
        Ok(AsrRoute::Local { backend: GpuBackend::Cpu })
    } else if p == "cuda"@ {
        if detected == GpuBackend::Cuda {
            Ok(AsrRoute::Local { backend: GpuBackend::Cuda })
        } else {
            Err("已强制选择 CUDA，但当前机器未检测到 NVIDIA CUDA"@)
        }
    } else if p == "coreml"@ || p == "metal"@ {
        if detected == GpuBackend::Metal {
            Ok(AsrRoute::Local { backend: GpuBackend::Metal })
        } else {
            Err("已强制选择 CoreML/Metal，但当前 ASR 运行时未提供可用的 Apple GPU 后端"@)
        }
    } else if p == "intel"@ || p == "openvino"@ || p == "directml"@ {
        Err("Intel GPU 后端尚未实现；请使用 auto、cpu、cuda 或 coreml"@)
    } else {
        Err("未知 ASR backend `"@ + p + "`，可选值：auto、cpu、cuda、coreml"@)
    }
}

/// The effective route for an `asr_mode`, a backend preference, the detected
/// backend and whether the cloud credentials are complete.
pub open spec fn route_spec(
    mode: Seq<char>,
    preference: Seq<char>,
    detected: GpuBackend,
    cloud_complete: bool,
) -> Result<AsrRoute, Seq<char>> {
    let m = setting_key(mode);
    if m == "auto"@ || m == ""@ {
        if detected != GpuBackend::Cpu {
            Ok(AsrRoute::Local { backend: detected })
        } else if cloud_complete {
            Ok(AsrRoute::AliyunCloud)
        } else {
            Err("未检测到受支持的 GPU，自动模式需要完整的阿里云 AccessKey ID、AccessKey Secret 和 AppKey"@)
        }
    } else if m == "cloud"@ {
        if cloud_complete {
            Ok(AsrRoute::AliyunCloud)
        } else {
            Err("云端 ASR 配置不完整：需要 AccessKey ID、AccessKey Secret 和 AppKey"@)
        }
    } else if m == "local"@ {
        local_backend_spec(preference, detected)
    } else {
        Err("未知 ASR 模式 `"@ + m + "`，可选值：auto、local、cloud"@)
    }
}

pub open spec fn route_result_matches(r: Result<AsrRoute, String>, s: Result<AsrRoute, Seq<char>>) -> bool {
    match r {
        Ok(route) => s == Ok::<AsrRoute, Seq<char>>(route),
        Err(e) => s == Err::<AsrRoute, Seq<char>>(e@),
    }
}

fn error_with(prefix: &str, middle: &[char], suffix: &str) -> (e: String)
    ensures
        e@ == prefix@ + middle@ + suffix@,
{
    let mut e = owned(prefix);
    push_chars(&mut e, middle);
    push_str(&mut e, suffix);
    e
}

/// Resolves the ASR route. `auto` runs locally on a supported GPU and
/// otherwise needs complete cloud credentials; CPU inference is reached only
/// through `local` with backend `cpu`, or `auto`/empty backend on a CPU-only host.
pub fn resolve_asr_route(
    mode: &str,
    backend_preference: &str,
    detected: GpuBackend,
    cloud: CloudCredentials<'_>,
) -> (r: Result<AsrRoute, String>)
    ensures
        route_result_matches(r, route_spec(mode@, backend_preference@, detected, cloud.complete())),
{
    let t = trimmed_chars(mode);
    let m = ascii_lower_chars(t.as_slice());
    let ms = m.as_slice();
    if chars_are(ms, "auto") || chars_are(ms, "") {
        if detected.is_accelerated() {
            Ok(AsrRoute::Local { backend: detected })
        } else if cloud.is_complete() {
            Ok(AsrRoute::AliyunCloud)
        } else {
            Err(owned("未检测到受支持的 GPU，自动模式需要完整的阿里云 AccessKey ID、AccessKey Secret 和 AppKey"))
        }
    } else if chars_are(ms, "cloud") {
        if cloud.is_complete() {
            Ok(AsrRoute::AliyunCloud)
        } else {
            Err(owned("云端 ASR 配置不完整：需要 AccessKey ID、AccessKey Secret 和 AppKey"))
        }
    } else if chars_are(ms, "local") {
        resolve_local_backend(backend_preference, detected)
    } else {
        Err(error_with("未知 ASR 模式 `", ms, "`，可选值：auto、local、cloud"))
    }
}

/// The local backend for a preference (`auto`, `cpu`, `cuda`, `coreml`/`metal`).
pub fn resolve_local_backend(preference: &str, detected: GpuBackend) -> (r: Result<AsrRoute, String>)
    ensures
        route_result_matches(r, local_backend_spec(preference@, detected)),
{
    let t = trimmed_chars(preference);
    let p = ascii_lower_chars(t.as_slice());
    let ps = p.as_slice();
    if chars_are(ps, "") || chars_are(ps, "auto") {
        Ok(AsrRoute::Local { backend: detected })
    } else if chars_are(ps, "cpu") {
        Ok(AsrRoute::Local { backend: GpuBackend::Cpu })
    } else if chars_are(ps, "cuda") {
        if detected == GpuBackend::Cuda {
            Ok(AsrRoute::Local { backend: GpuBackend::Cuda })
        } else {
            Err(owned("已强制选择 CUDA，但当前机器未检测到 NVIDIA CUDA"))
        }
    } else if chars_are(ps, "coreml") || chars_are(ps, "metal") {
        if detected == GpuBackend::Metal {
            Ok(AsrRoute::Local { backend: GpuBackend::Metal })
        } else {
            Err(owned("已强制选择 CoreML/Metal，但当前 ASR 运行时未提供可用的 Apple GPU 后端"))
        }
    } else if chars_are(ps, "intel") || chars_are(ps, "openvino") || chars_are(ps, "directml") {
        Err(owned("Intel GPU 后端尚未实现；请使用 auto、cpu、cuda 或 coreml"))
    } else {
        Err(error_with("未知 ASR backend `", ps, "`，可选值：auto、cpu、cuda、coreml"))
    }
}

} // verus!
