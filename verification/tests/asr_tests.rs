use talksage::asr::{
    resolve_asr_route, resolve_local_backend, streaming_tail_padding_samples, AsrRoute,
    CloudCredentials, EngineKind, GpuBackend, HostPlatform,
};

const EMPTY: CloudCredentials<'static> = CloudCredentials {
    access_key_id: "",
    access_key_secret: "",
    app_key: "",
};
const CLOUD: CloudCredentials<'static> = CloudCredentials {
    access_key_id: "id",
    access_key_secret: "secret",
    app_key: "app",
};

#[test]
fn detect_returns_a_valid_variant() {
    for platform in [
        HostPlatform::MacArm,
        HostPlatform::MacIntel,
        HostPlatform::WindowsX64 { vulkan_build: true },
        HostPlatform::WindowsX64 { vulkan_build: false },
        HostPlatform::Other,
    ] {
        for vulkan in [false, true] {
            for cuda in [false, true] {
                let b = GpuBackend::select(platform, vulkan, cuda);
                assert!(matches!(b, GpuBackend::Cuda | GpuBackend::Metal | GpuBackend::Vulkan | GpuBackend::Cpu));
            }
        }
    }
}

#[test]
fn provider_str_matches_backend() {
    assert_eq!(GpuBackend::Cuda.provider_str(), "cuda");
    assert_eq!(GpuBackend::Metal.provider_str(), "metal");
    assert_eq!(GpuBackend::Vulkan.provider_str(), "vulkan");
    assert_eq!(GpuBackend::Cpu.provider_str(), "cpu");
}

#[test]
fn is_accelerated_only_for_gpu_backends() {
    assert!(GpuBackend::Cuda.is_accelerated());
    assert!(GpuBackend::Metal.is_accelerated());
    assert!(GpuBackend::Vulkan.is_accelerated());
    assert!(!GpuBackend::Cpu.is_accelerated());
}

#[test]
fn display_name_is_human_readable() {
    assert!(!GpuBackend::Cuda.display_name().is_empty());
    assert!(!GpuBackend::Metal.display_name().is_empty());
    assert!(!GpuBackend::Vulkan.display_name().is_empty());
    assert!(!GpuBackend::Cpu.display_name().is_empty());
}

#[test]
fn availability_note_is_not_empty() {
    for platform in [HostPlatform::MacArm, HostPlatform::MacIntel, HostPlatform::Other] {
        for b in [GpuBackend::Cuda, GpuBackend::Metal, GpuBackend::Vulkan, GpuBackend::Cpu] {
            assert!(!GpuBackend::availability_note(platform, b).is_empty());
            assert!(!GpuBackend::hardware_candidate(platform, b).is_empty());
        }
    }
}

#[test]
fn backend_selection_follows_platform_priorities() {
    assert_eq!(GpuBackend::select(HostPlatform::MacArm, false, false), GpuBackend::Metal);
    assert_eq!(GpuBackend::select(HostPlatform::MacIntel, true, true), GpuBackend::Cpu);
    assert_eq!(GpuBackend::select(HostPlatform::WindowsX64 { vulkan_build: true }, true, true), GpuBackend::Vulkan);
    assert_eq!(GpuBackend::select(HostPlatform::WindowsX64 { vulkan_build: false }, true, true), GpuBackend::Cuda);
    assert_eq!(GpuBackend::select(HostPlatform::WindowsX64 { vulkan_build: true }, false, false), GpuBackend::Cpu);
    assert_eq!(GpuBackend::select(HostPlatform::Other, false, true), GpuBackend::Cuda);
    assert_eq!(GpuBackend::select(HostPlatform::Other, true, false), GpuBackend::Cpu);
    assert_eq!(GpuBackend::hardware_candidate(HostPlatform::Other, GpuBackend::Cuda), "NVIDIA CUDA");
    assert_eq!(
        GpuBackend::availability_note(HostPlatform::Other, GpuBackend::Cpu),
        "未检测到当前 ASR 运行时支持的 GPU 后端"
    );
}

#[test]
fn streaming_finish_adds_right_context_without_changing_audio_clock() {
    assert_eq!(streaming_tail_padding_samples(16_000), 38_400);
    assert_eq!(streaming_tail_padding_samples(8_000), 19_200);
}

#[test]
fn tail_padding_of_a_negative_rate_is_empty() {
    assert_eq!(streaming_tail_padding_samples(-5), 0);
    assert_eq!(streaming_tail_padding_samples(1), 2);
}

#[test]
fn engine_kind_parsing() {
    assert_eq!(EngineKind::from_name("zipformer-en"), Some(EngineKind::ZipformerEn));
    assert_eq!(EngineKind::from_name("paraformer-zh"), Some(EngineKind::ParaformerZh));
    assert_eq!(EngineKind::from_name("whisper"), Some(EngineKind::WhisperBase));
    assert_eq!(EngineKind::from_name("whisper-base"), Some(EngineKind::WhisperBase));
    assert_eq!(EngineKind::from_name("whisper-small"), Some(EngineKind::WhisperSmall));
    assert_eq!(EngineKind::from_name("qwen3-asr"), Some(EngineKind::Qwen3Asr));
    assert_eq!(EngineKind::from_name("whisper-large-v3-turbo-metal"), Some(EngineKind::WhisperLargeV3TurboMetal));
    assert_eq!(EngineKind::from_name("unknown"), None);
    assert!(EngineKind::ParaformerZh.is_streaming());
    assert!(!EngineKind::WhisperBase.is_streaming());
    assert!(!EngineKind::Qwen3Asr.is_streaming());
    assert!(!EngineKind::WhisperLargeV3TurboMetal.is_streaming());
}

#[test]
fn engine_names_are_case_insensitive() {
    assert_eq!(EngineKind::from_name("QWEN3"), Some(EngineKind::Qwen3Asr));
    assert_eq!(EngineKind::from_name("Aliyun"), Some(EngineKind::AliyunCloud));
    assert_eq!(EngineKind::from_name("Large-V3-Turbo-Metal"), Some(EngineKind::WhisperLargeV3TurboMetal));
    assert_eq!(EngineKind::from_name(" qwen3"), None);
}

#[test]
fn model_catalog_has_stable_unique_ids_and_speed_classes() {
    let mut ids = std::collections::HashSet::new();
    for kind in EngineKind::all() {
        let profile = kind.profile(false);
        assert_eq!(profile.kind, kind);
        assert_eq!(profile.streaming, kind.is_streaming());
        assert!(ids.insert(kind.display_name()), "duplicate model id");
        assert!(matches!(profile.speed, "realtime" | "balanced" | "accurate"));
    }
    assert_eq!(EngineKind::all(), [EngineKind::Qwen3Asr, EngineKind::WhisperLargeV3TurboMetal]);
    assert!(EngineKind::Qwen3Asr.profile(false).selectable);
    assert!(!EngineKind::WhisperLargeV3TurboMetal.profile(false).selectable);
    assert!(EngineKind::WhisperLargeV3TurboMetal.profile(true).selectable);
    assert!(!EngineKind::ParaformerZh.is_product_model());
}

#[test]
fn engine_kind_from_name_covers_configured_values() {
    assert_eq!(EngineKind::from_name("paraformer-zh"), Some(EngineKind::ParaformerZh));
    assert_eq!(EngineKind::from_name("zipformer-en"), Some(EngineKind::ZipformerEn));
    assert_eq!(EngineKind::from_name("whisper-base"), Some(EngineKind::WhisperBase));
    assert_eq!(EngineKind::from_name("whisper-small"), Some(EngineKind::WhisperSmall));
    assert_eq!(EngineKind::from_name("qwen3-asr"), Some(EngineKind::Qwen3Asr));
    assert!(!EngineKind::WhisperBase.is_streaming());
    assert!(EngineKind::ParaformerZh.is_streaming());
}

#[test]
fn model_directories_follow_the_download_layout() {
    assert_eq!(EngineKind::Qwen3Asr.model_dir_name(), "sherpa-onnx-qwen3-asr-0.6b");
    assert_eq!(EngineKind::WhisperLargeV3TurboMetal.model_dir_name(), "whisper.cpp-large-v3-turbo-q5_0");
    assert_eq!(EngineKind::AliyunCloud.display_name(), "aliyun-cloud");
}

#[test]
fn auto_prefers_supported_gpu() {
    assert_eq!(
        resolve_asr_route("auto", "auto", GpuBackend::Cuda, CLOUD).unwrap(),
        AsrRoute::Local { backend: GpuBackend::Cuda }
    );
    assert_eq!(
        resolve_asr_route("auto", "auto", GpuBackend::Metal, CLOUD).unwrap(),
        AsrRoute::Local { backend: GpuBackend::Metal }
    );
}

#[test]
fn auto_uses_cloud_without_supported_gpu() {
    assert_eq!(resolve_asr_route("auto", "auto", GpuBackend::Cpu, CLOUD).unwrap(), AsrRoute::AliyunCloud);
}

#[test]
fn auto_without_gpu_requires_all_cloud_credentials() {
    assert!(resolve_asr_route("auto", "auto", GpuBackend::Cpu, EMPTY).is_err());
    let missing_secret = CloudCredentials {
        access_key_id: "id",
        access_key_secret: "",
        app_key: "app",
    };
    assert!(resolve_asr_route("auto", "auto", GpuBackend::Cpu, missing_secret).is_err());
}

#[test]
fn explicit_local_cpu_remains_available() {
    assert_eq!(
        resolve_asr_route("local", "cpu", GpuBackend::Cpu, EMPTY).unwrap(),
        AsrRoute::Local { backend: GpuBackend::Cpu }
    );
}

#[test]
fn unavailable_or_future_gpu_backend_is_rejected() {
    assert!(resolve_asr_route("local", "cuda", GpuBackend::Cpu, EMPTY).is_err());
    assert!(resolve_asr_route("local", "intel", GpuBackend::Cpu, EMPTY).is_err());
}

#[test]
fn route_errors_name_the_problem() {
    assert_eq!(
        resolve_asr_route(" Turbo ", "auto", GpuBackend::Cuda, CLOUD).unwrap_err(),
        "未知 ASR 模式 `turbo`，可选值：auto、local、cloud"
    );
    assert_eq!(
        resolve_asr_route("cloud", "auto", GpuBackend::Cuda, EMPTY).unwrap_err(),
        "云端 ASR 配置不完整：需要 AccessKey ID、AccessKey Secret 和 AppKey"
    );
    assert_eq!(
        resolve_local_backend("OpenVINO", GpuBackend::Cuda).unwrap_err(),
        "Intel GPU 后端尚未实现；请使用 auto、cpu、cuda 或 coreml"
    );
    assert_eq!(
        resolve_local_backend("tpu", GpuBackend::Cuda).unwrap_err(),
        "未知 ASR backend `tpu`，可选值：auto、cpu、cuda、coreml"
    );
    assert_eq!(
        resolve_local_backend("coreml", GpuBackend::Cuda).unwrap_err(),
        "已强制选择 CoreML/Metal，但当前 ASR 运行时未提供可用的 Apple GPU 后端"
    );
    assert_eq!(
        resolve_asr_route("", "", GpuBackend::Cpu, EMPTY).unwrap_err(),
        "未检测到受支持的 GPU，自动模式需要完整的阿里云 AccessKey ID、AccessKey Secret 和 AppKey"
    );
}

#[test]
fn route_names_and_providers() {
    assert_eq!(AsrRoute::AliyunCloud.provider(), None);
    assert_eq!(AsrRoute::Local { backend: GpuBackend::Cuda }.provider(), Some("cuda"));
    assert_eq!(AsrRoute::AliyunCloud.display_name(), "阿里云实时语音识别");
    assert_eq!(AsrRoute::Local { backend: GpuBackend::Cpu }.display_name(), "CPU");
    assert!(CLOUD.is_complete());
    let blank = CloudCredentials { access_key_id: " ", access_key_secret: "s", app_key: "a" };
    assert!(!blank.is_complete());
}

fn listing(entries: &[(&str, u64)]) -> Vec<(String, u64)> {
    entries.iter().map(|(n, s)| (n.to_string(), *s)).collect()
}

#[test]
fn empty_model_files_are_not_available() {
    // empty files left by a failed download
    let files = listing(&[
        ("conv_frontend.onnx", 0),
        ("encoder.int8.onnx", 0),
        ("decoder.int8.onnx", 0),
        ("tokenizer/vocab.json", 0),
    ]);
    assert!(!EngineKind::Qwen3Asr.is_available_in(&files, None));
    // encoder and decoder must reach the smallest plausible size
    let files = listing(&[
        ("conv_frontend.onnx", 1024),
        ("encoder.int8.onnx", 100 * 1024 * 1024),
        ("decoder.int8.onnx", 100 * 1024 * 1024),
        ("tokenizer/vocab.json", 2),
    ]);
    assert!(EngineKind::Qwen3Asr.is_available_in(&files, None));
    let files = listing(&[
        ("conv_frontend.onnx", 1024),
        ("encoder.int8.onnx", 100 * 1024 * 1024 - 1),
        ("decoder.int8.onnx", 100 * 1024 * 1024),
        ("tokenizer.json", 2),
    ]);
    assert!(!EngineKind::Qwen3Asr.is_available_in(&files, None));
}

#[test]
fn sha1_marker_makes_metal_model_available() {
    let files = listing(&[("ggml-large-v3-turbo-q5_0.bin", 3)]);
    let kind = EngineKind::WhisperLargeV3TurboMetal;
    assert!(!kind.is_available_in(&files, None));
    let marker = format!("{} 3\n", talksage::models::METAL_MODEL_SHA1);
    assert!(kind.is_available_in(&files, Some(&marker)));
    // a marker for another size, or another hash, does not count
    let stale = format!("{} 4\n", talksage::models::METAL_MODEL_SHA1);
    assert!(!kind.is_available_in(&files, Some(&stale)));
    assert!(!kind.is_available_in(&files, Some("a9993e364706816aba3e25717850c26c9cd0d89d 3")));
    assert!(!kind.is_available_in(&files, Some("  ")));
    let plus = format!("  {}\t+3 trailing", talksage::models::METAL_MODEL_SHA1);
    assert!(kind.is_available_in(&files, Some(&plus)));
    assert!(EngineKind::AliyunCloud.is_available_in(&Vec::new(), None));
}

#[test]
fn streaming_and_whisper_layouts() {
    let para = listing(&[("tokens.txt", 1), ("encoder.int8.onnx", 5), ("decoder.int8.onnx", 5)]);
    assert!(EngineKind::ParaformerZh.is_available_in(&para, None));
    let para_mixed = listing(&[("tokens.txt", 1), ("encoder.onnx", 5), ("decoder.int8.onnx", 5)]);
    assert!(!EngineKind::ParaformerZh.is_available_in(&para_mixed, None));
    let base = listing(&[("base-tokens.txt", 1), ("base-encoder.onnx", 5), ("base-decoder.onnx", 5)]);
    assert!(EngineKind::WhisperBase.is_available_in(&base, None));
    assert!(!EngineKind::WhisperSmall.is_available_in(&base, None));
}

#[test]
fn display_names_parse_back_in_any_case() {
    let kinds = [
        EngineKind::ZipformerEn,
        EngineKind::ParaformerZh,
        EngineKind::WhisperBase,
        EngineKind::WhisperSmall,
        EngineKind::Qwen3Asr,
        EngineKind::WhisperLargeV3TurboMetal,
        EngineKind::AliyunCloud,
    ];
    for k in kinds {
        assert_eq!(EngineKind::from_name(k.display_name()), Some(k));
        assert_eq!(EngineKind::from_name(&k.display_name().to_ascii_uppercase()), Some(k));
    }
    assert_eq!(EngineKind::from_name("QWEN3"), EngineKind::from_name("qwen3"));
}
