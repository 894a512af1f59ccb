use talksage::asr::EngineKind;
use talksage::models::{check_punct_space, punct_model_size_ok, 
    check_download_space, download_plan, download_size_mb, file_url, hf_repo, min_model_bytes,
    model_file, punct_download_size_mb, required_free_bytes, sources, transfer_total, MIB,
};
use talksage::punct::{punct_model_path, split_on_strong_boundaries};
use talksage::wav::{
    interleave_stereo, mono_track_info, part_path_of, pcm16_header, recovery_format, scan_wav, TrackError, WavError,
};

#[test]
fn download_size_mb_positive() {
    for kind in EngineKind::all() {
        assert!(download_size_mb(kind) > 0, "{} should have a size estimate", kind.display_name());
    }
}

#[test]
fn qwen_space_budget_includes_archive_and_staging() {
    assert_eq!(required_free_bytes(EngineKind::Qwen3Asr), (878 * 2 + 256) * MIB);
    assert_eq!(required_free_bytes(EngineKind::WhisperLargeV3TurboMetal), (547 + 256) * MIB);
}

#[test]
fn space_check_reports_required_and_available() {
    assert_eq!(check_download_space(EngineKind::WhisperLargeV3TurboMetal, None), Ok(()));
    assert_eq!(check_download_space(EngineKind::WhisperLargeV3TurboMetal, Some(u64::MAX)), Ok(()));
    assert_eq!(
        check_download_space(EngineKind::Qwen3Asr, Some(10)),
        Err(((878 * 2 + 256) * MIB, 10))
    );
    assert_eq!(punct_download_size_mb(), 294);
}

#[test]
fn product_sources_have_nonempty_names() {
    for kind in EngineKind::all() {
        if kind == EngineKind::Qwen3Asr {
            continue;
        }
        let names = sources(kind);
        assert!(!names.is_empty());
        assert!(names.iter().all(|(f, _)| !f.is_empty()), "{} file names must not be empty", kind.display_name());
    }
}

#[test]
fn download_plan_resolves_repository_urls() {
    let plan = download_plan(EngineKind::WhisperBase);
    assert_eq!(plan.len(), 5);
    assert_eq!(plan[0].0, "base-encoder.onnx");
    assert_eq!(plan[0].1, "https://huggingface.co/csukuangfj/sherpa-onnx-whisper-base/resolve/main/base-encoder.onnx");
    assert_eq!(plan[4].0, "base-tokens.txt");
    let metal = download_plan(EngineKind::WhisperLargeV3TurboMetal);
    assert_eq!(metal.len(), 1);
    assert_eq!(metal[0].1, "https://huggingface.co/ggerganov/whisper.cpp/resolve/main/ggml-large-v3-turbo-q5_0.bin");
    assert!(download_plan(EngineKind::Qwen3Asr).is_empty());
    assert!(download_plan(EngineKind::AliyunCloud).is_empty());
    assert_eq!(hf_repo(EngineKind::Qwen3Asr), "");
    assert_eq!(file_url("r/x", "f.bin", "https://e/x"), "https://e/x");
}

#[test]
fn resumed_transfers_add_the_existing_bytes() {
    assert_eq!(transfer_total(206, 100, 50), (true, 150));
    assert_eq!(transfer_total(200, 100, 50), (false, 50));
    assert_eq!(transfer_total(206, 0, 50), (false, 50));
    assert_eq!(transfer_total(206, u64::MAX, 5), (true, u64::MAX));
    assert_eq!(model_file(EngineKind::WhisperLargeV3TurboMetal), "ggml-large-v3-turbo-q5_0.bin");
    assert_eq!(min_model_bytes(EngineKind::WhisperLargeV3TurboMetal), 500 * MIB);
}

#[test]
fn punct_model_path_is_correct() {
    let root = std::path::Path::new("/models");
    assert_eq!(
        punct_model_path("/models"),
        root.join("punct-ct-transformer").join("model.onnx").to_string_lossy()
    );
    assert_eq!(punct_model_path("/models/"), "/models/punct-ct-transformer/model.onnx");
}

#[test]
fn split_empty_text() {
    let segs = split_on_strong_boundaries("", 1000, 2);
    assert!(segs.is_empty());
}

#[test]
fn split_on_strong_boundaries_single_sentence() {
    let segs = split_on_strong_boundaries("你好世界。", 1000, 2);
    assert_eq!(segs.len(), 1);
    assert_eq!(segs[0].0, "你好世界。");
    assert_eq!(segs[0].1, 1000);
}

#[test]
fn split_on_strong_boundaries_two_sentences() {
    let text = "你好世界。我很高兴认识你。";
    let segs = split_on_strong_boundaries(text, 1000, 2);
    assert_eq!(segs.len(), 2);
    assert_eq!(segs[0].0, "你好世界。");
    assert_eq!(segs[1].0, "我很高兴认识你。");
    assert_eq!(segs.iter().map(|s| s.1).sum::<u64>(), 1000);
}

#[test]
fn split_on_strong_boundaries_merges_short_tail() {
    let segs = split_on_strong_boundaries("AAAA。B。", 1000, 3);
    assert_eq!(segs.len(), 1);
    assert_eq!(segs[0].0, "AAAA。B。");
}

#[test]
fn split_proportional_duration() {
    let segs = split_on_strong_boundaries("AAAA。BBBB。", 1000, 2);
    assert_eq!(segs.len(), 2);
    let total: u64 = segs.iter().map(|s| s.1).sum();
    assert_eq!(total, 1000);
    assert!((segs[0].1 as i64 - 500).abs() <= 1);
}

#[test]
fn split_no_boundary() {
    let segs = split_on_strong_boundaries("你好，世界", 500, 2);
    assert_eq!(segs.len(), 1);
    assert_eq!(segs[0].0, "你好，世界");
    assert_eq!(segs[0].1, 500);
}

#[test]
fn split_rounds_shares_half_up_and_gives_the_rest_to_the_last() {
    // three equal pieces of 1000 ms: 333.3 rounds to 333, the last takes 334
    let segs = split_on_strong_boundaries("AA。BB。CC。", 1000, 1);
    assert_eq!(segs.iter().map(|s| s.1).collect::<Vec<_>>(), vec![333, 333, 334]);
    // a blank-only text comes back whole
    let segs = split_on_strong_boundaries("   ", 70, 1);
    assert_eq!(segs, vec![("   ".to_string(), 70)]);
    // a short first piece stays alone; the short one after it is merged
    let segs = split_on_strong_boundaries("A。 B。CCCC。", 90, 3);
    assert_eq!(segs[0].0, "A。B。");
    assert_eq!(segs[1].0, "CCCC。");
}

#[test]
fn part_paths_append_the_suffix() {
    assert_eq!(part_path_of("/rec/a.wav"), "/rec/a.wav.part");
}

#[test]
fn pcm16_header_layout() {
    let h = pcm16_header(16_000, 1, 32_000);
    assert_eq!(h.len(), 44);
    assert_eq!(&h[0..4], b"RIFF");
    assert_eq!(u32::from_le_bytes([h[4], h[5], h[6], h[7]]), 36 + 32_000);
    assert_eq!(&h[8..16], b"WAVEfmt ");
    assert_eq!(u16::from_le_bytes([h[22], h[23]]), 1);
    assert_eq!(u32::from_le_bytes([h[24], h[25], h[26], h[27]]), 16_000);
    assert_eq!(u32::from_le_bytes([h[28], h[29], h[30], h[31]]), 32_000);
    assert_eq!(u16::from_le_bytes([h[32], h[33]]), 2);
    assert_eq!(u16::from_le_bytes([h[34], h[35]]), 16);
    assert_eq!(&h[36..40], b"data");
    assert_eq!(u32::from_le_bytes([h[40], h[41], h[42], h[43]]), 32_000);
    let big = pcm16_header(8_000, 2, u64::MAX);
    assert_eq!(u32::from_le_bytes([big[4], big[5], big[6], big[7]]), u32::MAX);
}

#[test]
fn scan_reads_what_the_header_writes() {
    let mut file = pcm16_header(16_000, 2, 4);
    file.extend_from_slice(&[1, 0, 2, 0]);
    let (sr, ch, data) = scan_wav(&file).unwrap();
    assert_eq!((sr, ch), (16_000, 2));
    assert_eq!(data, vec![1, 0, 2, 0]);
    assert_eq!(mono_track_info(&pcm16_header(16_000, 1, 10)), Ok((16_000, 5)));
    assert_eq!(mono_track_info(&pcm16_header(16_000, 2, 10)), Err(TrackError::NotMonoPcm16));
    assert_eq!(mono_track_info(&[0u8; 44]), Err(TrackError::NotWave));
}

#[test]
fn scan_refuses_other_files() {
    assert_eq!(scan_wav(b"not a wave file at all, not a wave file at all"), Err(WavError::NotRiffWave));
    let mut odd = pcm16_header(16_000, 1, 0);
    odd[20] = 3; // IEEE float format code
    assert_eq!(scan_wav(&odd), Err(WavError::NotPcm(3)));
    let mut bits8 = pcm16_header(16_000, 1, 0);
    bits8[34] = 8;
    assert_eq!(scan_wav(&bits8), Err(WavError::MissingFormat(16_000, 8)));
}

#[test]
fn recovery_keeps_a_stereo_header_and_defaults_otherwise() {
    assert_eq!(recovery_format(&pcm16_header(48_000, 2, 0)), (48_000, 2));
    assert_eq!(recovery_format(&[0u8; 44]), (16_000, 1));
    assert_eq!(recovery_format(&pcm16_header(0, 0, 0)), (1, 1));
}

#[test]
fn stereo_master_keeps_tracks_and_pads_the_shorter_side() {
    // left: 3 samples, right: 1 sample
    let left = [1u8, 0, 2, 0, 3, 0];
    let right = [9u8, 9];
    let out = interleave_stereo(&left, &right, 3);
    assert_eq!(out, vec![1, 0, 9, 9, 2, 0, 0, 0, 3, 0, 0, 0]);
    assert!(interleave_stereo(&left, &right, 0).is_empty());
}

#[test]
fn rounded_shares_never_exceed_the_total() {
    let r = split_on_strong_boundaries("A。B。C。D。", 2, 1);
    let durations: Vec<u64> = r.iter().map(|p| p.1).collect();
    assert_eq!(durations, vec![1, 1, 0, 0]);
    assert_eq!(durations.iter().sum::<u64>(), 2);
}

#[test]
fn punct_download_needs_900_mib_and_a_model_of_200_mib() {
    let mib = 1024 * 1024u64;
    assert_eq!(check_punct_space(Some(899 * mib)), Err((900 * mib, 899 * mib)));
    assert_eq!(check_punct_space(Some(900 * mib)), Ok(()));
    assert_eq!(check_punct_space(None), Ok(()));
    assert!(!punct_model_size_ok(200 * mib - 1));
    assert!(punct_model_size_ok(281 * mib));
}
