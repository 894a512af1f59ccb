use talksage::config::{SceneMode, SpeakerMode, TranslationMode, VadPreset};
use talksage::scene::{
    apply_scene_params, merge_scene_params, scene_mode_from_name, scene_params,
    speaker_mode_from_name, translation_mode_from_name, vad_preset_from_name, SceneConfig,
    SceneParams, SceneUpdate, DEFAULT_GATE_BITS, HIGHPASS_CUTOFF_BITS,
};

fn no_update() -> SceneUpdate {
    SceneUpdate {
        vad_preset: None,
        vad_threshold_bits: None,
        vad_min_speech_ms: None,
        vad_min_silence_ms: None,
        vad_max_speech_ms: None,
        denoise_enabled: None,
        denoise_gate_bits: None,
        min_segment_ms: None,
        asr_segment_ms: None,
        user_engine: None,
        client_enabled: None,
        client_engine: None,
        plugin_allowlist: None,
        language: None,
        user_language: None,
        client_language: None,
        translation_mode: None,
        speaker_mode: None,
        noise_auto_detect: None,
    }
}

#[test]
fn scene_conversation_is_the_default() {
    let cfg = SceneConfig::default();
    let p = cfg.effective();
    assert_eq!(cfg.mode, SceneMode::Conversation);
    assert_eq!(p.vad_preset, VadPreset::Standard);
    assert!(!p.denoise_enabled);
    assert_eq!(p.min_segment_ms, 300);
    assert_eq!(p.asr_segment_ms, 4_000);
    assert_eq!(p.user_engine, "qwen3-asr");
    assert!(p.client_enabled);
    assert_eq!(p.language, "zh");
    assert_eq!(p.plugin_allowlist, vec!["term_explainer", "brief_retriever", "key_point_llm"]);
    assert_eq!(p.speaker_mode, SpeakerMode::Channel);
    assert_eq!(p.translation_mode, TranslationMode::Off);
    // the VAD settings are the standard preset with no override
    let vad = p.to_vad_config();
    assert_eq!(vad.preset, VadPreset::Standard);
    assert_eq!(vad.threshold_bits, None);
    assert_eq!(vad.min_speech_ms, None);
    assert_eq!(vad.min_silence_ms, None);
    assert_eq!(vad.max_speech_ms, None);
}

#[test]
fn scene_templates_express_distinct_workloads() {
    let dictation = scene_params(SceneMode::Dictation);
    let bilingual = scene_params(SceneMode::Bilingual);
    let live_translation = scene_params(SceneMode::LiveTranslation);
    let meeting = scene_params(SceneMode::Meeting);
    let lecture = scene_params(SceneMode::Lecture);

    assert_eq!(dictation.vad_preset, VadPreset::Sensitive);
    assert!(!dictation.client_enabled, "dictation runs a single stream");
    assert!(dictation.plugin_allowlist.contains(&"key_point_llm".to_string()));
    assert_eq!(dictation.vad_min_silence_ms, Some(600));
    assert_eq!(dictation.asr_segment_ms, 5_000);

    assert_eq!(bilingual.translation_mode, TranslationMode::Bidirectional);
    assert_eq!(bilingual.language, "zh");
    assert_eq!(bilingual.client_language, "en");
    assert!(bilingual.client_enabled);

    assert_eq!(live_translation.translation_mode, TranslationMode::Bidirectional);
    assert!(!live_translation.client_enabled, "live translation runs a single stream");
    assert!(live_translation.plugin_allowlist.contains(&"translator".to_string()));
    assert_eq!(live_translation.language, "zh");
    assert_eq!(live_translation.client_language, "en");
    assert_eq!(live_translation.asr_segment_ms, 3_000);

    assert_eq!(meeting.speaker_mode, SpeakerMode::Voiceprint);
    assert_eq!(meeting.language, "zh");
    assert_eq!(meeting.asr_segment_ms, 6_000);

    assert_eq!(lecture.vad_max_speech_ms, Some(60_000));

    let cfg = SceneConfig { mode: SceneMode::Meeting, custom: scene_params(SceneMode::Custom) };
    assert_eq!(cfg.effective().vad_preset, meeting.vad_preset);

    let cfg_custom = SceneConfig { mode: SceneMode::Custom, custom: dictation.duplicate() };
    assert_eq!(cfg_custom.effective().vad_preset, VadPreset::Sensitive);
}

#[test]
fn dictation_scene_allows_key_point_llm_only() {
    let allow = scene_params(SceneMode::Dictation).plugin_allowlist;
    assert!(allow.contains(&"key_point_llm".to_string()));
    for id in ["term_explainer", "translator", "brief_retriever"] {
        assert!(!allow.contains(&id.to_string()), "dictation must not allow {id}");
    }
}

#[test]
fn meeting_scene_allows_all_analysis_plugins() {
    let allow = scene_params(SceneMode::Meeting).plugin_allowlist;
    for id in ["term_explainer", "translator", "brief_retriever", "key_point_llm"] {
        assert!(allow.contains(&id.to_string()), "meeting must allow {id}");
    }
}

#[test]
fn bilingual_scene_allows_all_analysis_plugins() {
    let allow = scene_params(SceneMode::Bilingual).plugin_allowlist;
    for id in ["term_explainer", "translator", "brief_retriever", "key_point_llm"] {
        assert!(allow.contains(&id.to_string()), "bilingual must allow {id}");
    }
}

#[test]
fn bilingual_scene_enables_translator() {
    let p = scene_params(SceneMode::Bilingual);
    assert!(p.plugin_allowlist.contains(&"translator".to_string()));
    assert_eq!(p.language, "zh");
    assert_eq!(p.client_language, "en");
}

#[test]
fn lecture_keeps_brief_retriever_without_a_client_stream() {
    let p = scene_params(SceneMode::Lecture);
    assert!(!p.client_enabled, "a lecture is a single stream");
    assert!(p.plugin_allowlist.contains(&"brief_retriever".to_string()));
}

#[test]
fn apply_scene_params_replaces_the_whole_allowlist() {
    let mut p = scene_params(SceneMode::Meeting);
    let mut u = no_update();
    u.plugin_allowlist = Some(vec![Some("translator".to_string())]);
    apply_scene_params(&mut p, &u);
    assert_eq!(p.plugin_allowlist, vec!["translator"]);
    // kept when not submitted
    let mut u = no_update();
    u.denoise_enabled = Some(true);
    apply_scene_params(&mut p, &u);
    assert_eq!(p.plugin_allowlist, vec!["translator"]);
}

#[test]
fn apply_scene_params_clamps_asr_segment_duration() {
    let mut p = scene_params(SceneMode::Custom);
    let mut u = no_update();
    u.asr_segment_ms = Some(Some(3500));
    apply_scene_params(&mut p, &u);
    assert_eq!(p.asr_segment_ms, 3500);
    u.asr_segment_ms = Some(Some(120_000));
    apply_scene_params(&mut p, &u);
    assert_eq!(p.asr_segment_ms, 60_000);
    u.asr_segment_ms = Some(Some(0));
    apply_scene_params(&mut p, &u);
    assert_eq!(p.asr_segment_ms, 0);
}

#[test]
fn apply_scene_params_updates_language_translation_and_speaker_policy() {
    let mut p = scene_params(SceneMode::Custom);
    let mut u = no_update();
    u.language = Some(Some("en".to_string()));
    u.client_language = Some("zh".to_string());
    u.translation_mode = Some("client_to_user".to_string());
    u.speaker_mode = Some("voiceprint".to_string());
    apply_scene_params(&mut p, &u);
    assert_eq!(p.language, "en");
    assert_eq!(p.client_language, "zh");
    assert_eq!(p.translation_mode, TranslationMode::ClientToUser);
    assert_eq!(p.speaker_mode, SpeakerMode::Voiceprint);
}

#[test]
fn old_user_language_key_still_works_in_apply_scene_params() {
    let mut p = scene_params(SceneMode::Custom);
    let mut u = no_update();
    u.user_language = Some(Some("en".to_string()));
    apply_scene_params(&mut p, &u);
    assert_eq!(p.language, "en");
}

#[test]
fn scene_update_edge_cases() {
    let mut p = scene_params(SceneMode::Lecture);
    let mut u = no_update();
    // a non-string `language` blocks the former key
    u.language = Some(None);
    u.user_language = Some(Some("en".to_string()));
    // segment durations that are not integers become 0
    u.min_segment_ms = Some(None);
    u.asr_segment_ms = Some(None);
    // overrides that are not numbers are cleared
    u.vad_max_speech_ms = Some(None);
    u.vad_threshold_bits = Some(Some(0x3f000000));
    // non-string allowlist items are dropped
    u.plugin_allowlist = Some(vec![None, Some("brief_retriever".to_string()), None]);
    u.vad_preset = Some("bogus".to_string());
    u.speaker_mode = Some("off".to_string());
    u.translation_mode = Some("bidirectional".to_string());
    apply_scene_params(&mut p, &u);
    assert_eq!(p.language, "zh");
    assert_eq!(p.min_segment_ms, 0);
    assert_eq!(p.asr_segment_ms, 0);
    assert_eq!(p.vad_max_speech_ms, None);
    assert_eq!(p.vad_min_silence_ms, Some(700));
    assert_eq!(p.vad_threshold_bits, Some(0x3f000000));
    assert_eq!(p.plugin_allowlist, vec!["brief_retriever"]);
    assert_eq!(p.vad_preset, VadPreset::Standard);
    assert_eq!(p.speaker_mode, SpeakerMode::Off);
    assert_eq!(p.translation_mode, TranslationMode::Bidirectional);
}

#[test]
fn settings_names_map_to_modes() {
    assert_eq!(scene_mode_from_name("translation"), SceneMode::Bilingual);
    assert_eq!(scene_mode_from_name("bilingual"), SceneMode::Bilingual);
    assert_eq!(scene_mode_from_name("live_translation"), SceneMode::LiveTranslation);
    assert_eq!(scene_mode_from_name("custom"), SceneMode::Custom);
    assert_eq!(scene_mode_from_name("nonsense"), SceneMode::Conversation);
    assert_eq!(vad_preset_from_name("strict"), VadPreset::Strict);
    assert_eq!(vad_preset_from_name("Strict"), VadPreset::Standard);
    assert_eq!(translation_mode_from_name("off"), TranslationMode::Off);
    assert_eq!(speaker_mode_from_name("channel"), SpeakerMode::Channel);
}

#[test]
fn custom_scene_merge_keeps_user_values_and_caps_the_segment() {
    let default = scene_params(SceneMode::Custom);
    let mut user: SceneParams = scene_params(SceneMode::Dictation);
    user.vad_min_silence_ms = None;
    user.asr_segment_ms = 90_000;
    let mut default_with_override = default;
    default_with_override.vad_min_silence_ms = Some(450);
    let merged = merge_scene_params(default_with_override, user);
    assert_eq!(merged.vad_min_silence_ms, Some(450));
    assert_eq!(merged.asr_segment_ms, 60_000);
    assert_eq!(merged.vad_preset, VadPreset::Sensitive);
    assert!(!merged.client_enabled);
}

#[test]
fn scene_conversions_carry_the_scene_settings() {
    let p = scene_params(SceneMode::Lecture);
    let vad = p.to_vad_config();
    assert_eq!(vad.preset, VadPreset::Strict);
    assert_eq!(vad.min_silence_ms, Some(700));
    assert_eq!(vad.max_speech_ms, Some(60_000));
    let d = p.to_denoise_config();
    assert!(!d.enabled);
    assert!(d.highpass);
    assert_eq!(d.gate_threshold_bits, DEFAULT_GATE_BITS);
    assert_eq!(f32::from_bits(d.gate_threshold_bits), 0.008);
    assert_eq!(f32::from_bits(d.highpass_cutoff_bits), 100.0);
    assert_eq!(d.highpass_cutoff_bits, HIGHPASS_CUTOFF_BITS);
    assert_eq!(SceneConfig { mode: SceneMode::Lecture, custom: p }.mode_label(), "演讲/课堂");
}

#[test]
fn only_the_meeting_template_uses_voiceprints_and_none_denoises() {
    let modes = [
        SceneMode::Dictation,
        SceneMode::Conversation,
        SceneMode::Bilingual,
        SceneMode::LiveTranslation,
        SceneMode::Meeting,
        SceneMode::Lecture,
        SceneMode::Custom,
    ];
    for mode in modes {
        let p = scene_params(mode);
        assert_eq!(p.speaker_mode == SpeakerMode::Voiceprint, mode == SceneMode::Meeting);
        assert!(!p.denoise_enabled);
    }
}

#[test]
fn default_custom_scene_starts_from_the_meeting_template() {
    let cfg = SceneConfig::default();
    let meeting = scene_params(SceneMode::Meeting);
    assert_eq!(cfg.custom.speaker_mode, SpeakerMode::Voiceprint);
    assert_eq!(cfg.custom.asr_segment_ms, meeting.asr_segment_ms);
    assert_eq!(cfg.custom.min_segment_ms, meeting.min_segment_ms);
    assert_eq!(cfg.custom.plugin_allowlist, meeting.plugin_allowlist);
}
