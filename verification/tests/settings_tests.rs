use talksage::config::{LlmProviderConfig, SceneMode, VadPreset};
use talksage::settings::{
    apply_settings_update, merge_settings, Field, ProviderUpdate, QualityUpdate, Settings, SettingsUpdate,
    QUALITY_NOISE_BITS,
};
use talksage::sorted_map::StrMap;

fn provider(base: Option<&str>, model: &str, key: &str) -> LlmProviderConfig {
    LlmProviderConfig { base_url: base.map(str::to_string), model: model.to_string(), api_key: key.to_string() }
}

fn sample() -> Settings {
    Settings {
        llm_default: "deepseek".into(),
        providers: vec![("deepseek".into(), provider(Some("https://api.deepseek.com/v1"), "deepseek-chat", "sk-abcdefghijklmnop"))],
        kb_enabled: false,
        kb_folder: String::new(),
        engine_zh: "qwen3-asr".into(),
        engine_en: "qwen3-asr".into(),
        backend: "auto".into(),
        punct_enabled: true,
        asr_mode: "auto".into(),
        aliyun_access_key_id: "LTAI".into(),
        aliyun_access_key_secret: "secret-value-123".into(),
        aliyun_app_key: "app".into(),
        terminology_enabled: false,
        hotword_score_bits: 1.5f32.to_bits(),
        terms: vec![],
        corrections: StrMap::new(),
        audio_source: "mic".into(),
        input_gain_bits: 12.0f32.to_bits(),
        vad_preset: VadPreset::Standard,
        vad_threshold_bits: None,
        vad_min_speech_ms: None,
        vad_min_silence_ms: None,
        vad_max_speech_ms: None,
        mic_device: None,
        loopback_device: None,
        denoise_enabled: false,
        denoise_gate_bits: 0.008f32.to_bits(),
        highpass: true,
        endpoint_enabled: true,
        endpoint_stable_ms: 350,
        endpoint_quiet_ms: 450,
        endpoint_force_quiet_ms: 850,
        endpoint_quiet_rms_bits: 0.008f32.to_bits(),
        endpoint_min_segment_ms: 1000,
        min_segment_ms: None,
        recording_enabled: true,
        recording_dir: String::new(),
        recording_clean_silence: false,
        quality_auto_detect: false,
        quality_noise_bits: 0.3f32.to_bits(),
        quality_min_speech_bits: 0.15f32.to_bits(),
        quality_max_speech_bits: 0.85f32.to_bits(),
        quality_silence_bits: 0.01f32.to_bits(),
        quality_high_bits: 0.5f32.to_bits(),
        webhooks_enabled: false,
        webhook_urls: vec![],
        proxy: String::new(),
        scene_mode: SceneMode::Conversation,
    }
}

fn nothing() -> SettingsUpdate {
    SettingsUpdate {
        llm_default: Field::Keep,
        providers: vec![],
        kb_enabled: Field::Keep,
        kb_folder: Field::Keep,
        engine_en: Field::Keep,
        client_engine: Field::Keep,
        engine_zh: Field::Keep,
        user_engine: Field::Keep,
        backend: Field::Keep,
        punct_enabled: Field::Keep,
        asr_mode: Field::Keep,
        aliyun_access_key_id: Field::Keep,
        aliyun_access_key_secret: Field::Keep,
        aliyun_app_key: Field::Keep,
        terminology_enabled: Field::Keep,
        hotword_score_bits: Field::Keep,
        terms: Field::Keep,
        corrections: Field::Keep,
        audio_source: Field::Keep,
        input_gain_bits: Field::Keep,
        vad_preset: Field::Keep,
        vad_threshold_bits: Field::Keep,
        denoise_enabled: Field::Keep,
        denoise_gate_bits: Field::Keep,
        highpass: Field::Keep,
        endpoint_enabled: Field::Keep,
        endpoint_stable_ms: Field::Keep,
        endpoint_quiet_ms: Field::Keep,
        endpoint_force_quiet_ms: Field::Keep,
        endpoint_quiet_rms_bits: Field::Keep,
        endpoint_min_segment_ms: Field::Keep,
        min_segment_ms: Field::Keep,
        recording_enabled: Field::Keep,
        recording_dir: Field::Keep,
        recording_clean_silence: Field::Keep,
        quality: QualityUpdate::Keep,
        webhooks_enabled: Field::Keep,
        webhook_urls: Field::Keep,
        proxy: Field::Keep,
        scene_mode: Field::Keep,
    }
}

#[test]
fn former_engine_keys_apply_only_without_the_current_ones() {
    let mut s = sample();
    let mut u = nothing();
    u.client_engine = Field::Put(Some("whisper-small".into()));
    u.engine_zh = Field::Put(Some("paraformer-zh".into()));
    u.user_engine = Field::Put(Some("whisper-base".into()));
    apply_settings_update(&mut s, u);
    assert_eq!(s.engine_en, "whisper-small");
    assert_eq!(s.engine_zh, "paraformer-zh");
}

#[test]
fn identifiers_are_trimmed_and_masked_secrets_kept() {
    let mut s = sample();
    let mut u = nothing();
    u.aliyun_access_key_id = Field::Put("  LTAI-new \n".into());
    u.aliyun_app_key = Field::Put(" app2 ".into());
    u.proxy = Field::Put(" http://127.0.0.1:10808 ".into());
    u.aliyun_access_key_secret = Field::Put(talksage::config::mask_secret("secret-value-123"));
    u.providers = vec![ProviderUpdate {
        name: "deepseek".into(),
        api_key: Field::Put(talksage::config::mask_secret("sk-abcdefghijklmnop")),
        model: Field::Put("deepseek-reasoner".into()),
        base_url: Field::Keep,
    }];
    apply_settings_update(&mut s, u);
    assert_eq!(s.aliyun_access_key_id, "LTAI-new");
    assert_eq!(s.aliyun_app_key, "app2");
    assert_eq!(s.proxy, "http://127.0.0.1:10808");
    assert_eq!(s.aliyun_access_key_secret, "secret-value-123");
    assert_eq!(s.providers.len(), 1);
    assert_eq!(s.providers[0].1.api_key, "sk-abcdefghijklmnop");
    assert_eq!(s.providers[0].1.model, "deepseek-reasoner");
}

#[test]
fn a_new_provider_starts_from_the_defaults() {
    let mut s = sample();
    let mut u = nothing();
    u.providers = vec![ProviderUpdate { name: "kimi".into(), api_key: Field::Put(" sk-k ".into()), model: Field::Keep, base_url: Field::Keep }];
    apply_settings_update(&mut s, u);
    assert_eq!(s.providers.len(), 2);
    assert_eq!(s.providers[1].0, "kimi");
    assert_eq!(s.providers[1].1.model, "deepseek-chat");
    assert_eq!(s.providers[1].1.api_key, "sk-k");
    assert_eq!(s.providers[1].1.base_url, None);
}

#[test]
fn zero_or_null_turns_the_segment_limit_off_and_floors_hold() {
    let mut s = sample();
    let mut u = nothing();
    u.min_segment_ms = Field::Put(Some(500));
    u.endpoint_stable_ms = Field::Put(20);
    u.endpoint_force_quiet_ms = Field::Put(150);
    apply_settings_update(&mut s, u);
    assert_eq!(s.min_segment_ms, Some(500));
    assert_eq!(s.endpoint_stable_ms, 100);
    assert_eq!(s.endpoint_force_quiet_ms, 200);
    let mut u = nothing();
    u.min_segment_ms = Field::Put(Some(0));
    apply_settings_update(&mut s, u);
    assert_eq!(s.min_segment_ms, None);
    s.min_segment_ms = Some(800);
    let mut u = nothing();
    u.min_segment_ms = Field::Put(None);
    apply_settings_update(&mut s, u);
    assert_eq!(s.min_segment_ms, None);
}

#[test]
fn quality_null_restores_the_defaults_and_sources_names_modes_are_read() {
    let mut s = sample();
    let mut u = nothing();
    u.quality = QualityUpdate::Reset;
    u.audio_source = Field::Put("speaker".into());
    u.vad_preset = Field::Put("strict".into());
    u.scene_mode = Field::Put("bilingual".into());
    u.webhook_urls = Field::Put(vec![Some(" https://hook.example/a ".into()), None, Some("  ".into())]);
    apply_settings_update(&mut s, u);
    assert!(s.quality_auto_detect);
    assert_eq!(s.quality_noise_bits, QUALITY_NOISE_BITS);
    assert_eq!(f32::from_bits(QUALITY_NOISE_BITS), 0.45);
    assert_eq!(s.audio_source, "mic");
    assert_eq!(s.vad_preset, VadPreset::Strict);
    assert_eq!(s.scene_mode, SceneMode::Bilingual);
    assert_eq!(s.webhook_urls, vec!["https://hook.example/a".to_string()]);
}

#[test]
fn settings_file_values_fall_back_when_blank_or_unset() {
    let d = sample();
    let mut user = sample();
    user.engine_zh = "  ".into();
    user.backend = "cuda".into();
    user.providers = vec![("ollama".into(), provider(None, "llama3", "ollama"))];
    user.min_segment_ms = None;
    let mut d2 = d;
    d2.min_segment_ms = Some(300);
    let m = merge_settings(d2, user);
    assert_eq!(m.engine_zh, "qwen3-asr");
    assert_eq!(m.backend, "cuda");
    assert_eq!(m.min_segment_ms, Some(300));
    assert_eq!(m.providers.len(), 2);
    assert_eq!(m.providers[0].0, "deepseek");
    assert_eq!(m.providers[1].0, "ollama");
}

#[test]
fn writing_the_snapshot_back_changes_nothing() {
    let mut s = sample();
    let shown = sample();
    let mask = |v: &str| talksage::config::mask_secret(v);
    let u = SettingsUpdate {
        llm_default: Field::Put(shown.llm_default.clone()),
        providers: vec![ProviderUpdate {
            name: "deepseek".into(),
            api_key: Field::Put(mask("sk-abcdefghijklmnop")),
            model: Field::Put("deepseek-chat".into()),
            base_url: Field::Put("https://api.deepseek.com/v1".into()),
        }],
        kb_enabled: Field::Put(shown.kb_enabled),
        kb_folder: Field::Put(shown.kb_folder.clone()),
        engine_en: Field::Put(Some(shown.engine_en.clone())),
        client_engine: Field::Keep,
        engine_zh: Field::Put(Some(shown.engine_zh.clone())),
        user_engine: Field::Keep,
        backend: Field::Put(shown.backend.clone()),
        punct_enabled: Field::Put(shown.punct_enabled),
        asr_mode: Field::Put(shown.asr_mode.clone()),
        aliyun_access_key_id: Field::Put(shown.aliyun_access_key_id.clone()),
        aliyun_access_key_secret: Field::Put(mask(&shown.aliyun_access_key_secret)),
        aliyun_app_key: Field::Put(shown.aliyun_app_key.clone()),
        terminology_enabled: Field::Put(shown.terminology_enabled),
        hotword_score_bits: Field::Put(shown.hotword_score_bits),
        terms: Field::Put(vec![]),
        corrections: Field::Put(StrMap::new()),
        audio_source: Field::Put(shown.audio_source.clone()),
        input_gain_bits: Field::Put(shown.input_gain_bits),
        vad_preset: Field::Put("standard".into()),
        vad_threshold_bits: Field::Keep,
        denoise_enabled: Field::Put(shown.denoise_enabled),
        denoise_gate_bits: Field::Put(shown.denoise_gate_bits),
        highpass: Field::Put(shown.highpass),
        endpoint_enabled: Field::Put(shown.endpoint_enabled),
        endpoint_stable_ms: Field::Put(shown.endpoint_stable_ms),
        endpoint_quiet_ms: Field::Put(shown.endpoint_quiet_ms),
        endpoint_force_quiet_ms: Field::Put(shown.endpoint_force_quiet_ms),
        endpoint_quiet_rms_bits: Field::Put(shown.endpoint_quiet_rms_bits),
        endpoint_min_segment_ms: Field::Put(shown.endpoint_min_segment_ms),
        min_segment_ms: Field::Put(shown.min_segment_ms),
        recording_enabled: Field::Put(shown.recording_enabled),
        recording_dir: Field::Put(shown.recording_dir.clone()),
        recording_clean_silence: Field::Put(shown.recording_clean_silence),
        quality: QualityUpdate::Fields {
            auto_detect: Field::Put(shown.quality_auto_detect),
            noise_bits: Field::Put(shown.quality_noise_bits),
            min_speech_bits: Field::Put(shown.quality_min_speech_bits),
            max_speech_bits: Field::Put(shown.quality_max_speech_bits),
            silence_bits: Field::Put(shown.quality_silence_bits),
            high_bits: Field::Put(shown.quality_high_bits),
        },
        webhooks_enabled: Field::Put(shown.webhooks_enabled),
        webhook_urls: Field::Put(vec![]),
        proxy: Field::Put(shown.proxy.clone()),
        scene_mode: Field::Put("conversation".into()),
    };
    apply_settings_update(&mut s, u);
    assert_eq!(format!("{s:?}"), format!("{shown:?}"));
}
