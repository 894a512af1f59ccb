use talksage::config::{
    all_analysis_plugins, apply_secret, flag_override, port_override, text_override, audio_source_of, cleaned_webhook_urls, is_secret_mask, mask_secret, path_join, resolve_secret_input,
    session_dir, session_exports_dir, session_recordings_dir, NetworkConfig, RecordingConfig,
    SceneMode, TerminologyConfig,
};
use talksage::scene::{scene_params, SceneConfig};
use talksage::sorted_map::StrMap;

#[test]
fn session_dirs_follow_per_session_layout() {
    let data = std::path::Path::new("/data");
    let d = data.to_str().unwrap();
    assert_eq!(session_dir(d, 7), std::path::PathBuf::from("/data/sessions/7").to_string_lossy());
    assert_eq!(
        session_recordings_dir(d, 7),
        std::path::PathBuf::from("/data/sessions/7/recordings").to_string_lossy()
    );
    assert_eq!(
        session_exports_dir(d, 7),
        std::path::PathBuf::from("/data/sessions/7/exports").to_string_lossy()
    );
    assert_ne!(session_dir(d, 7), session_dir(d, 8));
}

#[test]
fn path_join_follows_unix_rules() {
    assert_eq!(path_join("/a", "b"), "/a/b");
    assert_eq!(path_join("/a/", "b"), "/a/b");
    assert_eq!(path_join("/a", "/b"), "/b");
    assert_eq!(path_join("", "b"), "b");
    assert_eq!(session_dir("/d", -3), "/d/sessions/-3");
}

#[test]
fn short_secrets_are_masked_whole() {
    assert_eq!(mask_secret(""), "");
    assert_eq!(mask_secret("   "), "");
    assert_eq!(mask_secret("short"), "••••••••");
    assert!(mask_secret("sk-1234567890abcdef").starts_with("sk-"));
    assert!(mask_secret("sk-1234567890abcdef").ends_with("cdef"));
}

#[test]
fn secret_input_falls_back_to_stored_for_empty_or_masked() {
    let stored = "sk-1234567890abcdef";
    assert_eq!(resolve_secret_input(None, stored), stored);
    assert_eq!(resolve_secret_input(Some(""), stored), stored);
    assert_eq!(resolve_secret_input(Some(&mask_secret(stored)), stored), stored);
    assert_eq!(resolve_secret_input(Some("sk-typed-by-user"), stored), "sk-typed-by-user");
}

#[test]
fn masked_secret_written_back_keeps_the_stored_value() {
    let mut stored = String::from("sk-1234567890abcdef");
    let mask = mask_secret(&stored);
    assert!(is_secret_mask(&mask, &stored));
    apply_secret(&mut stored, &mask);
    assert_eq!(stored, "sk-1234567890abcdef");
    apply_secret(&mut stored, "new-key-value");
    assert_eq!(stored, "new-key-value");
}

#[test]
fn proxy_and_recording_settings() {
    assert_eq!(NetworkConfig { proxy: "  http://127.0.0.1:7890 ".into() }.proxy_url(), Some("http://127.0.0.1:7890".to_string()));
    assert_eq!(NetworkConfig::default().proxy_url(), None);
    let rec = RecordingConfig { enabled: true, dir: "".into(), clean_silence: false };
    assert_eq!(rec.resolve_dir("/data"), "/data/recordings");
    let rec = RecordingConfig { enabled: true, dir: "/mnt/rec".into(), clean_silence: false };
    assert_eq!(rec.resolve_dir("/data"), "/mnt/rec");
}

#[test]
fn scene_labels_and_plugins() {
    assert_eq!(SceneMode::default(), SceneMode::Conversation);
    assert_eq!(SceneConfig { mode: SceneMode::Meeting, custom: scene_params(SceneMode::Custom) }.mode_label(), "多人会议");
    assert_eq!(all_analysis_plugins(), vec!["term_explainer", "translator", "brief_retriever", "key_point_llm"]);
}

#[test]
fn terminology_normalizes_and_corrects_long_alias_first() {
    let mut terminology = TerminologyConfig {
        enabled: true,
        terms: vec![" TalkSage ".into(), "".into(), "TalkSage".into(), "向量数据库".into()],
        corrections: StrMap::new(),
    };
    terminology.corrections.insert("向量", "Vector");
    terminology.corrections.insert("向量数据库", "Vector DB");
    terminology.corrections.insert("拓思者", "TalkSage");
    assert_eq!(terminology.normalized_terms(), vec!["TalkSage", "向量数据库"]);
    assert_eq!(terminology.correct("拓思者使用向量数据库"), "TalkSage使用Vector DB");
}

#[test]
fn disabled_terminology_is_a_passthrough() {
    let mut terminology = TerminologyConfig::default();
    terminology.terms.push("TalkSage".into());
    terminology.corrections.insert("拓思者", "TalkSage");
    assert!(terminology.normalized_terms().is_empty());
    assert_eq!(terminology.correct("拓思者"), "拓思者");
}

#[test]
fn terminology_skips_blank_corrections_and_replaces_every_occurrence() {
    let mut terminology = TerminologyConfig::default();
    terminology.enabled = true;
    terminology.corrections.insert("", "x");
    terminology.corrections.insert("ab", "");
    terminology.corrections.insert("a", "A");
    assert_eq!(terminology.correct("abcab"), "AbcAb");
    terminology.terms.push("  b ".into());
    terminology.terms.push("a".into());
    terminology.terms.push("b".into());
    assert_eq!(terminology.normalized_terms(), vec!["a", "b"]);
}

#[test]
fn submitted_webhook_urls_are_trimmed_and_blank_ones_dropped() {
    let items = vec![
        Some("  https://a.example/hook ".to_string()),
        None,
        Some("   ".to_string()),
        Some("http://b.example".to_string()),
    ];
    assert_eq!(cleaned_webhook_urls(&items), vec!["https://a.example/hook", "http://b.example"]);
    assert_eq!(audio_source_of("loopback"), "loopback");
    assert_eq!(audio_source_of("anything"), "mic");
}

#[test]
fn asr_config_has_aliyun_fields() {
    let cfg = talksage::config::AsrConfig::default();
    assert_eq!(cfg.engine_zh, "qwen3-asr");
    assert_eq!(cfg.engine_en, "qwen3-asr");
    assert!(cfg.aliyun_access_key_id.is_empty());
    assert!(cfg.aliyun_access_key_secret.is_empty());
    assert!(cfg.aliyun_app_key.is_empty());
    assert_eq!(cfg.asr_mode, "auto");
}

#[test]
fn environment_overrides_are_trimmed_and_parsed() {
    assert_eq!(text_override(Some("  cuda \n")), Some("cuda".to_string()));
    assert_eq!(text_override(Some("   ")), None);
    assert_eq!(text_override(None), None);
    assert_eq!(port_override(Some(" 8081 ")), Some(8081));
    assert_eq!(port_override(Some("+80")), Some(80));
    assert_eq!(port_override(Some("65536")), None);
    assert_eq!(port_override(Some("80a")), None);
    assert_eq!(port_override(None), None);
    assert_eq!(flag_override(Some(" true")), Some(true));
    assert_eq!(flag_override(Some("false\t")), Some(false));
    assert_eq!(flag_override(Some("yes")), None);
    assert_eq!(flag_override(Some("True")), None);
}
