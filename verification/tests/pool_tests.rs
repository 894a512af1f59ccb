use talksage::asr::EngineKind;
use talksage::pool::{hotwords_body, options_signature, pool_key, EnginePool};

#[derive(Debug, PartialEq)]
struct DummyEngine(u32);

fn key(kind: EngineKind, score: &str, hotwords: &[&str], provider: &str) -> String {
    let hw: Vec<String> = hotwords.iter().map(|s| s.to_string()).collect();
    pool_key(kind, "models/example", &options_signature(score, &hw, provider))
}

#[test]
fn acquire_release_reuses_engine() {
    let mut pool: EnginePool<DummyEngine> = EnginePool::new();
    let k = key(EngineKind::ParaformerZh, "0.000", &[], "");
    // first borrow: nothing kept, the caller loads a new engine
    assert!(pool.acquire(&k).is_none());
    let e1 = DummyEngine(1);
    assert_eq!(pool.len(), 0);
    // given back: kept
    assert!(pool.release(&k, true, e1));
    assert_eq!(pool.len(), 1);
    // second borrow: the kept engine
    let e2 = pool.acquire(&k).expect("kept engine");
    assert_eq!(e2, DummyEngine(1));
    assert_eq!(pool.len(), 0);
    pool.release(&k, true, e2);
    assert_eq!(pool.len(), 1);
}

#[test]
fn warmup_populates_pool() {
    let mut pool: EnginePool<DummyEngine> = EnginePool::new();
    let k = key(EngineKind::ParaformerZh, "0.000", &[], "");
    let engine = pool.acquire(&k).unwrap_or(DummyEngine(7));
    pool.release(&k, EngineKind::ParaformerZh.is_streaming(), engine);
    assert_eq!(pool.len(), 1);
}

#[test]
fn clear_releases_all_cached_engines() {
    let mut pool: EnginePool<DummyEngine> = EnginePool::new();
    pool.release("test", true, DummyEngine(1));
    pool.release("test", true, DummyEngine(2));
    assert_eq!(pool.len(), 2);
    pool.clear();
    assert_eq!(pool.len(), 0);
}

#[test]
fn pool_key_isolated_by_meeting_hotwords() {
    let a = key(EngineKind::ZipformerEn, "1.500", &["TalkSage"], "");
    let b = key(EngineKind::ZipformerEn, "1.500", &["WhisperLiveKit"], "");
    assert_ne!(a, b);
}

#[test]
fn pool_key_isolated_by_execution_provider() {
    let cpu = key(EngineKind::Qwen3Asr, "0.000", &[], "cpu");
    let coreml = key(EngineKind::Qwen3Asr, "0.000", &[], "coreml");
    let cuda = key(EngineKind::Qwen3Asr, "0.000", &[], "cuda");
    assert_ne!(cpu, coreml);
    assert_ne!(coreml, cuda);
    // an empty provider means cpu
    assert_eq!(key(EngineKind::Qwen3Asr, "0.000", &[], ""), cpu);
}

#[test]
fn pool_key_text() {
    assert_eq!(
        key(EngineKind::ZipformerEn, "1.500", &["a", "b"], ""),
        "zipformer-en|models/example|1.500|a\u{1f}b|cpu"
    );
}

#[test]
fn capacity_depends_on_streaming() {
    let mut pool: EnginePool<DummyEngine> = EnginePool::new();
    for i in 0..4 {
        assert!(pool.release("s", true, DummyEngine(i)));
    }
    assert!(!pool.release("s", true, DummyEngine(9)));
    assert!(pool.release("w", false, DummyEngine(10)));
    assert!(!pool.release("w", false, DummyEngine(11)));
    assert_eq!(pool.len(), 5);
    // most recently returned first
    assert_eq!(pool.acquire("s"), Some(DummyEngine(3)));
    assert_eq!(pool.acquire("w"), Some(DummyEngine(10)));
    assert_eq!(pool.acquire("w"), None);
}

#[test]
fn hotwords_file_holds_one_plain_line_per_term() {
    let terms = vec![
        "TalkSage".to_string(),
        "Whisper Live\nKit".to_string(),
        "   ".to_string(),
        "a\r\nb ".to_string(),
    ];
    assert_eq!(hotwords_body(&terms), "TalkSage\nWhisper Live Kit\na  b\n");
    assert_eq!(hotwords_body(&Vec::new()), "\n");
}
