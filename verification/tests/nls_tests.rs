use talksage::nls::{
    absorb_event, build_start_message, build_stop_message, event_from_fields, finish_event,
    parse_event, start_message, stop_message, NlsAction, NlsEvent, NlsSession,
};
use talksage::token::new_compact_id;

#[test]
fn start_message_has_required_fields() {
    let msg = build_start_message("my-appkey", "task-uuid-001");
    let v: serde_json::Value = serde_json::from_str(&msg).unwrap();
    assert_eq!(v["header"]["name"], "StartTranscription");
    assert_eq!(v["header"]["appkey"], "my-appkey");
    assert_eq!(v["payload"]["format"], "pcm");
    assert_eq!(v["payload"]["sample_rate"], 16000);
    assert_eq!(v["payload"]["enable_intermediate_result"], true);
    assert_eq!(v["payload"]["enable_punctuation_prediction"], true);
    assert_eq!(v["payload"]["enable_semantic_sentence_detection"], true);
}

#[test]
fn stop_message_has_required_fields() {
    let msg = build_stop_message("my-appkey", "task-uuid-001");
    let v: serde_json::Value = serde_json::from_str(&msg).unwrap();
    assert_eq!(v["header"]["name"], "StopTranscription");
}

#[test]
fn messages_match_the_serde_json_rendering() {
    let start = start_message("k\"ey", "t1", "0123456789abcdef0123456789abcdef");
    let mut header = serde_json::Map::new();
    header.insert("message_id".into(), serde_json::Value::from("0123456789abcdef0123456789abcdef"));
    header.insert("task_id".into(), serde_json::Value::from("t1"));
    header.insert("namespace".into(), serde_json::Value::from("SpeechTranscriber"));
    header.insert("name".into(), serde_json::Value::from("StartTranscription"));
    header.insert("appkey".into(), serde_json::Value::from("k\"ey"));
    let mut payload = serde_json::Map::new();
    payload.insert("format".into(), serde_json::Value::from("pcm"));
    payload.insert("sample_rate".into(), serde_json::Value::from(16000));
    payload.insert("enable_intermediate_result".into(), serde_json::Value::from(true));
    payload.insert("enable_punctuation_prediction".into(), serde_json::Value::from(true));
    payload.insert("enable_inverse_text_normalization".into(), serde_json::Value::from(true));
    payload.insert("enable_semantic_sentence_detection".into(), serde_json::Value::from(true));
    let mut root = serde_json::Map::new();
    root.insert("header".into(), serde_json::Value::Object(header.clone()));
    root.insert("payload".into(), serde_json::Value::Object(payload));
    assert_eq!(start, serde_json::Value::Object(root).to_string());

    let stop = stop_message("a\nb", "t\u{1}", "id");
    let v: serde_json::Value = serde_json::from_str(&stop).unwrap();
    assert_eq!(v["header"]["appkey"], "a\nb");
    assert_eq!(v["header"]["task_id"], "t\u{1}");
    assert!(stop.contains("\\u0001"));
    assert!(stop.ends_with("\"payload\":{}}"));
}

#[test]
fn compact_ids_are_32_hex_digits_and_fresh() {
    let a = new_compact_id();
    let b = new_compact_id();
    assert_eq!(a.len(), 32);
    assert!(a.chars().all(|c| c.is_ascii_digit() || ('a'..='f').contains(&c)));
    assert_ne!(a, b);
}

#[test]
fn server_messages_become_events() {
    assert_eq!(
        parse_event(r#"{"header":{"name":"TranscriptionStarted"}}"#),
        Some(NlsEvent::Ready)
    );
    assert_eq!(
        parse_event(r#"{"header":{"name":"TranscriptionResultChanged"},"payload":{"result":"你好"}}"#),
        Some(NlsEvent::Partial("你好".into()))
    );
    assert_eq!(
        parse_event(r#"{"header":{"name":"SentenceEnd"},"payload":{}}"#),
        Some(NlsEvent::Final(String::new()))
    );
    assert_eq!(
        parse_event(r#"{"header":{"name":"TaskFailed","status_text":"IDLE_TIMEOUT"}}"#),
        Some(NlsEvent::Error("IDLE_TIMEOUT".into()))
    );
    assert_eq!(
        parse_event(r#"{"header":{"name":"TaskFailed"}}"#),
        Some(NlsEvent::Error("unknown".into()))
    );
    assert_eq!(parse_event(r#"{"header":{"name":"SentenceBegin"}}"#), None);
    assert_eq!(parse_event("not json"), None);
    assert_eq!(event_from_fields(Some((None, Some("x".into()), None))), None);
}

fn audio_of(actions: &[NlsAction]) -> Vec<Vec<u8>> {
    actions
        .iter()
        .filter_map(|a| match a {
            NlsAction::SendAudio(p) => Some(p.clone()),
            _ => None,
        })
        .collect()
}

#[test]
fn session_holds_audio_and_stop_until_ready() {
    let mut s = NlsSession::new();
    assert!(s.on_audio(vec![1, 2]).is_empty());
    assert!(s.on_audio(vec![3]).is_empty());
    assert!(s.on_stop().is_empty());
    let (partial, done) = s.on_event(NlsEvent::Partial("x".into()));
    assert!(!done);
    assert!(matches!(partial.as_slice(), [NlsAction::Deliver(NlsEvent::Partial(_))]));
    let (actions, done) = s.on_event(NlsEvent::Ready);
    assert!(!done);
    assert!(s.is_ready());
    assert_eq!(actions.len(), 4);
    assert_eq!(audio_of(&actions), vec![vec![1, 2], vec![3]]);
    assert!(matches!(actions[2], NlsAction::SendStop));
    assert!(matches!(actions[3], NlsAction::Deliver(NlsEvent::Ready)));
    let a = s.on_audio(vec![4]);
    assert_eq!(audio_of(&a), vec![vec![4]]);
    assert!(matches!(s.on_stop().as_slice(), [NlsAction::SendStop]));
    let (_, done) = s.on_event(NlsEvent::Final("好".into()));
    assert!(done);
    let (_, done) = s.on_event(NlsEvent::Error("e".into()));
    assert!(done);
}

#[test]
fn engine_event_decisions() {
    let mut current = "old".to_string();
    assert!(!absorb_event(&mut current, NlsEvent::Ready));
    assert_eq!(current, "old");
    assert!(!absorb_event(&mut current, NlsEvent::Partial("p".into())));
    assert_eq!(current, "p");
    assert!(!absorb_event(&mut current, NlsEvent::Final("f".into())));
    assert_eq!(current, "f");
    assert!(absorb_event(&mut current, NlsEvent::Error("e".into())));
    assert_eq!(current, "f");

    let mut text = "start".to_string();
    assert!(!finish_event(&mut text, NlsEvent::Partial("p".into())));
    assert_eq!(text, "p");
    assert!(finish_event(&mut text, NlsEvent::Error("IDLE_TIMEOUT".into())));
    assert_eq!(text, "p");
    assert!(finish_event(&mut text, NlsEvent::Final("done".into())));
    assert_eq!(text, "done");
}
