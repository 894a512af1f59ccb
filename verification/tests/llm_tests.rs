use talksage::llm::{friendly_status, parse_sse_line, render_prompt, ChatMessage, OpenAICompatProvider, SseLine};

#[test]
fn replaces_declared_placeholders() {
    let out = render_prompt("你好 {name}，目标：{target}", &[("name", "张三"), ("target", "英文")]);
    assert_eq!(out, "你好 张三，目标：英文");
}

#[test]
fn leaves_unknown_braces_and_json_examples() {
    let tmpl = r#"只输出 JSON：{"points":["要点"]} 然后 {text}"#;
    let out = render_prompt(tmpl, &[("text", "hello")]);
    assert_eq!(out, r#"只输出 JSON：{"points":["要点"]} 然后 hello"#);
}

#[test]
fn does_not_rescan_inserted_values() {
    let out = render_prompt("A{a}B", &[("a", "{b}字"), ("b", "不该出现")]);
    assert_eq!(out, "A{b}字B");
}

#[test]
fn friendly_status_maps_common_errors() {
    assert!(friendly_status(401).contains("API Key"));
    assert!(friendly_status(403).contains("无权限"));
    assert!(friendly_status(404).contains("不存在"));
    assert!(friendly_status(429).contains("限流"));
    assert!(!friendly_status(500).is_empty());
}

#[test]
fn sse_line_parsing_covers_endpoint_quirks() {
    assert_eq!(
        parse_sse_line(r#"data: {"choices":[{"delta":{"content":"你好"}}]}"#),
        SseLine::Delta("你好".into())
    );
    assert_eq!(parse_sse_line("data: [DONE]"), SseLine::Done);
    assert_eq!(parse_sse_line(r#"data: {"choices":[{"delta":{"role":"assistant"}}]}"#), SseLine::Ignore);
    assert_eq!(parse_sse_line(r#"data: {"choices":[{"delta":{"reasoning_content":"嗯"}}]}"#), SseLine::Ignore);
    assert_eq!(parse_sse_line(": keep-alive"), SseLine::Ignore);
    assert_eq!(parse_sse_line(""), SseLine::Ignore);
    assert_eq!(parse_sse_line("data: not-json"), SseLine::Ignore);
    assert_eq!(
        parse_sse_line("data: {\"choices\":[{\"delta\":{\"content\":\"x\"}}]}\r\n"),
        SseLine::Delta("x".into())
    );
}

#[test]
fn provider_endpoint_and_roles() {
    let p = OpenAICompatProvider::new("k", "m", "https://api.example.com/v1//");
    assert_eq!(p.chat_completions_url(), "https://api.example.com/v1/chat/completions");
    assert!(p.sends_auth());
    assert!(!OpenAICompatProvider::new("", "m", "http://x").sends_auth());
    assert_eq!(ChatMessage::user("hi").role, "user");
    assert_eq!(ChatMessage::system("s").role, "system");
    assert_eq!(ChatMessage::assistant("a").content, "a");
}
