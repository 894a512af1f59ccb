use talksage::llm::MockProvider;
use talksage::notes::{
    builtin_templates, draft_from_answers, extract_json_span, notes_from_answer, get_template, trio_user_prompt,
    NotesGenerator, Template, TranscriptLine, TrioGenerator,
};

fn line(label: &str, text: &str) -> TranscriptLine {
    TranscriptLine { speaker_label: label.into(), text: text.into() }
}

#[test]
fn builtin_templates_validate() {
    let templates = builtin_templates();
    assert!(templates.len() >= 4);
    for t in &templates {
        assert!(t.validate().is_ok(), "template {} failed to validate", t.id);
    }
}

#[test]
fn get_template_by_id() {
    assert!(get_template("standard_meeting").is_some());
    assert!(get_template("negotiation").is_some());
    assert!(get_template("nonexistent").is_none());
}

#[test]
fn template_instructions_include_sections() {
    let t = get_template("standard_meeting").unwrap();
    let instr = t.to_instructions();
    assert!(instr.contains("摘要"));
    assert!(instr.contains("行动项"));
    assert!(instr.contains("| 负责人 | 任务 | 截止 | 转写引用 |"));
}

#[test]
fn invalid_template_rejected() {
    let t = Template {
        id: "bad".into(),
        name: "Bad".into(),
        description: "".into(),
        sections: vec![],
    };
    assert!(t.validate().is_err());
}

#[test]
fn validation_errors_name_the_problem() {
    let t = Template { id: " ".into(), name: "X".into(), description: "".into(), sections: vec![] };
    assert_eq!(t.validate().unwrap_err(), "模板 id/name 不能为空");
    let t = Template { id: "bad".into(), name: "Bad".into(), description: "".into(), sections: vec![] };
    assert_eq!(t.validate().unwrap_err(), "模板 'Bad' 至少需要一个分节");
}

#[test]
fn generate_produces_markdown_with_mock_llm() {
    let mock = MockProvider { response: "# 会议纪要\n\n## 摘要\n讨论了 NPI 项目进度。\n\n## 关键决策\n- 确认方案 A".into() };
    let gen = NotesGenerator::new(mock);
    let segs = vec![
        line("客户", "We need NPI samples by Friday."),
        line("我", "我们确认可以安排。"),
    ];
    let t = get_template("standard_meeting").unwrap();
    let notes = gen.generate(&segs, &["NPI = 新产品导入".into()], &[], &t).unwrap();
    assert!(notes.contains("会议纪要"));
    assert!(notes.contains("NPI"));
}

#[test]
fn empty_transcript_rejected() {
    let mock = MockProvider { response: "x".into() };
    let gen = NotesGenerator::new(mock);
    let t = get_template("standard_meeting").unwrap();
    assert!(gen.generate(&[], &[], &[], &t).is_err());
}

#[test]
fn blank_notes_are_an_error() {
    let gen = NotesGenerator::new(MockProvider { response: "  \n ".into() });
    let t = get_template("standard_meeting").unwrap();
    assert_eq!(gen.generate(&[line("我", "hi")], &[], &[], &t).unwrap_err(), "纪要生成结果为空");
}

#[test]
fn trio_generates_three_sections_with_mock_llm() {
    let mock = MockProvider {
        response: r#"{"key_points":[{"topic":"交付方案","points":["客户确认了周五交付"]}],"checklist":["客户发邮件确认方案","我方周五前发 proposal"]}"#.into(),
    };
    let gen = TrioGenerator::new(mock);
    let segs = vec![
        line("客户", "We need NPI samples by Friday."),
        line("我", "我们确认可以安排。"),
    ];
    let trio = gen.generate(&segs, Some("NPI 评审"), Some("确认交付时间")).unwrap();
    assert!(!trio.short_overview.trim().is_empty(), "empty overview");
    let kp: serde_json::Value = serde_json::from_str(trio.key_points_json.as_deref().unwrap()).unwrap();
    assert_eq!(kp["key_points"].as_array().unwrap().len(), 1);
    assert_eq!(kp["key_points"][0]["topic"], "交付方案");
    let actions: serde_json::Value = serde_json::from_str(trio.action_json.as_deref().unwrap()).unwrap();
    assert_eq!(actions["checklist"].as_array().unwrap().len(), 2);
}

#[test]
fn trio_rejects_invalid_json() {
    let mock = MockProvider { response: "抱歉，我无法生成".into() };
    let gen = TrioGenerator::new(mock);
    let segs = vec![line("我", "hi")];
    let trio = gen.generate(&segs, None, None).unwrap();
    assert!(trio.key_points_json.is_none());
    assert!(trio.action_json.is_none());
    assert!(TrioGenerator::new(MockProvider { response: "x".into() }).generate(&[], None, None).is_err());
}

#[test]
fn extract_json_tolerates_fences() {
    let s = "```json\n{\"checklist\":[\"a\"]}\n```";
    let span = extract_json_span(s).unwrap();
    let v: serde_json::Value = serde_json::from_str(&span).unwrap();
    assert_eq!(v["checklist"][0], "a");
    assert_eq!(extract_json_span("} no object {"), None);
    assert_eq!(extract_json_span("none"), None);
}

#[test]
fn trio_prompt_carries_meeting_context() {
    let p = trio_user_prompt(&[line("我", "你好"), line("客户", "hi")], Some("评审"), Some("  "));
    assert_eq!(p, "会议名称：评审\n\n## 转写\n[我] 你好\n[客户] hi\n\n请生成。");
    let d = draft_from_answers("  概述  ", "x {\"a\":1} y", "none");
    assert_eq!(d.short_overview, "概述");
    assert_eq!(d.key_points_json.as_deref(), Some("{\"a\":1}"));
    assert_eq!(d.action_json, None);
}

#[test]
fn provider_answers_become_trimmed_notes() {
    assert_eq!(notes_from_answer(Ok("  ## 纪要\n- 要点\n\n".to_string())), Ok("## 纪要\n- 要点".to_string()));
    assert_eq!(notes_from_answer(Ok(" \n\t".to_string())), Err("纪要生成结果为空".to_string()));
    assert_eq!(notes_from_answer(Err("LLM 请求失败".to_string())), Err("LLM 请求失败".to_string()));
}
