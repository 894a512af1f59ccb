use talksage::asr::EngineKind;
use talksage::cli::{download_target, get_path_keys, latest_log_index, remove_target, set_path_keys, ModelTarget};
use talksage::cli::{cli_scalar, parse_i64, CliScalar, chrono_fmt, lines_of, tail_lines, ExportFormat, SessionAction, SessionArgs};

#[test]
fn tail_lines_keeps_last_n() {
    let content = "a\nb\nc\nd\n";
    assert_eq!(tail_lines(content, 2), "c\nd");
    assert_eq!(tail_lines(content, 10), "a\nb\nc\nd");
    assert_eq!(tail_lines(content, 0), "");
}

#[test]
fn lines_follow_str_lines() {
    for s in ["", "\n", "a", "a\n", "a\r\nb", "a\r\nb\r", "\n\nx\n", "a\rb\n"] {
        let mine: Vec<String> = lines_of(s).into_iter().map(|v| v.into_iter().collect()).collect();
        let std_lines: Vec<String> = s.lines().map(|l| l.to_string()).collect();
        assert_eq!(mine, std_lines, "lines of {s:?}");
    }
    assert_eq!(tail_lines("x\r\ny\r\n", 1), "y");
}

#[test]
fn export_formats() {
    assert_eq!(ExportFormat::Md.as_str(), "md");
    assert_eq!(ExportFormat::Audio.as_str(), "audio");
    assert_eq!(ExportFormat::Audio.ext(), "wav");
    assert_eq!(ExportFormat::Txt.ext(), "txt");
}

#[test]
fn session_legacy_id_is_show() {
    let args = SessionArgs { command: None, id: Some(42), dup_only: true };
    match args.resolve().unwrap() {
        SessionAction::Show { id, dup_only } => {
            assert_eq!(id, 42);
            assert!(dup_only);
        }
        other => panic!("unexpected {other:?}"),
    }
}

#[test]
fn session_subcommand_wins_and_missing_one_is_explained() {
    let args = SessionArgs { command: Some(SessionAction::List { limit: 20 }), id: Some(1), dup_only: false };
    assert!(matches!(args.resolve().unwrap(), SessionAction::List { limit: 20 }));
    let err = SessionArgs { command: None, id: None, dup_only: false }.resolve().unwrap_err();
    assert!(err.contains("请指定子命令"));
}

#[test]
fn listed_times_use_the_session_list_formula() {
    // The list's day formula counts from 0000-03-01 with a shift of 719162
    // days, so the Unix epoch shows as 1969-03-01.
    assert_eq!(chrono_fmt(0), "1969-03-01 00:00:00");
    assert_eq!(chrono_fmt(3_661), "1969-03-01 01:01:01");
    assert_eq!(chrono_fmt(-5), "-5");
}

#[test]
fn model_command_targets() {
    assert_eq!(download_target(" Silero-VAD "), ModelTarget::ScriptInstalled);
    assert_eq!(download_target("wespeaker"), ModelTarget::ScriptInstalled);
    assert_eq!(download_target("PUNCT"), ModelTarget::Punct);
    assert_eq!(download_target("nope"), ModelTarget::Unknown);
    assert_eq!(download_target("aliyun"), ModelTarget::Cloud);
    assert_eq!(download_target("paraformer-zh"), ModelTarget::Retired);
    assert_eq!(download_target(" qwen3-asr "), ModelTarget::Engine(EngineKind::Qwen3Asr));
    assert_eq!(remove_target("punct"), ModelTarget::Punct);
    assert_eq!(remove_target("aliyun"), ModelTarget::Retired);
    assert_eq!(remove_target("whisper-large-v3-turbo-metal"), ModelTarget::Engine(EngineKind::WhisperLargeV3TurboMetal));
    assert_eq!(remove_target("x"), ModelTarget::Unknown);
}

#[test]
fn latest_log_is_the_last_modified_log_file() {
    let entries = vec![
        ("talksage.2024-01-01.log".to_string(), 5u128),
        ("other.log".to_string(), 99),
        ("talksage.2024-01-02.log".to_string(), 7),
        ("talksage.txt".to_string(), 100),
        ("talksage.2024-01-03.log".to_string(), 7),
    ];
    assert_eq!(latest_log_index(&entries), Some(4));
    assert_eq!(latest_log_index(&vec![("notes.md".to_string(), 1)]), None);
    assert_eq!(latest_log_index(&Vec::new()), None);
}

#[test]
fn nest_and_get_dotted_path() {
    assert_eq!(set_path_keys("asr.engine_zh").unwrap(), vec!["asr", "engine_zh"]);
    assert_eq!(set_path_keys("a..b.").unwrap(), vec!["a", "b"]);
    assert!(set_path_keys("").is_err());
    assert!(set_path_keys("..").is_err());
    assert_eq!(get_path_keys("asr.engine_zh").unwrap(), vec!["asr", "engine_zh"]);
    assert_eq!(get_path_keys("  ").unwrap(), Vec::<String>::new());
    assert_eq!(get_path_keys("asr..x").unwrap_err(), "无效配置路径: asr..x");
}

#[test]
fn cli_values_read_words_and_integers() {
    assert_eq!(cli_scalar("true"), CliScalar::Bool(true));
    assert_eq!(cli_scalar(" FALSE "), CliScalar::Bool(false));
    assert_eq!(cli_scalar("Null"), CliScalar::Null);
    assert_eq!(cli_scalar("12"), CliScalar::Int(12));
    assert_eq!(cli_scalar("-7"), CliScalar::Int(-7));
    assert_eq!(cli_scalar("1.5"), CliScalar::Text("1.5".to_string()));
    assert_eq!(cli_scalar(" qwen3-asr "), CliScalar::Text("qwen3-asr".to_string()));
    assert_eq!(cli_scalar(r#"["a","b"]"#), CliScalar::Text(r#"["a","b"]"#.to_string()));
}

#[test]
fn signed_integers_parse_like_std() {
    let p = |s: &str| parse_i64(&s.chars().collect::<Vec<char>>());
    assert_eq!(p("-9223372036854775808"), Some(i64::MIN));
    assert_eq!(p("9223372036854775807"), Some(i64::MAX));
    assert_eq!(p("9223372036854775808"), None);
    assert_eq!(p("+42"), Some(42));
    assert_eq!(p("-+1"), None);
    assert_eq!(p("-"), None);
    assert_eq!(p(""), None);
    assert_eq!(p("1_000"), None);
}
