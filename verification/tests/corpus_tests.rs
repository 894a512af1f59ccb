use talksage::corpus::{parse_transcript, transcript_entry_of};

const TRANSCRIPT: &str = "# AISHELL-1 dev\nBAC009S0002W0122 而 对 楼市 成交 抑制 作用 最 大 的 限 购\n\nBAC009S0002W0123 也 成为 地方 政府 的 眼中 钉\r\nlonely\n  X1   a b  c  \n";

fn pair(id: &str, text: &str) -> (String, String) {
    (id.to_string(), text.to_string())
}

#[test]
fn transcript_entries_drop_comments_blank_lines_and_spaces() {
    let all = parse_transcript(TRANSCRIPT, None);
    assert_eq!(
        all,
        vec![
            pair("BAC009S0002W0122", "而对楼市成交抑制作用最大的限购"),
            pair("BAC009S0002W0123", "也成为地方政府的眼中钉"),
            pair("X1", "abc"),
        ]
    );
}

#[test]
fn transcript_limit_counts_entries_and_keeps_at_least_one() {
    assert_eq!(parse_transcript(TRANSCRIPT, Some(2)).len(), 2);
    assert_eq!(parse_transcript(TRANSCRIPT, Some(5)).len(), 3);
    let first = parse_transcript(TRANSCRIPT, Some(0));
    assert_eq!(first, vec![pair("BAC009S0002W0122", "而对楼市成交抑制作用最大的限购")]);
    assert!(parse_transcript("", Some(3)).is_empty());
}

#[test]
fn transcript_line_without_text_is_no_entry() {
    let line: Vec<char> = "  U1\t".chars().collect();
    assert_eq!(transcript_entry_of(&line), None);
    let line: Vec<char> = "U2\t你 好".chars().collect();
    assert_eq!(transcript_entry_of(&line), Some(pair("U2", "你好")));
}
