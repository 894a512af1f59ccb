use talksage::knowledge::{
    chunk_file, chunk_has_phrase, is_cjk, is_skipped_dir, split_chars, tokenize_ordered,
    KnowledgeBase,
};

fn s(v: &[char]) -> String {
    v.iter().collect()
}

#[test]
fn tokenizer_splits_words_and_cjk_bigrams() {
    let (runs, words) = tokenize_ordered("客户关注 NPI 样品, a MOQ2x");
    let runs: Vec<Vec<String>> = runs.iter().map(|r| r.iter().map(|b| s(b)).collect()).collect();
    let words: Vec<String> = words.iter().map(|w| s(w)).collect();
    assert_eq!(runs, vec![vec!["客户", "户关", "关注"], vec!["样品"]]);
    assert_eq!(words, vec!["npi", "moq2x"]);
    assert!(is_cjk('样'));
    assert!(!is_cjk('a'));
}

#[test]
fn chunks_split_at_headings() {
    let chunks = chunk_file("# 客户简报\n\n客户关注 NPI 样品交期与 MOQ。\n## 附录\n细节", "client.md");
    assert_eq!(chunks.len(), 2);
    assert_eq!(chunks[0].heading(), "客户简报");
    assert_eq!(chunks[0].text(), "# 客户简报\n\n客户关注 NPI 样品交期与 MOQ。");
    assert_eq!(chunks[1].heading(), "附录");
    assert_eq!(chunks[1].text(), "# 附录\n细节");
    assert_eq!(chunks[1].source(), "client.md");
    assert!(chunk_file("  \n", "x.md").is_empty());
}

#[test]
fn long_parts_are_packed_by_paragraph() {
    let para = "字".repeat(300);
    let text = format!("# 长文\n\n{para}\n\n{para}\n\n{para}");
    let chunks = chunk_file(&text, "long.md");
    assert_eq!(chunks.len(), 3);
    assert!(chunks.iter().all(|c| c.heading() == "长文"));
    assert_eq!(chunks[0].text(), format!("# 长文\n{para}"));
}

#[test]
fn split_matches_str_split() {
    for (text, sep) in [("a\n#b\n#", "\n#"), ("", "\n#"), ("\n\n\n", "\n\n"), ("abc", "\n\n")] {
        let cs: Vec<char> = text.chars().collect();
        let sep_cs: Vec<char> = sep.chars().collect();
        let mine: Vec<String> = split_chars(&cs, &sep_cs).iter().map(|p| s(p)).collect();
        let std_split: Vec<String> = text.split(sep).map(|p| p.to_string()).collect();
        assert_eq!(mine, std_split);
    }
}

#[test]
fn phrase_gate_needs_three_consecutive_bigrams_or_a_long_word() {
    let chunks = chunk_file("# 简报\n\n客户关注样品交期与最小起订量。MOQ", "brief.md");
    let c = &chunks[0];
    let (runs, words) = tokenize_ordered("样品交期");
    assert!(chunk_has_phrase(c, &runs, &words));
    let (runs, words) = tokenize_ordered("样品一下");
    assert!(!chunk_has_phrase(c, &runs, &words));
    let (runs, words) = tokenize_ordered("the moq");
    assert!(chunk_has_phrase(c, &runs, &words));
    let (runs, words) = tokenize_ordered("mo");
    assert!(!chunk_has_phrase(c, &runs, &words));
}

#[test]
fn search_returns_empty_when_kb_empty() {
    let kb = KnowledgeBase::new();
    assert_eq!(kb.chunk_count(), 0);
    assert!(kb.query_tokens("anything").iter().all(|t| !t.is_empty()));
}

#[test]
fn common_tokens_are_not_informative_in_a_big_base() {
    let mut kb = KnowledgeBase::new();
    for i in 0..60 {
        kb.add_file(&format!("# 日常{i}\n\n我们这边今天讨论了排班和值班的事情，大家都觉得可以，下周再看一下。"), &format!("note{i}.md"));
    }
    kb.add_file("# 客户简报\n\n我们这边跟客户确认过：MOQ 是 1000 片，样品交期两周。", "client.md");
    assert_eq!(kb.chunk_count(), 61);
    let we: Vec<char> = "我们".chars().collect();
    assert_eq!(kb.doc_freq(&we), 61);
    assert!(!kb.is_informative(&we));
    let moq: Vec<char> = "moq".chars().collect();
    assert!(kb.is_informative(&moq));
    let tokens: Vec<String> = kb.query_tokens("我们这边再确认一下样品交期和 MOQ").iter().map(|t| s(t)).collect();
    assert!(tokens.contains(&"moq".to_string()));
    assert!(tokens.contains(&"样品".to_string()));
    assert!(!tokens.contains(&"我们".to_string()));
    let mut sorted = tokens.clone();
    sorted.sort();
    sorted.dedup();
    assert_eq!(sorted.len(), tokens.len());
}

#[test]
fn index_skips_obsidian_metadata_and_trash() {
    assert!(is_skipped_dir(".obsidian"));
    assert!(is_skipped_dir(".trash"));
    assert!(is_skipped_dir(".git"));
    assert!(!is_skipped_dir("notes"));
}
