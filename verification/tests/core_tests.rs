use talksage::text::parse_u64;
use talksage::clock::AudioClock;
use talksage::key_points::{extract_key_points, KeyPointAggregator};
use talksage::metrics::{
    conversation_counts, count_words, detect_monologue, is_question_text, segment_timing,
    NudgeEngine, NudgeKind, NudgeSignals, Seg, TalkShare,
};
use talksage::quality::{
    cer_counts, edit_distance, normalize, wer_counts, KeyPointCategory, ResultStatus, SessionQuality,
};

#[test]
fn sixteen_k_one_second() {
    let mut c = AudioClock::new(16_000);
    assert_eq!(c.accept(16_000), 0);
    assert_eq!(c.accepted(), 16_000);
    assert_eq!(c.ms(), 1_000);
    assert_eq!(AudioClock::samples_to_ms(16_000, 8_000), 500);
}

#[test]
fn timestamps_are_monotonic() {
    let mut c = AudioClock::new(16_000);
    let a = c.accept(1600);
    let b = c.accept(1600);
    assert!(b > a);
    assert_eq!(c.ms(), 200);
}

#[test]
fn zero_rate_clock_counts_at_one_sample_per_second() {
    let mut c = AudioClock::new(0);
    c.accept(500);
    assert_eq!(c.sample_rate(), 1);
    assert_eq!(c.ms(), 500_000);
}

#[test]
fn classifies_questions() {
    let kps = extract_key_points("What is the MOQ for this product?");
    assert_eq!(kps[0].category, KeyPointCategory::Question);
}

#[test]
fn classifies_decisions() {
    let kps = extract_key_points("我们决定采用方案 B");
    assert_eq!(kps[0].category, KeyPointCategory::Decision);
}

#[test]
fn classifies_requirements() {
    let kps = extract_key_points("We need NPI samples by Friday.");
    assert_eq!(kps[0].category, KeyPointCategory::Requirement);
}

#[test]
fn classifies_technical() {
    let kps = extract_key_points("讨论一下接口的兼容性和并发性能");
    assert_eq!(kps[0].category, KeyPointCategory::Technical);
}

#[test]
fn classifies_action_items_with_numbers_and_time() {
    let kps = extract_key_points("我们下周一交付300台，客户周五前提交报价");
    assert!(!kps.is_empty());
    assert!(kps.iter().any(|k| k.category == KeyPointCategory::Action));
}

#[test]
fn extracts_multiple_kinds_from_one_turn() {
    let kps = extract_key_points("价格能再低一些吗？我们决定采用方案A。客户下周一交付样品");
    let kinds: Vec<_> = kps.iter().map(|k| k.category).collect();
    assert!(kinds.contains(&KeyPointCategory::Question));
    assert!(kinds.contains(&KeyPointCategory::Decision));
    assert!(kinds.contains(&KeyPointCategory::Action));
}

#[test]
fn ignores_too_short() {
    assert!(extract_key_points("嗯").is_empty());
    assert!(extract_key_points("好的").is_empty());
}

#[test]
fn rejects_noisy_segments_even_if_they_match_keywords() {
    assert!(extract_key_points("嗯嗯嗯对那个技术嗯嗯嗯").is_empty());
    let mut agg = KeyPointAggregator::new();
    assert!(agg.push("嗯嗯嗯要求嗯嗯嗯嗯", 1).is_empty());
}

#[test]
fn truncates_long_text() {
    let long = "我们需要确认交期并讨论技术方案的兼容性性能延迟并发部署迁移规范。".repeat(8);
    let kps = extract_key_points(&long);
    assert!(!kps.is_empty());
    assert!(kps.iter().all(|k| k.text.chars().count() <= 121));
}

#[test]
fn aggregator_dedupes_identical_points() {
    let mut agg = KeyPointAggregator::new();
    agg.push("We need NPI samples", 1);
    agg.push("We need NPI samples", 2);
    assert_eq!(agg.items().len(), 1);
}

#[test]
fn aggregator_keeps_distinct_points() {
    let mut agg = KeyPointAggregator::new();
    agg.push("We need NPI samples by Friday.", 1);
    agg.push("我们决定采用方案 B", 2);
    assert_eq!(agg.items().len(), 2);
}

#[test]
fn skeleton_and_final_are_distinct() {
    assert_ne!(ResultStatus::Skeleton, ResultStatus::Final);
}

#[test]
fn noisy_and_silent_sessions_skip_analysis() {
    assert!(SessionQuality::Noise.skip_analysis());
    assert!(SessionQuality::Silent.skip_analysis());
    assert!(!SessionQuality::Clean.skip_analysis());
    assert!(!SessionQuality::Low.skip_analysis());
}

#[test]
fn normalize_strips_punct_and_spaces() {
    assert_eq!(normalize("你好，世界！"), "你好世界");
    assert_eq!(normalize("Hello World."), "helloworld");
    assert_eq!(normalize("中英 mixed OK"), "中英mixedok");
}

#[test]
fn cer_identical() {
    let (n, d) = cer_counts("你好世界", "你好世界");
    assert_eq!(d, 0);
    assert_eq!(n, 4);
}

#[test]
fn cer_one_substitution() {
    let (n, d) = cer_counts("你好世界", "你好大界");
    assert_eq!(d, 1);
    assert_eq!(n, 4);
}

#[test]
fn cer_empty_reference() {
    let (n, d) = cer_counts("", "你好");
    assert_eq!(n, 0);
    assert_eq!(d, 2);
}

#[test]
fn question_detection_heuristics() {
    assert!(is_question_text("你们什么时候能交付？"));
    assert!(is_question_text("这个价格还能谈吗"));
    assert!(is_question_text("What about the timeline?"));
    assert!(!is_question_text("我们下周一交付。"));
    assert!(!is_question_text("确认一下方案 A"));
}

#[test]
fn words_are_counted_by_white_space() {
    assert_eq!(count_words("ok go ahead"), 3);
    assert_eq!(count_words("  我们需要确认方案  "), 1);
    assert_eq!(count_words(""), 0);
}

fn seg(me: bool, start_ms: u64, dur_ms: u64) -> Seg {
    Seg { me, start_ms, end_ms: start_ms + dur_ms, words: 1, question: false }
}

#[test]
fn metrics_monologue_and_interruption() {
    let segs = vec![seg(true, 0, 30_000), seg(true, 31_000, 20_000), seg(false, 48_000, 8_000)];
    let (sorted, tally, (monologue, longest)) = conversation_counts(&segs);
    assert_eq!(sorted, segs);
    assert!(monologue);
    assert!(longest >= 50_000);
    assert!(tally.interruption_count >= 1);
    assert_eq!(detect_monologue(&segs), (true, 51_000));
}

#[test]
fn metrics_basic_counts() {
    let a = segment_timing(0, "我们需要确认方案", false, 3000, 3000).unwrap();
    let b = segment_timing(1, "ok go ahead", false, 5500, 2000).unwrap();
    let c = segment_timing(0, "价格能再低一些吗？", false, 8000, 2000).unwrap();
    assert!(segment_timing(0, "   ", false, 1, 1).is_none());
    assert!(segment_timing(0, "partial", true, 1, 1).is_none());
    let (_, t, _) = conversation_counts(&[c, a, b]);
    assert_eq!(t.me_ms, 5000);
    assert_eq!(t.them_ms, 2000);
    assert_eq!(t.questions_me, 1);
    assert_eq!(t.segment_count_me, 2);
    assert_eq!(t.segment_count_them, 1);
    assert_eq!(t.words_them, 3);
    assert_eq!(t.call_end_ms, 8000);
    assert_eq!(t.interruption_count, 0);
}

#[test]
fn sorting_by_start_is_stable() {
    let x = Seg { me: true, start_ms: 10, end_ms: 20, words: 1, question: false };
    let y = Seg { me: false, start_ms: 10, end_ms: 15, words: 2, question: false };
    let z = Seg { me: true, start_ms: 5, end_ms: 9, words: 3, question: true };
    let (sorted, _, _) = conversation_counts(&[x, y, z]);
    assert_eq!(sorted, vec![z, x, y]);
}

fn signals(share: TalkShare, questions: usize, fast: bool) -> NudgeSignals {
    NudgeSignals {
        segment_count_me: 10,
        avg_segment_ms_me: 20_000,
        segment_count_them: 2,
        avg_segment_ms_them: 5_000,
        talk_share: share,
        questions_me: questions,
        pace_fast: fast,
    }
}

#[test]
fn nudge_engine_cooldown_and_rules() {
    let mut engine = NudgeEngine::new(120_000);
    let m = signals(TalkShare::Dominant, 0, false);
    let n = engine.evaluate(&m, 300_000, 1_700_000_000_000);
    assert!(n.is_some(), "talk ratio nudge expected");
    assert_eq!(n.unwrap().kind, NudgeKind::TalkRatio);
    assert!(engine.evaluate(&m, 300_000, 1_700_000_001_000).is_none());
    let m2 = signals(TalkShare::Balanced, 5, false);
    let n2 = engine.evaluate(&m2, 300_000, 1_700_000_121_000);
    assert!(n2.is_none(), "a balanced conversation gets no nudge: {n2:?}");
}

#[test]
fn nudges_follow_rule_order() {
    let mut engine = NudgeEngine::new(0);
    let q = engine.evaluate(&signals(TalkShare::Balanced, 0, true), 600_000, 10).unwrap();
    assert_eq!(q.kind, NudgeKind::Questions);
    let mut engine = NudgeEngine::new(0);
    let p = engine.evaluate(&signals(TalkShare::Balanced, 9, true), 600_000, 10).unwrap();
    assert_eq!(p.kind, NudgeKind::Pace);
    let engine = NudgeEngine::new(0);
    assert_eq!(engine.check_next_steps(1_200_000).unwrap().kind, NudgeKind::NextSteps);
    assert!(engine.check_next_steps(1_300_000).is_none());
}

#[test]
fn parse_u64_follows_str_parse() {
    let p = |s: &str| parse_u64(&s.chars().collect::<Vec<char>>());
    for s in ["0", "+5", "007", "18446744073709551615", "18446744073709551616", "", "+", "-1", "1 2", "12a"] {
        assert_eq!(p(s), s.parse::<u64>().ok(), "input {s:?}");
    }
}

#[test]
fn noise_counts_of_a_repetitive_filler_segment() {
    use_noise_counts();
}

fn use_noise_counts() {
    let c = talksage::quality::noise_counts("那个个那个个嗯");
    assert_eq!(c.total, 7);
    assert_eq!(c.fillers, 1);
    // 个个 twice
    assert_eq!(c.repeats, 2);
    // 那 个 个 那 个 个 are CJK ideographs, and so is 嗯
    assert_eq!(c.meaningful, 7);
    // pairs: 那个 个个 个那 (那个 个个 again) 个嗯
    assert_eq!(c.distinct_bigrams, 4);
    let e = talksage::quality::noise_counts("");
    assert_eq!((e.total, e.fillers, e.repeats, e.meaningful, e.distinct_bigrams), (0, 0, 0, 0, 0));
    let a = talksage::quality::noise_counts("ab, A1");
    assert_eq!(a.meaningful, 4);
    assert_eq!(a.distinct_bigrams, 5);
}

fn ratio(counts: (usize, usize)) -> f32 {
    let (n, d) = counts;
    if n == 0 {
        if d == 0 { 0.0 } else { 1.0 }
    } else {
        d as f32 / n as f32
    }
}

#[test]
fn edit_distance_and_transcription_metrics() {
    assert_eq!(edit_distance(&['a', 'b', 'c'], &['a', 'b', 'c']), 0);
    assert_eq!(edit_distance(&['a', 'b'], &['a']), 1);
    assert_eq!(edit_distance(&['a'], &['b']), 1);
    assert_eq!(edit_distance(&[], &['x']), 1);
    assert_eq!(edit_distance(&['k', 'i', 't', 't', 'e', 'n'], &['s', 'i', 't', 't', 'i', 'n', 'g']), 3);
    // character error rate
    assert!((ratio(cer_counts("我们确认交期", "我们确认交期")) - 0.0).abs() < 1e-6);
    let cer1 = ratio(cer_counts("我们确认交期", "我们确认"));
    assert!(cer1 > 0.0 && cer1 < 1.0, "CER between 0 and 1: {cer1}");
    assert_eq!(ratio(cer_counts("", "")), 0.0);
    assert_eq!(ratio(cer_counts("", "abc")), 1.0);
    // word error rate
    assert!((ratio(wer_counts("we need samples", "we need samples")) - 0.0).abs() < 1e-6);
    let wer1 = ratio(wer_counts("we need samples", "we need"));
    assert!(wer1 > 0.0 && wer1 < 1.0, "WER between 0 and 1: {wer1}");
    assert!((ratio(wer_counts("hello world", "hello world")) - 0.0).abs() < 1e-6);
    assert_eq!(wer_counts("  a  b\tc ", "a x c d"), (3, 2));
    assert_eq!(wer_counts("", "a b"), (0, 2));
}

#[test]
fn edit_distance_is_zero_only_for_equal_inputs_and_at_least_the_length_gap() {
    let a: Vec<char> = "会议纪要".chars().collect();
    let b: Vec<char> = "会议".chars().collect();
    let c: Vec<char> = "会仪纪要".chars().collect();
    assert_eq!(edit_distance(&a, &a), 0);
    assert_eq!(edit_distance(&a, &b), 2);
    assert_eq!(edit_distance(&a, &c), 1);
    assert!(edit_distance(&b, &a) >= a.len() - b.len());
}
