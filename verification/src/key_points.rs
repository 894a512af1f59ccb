//! In-meeting key-point extraction: local rules pick questions, decisions,
//! actions, requirements and technical points out of committed segments.
use vstd::prelude::*;

use crate::quality::KeyPointCategory;
use crate::text::{
    chars_of, lower_seq, contains, contains_char, contains_seq, dec, fields, is_alnum_spec,
    is_ascii_alphanumeric, is_ascii_digit, is_digit_spec, is_whitespace, is_ws, lemma_fields_len,
    lemma_take_step, matches_at, occurs_at, push_char, push_chars, push_dec, push_str, string_of,
    trim, trim_chars, trimmed_chars,
};

verus! {

// ---------------------------------------------------------------- outside: lower-casing

/// What `str::to_lowercase` gives for a text (full Unicode lower-casing).
pub uninterp spec fn unicode_lower(s: Seq<char>) -> Seq<char>;

/// Unicode lower-casing of a text, through `str::to_lowercase`. Its result is
/// named by `unicode_lower`; of a text made of ASCII characters only, it is
/// the ASCII lower-casing, as std documents (the Unicode lower-case mapping
/// of an ASCII character is its ASCII one). Nothing more is stated of it.
#[verifier::external_body]
fn to_lowercase(s: &str) -> (r: String)
    ensures
        r@ == unicode_lower(s@),
        (forall|i: int| 0 <= i < s@.len() ==> (#[trigger] s@[i] as u32) < 128) ==> r@ == lower_seq(s@),
{
    s.to_lowercase()
}

fn lower_chars(cs: &[char]) -> (r: Vec<char>)
    ensures
        r@ == unicode_lower(cs@),
        (forall|i: int| 0 <= i < cs@.len() ==> (#[trigger] cs@[i] as u32) < 128) ==> r@ == lower_seq(cs@),
{
    let s = string_of(cs);
    let l = to_lowercase(s.as_str());
    chars_of(l.as_str())
}

// ---------------------------------------------------------------- vocabulary

/// Some needle of `ws` occurs in `hay`.
pub open spec fn any_in(hay: Seq<char>, ws: Seq<&str>) -> bool {
    exists|i: int| 0 <= i < ws.len() && contains_seq(hay, #[trigger] ws[i]@)
}

/// Whether some needle of `ws` occurs in `hay`.
pub fn contains_any(hay: &[char], ws: &[&str]) -> (b: bool)
    ensures
        b == any_in(hay@, ws@),
{
    let mut i: usize = 0;
    while i < ws.len()
        invariant
            i <= ws.len(),
            forall|k: int| 0 <= k < i ==> !contains_seq(hay@, #[trigger] ws@[k]@),
        decreases ws.len() - i,
    {
        let w = chars_of(ws[i]);
        if contains(hay, w.as_slice()) {
            return true;
        }
        i += 1;
    }
    false
}

/// `needle` occurs in `lower` as a whole word: not preceded or followed by an
/// ASCII letter or digit.
pub open spec fn word_at(lower: Seq<char>, needle: Seq<char>, i: int) -> bool {
    &&& occurs_at(lower, needle, i)
    &&& (i == 0 || !is_alnum_spec(lower[i - 1]))
    &&& (i + needle.len() >= lower.len() || !is_alnum_spec(lower[i + needle.len()]))
}

/// `word` occurs in `hay` as an English word, ignoring case.
pub open spec fn has_en_word_spec(hay: Seq<char>, word: Seq<char>) -> bool {
    let lower = unicode_lower(hay);
    let needle = unicode_lower(word);
    needle.len() > 0 && lower.len() >= needle.len() && exists|i: int| word_at(lower, needle, i)
}

pub open spec fn any_en_word(hay: Seq<char>, ws: Seq<&str>) -> bool {
    exists|i: int| 0 <= i < ws.len() && has_en_word_spec(hay, #[trigger] ws[i]@)
}

/// `phrase` occurs in `hay`, ignoring case.
pub open spec fn has_en_phrase_spec(hay: Seq<char>, phrase: Seq<char>) -> bool {
    contains_seq(unicode_lower(hay), unicode_lower(phrase))
}

fn word_in_lower(lower: &[char], needle: &[char]) -> (b: bool)
    ensures
        b == (needle@.len() > 0 && lower@.len() >= needle@.len() && exists|i: int|
            word_at(lower@, needle@, i)),
{
    if needle.len() == 0 || lower.len() < needle.len() {
        return false;
    }
    let n = needle.len();
    let mut i: usize = 0;
    while i <= lower.len() - n
        invariant
            0 < n == needle.len() <= lower.len(),
            i <= lower.len() - n + 1,
            forall|q: int| 0 <= q < i ==> !word_at(lower@, needle@, q),
        decreases lower.len() - n + 1 - i,
    {
        if matches_at(lower, needle, i) {
            let prev_ok = i == 0 || !is_ascii_alphanumeric(lower[i - 1]);
            let next = i + n;
            let next_ok = next >= lower.len() || !is_ascii_alphanumeric(lower[next]);
            if prev_ok && next_ok {
                assert(word_at(lower@, needle@, i as int));
                return true;
            }
        }
        i += 1;
    }
    assert forall|q: int| word_at(lower@, needle@, q) implies q < i by {}
    false
}

/// Whether `word` occurs in `hay` as a whole English word, ignoring case.
pub fn has_en_word(hay: &[char], word: &str) -> (b: bool)
    ensures
        b == has_en_word_spec(hay@, word@),
{
    let lower = lower_chars(hay);
    let wc = chars_of(word);
    let needle = lower_chars(wc.as_slice());
    word_in_lower(lower.as_slice(), needle.as_slice())
}

/// Whether some word of `ws` occurs in `hay` as a whole English word.
pub fn has_any_en_word(hay: &[char], ws: &[&str]) -> (b: bool)
    ensures
        b == any_en_word(hay@, ws@),
{
    let mut i: usize = 0;
    while i < ws.len()
        invariant
            i <= ws.len(),
            forall|k: int| 0 <= k < i ==> !has_en_word_spec(hay@, #[trigger] ws@[k]@),
        decreases ws.len() - i,
    {
        if has_en_word(hay, ws[i]) {
            return true;
        }
        i += 1;
    }
    false
}

/// Whether `phrase` occurs in `hay`, ignoring case.
pub fn has_en_phrase(hay: &[char], phrase: &str) -> (b: bool)
    ensures
        b == has_en_phrase_spec(hay@, phrase@),
{
    let lower = lower_chars(hay);
    let pc = chars_of(phrase);
    let lp = lower_chars(pc.as_slice());
    contains(lower.as_slice(), lp.as_slice())
}

pub open spec fn question_zh() -> Seq<&'static str> {
    seq!["吗", "呢", "怎么", "什么", "多少", "能不能", "要不要", "是否"]
}

pub open spec fn question_en() -> Seq<&'static str> {
    seq![
        "what", "how", "why", "when", "where", "who", "which", "should", "could", "would", "can",
        "do", "does", "is", "are",
    ]
}

pub open spec fn decision_zh() -> Seq<&'static str> {
    seq!["确认", "决定", "就定", "采用", "拍板", "定了", "达成", "结论"]
}

pub open spec fn decision_en() -> Seq<&'static str> {
    seq!["agreed", "decided", "proceed", "settled", "confirmed"]
}

pub open spec fn requirement_zh() -> Seq<&'static str> {
    seq!["要求", "需要", "必须", "希望", "期望", "交期", "价格", "报价", "样品", "MOQ", "NPI", "预算", "指标"]
}

pub open spec fn requirement_en() -> Seq<&'static str> {
    seq!["need", "require", "must", "should", "want", "wants"]
}

pub open spec fn technical_zh() -> Seq<&'static str> {
    seq![
        "方案", "架构", "接口", "协议", "版本", "兼容", "性能", "延迟", "并发", "部署", "迁移", "API",
        "SDK", "规范", "数据库", "服务器", "前端", "后端",
    ]
}

pub open spec fn action_zh() -> Seq<&'static str> {
    seq![
        "提交", "发送", "发给", "安排", "跟进", "汇总", "整理", "确认", "通知", "联系", "更新", "上线",
        "交付", "截止", "之前", "之后", "明天", "下周", "本周", "月底", "月初", "下午", "上午",
    ]
}

pub open spec fn action_en() -> Seq<&'static str> {
    seq!["send", "submit", "deliver", "schedule", "arrange", "call", "email", "write", "prepare", "review"]
}

pub open spec fn actor_zh() -> Seq<&'static str> {
    seq!["我", "你", "他", "她"]
}

pub open spec fn actor_verbs_zh() -> Seq<&'static str> {
    seq!["交付", "提交", "发送", "安排", "跟进", "确认", "做", "完成", "给"]
}

pub open spec fn numeric_units() -> Seq<char> {
    seq!['台', '套', '个', '件', '万', '亿', '元', '块', '%', '批', '日', '号', '月', '周', '点', '人']
}

// ---------------------------------------------------------------- sentence rules

pub open spec fn is_question_spec(s: Seq<char>) -> bool {
    s.contains('?') || s.contains('？') || any_in(s, question_zh()) || any_en_word(s, question_en())
}

pub open spec fn is_decision_spec(s: Seq<char>) -> bool {
    any_in(s, decision_zh()) || any_en_word(s, decision_en()) || has_en_phrase_spec(s, "go with"@)
}

pub open spec fn is_requirement_spec(s: Seq<char>) -> bool {
    any_in(s, requirement_zh()) || any_en_word(s, requirement_en())
}

pub open spec fn is_technical_spec(s: Seq<char>) -> bool {
    any_in(s, technical_zh())
}

pub open spec fn is_action_spec(s: Seq<char>) -> bool {
    any_in(s, action_zh()) || s.contains('约') || any_en_word(s, action_en())
        || has_en_phrase_spec(s, "follow up"@) || has_en_phrase_spec(s, "followup"@)
}

pub open spec fn digit_or_ws(c: char) -> bool {
    is_digit_spec(c) || is_ws(c)
}

/// A digit at `i`, then digits or white space, then a unit character at `j`.
pub open spec fn number_with_unit(s: Seq<char>, i: int, j: int) -> bool {
    &&& 0 <= i <= j < s.len()
    &&& is_digit_spec(s[i])
    &&& forall|k: int| i <= k < j ==> digit_or_ws(#[trigger] s[k])
    &&& !digit_or_ws(s[j])
    &&& numeric_units().contains(s[j])
}

/// A quarter mark such as `Q3` at `k`.
pub open spec fn quarter_at(s: Seq<char>, k: int) -> bool {
    0 <= k && k + 1 < s.len() && (s[k] == 'Q' || s[k] == 'q') && '1' <= s[k + 1] <= '4'
}

pub open spec fn digit_count(s: Seq<char>) -> nat
    decreases s.len(),
{
    if s.len() == 0 {
        0
    } else {
        digit_count(s.drop_last()) + if is_digit_spec(s.last()) {
            1nat
        } else {
            0nat
        }
    }
}

pub open spec fn is_numeric_spec(s: Seq<char>) -> bool {
    (exists|i: int, j: int| number_with_unit(s, i, j)) || (exists|k: int| quarter_at(s, k))
        || digit_count(s) >= 2
}

pub open spec fn classify_spec(s: Seq<char>) -> Option<KeyPointCategory> {
    if is_question_spec(s) {
        Some(KeyPointCategory::Question)
    } else if is_decision_spec(s) {
        Some(KeyPointCategory::Decision)
    } else if is_action_spec(s) || is_numeric_spec(s) {
        Some(KeyPointCategory::Action)
    } else if is_requirement_spec(s) {
        Some(KeyPointCategory::Requirement)
    } else if is_technical_spec(s) {
        Some(KeyPointCategory::Technical)
    } else if any_in(s, actor_zh()) && any_in(s, actor_verbs_zh()) {
        Some(KeyPointCategory::Action)
    } else {
        None
    }
}

pub fn is_question(s: &[char]) -> (b: bool)
    ensures
        b == is_question_spec(s@),
{
    contains_char(s, '?') || contains_char(s, '？') || contains_any(
        s,
        &["吗", "呢", "怎么", "什么", "多少", "能不能", "要不要", "是否"],
    ) || has_any_en_word(
        s,
        &[
            "what", "how", "why", "when", "where", "who", "which", "should", "could", "would", "can",
            "do", "does", "is", "are",
        ],
    )
}

pub fn is_decision(s: &[char]) -> (b: bool)
    ensures
        b == is_decision_spec(s@),
{
    contains_any(s, &["确认", "决定", "就定", "采用", "拍板", "定了", "达成", "结论"]) || has_any_en_word(
        s,
        &["agreed", "decided", "proceed", "settled", "confirmed"],
    ) || has_en_phrase(s, "go with")
}

pub fn is_requirement(s: &[char]) -> (b: bool)
    ensures
        b == is_requirement_spec(s@),
{
    contains_any(
        s,
        &["要求", "需要", "必须", "希望", "期望", "交期", "价格", "报价", "样品", "MOQ", "NPI", "预算", "指标"],
    ) || has_any_en_word(s, &["need", "require", "must", "should", "want", "wants"])
}

pub fn is_technical(s: &[char]) -> (b: bool)
    ensures
        b == is_technical_spec(s@),
{
    contains_any(
        s,
        &[
            "方案", "架构", "接口", "协议", "版本", "兼容", "性能", "延迟", "并发", "部署", "迁移", "API",
            "SDK", "规范", "数据库", "服务器", "前端", "后端",
        ],
    )
}

pub fn is_action(s: &[char]) -> (b: bool)
    ensures
        b == is_action_spec(s@),
{
    contains_any(
        s,
        &[
            "提交", "发送", "发给", "安排", "跟进", "汇总", "整理", "确认", "通知", "联系", "更新", "上线",
            "交付", "截止", "之前", "之后", "明天", "下周", "本周", "月底", "月初", "下午", "上午",
        ],
    ) || contains_char(s, '约') || has_any_en_word(
        s,
        &["send", "submit", "deliver", "schedule", "arrange", "call", "email", "write", "prepare", "review"],
    ) || has_en_phrase(s, "follow up") || has_en_phrase(s, "followup")
}

fn is_unit(c: char) -> (b: bool)
    ensures
        b == numeric_units().contains(c),
{
    let units = ['台', '套', '个', '件', '万', '亿', '元', '块', '%', '批', '日', '号', '月', '周', '点', '人'];
    let r = contains_char(&units, c);
    assert(units@ == numeric_units());
    r
}

fn digit_count_exec(s: &[char]) -> (n: usize)
    ensures
        n == digit_count(s@),
{
    let mut n: usize = 0;
    let mut i: usize = 0;
    while i < s.len()
        invariant
            i <= s.len(),
            n == digit_count(s@.take(i as int)),
            n <= i,
        decreases s.len() - i,
    {
        proof {
            lemma_take_step(s@, i as int);
        }
        if is_ascii_digit(s[i]) {
            n += 1;
        }
        i += 1;
    }
    assert(s@.take(s.len() as int) == s@);
    n
}

/// Whether the sentence carries a quantity, a quarter mark or several digits.
pub fn is_numeric(s: &[char]) -> (b: bool)
    ensures
        b == is_numeric_spec(s@),
{
    let len = s.len();
    let mut i: usize = 0;
    while i < len
        invariant
            len == s.len(),
            i <= len,
            forall|a: int, j: int| 0 <= a < i ==> !number_with_unit(s@, a, j),
        decreases len - i,
    {
        if is_ascii_digit(s[i]) {
            let mut j: usize = i;
            while j < len && (is_ascii_digit(s[j]) || is_whitespace(s[j]))
                invariant
                    len == s.len(),
                    i <= j <= len,
                    forall|k: int| i <= k < j ==> digit_or_ws(#[trigger] s@[k]),
                decreases len - j,
            {
                j += 1;
            }
            if j < len && is_unit(s[j]) {
                assert(number_with_unit(s@, i as int, j as int));
                return true;
            }
            assert forall|j2: int| !number_with_unit(s@, i as int, j2) by {
                if number_with_unit(s@, i as int, j2) {
                    if j2 < j {
                        assert(digit_or_ws(s@[j2]));
                    } else if j2 > j {
                        assert(digit_or_ws(s@[j as int]));
                    }
                }
            }
        }
        i += 1;
    }
    assert(!exists|a: int, j: int| number_with_unit(s@, a, j));
    let mut k: usize = 0;
    while len > 0 && k < len - 1
        invariant
            len == s.len(),
            forall|q: int| 0 <= q < k ==> !quarter_at(s@, q),
        decreases len - k,
    {
        if (s[k] == 'Q' || s[k] == 'q') && '1' <= s[k + 1] && s[k + 1] <= '4' {
            assert(quarter_at(s@, k as int));
            return true;
        }
        k += 1;
    }
    assert forall|q: int| !quarter_at(s@, q) by {
        if quarter_at(s@, q) {
            assert(q < k);
        }
    }
    digit_count_exec(s) >= 2
}

/// Category of one sentence, if it is a key point at all.
pub fn classify_sentence(s: &[char]) -> (r: Option<KeyPointCategory>)
    ensures
        r == classify_spec(s@),
{
    if is_question(s) {
        return Some(KeyPointCategory::Question);
    }
    if is_decision(s) {
        return Some(KeyPointCategory::Decision);
    }
    if is_action(s) || is_numeric(s) {
        return Some(KeyPointCategory::Action);
    }
    if is_requirement(s) {
        return Some(KeyPointCategory::Requirement);
    }
    if is_technical(s) {
        return Some(KeyPointCategory::Technical);
    }
    if contains_any(s, &["我", "你", "他", "她"]) && contains_any(
        s,
        &["交付", "提交", "发送", "安排", "跟进", "确认", "做", "完成", "给"],
    ) {
        return Some(KeyPointCategory::Action);
    }
    None
}

/// A sentence with a question mark, `?` or `？`, is a question, whatever
/// else it holds.
pub proof fn lemma_question_mark_is_question(s: Seq<char>)
    requires
        s.contains('?') || s.contains('？'),
    ensures
        classify_spec(s) == Some(KeyPointCategory::Question),
{
}

/// A sentence that names a person (我, 你, 他 or 她) and a commitment verb
/// (交付, 提交, 发送, 安排, 跟进, 确认, 做, 完成 or 给), and is not a question,
/// a decision, a requirement or a technical point, is an action item.
pub proof fn lemma_actor_with_commitment_is_action(s: Seq<char>)
    requires
        contains_seq(s, "我"@) || contains_seq(s, "你"@) || contains_seq(s, "他"@) || contains_seq(s, "她"@),
        contains_seq(s, "交付"@) || contains_seq(s, "提交"@) || contains_seq(s, "发送"@) || contains_seq(s, "安排"@)
            || contains_seq(s, "跟进"@) || contains_seq(s, "确认"@) || contains_seq(s, "做"@)
            || contains_seq(s, "完成"@) || contains_seq(s, "给"@),
        !is_question_spec(s),
        !is_decision_spec(s),
        !is_requirement_spec(s),
        !is_technical_spec(s),
    ensures
        classify_spec(s) == Some(KeyPointCategory::Action),
{
    let a = actor_zh();
    assert(a[0]@ == "我"@ && a[1]@ == "你"@ && a[2]@ == "他"@ && a[3]@ == "她"@);
    assert(any_in(s, a));
    let v = actor_verbs_zh();
    assert(v[0]@ == "交付"@ && v[1]@ == "提交"@ && v[2]@ == "发送"@ && v[3]@ == "安排"@ && v[4]@ == "跟进"@
        && v[5]@ == "确认"@ && v[6]@ == "做"@ && v[7]@ == "完成"@ && v[8]@ == "给"@);
    assert(any_in(s, v));
}

// ---------------------------------------------------------------- noise gate

pub open spec fn fillers() -> Seq<char> {
    seq!['嗯', '啊', '哦', '唉', '哎', '呢', '呀', '吧', '啦', '嘛', '么', '呃', '嘿', '哈']
}

/// A common CJK ideograph or an ASCII letter or digit.
pub open spec fn is_meaningful(c: char) -> bool {
    ('\u{4e00}' <= c <= '\u{9fff}') || is_alnum_spec(c)
}

pub open spec fn filler_count(s: Seq<char>) -> nat
    decreases s.len(),
{
    if s.len() == 0 {
        0
    } else {
        filler_count(s.drop_last()) + if fillers().contains(s.last()) {
            1nat
        } else {
            0nat
        }
    }
}

pub open spec fn meaningful_count(s: Seq<char>) -> nat
    decreases s.len(),
{
    if s.len() == 0 {
        0
    } else {
        meaningful_count(s.drop_last()) + if is_meaningful(s.last()) {
            1nat
        } else {
            0nat
        }
    }
}

/// Characters that repeat the character right before them.
pub open spec fn repeat_count(s: Seq<char>) -> nat
    decreases s.len(),
{
    if s.len() < 2 {
        0
    } else {
        repeat_count(s.drop_last()) + if s.last() == s[s.len() - 2] {
            1nat
        } else {
            0nat
        }
    }
}

/// The bigram starting at `k` has not been seen at an earlier position.
pub open spec fn new_bigram(s: Seq<char>, k: int) -> bool {
    forall|j: int| 0 <= j < k ==> !(s[j] == s[k] && #[trigger] s[j + 1] == s[k + 1])
}

/// Number of distinct bigrams among the first `m` bigram positions.
pub open spec fn distinct_bigrams_upto(s: Seq<char>, m: int) -> nat
    decreases m,
{
    if m <= 0 {
        0
    } else {
        distinct_bigrams_upto(s, m - 1) + if new_bigram(s, m - 1) {
            1nat
        } else {
            0nat
        }
    }
}

/// The text-noise score (0 = language, 1 = noise) is above one half:
///
/// `score = 0.5 (1 - distinct/(n-1)) + 0.4 repeats/n + 0.2 fillers/n + 0.1 (1 - meaningful/n)`,
/// compared exactly (texts of fewer than two characters count as noise).
pub open spec fn is_noisy_spec(s: Seq<char>) -> bool {
    let n = s.len() as int;
    if n < 2 {
        true
    } else {
        let u = distinct_bigrams_upto(s, n - 1) as int;
        let x = 4 * repeat_count(s) + 2 * filler_count(s) + (n - meaningful_count(s));
        (n - 1) * x > 5 * n * u
    }
}

proof fn lemma_counts_bounded(s: Seq<char>)
    ensures
        filler_count(s) <= s.len(),
        meaningful_count(s) <= s.len(),
        repeat_count(s) <= s.len(),
    decreases s.len(),
{
    if s.len() > 0 {
        lemma_counts_bounded(s.drop_last());
    }
}

proof fn lemma_distinct_bounded(s: Seq<char>, m: int)
    requires
        m >= 0,
    ensures
        distinct_bigrams_upto(s, m) <= m,
    decreases m,
{
    if m > 0 {
        lemma_distinct_bounded(s, m - 1);
    }
}

proof fn lemma_noise_compare(n: int, x: int, u: int)
    requires
        n >= 2,
        x >= 0,
        0 <= u,
    ensures
        ((n - 1) * x > 5 * n * u) == (x > 5 * u && x - 5 * u > (5 * u) / (n - 1)),
{
    let k = n - 1;
    let q = (5 * u) / k;
    let r = (5 * u) % k;
    assert(5 * u == q * k + r && 0 <= r < k) by (nonlinear_arith)
        requires
            k > 0,
            q == (5 * u) / k,
            r == (5 * u) % k,
    ;
    assert(5 * n * u == k * (5 * u) + 5 * u) by (nonlinear_arith)
        requires
            k == n - 1,
    ;
    if x > 5 * u {
        let d = x - 5 * u;
        assert(k * x == k * (5 * u) + k * d) by (nonlinear_arith)
            requires
                d == x - 5 * u,
        ;
        if d > q {
            assert(k * d >= k * (q + 1)) by (nonlinear_arith)
                requires
                    d >= q + 1,
                    k > 0,
            ;
            assert(k * (q + 1) == q * k + k) by (nonlinear_arith);
        } else {
            assert(k * d <= k * q) by (nonlinear_arith)
                requires
                    d <= q,
                    k > 0,
            ;
            assert(k * q == q * k) by (nonlinear_arith);
        }
    } else {
        assert(k * x <= k * (5 * u)) by (nonlinear_arith)
            requires
                x <= 5 * u,
                k > 0,
        ;
    }
}

fn is_filler(c: char) -> (b: bool)
    ensures
        b == fillers().contains(c),
{
    let fs = ['嗯', '啊', '哦', '唉', '哎', '呢', '呀', '吧', '啦', '嘛', '么', '呃', '嘿', '哈'];
    let r = contains_char(&fs, c);
    assert(fs@ == fillers());
    r
}

fn is_meaningful_char(c: char) -> (b: bool)
    ensures
        b == is_meaningful(c),
{
    ('\u{4e00}' <= c && c <= '\u{9fff}') || is_ascii_alphanumeric(c)
}

/// Whether the bigram at `k` is new (not seen at an earlier position).
fn is_new_bigram(s: &[char], k: usize) -> (b: bool)
    requires
        k + 1 < s.len(),
    ensures
        b == new_bigram(s@, k as int),
{
    let mut j: usize = 0;
    while j < k
        invariant
            k + 1 < s.len(),
            j <= k,
            forall|i: int| 0 <= i < j ==> !(s@[i] == s@[k as int] && #[trigger] s@[i + 1] == s@[k + 1]),
        decreases k - j,
    {
        if s[j] == s[k] && s[j + 1] == s[k + 1] {
            return false;
        }
        j += 1;
    }
    true
}

/// Whether a (trimmed) text scores as noise rather than language.
pub fn is_noisy(s: &[char]) -> (b: bool)
    ensures
        b == is_noisy_spec(s@),
{
    let n = s.len();
    if n < 2 {
        return true;
    }
    let mut fill: usize = 0;
    let mut mean: usize = 0;
    let mut rep: usize = 0;
    let mut uniq: usize = 0;
    let mut i: usize = 0;
    while i < n
        invariant
            n == s.len(),
            n >= 2,
            i <= n,
            fill == filler_count(s@.take(i as int)),
            mean == meaningful_count(s@.take(i as int)),
            rep == repeat_count(s@.take(i as int)),
            uniq == distinct_bigrams_upto(s@, if i == 0 { 0 } else { i - 1 }),
            fill <= i,
            mean <= i,
            rep <= i,
            uniq <= i,
        decreases n - i,
    {
        proof {
            lemma_take_step(s@, i as int);
            if i >= 1 {
                assert(s@.take(i + 1)[i - 1] == s@[i - 1]);
                lemma_distinct_bounded(s@, i - 1);
            }
        }
        if is_filler(s[i]) {
            fill += 1;
        }
        if is_meaningful_char(s[i]) {
            mean += 1;
        }
        if i >= 1 {
            if s[i] == s[i - 1] {
                rep += 1;
            }
            if is_new_bigram(s, i - 1) {
                uniq += 1;
            }
        }
        i += 1;
    }
    proof {
        assert(s@.take(n as int) == s@);
        lemma_noise_compare(n as int, (4 * rep + 2 * fill + (n - mean)) as int, uniq as int);
    }
    let x: u128 = 4 * (rep as u128) + 2 * (fill as u128) + ((n - mean) as u128);
    let u5: u128 = 5 * (uniq as u128);
    x > u5 && x - u5 > u5 / ((n - 1) as u128)
}

// ---------------------------------------------------------------- splitting

/// Sentence and clause separators.
pub open spec fn kp_sep(c: char) -> bool {
    c == '。' || c == '！' || c == '？' || c == '；' || c == '…' || c == '\n' || c == '，' || c == '、'
        || c == ',' || c == ';'
}

fn is_kp_sep(c: char) -> (b: bool)
    ensures
        b == kp_sep(c),
{
    c == '。' || c == '！' || c == '？' || c == '；' || c == '…' || c == '\n' || c == '，' || c == '、'
        || c == ',' || c == ';'
}

/// Trimmed pieces of at least two characters, in order.
pub open spec fn kp_parts(fs: Seq<Seq<char>>) -> Seq<Seq<char>>
    decreases fs.len(),
{
    if fs.len() == 0 {
        Seq::empty()
    } else {
        let p = kp_parts(fs.drop_last());
        if trim(fs.last()).len() >= 2 {
            p.push(trim(fs.last()))
        } else {
            p
        }
    }
}

/// The clauses of a text: split on sentence and clause marks, trimmed, and
/// kept when at least two characters long.
pub open spec fn split_for_kp_spec(t: Seq<char>) -> Seq<Seq<char>> {
    kp_parts(fields(t, kp_sep_fn()))
}

pub open spec fn kp_sep_fn() -> spec_fn(char) -> bool {
    |c: char| kp_sep(c)
}

fn keep_part(parts: &mut Vec<Vec<char>>, cur: &[char])
    ensures
        final(parts)@.map_values(|v: Vec<char>| v@) == if trim(cur@).len() >= 2 {
            old(parts)@.map_values(|v: Vec<char>| v@).push(trim(cur@))
        } else {
            old(parts)@.map_values(|v: Vec<char>| v@)
        },
{
    let t = trim_chars(cur);
    if t.len() >= 2 {
        parts.push(t);
        proof {
            assert(parts@.map_values(|v: Vec<char>| v@) =~= old(parts)@.map_values(|v: Vec<char>| v@).push(trim(cur@)));
        }
    }
}

/// Clauses of `t` for key-point classification.
pub fn split_for_kp(t: &[char]) -> (parts: Vec<Vec<char>>)
    ensures
        parts@.map_values(|v: Vec<char>| v@) == split_for_kp_spec(t@),
{
    let ghost sep = kp_sep_fn();
    let mut parts: Vec<Vec<char>> = Vec::new();
    let mut cur: Vec<char> = Vec::new();
    let mut i: usize = 0;
    proof {
        assert(t@.take(0) =~= Seq::<char>::empty());
        assert(fields(Seq::<char>::empty(), sep).drop_last() =~= Seq::<Seq<char>>::empty());
    }
    while i < t.len()
        invariant
            i <= t.len(),
            sep == kp_sep_fn(),
            fields(t@.take(i as int), sep).len() >= 1,
            parts@.map_values(|v: Vec<char>| v@) == kp_parts(fields(t@.take(i as int), sep).drop_last()),
            cur@ == fields(t@.take(i as int), sep).last(),
        decreases t.len() - i,
    {
        proof {
            lemma_take_step(t@, i as int);
            lemma_fields_len(t@.take(i as int), sep);
        }
        let ghost f = fields(t@.take(i as int), sep);
        if is_kp_sep(t[i]) {
            keep_part(&mut parts, cur.as_slice());
            cur = Vec::new();
            proof {
                let x = t@.take(i + 1);
                assert(x.drop_last() == t@.take(i as int));
                assert(sep(x.last()));
                let g = fields(x, sep);
                assert(g == f.push(Seq::<char>::empty()));
                assert(g.drop_last() =~= f);
                assert(f == f.drop_last().push(f.last()));
            }
        } else {
            cur.push(t[i]);
            proof {
                let x = t@.take(i + 1);
                assert(x.drop_last() == t@.take(i as int));
                assert(!sep(x.last()));
                let g = fields(x, sep);
                assert(g == f.update(f.len() - 1, f.last().push(t@[i as int])));
                assert(g.drop_last() =~= f.drop_last());
            }
        }
        i += 1;
    }
    proof {
        assert(t@.take(t.len() as int) == t@);
        let f = fields(t@, sep);
        assert(f == f.drop_last().push(f.last()));
    }
    keep_part(&mut parts, cur.as_slice());
    parts
}

// ---------------------------------------------------------------- extraction

/// One extracted key point (no result id yet).
#[derive(Debug, Clone)]
pub struct ExtractedKeyPoint {
    pub category: KeyPointCategory,
    pub text: String,
}

impl View for ExtractedKeyPoint {
    type V = (KeyPointCategory, Seq<char>);

    open spec fn view(&self) -> (KeyPointCategory, Seq<char>) {
        (self.category, self.text@)
    }
}

pub open spec fn min_len(c: KeyPointCategory) -> nat {
    if c == KeyPointCategory::Action {
        6
    } else {
        8
    }
}

/// A clause cut to 120 characters plus an ellipsis when longer.
pub open spec fn clip(s: Seq<char>) -> Seq<char> {
    if s.len() > 120 {
        s.take(120).push('…')
    } else {
        s
    }
}

/// Extraction state after the first `n` clauses: (key points, accepted clauses).
pub open spec fn kp_state(parts: Seq<Seq<char>>, n: nat) -> (
    Seq<(KeyPointCategory, Seq<char>)>,
    Seq<Seq<char>>,
)
    decreases n,
{
    if n == 0 {
        (Seq::empty(), Seq::empty())
    } else {
        let (out, seen) = kp_state(parts, (n - 1) as nat);
        let p = parts[n - 1];
        if out.len() >= 3 {
            (out, seen)
        } else {
            match classify_spec(p) {
                None => (out, seen),
                Some(c) => if p.len() < min_len(c) || seen.contains(p) {
                    (out, seen)
                } else {
                    (out.push((c, clip(p))), seen.push(p))
                },
            }
        }
    }
}

/// What `extract_key_points` gives for a text.
pub open spec fn extract_spec(text: Seq<char>) -> Seq<(KeyPointCategory, Seq<char>)> {
    let t = trim(text);
    if t.len() < 4 || is_noisy_spec(t) {
        Seq::empty()
    } else {
        let parts = split_for_kp_spec(t);
        kp_state(parts, parts.len()).0
    }
}

fn seen_contains(seen: &Vec<Vec<char>>, p: &[char]) -> (b: bool)
    ensures
        b == seen@.map_values(|v: Vec<char>| v@).contains(p@),
{
    let mut i: usize = 0;
    while i < seen.len()
        invariant
            i <= seen.len(),
            forall|k: int| 0 <= k < i ==> (#[trigger] seen@[k])@ != p@,
        decreases seen.len() - i,
    {
        if crate::text::chars_eq(seen[i].as_slice(), p) {
            assert(seen@.map_values(|v: Vec<char>| v@)[i as int] == p@);
            return true;
        }
        i += 1;
    }
    false
}

fn clip_string(p: &[char]) -> (r: String)
    ensures
        r@ == clip(p@),
{
    if p.len() > 120 {
        let mut r = crate::text::string_of_range(p, 0, 120);
        push_char(&mut r, '…');
        assert(p@.subrange(0, 120) == p@.take(120));
        r
    } else {
        string_of(p)
    }
}

/// Key points of one text: classified clauses, at most three per text.
pub fn extract_key_points(text: &str) -> (r: Vec<ExtractedKeyPoint>)
    ensures
        r@.map_values(|k: ExtractedKeyPoint| k@) == extract_spec(text@),
        r.len() <= 3,
{
    let t = trimmed_chars(text);
    if t.len() < 4 || is_noisy(t.as_slice()) {
        let r: Vec<ExtractedKeyPoint> = Vec::new();
        assert(r@.map_values(|k: ExtractedKeyPoint| k@) =~= Seq::<(KeyPointCategory, Seq<char>)>::empty());
        return r;
    }
    let parts = split_for_kp(t.as_slice());
    let ghost ps = parts@.map_values(|v: Vec<char>| v@);
    let mut out: Vec<ExtractedKeyPoint> = Vec::new();
    let mut seen: Vec<Vec<char>> = Vec::new();
    let mut i: usize = 0;
    while i < parts.len()
        invariant
            i <= parts.len(),
            ps == parts@.map_values(|v: Vec<char>| v@),
            out@.map_values(|k: ExtractedKeyPoint| k@) == kp_state(ps, i as nat).0,
            seen@.map_values(|v: Vec<char>| v@) == kp_state(ps, i as nat).1,
            out.len() <= 3,
        decreases parts.len() - i,
    {
        let ghost before = out@.map_values(|k: ExtractedKeyPoint| k@);
        assert(ps[i as int] == parts[i as int]@);
        if out.len() < 3 {
            let p = parts[i].as_slice();
            match classify_sentence(p) {
                None => {},
                Some(c) => {
                    let min: usize = if c == KeyPointCategory::Action {
                        6
                    } else {
                        8
                    };
                    if p.len() >= min && !seen_contains(&seen, p) {
                        let kp = ExtractedKeyPoint { category: c, text: clip_string(p) };
                        out.push(kp);
                        let pv = parts[i].clone();
                        seen.push(pv);
                        proof {
                            assert(out@.map_values(|k: ExtractedKeyPoint| k@) =~= before.push(
                                (c, clip(ps[i as int])),
                            ));
                            assert(seen@.map_values(|v: Vec<char>| v@) =~= kp_state(ps, i as nat).1.push(ps[i as int]));
                        }
                    }
                },
            }
        }
        i += 1;
    }
    out
}


// ---------------------------------------------------------------- aggregation

/// Dedup window: a point equal to one of the last five is dropped.
pub const DEDUP_WINDOW: usize = 5;

/// Bound on the aggregated list: the oldest points are dropped beyond it.
pub const MAX_ITEMS: usize = 80;

/// A persisted / emitted key point.
#[derive(Debug)]
pub struct KeyPointRecord {
    pub result_id: String,
    pub category: KeyPointCategory,
    pub content: String,
    pub ts_ms: u64,
}

impl View for KeyPointRecord {
    type V = (Seq<char>, KeyPointCategory, Seq<char>, u64);

    open spec fn view(&self) -> (Seq<char>, KeyPointCategory, Seq<char>, u64) {
        (self.result_id@, self.category, self.content@, self.ts_ms)
    }
}

impl Clone for KeyPointRecord {
    fn clone(&self) -> (r: Self)
        ensures
            r@ == self@,
    {
        KeyPointRecord {
            result_id: self.result_id.clone(),
            category: self.category,
            content: self.content.clone(),
            ts_ms: self.ts_ms,
        }
    }
}

pub open spec fn records(v: Seq<KeyPointRecord>) -> Seq<(Seq<char>, KeyPointCategory, Seq<char>, u64)> {
    v.map_values(|r: KeyPointRecord| r@)
}

/// Result id of the record at list position `idx`: `kp-<ts>-<idx>`.
pub open spec fn record_id(ts_ms: u64, idx: nat) -> Seq<char> {
    "kp-"@ + dec(ts_ms as nat) + seq!['-'] + dec(idx)
}

/// The last `DEDUP_WINDOW` records (all of them when there are fewer).
pub open spec fn recent(items: Seq<(Seq<char>, KeyPointCategory, Seq<char>, u64)>) -> Seq<
    (Seq<char>, KeyPointCategory, Seq<char>, u64),
> {
    if items.len() > 5 {
        items.subrange(items.len() - 5, items.len() as int)
    } else {
        items
    }
}

pub open spec fn in_recent(items: Seq<(Seq<char>, KeyPointCategory, Seq<char>, u64)>, text: Seq<char>) -> bool {
    exists|k: int| 0 <= k < recent(items).len() && (#[trigger] recent(items)[k]).2 == text
}

/// Merging the first `n` extracted points: (list, records added this round).
pub open spec fn agg_run(
    items: Seq<(Seq<char>, KeyPointCategory, Seq<char>, u64)>,
    kps: Seq<(KeyPointCategory, Seq<char>)>,
    ts_ms: u64,
    n: nat,
) -> (Seq<(Seq<char>, KeyPointCategory, Seq<char>, u64)>, Seq<(Seq<char>, KeyPointCategory, Seq<char>, u64)>)
    decreases n,
{
    if n == 0 {
        (items, Seq::empty())
    } else {
        let (its, added) = agg_run(items, kps, ts_ms, (n - 1) as nat);
        let kp = kps[n - 1];
        if in_recent(its, kp.1) {
            (its, added)
        } else {
            let rec = (record_id(ts_ms, its.len()), kp.0, kp.1, ts_ms);
            (its.push(rec), added.push(rec))
        }
    }
}

/// A merging round appends: the list after it is the list before followed
/// by the records added (at most one per extracted point), each stamped with
/// the round's time and none repeating the text of one of the last five
/// records at the time it was added; the list kept is the newest 80 of them.
pub proof fn lemma_merge_appends(
    items: Seq<(Seq<char>, KeyPointCategory, Seq<char>, u64)>,
    kps: Seq<(KeyPointCategory, Seq<char>)>,
    ts_ms: u64,
    n: nat,
)
    requires
        n <= kps.len(),
    ensures
        ({
            let (its, add) = agg_run(items, kps, ts_ms, n);
            &&& its == items + add
            &&& add.len() <= n
            &&& forall|j: int| 0 <= j < add.len() ==> (#[trigger] add[j]).3 == ts_ms && !in_recent(
                items + add.take(j),
                add[j].2,
            )
            &&& cap_items(its).len() <= 80
            &&& cap_items(its) == its.subrange(
                if its.len() > 80 { its.len() - 80 } else { 0 },
                its.len() as int,
            )
        }),
    decreases n,
{
    if n == 0 {
        assert(items + Seq::<(Seq<char>, KeyPointCategory, Seq<char>, u64)>::empty() =~= items);
        assert(items.subrange(0, items.len() as int) =~= items);
    } else {
        lemma_merge_appends(items, kps, ts_ms, (n - 1) as nat);
        let (its0, add0) = agg_run(items, kps, ts_ms, (n - 1) as nat);
        let kp = kps[n - 1];
        let (its, add) = agg_run(items, kps, ts_ms, n);
        if !in_recent(its0, kp.1) {
            let rec = (record_id(ts_ms, its0.len()), kp.0, kp.1, ts_ms);
            assert(add == add0.push(rec));
            assert(its =~= items + add);
            assert forall|j: int| 0 <= j < add.len() implies (#[trigger] add[j]).3 == ts_ms && !in_recent(
                items + add.take(j),
                add[j].2,
            ) by {
                if j < add0.len() {
                    assert(add[j] == add0[j]);
                    assert(add.take(j) =~= add0.take(j));
                } else {
                    assert(add.take(j) =~= add0);
                }
            }
        }
        if its.len() <= 80 {
            assert(its.subrange(0, its.len() as int) =~= its);
        }
    }
}

/// The list bounded to its newest `MAX_ITEMS` records.
pub open spec fn cap_items(items: Seq<(Seq<char>, KeyPointCategory, Seq<char>, u64)>) -> Seq<
    (Seq<char>, KeyPointCategory, Seq<char>, u64),
> {
    if items.len() > 80 {
        items.subrange(items.len() - 80, items.len() as int)
    } else {
        items
    }
}

/// Per-session incremental aggregation: window dedup, bounded list.
pub struct KeyPointAggregator {
    items: Vec<KeyPointRecord>,
}

impl KeyPointAggregator {
    pub closed spec fn spec_items(&self) -> Seq<(Seq<char>, KeyPointCategory, Seq<char>, u64)> {
        records(self.items@)
    }

    /// The aggregator never holds more than `MAX_ITEMS` points.
    pub closed spec fn wf(&self) -> bool {
        self.items.len() <= 80
    }

    pub fn new() -> (r: Self)
        ensures
            r.spec_items() == Seq::<(Seq<char>, KeyPointCategory, Seq<char>, u64)>::empty(),
            r.wf(),
    {
        let r = KeyPointAggregator { items: Vec::new() };
        assert(records(r.items@) =~= Seq::<(Seq<char>, KeyPointCategory, Seq<char>, u64)>::empty());
        r
    }

    pub fn items(&self) -> (r: &[KeyPointRecord])
        ensures
            records(r@) == self.spec_items(),
    {
        self.items.as_slice()
    }

    fn in_recent_exec(&self, text: &String) -> (b: bool)
        ensures
            b == in_recent(self.spec_items(), text@),
    {
        let len = self.items.len();
        let start: usize = if len > DEDUP_WINDOW {
            len - DEDUP_WINDOW
        } else {
            0
        };
        let ghost its = self.spec_items();
        let mut k: usize = start;
        while k < len
            invariant
                len == self.items.len(),
                start <= k <= len,
                its == self.spec_items(),
                start == if len > 5 { len - 5 } else { 0 },
                forall|q: int| start <= q < k ==> (#[trigger] its[q]).2 != text@,
            decreases len - k,
        {
            if crate::text::str_eq(self.items[k].content.as_str(), text.as_str()) {
                assert(recent(its)[k - start] == its[k as int]);
                return true;
            }
            k += 1;
        }
        assert forall|q: int| 0 <= q < recent(its).len() implies (#[trigger] recent(its)[q]).2 != text@ by {
            assert(recent(its)[q] == its[q + start]);
        }
        false
    }

    /// Extracts the points of one final segment and merges them into the list.
    /// Returns the records added this round.
    pub fn push(&mut self, text: &str, ts_ms: u64) -> (added: Vec<KeyPointRecord>)
        requires
            old(self).wf(),
        ensures
            final(self).wf(),
            ({
                let kps = extract_spec(text@);
                let (its, add) = agg_run(old(self).spec_items(), kps, ts_ms, kps.len());
                &&& final(self).spec_items() == cap_items(its)
                &&& records(added@) == add
            }),
    {
        let extracted = extract_key_points(text);
        let ghost kps = extract_spec(text@);
        let ghost start = self.spec_items();
        let mut added: Vec<KeyPointRecord> = Vec::new();
        let mut i: usize = 0;
        assert(records(added@) =~= Seq::<(Seq<char>, KeyPointCategory, Seq<char>, u64)>::empty());
        while i < extracted.len()
            invariant
                i <= extracted.len(),
                extracted.len() <= 3,
                extracted@.map_values(|k: ExtractedKeyPoint| k@) == kps,
                start.len() <= 80,
                self.items.len() <= 80 + i,
                ({
                    let (its, add) = agg_run(start, kps, ts_ms, i as nat);
                    &&& self.spec_items() == its
                    &&& records(added@) == add
                }),
            decreases extracted.len() - i,
        {
            let kp = &extracted[i];
            assert(kps[i as int] == kp@);
            if !self.in_recent_exec(&kp.text) {
                let idx = self.items.len();
                let mut id = String::new();
                push_str(&mut id, "kp-");
                push_dec(&mut id, ts_ms);
                push_char(&mut id, '-');
                push_dec(&mut id, idx as u64);
                let rec = KeyPointRecord {
                    result_id: id,
                    category: kp.category,
                    content: kp.text.clone(),
                    ts_ms,
                };
                let ghost before_items = self.spec_items();
                let ghost before_added = records(added@);
                added.push(rec.clone());
                self.items.push(rec);
                proof {
                    assert(rec@.0 =~= record_id(ts_ms, before_items.len()));
                    assert(self.spec_items() =~= before_items.push(rec@));
                    assert(records(added@) =~= before_added.push(rec@));
                }
            }
            i += 1;
        }
        if self.items.len() > MAX_ITEMS {
            let drop = self.items.len() - MAX_ITEMS;
            let ghost its = self.spec_items();
            let tail = self.items.split_off(drop);
            self.items = tail;
            assert(self.spec_items() =~= cap_items(its));
        } else {
            assert(self.spec_items() == cap_items(self.spec_items()));
        }
        added
    }
}

} // verus!
