//! Session-quality vocabulary, edit distance and character error counts.
use vstd::prelude::*;

use crate::text::chars_of;

verus! {

/// Progressive result state (skeleton shown first, final fills it in).
#[derive(Debug, Clone, Copy, PartialEq, Eq, Structural)]
pub enum ResultStatus {
    Skeleton,
    Final,
}

/// Translation direction.
#[derive(Debug, Clone, Copy, PartialEq, Eq, Structural)]
pub enum TranslationDirection {
    ZhEn,
    EnZh,
}

/// Key-point category.
#[derive(Debug, Clone, Copy, PartialEq, Eq, Structural)]
pub enum KeyPointCategory {
    Requirement,
    Technical,
    Question,
    Decision,
    Action,
    Other,
}

/// Pipeline stage.
#[derive(Debug, Clone, Copy, PartialEq, Eq, Structural)]
pub enum StatusStage {
    Starting,
    AsrLoading,
    AsrReady,
    Recording,
    Importing,
    Idle,
}

/// Session quality verdict (aggregated from per-stream statistics).
#[derive(Debug, Clone, Copy, PartialEq, Eq, Structural)]
pub enum SessionQuality {
    /// Mostly real speech: analysable.
    Clean,
    /// Speech ratio too low or energy abnormal.
    Noise,
    /// Almost no speech.
    Silent,
    /// Low speech ratio: needs a manual look.
    Low,
}

impl SessionQuality {
    /// Whether downstream analysis (key points, briefs, …) should be skipped.
    pub fn skip_analysis(&self) -> (b: bool)
        ensures
            b == (*self == SessionQuality::Noise || *self == SessionQuality::Silent),
    {
        match self {
            SessionQuality::Noise | SessionQuality::Silent => true,
            _ => false,
        }
    }
}

// ---------------------------------------------------------------- edit distance

pub open spec fn min3(x: nat, y: nat, z: nat) -> nat {
    if x <= y && x <= z {
        x
    } else if y <= z {
        y
    } else {
        z
    }
}

/// Levenshtein distance (insertions, deletions, substitutions of one element).
pub open spec fn lev<T>(a: Seq<T>, b: Seq<T>) -> nat
    decreases a.len() + b.len(),
{
    if a.len() == 0 {
        b.len()
    } else if b.len() == 0 {
        a.len()
    } else {
        min3(
            lev(a.drop_last(), b) + 1,
            lev(a, b.drop_last()) + 1,
            lev(a.drop_last(), b.drop_last()) + (if a.last() == b.last() {
                0nat
            } else {
                1nat
            }),
        )
    }
}

/// The distance never exceeds the longer length.
pub proof fn lemma_lev_bound<T>(a: Seq<T>, b: Seq<T>)
    ensures
        lev(a, b) <= if a.len() >= b.len() {
            a.len()
        } else {
            b.len()
        },
    decreases a.len() + b.len(),
{
    if a.len() > 0 && b.len() > 0 {
        lemma_lev_bound(a.drop_last(), b.drop_last());
    }
}

/// Law: edit distance is symmetric.
pub proof fn lemma_lev_symmetric<T>(a: Seq<T>, b: Seq<T>)
    ensures
        lev(a, b) == lev(b, a),
    decreases a.len() + b.len(),
{
    if a.len() > 0 && b.len() > 0 {
        lemma_lev_symmetric(a.drop_last(), b);
        lemma_lev_symmetric(a, b.drop_last());
        lemma_lev_symmetric(a.drop_last(), b.drop_last());
    }
}

/// Law: a text is at distance zero from itself.
pub proof fn lemma_lev_self<T>(a: Seq<T>)
    ensures
        lev(a, a) == 0,
    decreases a.len(),
{
    if a.len() > 0 {
        lemma_lev_self(a.drop_last());
    }
}

/// Law: the distance is at least the difference of the lengths, and zero
/// only between equal sequences.
pub proof fn lemma_lev_lower_bound<T>(a: Seq<T>, b: Seq<T>)
    ensures
        lev(a, b) >= a.len() - b.len(),
        lev(a, b) >= b.len() - a.len(),
        lev(a, b) == 0 <==> a == b,
    decreases a.len() + b.len(),
{
    if a.len() > 0 && b.len() > 0 {
        lemma_lev_lower_bound(a.drop_last(), b);
        lemma_lev_lower_bound(a, b.drop_last());
        lemma_lev_lower_bound(a.drop_last(), b.drop_last());
        if lev(a, b) == 0 {
            assert(a.drop_last() == b.drop_last());
            assert(a =~= a.drop_last().push(a.last()));
            assert(b =~= b.drop_last().push(b.last()));
        }
    }
    if a == b {
        lemma_lev_self(a);
    }
    if a.len() == 0 && lev(a, b) == 0 {
        assert(b =~= a);
    }
    if b.len() == 0 && lev(a, b) == 0 {
        assert(a =~= b);
    }
}

proof fn lemma_take_last<T>(s: Seq<T>, i: int)
    requires
        0 <= i < s.len(),
    ensures
        s.take(i + 1).drop_last() == s.take(i),
        s.take(i + 1).last() == s[i],
        s.take(i + 1).len() == i + 1,
{
    assert(s.take(i + 1).drop_last() =~= s.take(i));
}

/// Row-by-row Levenshtein over `short` (outer) and `long` (inner).
fn lev_rows(short: &[char], long: &[char]) -> (d: usize)
    requires
        long.len() < usize::MAX,
        short.len() <= long.len(),
    ensures
        d == lev(short@, long@),
{
    let ll = long.len();
    let mut prev: Vec<usize> = Vec::new();
    let mut j: usize = 0;
    while j <= ll
        invariant
            j <= ll + 1,
            ll == long.len(),
            ll < usize::MAX,
            prev.len() == j,
            forall|k: int| 0 <= k < j ==> prev@[k] == lev(short@.take(0), long@.take(k)),
        decreases ll + 1 - j,
    {
        assert(short@.take(0).len() == 0);
        prev.push(j);
        j += 1;
    }
    let mut i: usize = 0;
    while i < short.len()
        invariant
            i <= short.len(),
            short.len() <= ll,
            ll == long.len(),
            ll < usize::MAX,
            prev.len() == ll + 1,
            forall|k: int| 0 <= k <= ll ==> prev@[k] == lev(short@.take(i as int), long@.take(k)),
        decreases short.len() - i,
    {
        let mut curr: Vec<usize> = Vec::new();
        proof {
            lemma_take_last(short@, i as int);
            lemma_lev_bound(short@.take(i + 1), long@.take(0));
        }
        curr.push(i + 1);
        let mut j: usize = 0;
        while j < ll
            invariant
                i < short.len(),
                short.len() <= ll,
                ll == long.len(),
                ll < usize::MAX,
                prev.len() == ll + 1,
                j <= ll,
                curr.len() == j + 1,
                forall|k: int| 0 <= k <= ll ==> prev@[k] == lev(short@.take(i as int), long@.take(k)),
                forall|k: int|
                    0 <= k <= j ==> curr@[k] == lev(short@.take(i + 1), long@.take(k)),
            decreases ll - j,
        {
            proof {
                lemma_take_last(short@, i as int);
                lemma_take_last(long@, j as int);
                lemma_lev_bound(short@.take(i as int), long@.take(j + 1));
                lemma_lev_bound(short@.take(i + 1), long@.take(j as int));
                lemma_lev_bound(short@.take(i as int), long@.take(j as int));
            }
            let cost: usize = if short[i] == long[j] {
                0
            } else {
                1
            };
            let del = prev[j + 1] + 1;
            let ins = curr[j] + 1;
            let sub = prev[j] + cost;
            let best = if del <= ins && del <= sub {
                del
            } else if ins <= sub {
                ins
            } else {
                sub
            };
            curr.push(best);
            j += 1;
        }
        prev = curr;
        i += 1;
    }
    assert(short@.take(short.len() as int) == short@);
    assert(long@.take(ll as int) == long@);
    prev[ll]
}

pub open spec fn word_views(v: Seq<Vec<char>>) -> Seq<Seq<char>> {
    v.map_values(|w: Vec<char>| w@)
}

/// Row-by-row Levenshtein over word sequences (words compared by their
/// characters).
fn lev_rows_words(short: &Vec<Vec<char>>, long: &Vec<Vec<char>>) -> (d: usize)
    requires
        long.len() < usize::MAX,
        short.len() <= long.len(),
    ensures
        d == lev(word_views(short@), word_views(long@)),
{
    let ghost sv = word_views(short@);
    let ghost lv = word_views(long@);
    let ll = long.len();
    let mut prev: Vec<usize> = Vec::new();
    let mut j: usize = 0;
    while j <= ll
        invariant
            j <= ll + 1,
            ll == long.len(),
            ll < usize::MAX,
            prev.len() == j,
            sv == word_views(short@),
            lv == word_views(long@),
            forall|k: int| 0 <= k < j ==> prev@[k] == lev(sv.take(0), lv.take(k)),
        decreases ll + 1 - j,
    {
        assert(sv.take(0).len() == 0);
        prev.push(j);
        j += 1;
    }
    let mut i: usize = 0;
    while i < short.len()
        invariant
            i <= short.len(),
            short.len() <= ll,
            ll == long.len(),
            ll < usize::MAX,
            sv == word_views(short@),
            lv == word_views(long@),
            prev.len() == ll + 1,
            forall|k: int| 0 <= k <= ll ==> prev@[k] == lev(sv.take(i as int), lv.take(k)),
        decreases short.len() - i,
    {
        let mut curr: Vec<usize> = Vec::new();
        proof {
            lemma_take_last(sv, i as int);
            lemma_lev_bound(sv.take(i + 1), lv.take(0));
        }
        curr.push(i + 1);
        let mut j: usize = 0;
        while j < ll
            invariant
                i < short.len(),
                short.len() <= ll,
                ll == long.len(),
                ll < usize::MAX,
                sv == word_views(short@),
                lv == word_views(long@),
                prev.len() == ll + 1,
                j <= ll,
                curr.len() == j + 1,
                forall|k: int| 0 <= k <= ll ==> prev@[k] == lev(sv.take(i as int), lv.take(k)),
                forall|k: int| 0 <= k <= j ==> curr@[k] == lev(sv.take(i + 1), lv.take(k)),
            decreases ll - j,
        {
            proof {
                lemma_take_last(sv, i as int);
                lemma_take_last(lv, j as int);
                lemma_lev_bound(sv.take(i as int), lv.take(j + 1));
                lemma_lev_bound(sv.take(i + 1), lv.take(j as int));
                lemma_lev_bound(sv.take(i as int), lv.take(j as int));
            }
            let same = crate::text::chars_eq(short[i].as_slice(), long[j].as_slice());
            assert(sv[i as int] == short@[i as int]@ && lv[j as int] == long@[j as int]@);
            let cost: usize = if same {
                0
            } else {
                1
            };
            let del = prev[j + 1] + 1;
            let ins = curr[j] + 1;
            let sub = prev[j] + cost;
            let best = if del <= ins && del <= sub {
                del
            } else if ins <= sub {
                ins
            } else {
                sub
            };
            curr.push(best);
            j += 1;
        }
        prev = curr;
        i += 1;
    }
    assert(sv.take(short.len() as int) == sv);
    assert(lv.take(ll as int) == lv);
    prev[ll]
}

/// The white-space separated words of a text (`split_whitespace`).
pub open spec fn words_spec(s: Seq<char>) -> Seq<Seq<char>> {
    crate::text::words(s)
}

/// Word-level error counts: `(reference word count, word edit distance)`
/// over the white-space separated words.
pub fn wer_counts(reference: &str, hypothesis: &str) -> (r: (usize, usize))
    requires
        reference@.len() < usize::MAX,
        hypothesis@.len() < usize::MAX,
    ensures
        r.0 == words_spec(reference@).len(),
        r.1 == lev(words_spec(reference@), words_spec(hypothesis@)),
{
    let rw = crate::text::words_of(reference);
    let hw = crate::text::words_of(hypothesis);
    if rw.len() == 0 {
        return (0, hw.len());
    }
    let d = if rw.len() <= hw.len() {
        lev_rows_words(&rw, &hw)
    } else {
        proof {
            lemma_lev_symmetric(word_views(rw@), word_views(hw@));
        }
        lev_rows_words(&hw, &rw)
    };
    (rw.len(), d)
}

/// Levenshtein distance between two character sequences (the base of CER).
pub fn edit_distance(a: &[char], b: &[char]) -> (d: usize)
    requires
        a.len() < usize::MAX,
        b.len() < usize::MAX,
    ensures
        d == lev(a@, b@),
{
    if a.len() <= b.len() {
        lev_rows(a, b)
    } else {
        proof {
            lemma_lev_symmetric(a@, b@);
        }
        lev_rows(b, a)
    }
}

/// Character-level error counts: `(reference length, edit distance)`.
pub fn cer_counts(reference: &str, hypothesis: &str) -> (r: (usize, usize))
    requires
        reference@.len() < usize::MAX,
        hypothesis@.len() < usize::MAX,
    ensures
        r.0 == reference@.len(),
        r.1 == lev(reference@, hypothesis@),
{
    let rv = chars_of(reference);
    let hv = chars_of(hypothesis);
    if rv.len() == 0 {
        return (0, hv.len());
    }
    let d = edit_distance(rv.as_slice(), hv.as_slice());
    (rv.len(), d)
}

// ---------------------------------------------------------------- benchmark text

/// `char::is_alphanumeric`: Unicode `Alphabetic` or `Numeric`.
pub uninterp spec fn unicode_alphanumeric(c: char) -> bool;

/// The characters of `char::to_lowercase` (one or more).
pub uninterp spec fn unicode_char_lower(c: char) -> Seq<char>;

/// `char::is_alphanumeric`. Its result is named; on ASCII it is the ASCII
/// letters and digits, as the documentation says.
#[verifier::external_body]
fn is_alphanumeric(c: char) -> (b: bool)
    ensures
        b == unicode_alphanumeric(c),
        (c as u32) < 128 ==> b == crate::text::is_alnum_spec(c),
{
    c.is_alphanumeric()
}

/// `char::to_lowercase`, collected. Its result is named; an ASCII character
/// maps to its ASCII lower case, as the documentation says.
#[verifier::external_body]
fn char_to_lowercase(c: char) -> (r: String)
    ensures
        r@ == unicode_char_lower(c),
        (c as u32) < 128 ==> r@ == seq![crate::text::lower_spec(c)],
{
    c.to_lowercase().collect::<String>()
}

/// The text compared by the character error rate: letters and digits only,
/// each lower-cased.
pub open spec fn normalize_spec(s: Seq<char>) -> Seq<char>
    decreases s.len(),
{
    if s.len() == 0 {
        Seq::empty()
    } else {
        normalize_spec(s.drop_last()) + if unicode_alphanumeric(s.last()) {
            unicode_char_lower(s.last())
        } else {
            Seq::empty()
        }
    }
}

/// Keeps the letters and digits of `text`, lower-cased (punctuation and
/// white space dropped).
pub fn normalize(text: &str) -> (r: String)
    ensures
        r@ == normalize_spec(text@),
{
    let cs = chars_of(text);
    let mut out = String::new();
    let mut i: usize = 0;
    while i < cs.len()
        invariant
            i <= cs.len(),
            cs@ == text@,
            out@ == normalize_spec(cs@.subrange(0, i as int)),
        decreases cs.len() - i,
    {
        let ghost before = out@;
        let c = cs[i];
        if is_alphanumeric(c) {
            let l = char_to_lowercase(c);
            crate::text::push_str(&mut out, l.as_str());
        }
        proof {
            let sub = cs@.subrange(0, i + 1);
            assert(sub.drop_last() =~= cs@.subrange(0, i as int));
            assert(sub.last() == c);
            if !unicode_alphanumeric(c) {
                assert(out@ =~= before + Seq::<char>::empty());
            }
        }
        i += 1;
    }
    assert(cs@.subrange(0, cs.len() as int) =~= cs@);
    out
}

// ---------------------------------------------------------------- text noise

/// The filler particles counted by the noise score.
pub open spec fn is_filler(c: char) -> bool {
    c == '嗯' || c == '啊' || c == '哦' || c == '唉' || c == '哎' || c == '呢' || c == '呀' || c == '吧'
        || c == '啦' || c == '嘛' || c == '么' || c == '呃' || c == '嘿' || c == '哈'
}

/// A meaningful character: a common CJK ideograph (U+4E00..U+9FFF), an ASCII
/// letter or an ASCII digit.
pub open spec fn is_meaningful(c: char) -> bool {
    ('\u{4e00}' <= c && c <= '\u{9fff}') || ('a' <= c && c <= 'z') || ('A' <= c && c <= 'Z') || ('0' <= c
        && c <= '9')
}

pub open spec fn filler_count(s: Seq<char>) -> nat
    decreases s.len(),
{
    if s.len() == 0 {
        0
    } else {
        filler_count(s.drop_last()) + if is_filler(s.last()) {
            1nat
        } else {
            0nat
        }
    }
}

pub open spec fn meaningful_count(s: Seq<char>) -> nat
    decreases s.len(),
{
    if s.len() == 0 {
        0
    } else {
        meaningful_count(s.drop_last()) + if is_meaningful(s.last()) {
            1nat
        } else {
            0nat
        }
    }
}

/// Characters that repeat the one before them (the second and later
/// characters of each run).
pub open spec fn repeat_count(s: Seq<char>) -> nat
    decreases s.len(),
{
    if s.len() < 2 {
        0
    } else {
        repeat_count(s.drop_last()) + if s.last() == s[s.len() - 2] {
            1nat
        } else {
            0nat
        }
    }
}

/// The adjacent pair at `i` occurs at no earlier position.
pub open spec fn first_bigram_at(s: Seq<char>, i: int) -> bool {
    forall|j: int| 0 <= j < i ==> !(#[trigger] s[j] == s[i] && s[j + 1] == s[i + 1])
}

/// The number of distinct adjacent character pairs.
pub open spec fn distinct_bigrams(s: Seq<char>) -> nat
    decreases s.len(),
{
    if s.len() < 2 {
        0
    } else {
        distinct_bigrams(s.drop_last()) + if first_bigram_at(s, s.len() - 2) {
            1nat
        } else {
            0nat
        }
    }
}

/// The character counts the text-noise score of a segment is made of.
#[derive(Debug, Clone, Copy, PartialEq, Eq)]
pub struct NoiseCounts {
    /// Characters.
    pub total: usize,
    /// Filler particles.
    pub fillers: usize,
    /// Characters that repeat the previous one.
    pub repeats: usize,
    /// Meaningful characters.
    pub meaningful: usize,
    /// Distinct adjacent pairs.
    pub distinct_bigrams: usize,
}

fn filler_char(c: char) -> (b: bool)
    ensures
        b == is_filler(c),
{
    c == '嗯' || c == '啊' || c == '哦' || c == '唉' || c == '哎' || c == '呢' || c == '呀' || c == '吧' || c
        == '啦' || c == '嘛' || c == '么' || c == '呃' || c == '嘿' || c == '哈'
}

fn meaningful_char(c: char) -> (b: bool)
    ensures
        b == is_meaningful(c),
{
    ('\u{4e00}' <= c && c <= '\u{9fff}') || ('a' <= c && c <= 'z') || ('A' <= c && c <= 'Z') || ('0' <= c
        && c <= '9')
}

proof fn lemma_first_bigram_prefix(s: Seq<char>, n: int, i: int)
    requires
        0 <= i,
        i + 2 <= n <= s.len(),
    ensures
        first_bigram_at(s.take(n), i) == first_bigram_at(s, i),
{
    let t = s.take(n);
    assert(t[i] == s[i] && t[i + 1] == s[i + 1]);
    if first_bigram_at(s, i) {
        assert forall|j: int| 0 <= j < i implies !(#[trigger] t[j] == t[i] && t[j + 1] == t[i + 1]) by {
            assert(!(s[j] == s[i] && s[j + 1] == s[i + 1]));
        }
    }
    if first_bigram_at(t, i) {
        assert forall|j: int| 0 <= j < i implies !(#[trigger] s[j] == s[i] && s[j + 1] == s[i + 1]) by {
            assert(!(t[j] == t[i] && t[j + 1] == t[i + 1]));
        }
    }
}

/// The counts behind the text-noise score of `text`.
pub fn noise_counts(text: &str) -> (r: NoiseCounts)
    ensures
        r.total == text@.len(),
        r.fillers == filler_count(text@),
        r.repeats == repeat_count(text@),
        r.meaningful == meaningful_count(text@),
        r.distinct_bigrams == distinct_bigrams(text@),
{
    let cs = chars_of(text);
    let mut fillers: usize = 0;
    let mut repeats: usize = 0;
    let mut meaningful: usize = 0;
    let mut distinct: usize = 0;
    let mut i: usize = 0;
    while i < cs.len()
        invariant
            i <= cs.len(),
            cs@ == text@,
            fillers == filler_count(cs@.take(i as int)),
            repeats == repeat_count(cs@.take(i as int)),
            meaningful == meaningful_count(cs@.take(i as int)),
            distinct == distinct_bigrams(cs@.take(i as int)),
            fillers <= i,
            repeats <= i,
            meaningful <= i,
            distinct <= i,
        decreases cs.len() - i,
    {
        let c = cs[i];
        let ghost t = cs@.take(i + 1);
        proof {
            assert(t.drop_last() =~= cs@.take(i as int));
            assert(t.last() == c);
        }
        if filler_char(c) {
            fillers += 1;
        }
        if meaningful_char(c) {
            meaningful += 1;
        }
        if i > 0 {
            assert(t[t.len() - 2] == cs@[i - 1]);
            if cs[i - 1] == c {
                repeats += 1;
            }
            // is the pair (cs[i-1], c) new?
            let mut fresh = true;
            let mut j: usize = 0;
            while j + 1 < i
                invariant
                    1 <= i < cs.len(),
                    j + 1 <= i,
                    fresh == (forall|k: int| 0 <= k < j ==> !(#[trigger] cs@[k] == cs@[i - 1] && cs@[k + 1] == cs@[i as int])),
                decreases i - j,
            {
                if cs[j] == cs[i - 1] && cs[j + 1] == cs[i] {
                    fresh = false;
                }
                j += 1;
            }
            proof {
                lemma_first_bigram_prefix(cs@, i + 1, i - 1);
                assert(fresh == first_bigram_at(cs@, i - 1));
            }
            if fresh {
                distinct += 1;
            }
        } else {
            assert(repeat_count(t) == 0);
            assert(distinct_bigrams(t) == 0);
        }
        i += 1;
    }
    assert(cs@.take(cs.len() as int) =~= cs@);
    NoiseCounts { total: cs.len(), fillers, repeats, meaningful, distinct_bigrams: distinct }
}

} // verus!
