//! Conversation metrics (integer part) and the in-meeting nudge engine.
//!
//! The ratios, pace and health score are floating-point quantities; the
//! library computes every count, duration and decision they rest on.
use vstd::prelude::*;

use crate::key_points::any_in;
use crate::key_points::contains_any;
use crate::text::{
    contains_char, ends_with, is_whitespace, is_ws, lemma_take_step, occurs_at, push_dec,
    push_str, trim, trimmed_chars,
};

verus! {

// ---------------------------------------------------------------- text heuristics

pub open spec fn question_words() -> Seq<&'static str> {
    seq!["什么", "怎么", "为什么", "如何", "是否", "能不能", "要不要", "多少", "哪个", "哪些", "几点", "几号"]
}

pub open spec fn ends_with_char(s: Seq<char>, c: char) -> bool {
    s.len() > 0 && s.last() == c
}

/// Question heuristic: `?`/`？` anywhere, a trailing 吗/呢, or a question word.
pub open spec fn is_question_text_spec(text: Seq<char>) -> bool {
    let t = trim(text);
    t.len() > 0 && (t.contains('?') || t.contains('？') || ends_with_char(t, '吗') || ends_with_char(
        t,
        '呢',
    ) || any_in(t, question_words()))
}

/// Whether a text reads as a question.
pub fn is_question_text(text: &str) -> (b: bool)
    ensures
        b == is_question_text_spec(text@),
{
    let t = trimmed_chars(text);
    if t.len() == 0 {
        return false;
    }
    if contains_char(t.as_slice(), '?') || contains_char(t.as_slice(), '？') {
        return true;
    }
    let last = t[t.len() - 1];
    if last == '吗' || last == '呢' {
        return true;
    }
    contains_any(
        t.as_slice(),
        &["什么", "怎么", "为什么", "如何", "是否", "能不能", "要不要", "多少", "哪个", "哪些", "几点", "几号"],
    )
}

/// Number of maximal runs of non-white-space characters (`split_whitespace().count()`).
pub open spec fn word_count(s: Seq<char>) -> nat
    decreases s.len(),
{
    if s.len() == 0 {
        0
    } else {
        word_count(s.drop_last()) + if !is_ws(s.last()) && (s.len() == 1 || is_ws(s[s.len() - 2])) {
            1nat
        } else {
            0nat
        }
    }
}

proof fn lemma_word_count_bound(s: Seq<char>)
    ensures
        word_count(s) <= s.len(),
    decreases s.len(),
{
    if s.len() > 0 {
        lemma_word_count_bound(s.drop_last());
    }
}

/// Word count (Chinese runs without spaces count as one word).
pub fn count_words(text: &str) -> (n: usize)
    ensures
        n == word_count(text@),
{
    let cs = crate::text::chars_of(text);
    let mut n: usize = 0;
    let mut i: usize = 0;
    while i < cs.len()
        invariant
            i <= cs.len(),
            cs@ == text@,
            n == word_count(cs@.take(i as int)),
        decreases cs.len() - i,
    {
        proof {
            lemma_take_step(cs@, i as int);
            lemma_word_count_bound(cs@.take(i as int));
            if i > 0 {
                assert(cs@.take(i + 1)[i - 1] == cs@[i - 1]);
            }
        }
        if !is_whitespace(cs[i]) && (i == 0 || is_whitespace(cs[i - 1])) {
            n += 1;
        }
        i += 1;
    }
    assert(cs@.take(cs.len() as int) == cs@);
    n
}

// ---------------------------------------------------------------- segment timing

/// Timing of one final segment on the session time axis.
#[derive(Debug, Clone, Copy, PartialEq, Eq, Structural)]
pub struct Seg {
    pub me: bool,
    pub start_ms: u64,
    pub end_ms: u64,
    pub words: usize,
    pub question: bool,
}

pub open spec fn sat_sub(a: u64, b: u64) -> u64 {
    if a >= b {
        (a - b) as u64
    } else {
        0
    }
}

/// The timing of a final segment: speaker 0 is "me"; `ts_ms` marks the
/// segment's end and `duration_ms` its length. Partial or blank segments have none.
pub open spec fn seg_of(speaker_id: u32, text: Seq<char>, is_partial: bool, ts_ms: u64, duration_ms: u64) -> Option<Seg> {
    if is_partial || trim(text).len() == 0 {
        None
    } else {
        Some(
            Seg {
                me: speaker_id == 0,
                start_ms: sat_sub(ts_ms, duration_ms),
                end_ms: ts_ms,
                words: word_count(text) as usize,
                question: is_question_text_spec(text),
            },
        )
    }
}

/// Timing of a transcript segment for the metrics (none for partial or blank ones).
pub fn segment_timing(speaker_id: u32, text: &str, is_partial: bool, ts_ms: u64, duration_ms: u64) -> (r: Option<Seg>)
    ensures
        r == seg_of(speaker_id, text@, is_partial, ts_ms, duration_ms),
{
    if is_partial || crate::text::is_blank_str(text) {
        return None;
    }
    Some(
        Seg {
            me: speaker_id == 0,
            start_ms: ts_ms.saturating_sub(duration_ms),
            end_ms: ts_ms,
            words: count_words(text),
            question: is_question_text(text),
        },
    )
}

pub open spec fn sorted_by_start(segs: Seq<Seg>) -> bool {
    forall|i: int, j: int| 0 <= i <= j < segs.len() ==> segs[i].start_ms <= segs[j].start_ms
}

/// `x` placed into `s` after every segment that starts no later than it
/// (scanning from the back): one step of a stable insertion sort.
pub open spec fn insert_by_start(s: Seq<Seg>, x: Seg) -> Seq<Seg>
    decreases s.len(),
{
    if s.len() == 0 {
        seq![x]
    } else if s.last().start_ms <= x.start_ms {
        s.push(x)
    } else {
        insert_by_start(s.drop_last(), x).push(s.last())
    }
}

/// The segments ordered by start time, ties kept in their given order
/// (`sort_by_key`, which is stable).
pub open spec fn sort_by_start_spec(s: Seq<Seg>) -> Seq<Seg>
    decreases s.len(),
{
    if s.len() == 0 {
        Seq::empty()
    } else {
        insert_by_start(sort_by_start_spec(s.drop_last()), s.last())
    }
}

proof fn lemma_insert_by_start_keeps(s: Seq<Seg>, x: Seg)
    ensures
        insert_by_start(s, x).to_multiset() =~= s.to_multiset().insert(x),
        sorted_by_start(s) ==> sorted_by_start(insert_by_start(s, x)),
        insert_by_start(s, x).len() == s.len() + 1,
        forall|k: int| 0 <= k < insert_by_start(s, x).len() ==> (#[trigger] insert_by_start(s, x)[k] == x
            || s.contains(insert_by_start(s, x)[k])),
    decreases s.len(),
{
    broadcast use vstd::seq_lib::group_to_multiset_ensures;

    if s.len() == 0 {
        assert(seq![x] =~= Seq::<Seg>::empty().push(x));
    } else if s.last().start_ms <= x.start_ms {
        let r = s.push(x);
        assert forall|k: int| 0 <= k < r.len() implies (#[trigger] r[k] == x || s.contains(r[k])) by {
            if k < s.len() {
                assert(r[k] == s[k]);
            }
        }
    } else {
        let d = s.drop_last();
        lemma_insert_by_start_keeps(d, x);
        let i = insert_by_start(d, x);
        let r = i.push(s.last());
        assert(s =~= d.push(s.last()));
        assert forall|k: int| 0 <= k < r.len() implies (#[trigger] r[k] == x || s.contains(r[k])) by {
            if k < i.len() {
                assert(r[k] == i[k]);
                if i[k] != x {
                    let w = choose|w: int| 0 <= w < d.len() && d[w] == i[k];
                    assert(s[w] == d[w]);
                }
            } else {
                assert(r[k] == s[s.len() - 1]);
            }
        }
        if sorted_by_start(s) {
            assert(sorted_by_start(d)) by {
                assert forall|a: int, b: int| 0 <= a <= b < d.len() implies (#[trigger] d[a]).start_ms
                    <= (#[trigger] d[b]).start_ms by {
                    assert(d[a] == s[a] && d[b] == s[b]);
                }
            }
            assert forall|a: int, b: int| 0 <= a <= b < r.len() implies (#[trigger] r[a]).start_ms
                <= (#[trigger] r[b]).start_ms by {
                if a == b {
                } else if b == r.len() - 1 {
                    assert(r[b] == s.last());
                    assert(r[a] == i[a]);
                    if i[a] == x {
                    } else {
                        let w = choose|w: int| 0 <= w < d.len() && d[w] == i[a];
                        assert(s[w] == d[w]);
                        assert(s[w].start_ms <= s[s.len() - 1].start_ms);
                    }
                } else {
                    assert(r[a] == i[a] && r[b] == i[b]);
                }
            }
        }
    }
}

/// Ordering by start time puts the segments in order and keeps each of
/// them, as many times as it was given.
pub proof fn lemma_sort_by_start_orders_and_keeps(s: Seq<Seg>)
    ensures
        sorted_by_start(sort_by_start_spec(s)),
        sort_by_start_spec(s).to_multiset() =~= s.to_multiset(),
    decreases s.len(),
{
    broadcast use vstd::seq_lib::group_to_multiset_ensures;

    if s.len() > 0 {
        lemma_sort_by_start_orders_and_keeps(s.drop_last());
        lemma_insert_by_start_keeps(sort_by_start_spec(s.drop_last()), s.last());
        assert(s =~= s.drop_last().push(s.last()));
    }
}

proof fn lemma_insert_at(s: Seq<Seg>, x: Seg, p: int)
    requires
        0 <= p <= s.len(),
        forall|j: int| p <= j < s.len() ==> (#[trigger] s[j]).start_ms > x.start_ms,
        p > 0 ==> s[p - 1].start_ms <= x.start_ms,
    ensures
        insert_by_start(s, x) == s.insert(p, x),
    decreases s.len(),
{
    if s.len() == 0 {
        assert(s.insert(p, x) =~= seq![x]);
    } else if p == s.len() {
        assert(s.insert(p, x) =~= s.push(x));
    } else {
        let d = s.drop_last();
        assert(forall|j: int| p <= j < d.len() ==> (#[trigger] d[j]).start_ms == s[j].start_ms);
        lemma_insert_at(d, x, p);
        assert(s.insert(p, x) =~= d.insert(p, x).push(s.last()));
    }
}

fn insert_seg(v: &mut Vec<Seg>, x: Seg)
    ensures
        final(v)@ == insert_by_start(old(v)@, x),
{
    let mut p: usize = v.len();
    while p > 0 && v[p - 1].start_ms > x.start_ms
        invariant
            p <= v.len(),
            v@ == old(v)@,
            forall|j: int| p <= j < v.len() ==> (#[trigger] v@[j]).start_ms > x.start_ms,
        decreases p,
    {
        p -= 1;
    }
    proof {
        lemma_insert_at(v@, x, p as int);
    }
    v.insert(p, x);
}

/// Segments ordered by start time; equal starts keep their order.
pub fn sort_by_start(segs: &[Seg]) -> (r: Vec<Seg>)
    ensures
        r@ == sort_by_start_spec(segs@),
{
    let mut r: Vec<Seg> = Vec::new();
    let mut i: usize = 0;
    while i < segs.len()
        invariant
            i <= segs.len(),
            r@ == sort_by_start_spec(segs@.take(i as int)),
        decreases segs.len() - i,
    {
        proof {
            assert(segs@.take(i + 1).drop_last() =~= segs@.take(i as int));
        }
        insert_seg(&mut r, segs[i]);
        i += 1;
    }
    assert(segs@.take(segs.len() as int) =~= segs@);
    r
}

// ---------------------------------------------------------------- tallies

/// Integer aggregates of a conversation.
#[derive(Debug, Clone, Copy, PartialEq, Eq, Structural)]
pub struct Tally {
    pub me_ms: u64,
    pub them_ms: u64,
    pub words_me: usize,
    pub words_them: usize,
    pub questions_me: usize,
    pub segment_count_me: usize,
    pub segment_count_them: usize,
    pub call_end_ms: u64,
    pub interruption_count: usize,
}

pub open spec fn dur(s: Seg) -> nat {
    sat_sub(s.end_ms, s.start_ms) as nat
}

pub open spec fn tally_spec(segs: Seq<Seg>) -> (nat, nat, nat, nat, nat, nat, nat, nat)
    decreases segs.len(),
{
    if segs.len() == 0 {
        (0, 0, 0, 0, 0, 0, 0, 0)
    } else {
        let (me_ms, them_ms, wm, wt, q, cm, ct, end) = tally_spec(segs.drop_last());
        let s = segs.last();
        let end2: nat = if s.end_ms > end { s.end_ms as nat } else { end };
        if s.me {
            (me_ms + dur(s), them_ms, wm + (s.words as nat), wt, q + if s.question { 1nat } else { 0nat }, cm + 1, ct, end2)
        } else {
            (me_ms, them_ms + dur(s), wm, wt + (s.words as nat), q, cm, ct + 1, end2)
        }
    }
}

/// Adjacent segments of different speakers that overlap in time.
pub open spec fn interruptions_upto(segs: Seq<Seg>, n: int) -> nat
    decreases n,
{
    if n <= 1 {
        0
    } else {
        interruptions_upto(segs, n - 1) + if segs[n - 2].me != segs[n - 1].me && segs[n - 1].start_ms
            < segs[n - 2].end_ms {
            1nat
        } else {
            0nat
        }
    }
}

/// Every sum of the tally fits its machine type.
pub open spec fn tally_fits(segs: Seq<Seg>) -> bool {
    let t = tally_spec(segs);
    t.0 <= u64::MAX && t.1 <= u64::MAX && t.2 <= usize::MAX && t.3 <= usize::MAX
}

proof fn lemma_tally_prefix(segs: Seq<Seg>, n: int)
    requires
        0 <= n <= segs.len(),
    ensures
        tally_spec(segs.take(n)).0 <= tally_spec(segs).0,
        tally_spec(segs.take(n)).1 <= tally_spec(segs).1,
        tally_spec(segs.take(n)).2 <= tally_spec(segs).2,
        tally_spec(segs.take(n)).3 <= tally_spec(segs).3,
        tally_spec(segs.take(n)).4 <= n,
        tally_spec(segs.take(n)).5 <= n,
        tally_spec(segs.take(n)).6 <= n,
    decreases segs.len() - n,
{
    lemma_tally_counts(segs.take(n));
    if n < segs.len() {
        lemma_tally_prefix(segs, n + 1);
        assert(segs.take(n + 1).drop_last() =~= segs.take(n));
    } else {
        assert(segs.take(n) =~= segs);
        lemma_tally_counts(segs);
    }
}

proof fn lemma_tally_counts(segs: Seq<Seg>)
    ensures
        tally_spec(segs).4 <= segs.len(),
        tally_spec(segs).5 <= segs.len(),
        tally_spec(segs).6 <= segs.len(),
    decreases segs.len(),
{
    if segs.len() > 0 {
        lemma_tally_counts(segs.drop_last());
    }
}

proof fn lemma_interruptions_bound(segs: Seq<Seg>, n: int)
    ensures
        interruptions_upto(segs, n) <= if n < 0 { 0 } else { n },
    decreases n,
{
    if n > 1 {
        lemma_interruptions_bound(segs, n - 1);
    }
}

/// Durations, words, questions, segment counts, call end and interruptions of
/// the final segments (taken in the order given).
pub fn tally(segs: &[Seg]) -> (t: Tally)
    requires
        tally_fits(segs@),
    ensures
        ({
            let s = tally_spec(segs@);
            &&& t.me_ms == s.0
            &&& t.them_ms == s.1
            &&& t.words_me == s.2
            &&& t.words_them == s.3
            &&& t.questions_me == s.4
            &&& t.segment_count_me == s.5
            &&& t.segment_count_them == s.6
            &&& t.call_end_ms == s.7
        }),
        t.interruption_count == interruptions_upto(segs@, segs@.len() as int),
{
    let mut t = Tally {
        me_ms: 0,
        them_ms: 0,
        words_me: 0,
        words_them: 0,
        questions_me: 0,
        segment_count_me: 0,
        segment_count_them: 0,
        call_end_ms: 0,
        interruption_count: 0,
    };
    let mut i: usize = 0;
    while i < segs.len()
        invariant
            i <= segs.len(),
            tally_fits(segs@),
            ({
                let s = tally_spec(segs@.take(i as int));
                &&& t.me_ms == s.0
                &&& t.them_ms == s.1
                &&& t.words_me == s.2
                &&& t.words_them == s.3
                &&& t.questions_me == s.4
                &&& t.segment_count_me == s.5
                &&& t.segment_count_them == s.6
                &&& t.call_end_ms == s.7
            }),
            t.interruption_count == interruptions_upto(segs@, i as int),
            t.interruption_count <= i,
        decreases segs.len() - i,
    {
        let s = segs[i];
        proof {
            assert(segs@.take(i + 1).drop_last() =~= segs@.take(i as int));
            assert(segs@.take(i + 1).last() == s);
            lemma_tally_prefix(segs@, i + 1);
            lemma_tally_prefix(segs@, i as int);
        }
        let d: u64 = s.end_ms.saturating_sub(s.start_ms);
        if s.me {
            t.me_ms = t.me_ms + d;
            t.words_me = t.words_me + s.words;
            t.segment_count_me = t.segment_count_me + 1;
            if s.question {
                t.questions_me = t.questions_me + 1;
            }
        } else {
            t.them_ms = t.them_ms + d;
            t.words_them = t.words_them + s.words;
            t.segment_count_them = t.segment_count_them + 1;
        }
        if s.end_ms > t.call_end_ms {
            t.call_end_ms = s.end_ms;
        }
        if i >= 1 {
            let p = segs[i - 1];
            if p.me != s.me && s.start_ms < p.end_ms {
                t.interruption_count = t.interruption_count + 1;
            }
        }
        i += 1;
    }
    assert(segs@.take(segs.len() as int) =~= segs@);
    t
}

/// One segment added to a tally.
pub open spec fn tally_step(t: (nat, nat, nat, nat, nat, nat, nat, nat), s: Seg) -> (nat, nat, nat, nat, nat, nat, nat, nat) {
    let (me_ms, them_ms, wm, wt, q, cm, ct, end) = t;
    let end2: nat = if s.end_ms > end { s.end_ms as nat } else { end };
    if s.me {
        (me_ms + dur(s), them_ms, wm + (s.words as nat), wt, q + if s.question { 1nat } else { 0nat }, cm + 1, ct, end2)
    } else {
        (me_ms, them_ms + dur(s), wm, wt + (s.words as nat), q, cm, ct + 1, end2)
    }
}

proof fn lemma_tally_unfold(s: Seq<Seg>)
    requires
        s.len() > 0,
    ensures
        tally_spec(s) == tally_step(tally_spec(s.drop_last()), s.last()),
{
}

proof fn lemma_tally_insert(s: Seq<Seg>, x: Seg)
    ensures
        tally_spec(insert_by_start(s, x)) == tally_step(tally_spec(s), x),
    decreases s.len(),
{
    if s.len() == 0 {
        assert(seq![x].drop_last() =~= Seq::<Seg>::empty());
        lemma_tally_unfold(seq![x]);
    } else if s.last().start_ms <= x.start_ms {
        assert(s.push(x).drop_last() =~= s);
        lemma_tally_unfold(s.push(x));
    } else {
        let d = s.drop_last();
        lemma_tally_insert(d, x);
        let ins = insert_by_start(d, x);
        assert(ins.push(s.last()).drop_last() =~= ins);
        lemma_tally_unfold(ins.push(s.last()));
        lemma_tally_unfold(s);
    }
}

/// Reordering segments by start time changes none of the tally's sums.
pub proof fn lemma_tally_sorted(s: Seq<Seg>)
    ensures
        tally_spec(sort_by_start_spec(s)) == tally_spec(s),
    decreases s.len(),
{
    if s.len() > 0 {
        lemma_tally_sorted(s.drop_last());
        lemma_tally_insert(sort_by_start_spec(s.drop_last()), s.last());
        lemma_tally_unfold(s);
    }
}

/// The integer part of the conversation metrics: the final segments ordered
/// by start time, their tally (with interruptions counted in that order), and
/// the monologue check.
pub fn conversation_counts(segs: &[Seg]) -> (r: (Vec<Seg>, Tally, (bool, u64)))
    requires
        tally_fits(segs@),
    ensures
        r.0@ == sort_by_start_spec(segs@),
        ({
            let s = tally_spec(segs@);
            &&& r.1.me_ms == s.0
            &&& r.1.them_ms == s.1
            &&& r.1.words_me == s.2
            &&& r.1.words_them == s.3
            &&& r.1.questions_me == s.4
            &&& r.1.segment_count_me == s.5
            &&& r.1.segment_count_them == s.6
            &&& r.1.call_end_ms == s.7
        }),
        r.1.interruption_count == interruptions_upto(r.0@, r.0@.len() as int),
        r.2.1 == longest_monologue(r.0@),
        r.2.0 == (r.2.1 > MONOLOGUE_MS),
{
    let sorted = sort_by_start(segs);
    proof {
        lemma_tally_sorted(segs@);
    }
    let t = tally(sorted.as_slice());
    let m = detect_monologue(sorted.as_slice());
    (sorted, t, m)
}

// ---------------------------------------------------------------- monologue

pub const MONOLOGUE_MS: u64 = 45_000;

pub const GAP_MS: u64 = 2_000;

pub open spec fn max_u64(a: u64, b: u64) -> u64 {
    if a >= b {
        a
    } else {
        b
    }
}

/// Monologue state after `n` segments: (longest finished streak, open streak).
pub open spec fn mono_state(segs: Seq<Seg>, n: nat) -> (u64, Option<(u64, u64)>)
    decreases n,
{
    if n == 0 {
        (0, None)
    } else {
        let (m, streak) = mono_state(segs, (n - 1) as nat);
        let s = segs[n - 1];
        if !s.me {
            match streak {
                Some((st, en)) => (max_u64(m, sat_sub(en, st)), None),
                None => (m, None),
            }
        } else {
            match streak {
                None => (m, Some((s.start_ms, s.end_ms))),
                Some((st, en)) => if sat_sub(s.start_ms, en) < GAP_MS {
                    (m, Some((st, s.end_ms)))
                } else {
                    (max_u64(m, sat_sub(en, st)), Some((s.start_ms, s.end_ms)))
                },
            }
        }
    }
}

/// Longest run of my speech where the gaps between my segments stay under two
/// seconds and nobody else speaks in between.
pub open spec fn longest_monologue(segs: Seq<Seg>) -> u64 {
    let (m, streak) = mono_state(segs, segs.len());
    match streak {
        Some((st, en)) => max_u64(m, sat_sub(en, st)),
        None => m,
    }
}

proof fn lemma_mono_state_prefix(a: Seq<Seg>, b: Seq<Seg>, n: nat)
    requires
        n <= a.len(),
        n <= b.len(),
        a.subrange(0, n as int) == b.subrange(0, n as int),
    ensures
        mono_state(a, n) == mono_state(b, n),
    decreases n,
{
    if n > 0 {
        assert(a.subrange(0, n - 1) =~= a.subrange(0, n as int).subrange(0, n - 1));
        assert(b.subrange(0, n - 1) =~= b.subrange(0, n as int).subrange(0, n - 1));
        assert(a[n - 1] == a.subrange(0, n as int)[n - 1]);
        assert(b[n - 1] == b.subrange(0, n as int)[n - 1]);
        lemma_mono_state_prefix(a, b, (n - 1) as nat);
    }
}

/// Once a segment of the other speaker has closed every streak, the rest is
/// scanned as if from the start, with the longest streak so far carried along.
proof fn lemma_mono_state_after_close(h: Seq<Seg>, q: Seq<Seg>, k: nat)
    requires
        k <= q.len(),
        mono_state(h, h.len()).1 is None,
    ensures
        mono_state(h + q, h.len() + k) == (
            max_u64(mono_state(h, h.len()).0, mono_state(q, k).0),
            mono_state(q, k).1,
        ),
    decreases k,
{
    let c = h + q;
    if k == 0 {
        assert(c.subrange(0, h.len() as int) =~= h.subrange(0, h.len() as int));
        lemma_mono_state_prefix(c, h, h.len());
    } else {
        lemma_mono_state_after_close(h, q, (k - 1) as nat);
        assert(c[h.len() + k - 1] == q[k - 1]);
    }
}

/// A segment of the other speaker ends my current streak: the longest
/// monologue of `p`, then one segment of the other side, then `q`, is the
/// longer of the monologues of `p` and of `q`; no streak spans the other
/// speaker's turn.
pub proof fn lemma_other_speaker_splits_monologue(p: Seq<Seg>, t: Seg, q: Seq<Seg>)
    requires
        !t.me,
    ensures
        longest_monologue(p + seq![t] + q) == max_u64(longest_monologue(p), longest_monologue(q)),
{
    let h = p.push(t);
    assert(p + seq![t] + q =~= h + q);
    assert(h.subrange(0, p.len() as int) =~= p.subrange(0, p.len() as int));
    lemma_mono_state_prefix(h, p, p.len());
    assert(h[p.len() as int] == t);
    assert(mono_state(h, h.len()) == (longest_monologue(p), None::<(u64, u64)>));
    lemma_mono_state_after_close(h, q, q.len());
}

/// Two turns of mine in a row, the second starting after the first ends,
/// form one monologue from the start of the first to the end of the second
/// when the pause between them is under two seconds; otherwise they stay
/// apart and the longer one counts.
pub proof fn lemma_two_turns_join_under_two_seconds(a: Seg, b: Seg)
    requires
        a.me,
        b.me,
        a.start_ms <= a.end_ms,
        a.end_ms <= b.start_ms <= b.end_ms,
    ensures
        b.start_ms - a.end_ms < 2_000 ==> longest_monologue(seq![a, b]) == b.end_ms - a.start_ms,
        b.start_ms - a.end_ms >= 2_000 ==> longest_monologue(seq![a, b]) == if a.end_ms - a.start_ms
            >= b.end_ms - b.start_ms {
            a.end_ms - a.start_ms
        } else {
            b.end_ms - b.start_ms
        },
{
    let s = seq![a, b];
    assert(s[0] == a && s[1] == b);
    assert(mono_state(s, 0) == (0u64, None::<(u64, u64)>));
    assert(mono_state(s, 1) == (0u64, Some((a.start_ms, a.end_ms))));
}

/// Monologue detection: `(longest streak > 45 s, longest streak in ms)`.
pub fn detect_monologue(segs: &[Seg]) -> (r: (bool, u64))
    ensures
        r.1 == longest_monologue(segs@),
        r.0 == (r.1 > MONOLOGUE_MS),
{
    let mut max_streak: u64 = 0;
    let mut streak: Option<(u64, u64)> = None;
    let mut i: usize = 0;
    while i < segs.len()
        invariant
            i <= segs.len(),
            (max_streak, streak) == mono_state(segs@, i as nat),
        decreases segs.len() - i,
    {
        let s = segs[i];
        if !s.me {
            match streak {
                Some((st, en)) => {
                    let d = en.saturating_sub(st);
                    if d > max_streak {
                        max_streak = d;
                    }
                    streak = None;
                },
                None => {},
            }
        } else {
            match streak {
                None => {
                    streak = Some((s.start_ms, s.end_ms));
                },
                Some((st, en)) => {
                    if s.start_ms.saturating_sub(en) < GAP_MS {
                        streak = Some((st, s.end_ms));
                    } else {
                        let d = en.saturating_sub(st);
                        if d > max_streak {
                            max_streak = d;
                        }
                        streak = Some((s.start_ms, s.end_ms));
                    }
                },
            }
        }
        i += 1;
    }
    if let Some((st, en)) = streak {
        let d = en.saturating_sub(st);
        if d > max_streak {
            max_streak = d;
        }
    }
    (max_streak > MONOLOGUE_MS, max_streak)
}

// ---------------------------------------------------------------- nudges

#[derive(Debug, Clone, Copy, PartialEq, Eq, Structural)]
pub enum NudgeKind {
    TalkRatio,
    Questions,
    Pace,
    NextSteps,
}

#[derive(Debug, Clone, Copy, PartialEq, Eq, Structural)]
pub enum NudgeSeverity {
    Low,
    Medium,
    High,
}

#[derive(Debug, Clone, Copy, PartialEq, Eq, Structural)]
pub enum NudgeAction {
    AskQuestion,
    Confirm,
    Pause,
    Clarify,
}

/// One in-meeting hint.
#[derive(Debug)]
pub struct Nudge {
    pub id: String,
    pub kind: NudgeKind,
    pub severity: NudgeSeverity,
    pub message: String,
    pub action: Option<NudgeAction>,
    pub timestamp_ms: u64,
}

/// How much of the talking I do, as judged from the talk ratio.
#[derive(Debug, Clone, Copy, PartialEq, Eq, Structural)]
pub enum TalkShare {
    /// At most 65 %.
    Balanced,
    /// Above 65 %, at most 75 %.
    High,
    /// Above 75 %.
    Dominant,
}

/// What the nudge rules read of the current metrics.
#[derive(Debug, Clone, Copy, PartialEq, Eq, Structural)]
pub struct NudgeSignals {
    pub segment_count_me: usize,
    pub avg_segment_ms_me: u64,
    pub segment_count_them: usize,
    pub avg_segment_ms_them: u64,
    pub talk_share: TalkShare,
    pub questions_me: usize,
    /// Pace above 180 words per minute.
    pub pace_fast: bool,
}

/// The nudge a rule picks: kind, severity, message and action.
pub open spec fn talk_rule(m: NudgeSignals) -> Option<(NudgeKind, NudgeSeverity, Seq<char>, Option<NudgeAction>)> {
    let total = m.segment_count_me * m.avg_segment_ms_me + m.segment_count_them * m.avg_segment_ms_them;
    if total < 60_000 {
        None
    } else if m.talk_share == TalkShare::Dominant {
        Some((NudgeKind::TalkRatio, NudgeSeverity::Medium, "你主导了大部分对话——多倾听客户，留出发言空间。"@, Some(NudgeAction::AskQuestion)))
    } else if m.talk_share == TalkShare::High {
        Some((NudgeKind::TalkRatio, NudgeSeverity::Low, "发言占比偏高——适当把话题抛给客户。"@, Some(NudgeAction::AskQuestion)))
    } else {
        None
    }
}

pub open spec fn questions_rule(m: NudgeSignals, call_ms: u64) -> Option<(NudgeKind, NudgeSeverity, Seq<char>, Option<NudgeAction>)> {
    if call_ms < 180_000 {
        None
    } else if m.questions_me < (call_ms / 120_000) / 2 {
        Some((NudgeKind::Questions, NudgeSeverity::Low, "提问偏少——开放式问题能更好挖掘客户需求。"@, Some(NudgeAction::AskQuestion)))
    } else {
        None
    }
}

pub open spec fn pace_rule(m: NudgeSignals) -> Option<(NudgeKind, NudgeSeverity, Seq<char>, Option<NudgeAction>)> {
    if m.pace_fast {
        Some((NudgeKind::Pace, NudgeSeverity::Low, "语速偏快——放慢节奏，客户更容易跟上。"@, None))
    } else {
        None
    }
}

pub open spec fn next_steps_rule(call_ms: u64) -> Option<(NudgeKind, NudgeSeverity, Seq<char>, Option<NudgeAction>)> {
    if 1_200_000 <= call_ms < 1_230_000 {
        Some((NudgeKind::NextSteps, NudgeSeverity::Medium, "临近尾声——和客户确认下一步与时间节点。"@, Some(NudgeAction::Confirm)))
    } else if 1_800_000 <= call_ms < 1_830_000 {
        Some((NudgeKind::NextSteps, NudgeSeverity::High, "会议已 30 分钟——建议收束议题，明确行动项。"@, Some(NudgeAction::Confirm)))
    } else {
        None
    }
}

/// The first rule that fires, in the order talk ratio, questions, pace, next steps.
pub open spec fn first_rule(m: NudgeSignals, call_ms: u64) -> Option<(NudgeKind, NudgeSeverity, Seq<char>, Option<NudgeAction>)> {
    if talk_rule(m) is Some {
        talk_rule(m)
    } else if questions_rule(m, call_ms) is Some {
        questions_rule(m, call_ms)
    } else if pace_rule(m) is Some {
        pace_rule(m)
    } else {
        next_steps_rule(call_ms)
    }
}

pub open spec fn nudge_view(n: Nudge) -> (Seq<char>, NudgeKind, NudgeSeverity, Seq<char>, Option<NudgeAction>, u64) {
    (n.id@, n.kind, n.severity, n.message@, n.action, n.timestamp_ms)
}

/// One evaluation of the nudge rules by engine `e0`, with signals `m`, a
/// call of `call_ms` and the clock at `now_ms`: inside the cooldown nothing
/// is given and nothing changes; otherwise the first rule that fires is
/// given, stamped `now_ms`, and restarts the cooldown. The cooldown length
/// stays as it was.
pub open spec fn evaluated(
    e0: NudgeEngine,
    m: NudgeSignals,
    call_ms: u64,
    now_ms: u64,
    r: Option<Nudge>,
    e1: NudgeEngine,
) -> bool {
    &&& e1.cooldown() == e0.cooldown()
    &&& sat_sub(now_ms, e0.last_nudge()) < e0.cooldown() ==> (r is None && e1.last_nudge() == e0.last_nudge())
    &&& sat_sub(now_ms, e0.last_nudge()) >= e0.cooldown() ==> match (r, first_rule(m, call_ms)) {
        (Some(n), Some(x)) => nudge_view(n) == (seq!['0'], x.0, x.1, x.2, x.3, now_ms) && e1.last_nudge()
            == now_ms,
        (None, None) => e1.last_nudge() == e0.last_nudge(),
        _ => false,
    }
}

/// Two nudges of one engine lie at least a cooldown apart: after a nudge at
/// `t1`, an evaluation at a later time `t2` before `t1` plus the cooldown
/// gives nothing, whatever the signals.
pub proof fn lemma_nudges_spaced_by_cooldown(
    e0: NudgeEngine,
    m1: NudgeSignals,
    call1: u64,
    t1: u64,
    n1: Nudge,
    e1: NudgeEngine,
    m2: NudgeSignals,
    call2: u64,
    t2: u64,
    r2: Option<Nudge>,
    e2: NudgeEngine,
)
    requires
        evaluated(e0, m1, call1, t1, Some(n1), e1),
        evaluated(e1, m2, call2, t2, r2, e2),
        t1 <= t2,
        t2 < t1 + e0.cooldown(),
    ensures
        r2 is None,
        e2.last_nudge() == t1,
{
}

/// Outside the cooldown, with at least a minute of speech and a talk share
/// above 65 %, an evaluation gives the talk-ratio nudge: low severity and
/// the hint to hand the topic to the customer when the share is at most
/// 75 %, medium severity and the hint to listen more above that; either way
/// the suggested action is to ask a question.
pub proof fn lemma_high_talk_share_nudges(
    e0: NudgeEngine,
    m: NudgeSignals,
    call_ms: u64,
    now_ms: u64,
    r: Option<Nudge>,
    e1: NudgeEngine,
)
    requires
        evaluated(e0, m, call_ms, now_ms, r, e1),
        sat_sub(now_ms, e0.last_nudge()) >= e0.cooldown(),
        m.segment_count_me * m.avg_segment_ms_me + m.segment_count_them * m.avg_segment_ms_them
            >= 60_000,
        m.talk_share != TalkShare::Balanced,
    ensures
        r is Some,
        r->0.kind == NudgeKind::TalkRatio,
        r->0.action == Some(NudgeAction::AskQuestion),
        r->0.timestamp_ms == now_ms,
        m.talk_share == TalkShare::High ==> r->0.severity == NudgeSeverity::Low
            && r->0.message@ == "发言占比偏高——适当把话题抛给客户。"@,
        m.talk_share == TalkShare::Dominant ==> r->0.severity == NudgeSeverity::Medium
            && r->0.message@ == "你主导了大部分对话——多倾听客户，留出发言空间。"@,
        e1.last_nudge() == now_ms,
{
}

/// With less than a minute of speech the talk-ratio rule stays silent,
/// whatever the share: a nudge given then is of another kind.
pub proof fn lemma_short_speech_no_talk_nudge(
    e0: NudgeEngine,
    m: NudgeSignals,
    call_ms: u64,
    now_ms: u64,
    r: Option<Nudge>,
    e1: NudgeEngine,
)
    requires
        evaluated(e0, m, call_ms, now_ms, r, e1),
        m.segment_count_me * m.avg_segment_ms_me + m.segment_count_them * m.avg_segment_ms_them
            < 60_000,
    ensures
        r matches Some(n) ==> n.kind != NudgeKind::TalkRatio,
{
}

/// Rule-driven hint engine with a global cooldown.
#[derive(Debug, Clone, Copy)]
pub struct NudgeEngine {
    cooldown_ms: u64,
    last_nudge_ms: u64,
}

impl NudgeEngine {
    pub closed spec fn cooldown(&self) -> u64 {
        self.cooldown_ms
    }

    pub closed spec fn last_nudge(&self) -> u64 {
        self.last_nudge_ms
    }

    pub fn new(cooldown_ms: u64) -> (e: Self)
        ensures
            e.cooldown() == cooldown_ms,
            e.last_nudge() == 0,
    {
        NudgeEngine { cooldown_ms, last_nudge_ms: 0 }
    }

    /// The default engine: a two-minute cooldown.
    pub fn default_engine() -> (e: Self)
        ensures
            e.cooldown() == 120_000,
            e.last_nudge() == 0,
    {
        Self::new(120_000)
    }

    fn mk(
        &self,
        kind: NudgeKind,
        severity: NudgeSeverity,
        message: &str,
        action: Option<NudgeAction>,
        now_ms: u64,
    ) -> (n: Nudge)
        ensures
            nudge_view(n) == (crate::text::dec(now_ms as nat), kind, severity, message@, action, now_ms),
    {
        let mut id = String::new();
        push_dec(&mut id, now_ms);
        assert(id@ =~= crate::text::dec(now_ms as nat));
        Nudge { id, kind, severity, message: crate::text::owned(message), action, timestamp_ms: now_ms }
    }

    fn check_talk_ratio(&self, m: &NudgeSignals) -> (r: Option<Nudge>)
        requires
            m.segment_count_me * m.avg_segment_ms_me + m.segment_count_them * m.avg_segment_ms_them
                <= u64::MAX,
        ensures
            match (r, talk_rule(*m)) {
                (Some(n), Some(x)) => nudge_view(n) == (seq!['0'], x.0, x.1, x.2, x.3, 0u64),
                (None, None) => true,
                _ => false,
            },
    {
        let total: u64 = (m.segment_count_me as u64) * m.avg_segment_ms_me + (m.segment_count_them as u64)
            * m.avg_segment_ms_them;
        if total < 60_000 {
            return None;
        }
        match m.talk_share {
            TalkShare::Dominant => Some(
                self.mk(
                    NudgeKind::TalkRatio,
                    NudgeSeverity::Medium,
                    "你主导了大部分对话——多倾听客户，留出发言空间。",
                    Some(NudgeAction::AskQuestion),
                    0,
                ),
            ),
            TalkShare::High => Some(
                self.mk(
                    NudgeKind::TalkRatio,
                    NudgeSeverity::Low,
                    "发言占比偏高——适当把话题抛给客户。",
                    Some(NudgeAction::AskQuestion),
                    0,
                ),
            ),
            TalkShare::Balanced => None,
        }
    }

    fn check_questions(&self, m: &NudgeSignals, call_duration_ms: u64) -> (r: Option<Nudge>)
        ensures
            match (r, questions_rule(*m, call_duration_ms)) {
                (Some(n), Some(x)) => nudge_view(n) == (seq!['0'], x.0, x.1, x.2, x.3, 0u64),
                (None, None) => true,
                _ => false,
            },
    {
        if call_duration_ms < 180_000 {
            return None;
        }
        let expected: u64 = call_duration_ms / 120_000;
        if (m.questions_me as u64) < expected / 2 {
            Some(
                self.mk(
                    NudgeKind::Questions,
                    NudgeSeverity::Low,
                    "提问偏少——开放式问题能更好挖掘客户需求。",
                    Some(NudgeAction::AskQuestion),
                    0,
                ),
            )
        } else {
            None
        }
    }

    fn check_pace(&self, m: &NudgeSignals) -> (r: Option<Nudge>)
        ensures
            match (r, pace_rule(*m)) {
                (Some(n), Some(x)) => nudge_view(n) == (seq!['0'], x.0, x.1, x.2, x.3, 0u64),
                (None, None) => true,
                _ => false,
            },
    {
        if m.pace_fast {
            Some(self.mk(NudgeKind::Pace, NudgeSeverity::Low, "语速偏快——放慢节奏，客户更容易跟上。", None, 0))
        } else {
            None
        }
    }

    /// Next-steps reminder in the 30-second windows at 20 and 30 minutes.
    pub fn check_next_steps(&self, call_duration_ms: u64) -> (r: Option<Nudge>)
        ensures
            match (r, next_steps_rule(call_duration_ms)) {
                (Some(n), Some(x)) => nudge_view(n) == (seq!['0'], x.0, x.1, x.2, x.3, 0u64),
                (None, None) => true,
                _ => false,
            },
    {
        if 1_200_000 <= call_duration_ms && call_duration_ms < 1_230_000 {
            Some(
                self.mk(
                    NudgeKind::NextSteps,
                    NudgeSeverity::Medium,
                    "临近尾声——和客户确认下一步与时间节点。",
                    Some(NudgeAction::Confirm),
                    0,
                ),
            )
        } else if 1_800_000 <= call_duration_ms && call_duration_ms < 1_830_000 {
            Some(
                self.mk(
                    NudgeKind::NextSteps,
                    NudgeSeverity::High,
                    "会议已 30 分钟——建议收束议题，明确行动项。",
                    Some(NudgeAction::Confirm),
                    0,
                ),
            )
        } else {
            None
        }
    }

    /// Evaluates the current signals: at most one nudge, none inside the
    /// cooldown. A nudge's id is the `0` the rules build it with; its
    /// timestamp is `now_ms`, which also restarts the cooldown.
    pub fn evaluate(&mut self, m: &NudgeSignals, call_duration_ms: u64, now_ms: u64) -> (r: Option<Nudge>)
        requires
            m.segment_count_me * m.avg_segment_ms_me + m.segment_count_them * m.avg_segment_ms_them
                <= u64::MAX,
        ensures
            evaluated(*old(self), *m, call_duration_ms, now_ms, r, *final(self)),
    {
        if now_ms.saturating_sub(self.last_nudge_ms) < self.cooldown_ms {
            return None;
        }
        let mut nudge = self.check_talk_ratio(m);
        if nudge.is_none() {
            nudge = self.check_questions(m, call_duration_ms);
        }
        if nudge.is_none() {
            nudge = self.check_pace(m);
        }
        if nudge.is_none() {
            nudge = self.check_next_steps(call_duration_ms);
        }
        match nudge {
            Some(mut n) => {
                n.timestamp_ms = now_ms;
                self.last_nudge_ms = now_ms;
                Some(n)
            },
            None => None,
        }
    }
}

} // verus!
