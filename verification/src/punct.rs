//! Sentence splitting after punctuation restoration: a recognised segment is
//! cut at strong sentence ends and its duration shared out by length.
//!
//! The punctuation model itself runs outside the library.
use vstd::prelude::*;

use crate::config::{join_path, path_join};
use crate::text::{chars_of, chars_range, is_ws, lemma_trim_blank, string_of, trim, trim_chars, trim_end, trim_start};

verus! {

/// Directory of the punctuation model inside the models root.
pub const PUNCT_MODEL_DIR: &'static str = "punct-ct-transformer";

/// `<models_root>/punct-ct-transformer/model.onnx`.
pub open spec fn punct_model_path_spec(models_root: Seq<char>) -> Seq<char> {
    join_path(join_path(models_root, "punct-ct-transformer"@), "model.onnx"@)
}

/// Path of the punctuation model's ONNX file under the models root.
pub fn punct_model_path(models_root: &str) -> (r: String)
    ensures
        r@ == punct_model_path_spec(models_root@),
{
    let dir = path_join(models_root, PUNCT_MODEL_DIR);
    path_join(dir.as_str(), "model.onnx")
}

/// Strong sentence ends: `。！？!?`.
pub open spec fn is_strong_boundary(c: char) -> bool {
    c == '。' || c == '！' || c == '？' || c == '!' || c == '?'
}

fn strong_boundary(c: char) -> (b: bool)
    ensures
        b == is_strong_boundary(c),
{
    c == '。' || c == '！' || c == '？' || c == '!' || c == '?'
}

/// The pieces of `cs[start..]` when cut right after each strong sentence end
/// at or after `i` (`cs[start..i]` holds none); a tail without one is the last piece.
pub open spec fn pieces_from(cs: Seq<char>, start: int, i: int) -> Seq<Seq<char>>
    decreases cs.len() - i,
{
    if i >= cs.len() {
        if start < cs.len() {
            seq![cs.subrange(start, cs.len() as int)]
        } else {
            Seq::empty()
        }
    } else if is_strong_boundary(cs[i]) {
        seq![cs.subrange(start, i + 1)] + pieces_from(cs, i + 1, i + 1)
    } else {
        pieces_from(cs, start, i + 1)
    }
}

proof fn lemma_pieces_shape(cs: Seq<char>, start: int, i: int)
    requires
        0 <= start <= i <= cs.len(),
        forall|j: int| start <= j < i ==> !is_strong_boundary(#[trigger] cs[j]),
    ensures
        pieces_from(cs, start, i).flatten() == cs.subrange(start, cs.len() as int),
        forall|k: int|
            0 <= k < pieces_from(cs, start, i).len() ==> (#[trigger] pieces_from(cs, start, i)[k]).len() > 0,
        forall|k: int|
            0 <= k < pieces_from(cs, start, i).len() - 1 ==> is_strong_boundary(
                (#[trigger] pieces_from(cs, start, i)[k]).last(),
            ),
        forall|k: int, j: int|
            0 <= k < pieces_from(cs, start, i).len() && 0 <= j < pieces_from(cs, start, i)[k].len() - 1
                ==> !is_strong_boundary(#[trigger] pieces_from(cs, start, i)[k][j]),
    decreases cs.len() - i,
{
    let ps = pieces_from(cs, start, i);
    if i >= cs.len() {
        if start < cs.len() {
            let x = cs.subrange(start, cs.len() as int);
            assert(ps == seq![x]);
            assert(ps.drop_first() =~= Seq::<Seq<char>>::empty());
            assert(ps.flatten() == x + Seq::<Seq<char>>::empty().flatten());
            assert(ps.flatten() =~= x);
        } else {
            assert(ps.len() == 0);
            assert(cs.subrange(start, cs.len() as int) =~= Seq::<char>::empty());
        }
    } else if is_strong_boundary(cs[i]) {
        let x = cs.subrange(start, i + 1);
        let rest = pieces_from(cs, i + 1, i + 1);
        lemma_pieces_shape(cs, i + 1, i + 1);
        assert(ps == seq![x] + rest);
        assert(ps.first() == x);
        assert(ps.drop_first() =~= rest);
        assert(ps.flatten() == x + rest.flatten());
        assert(ps.flatten() =~= cs.subrange(start, cs.len() as int));
        assert forall|k: int| 0 <= k < ps.len() implies (#[trigger] ps[k]).len() > 0 by {
            if k > 0 {
                assert(ps[k] == rest[k - 1]);
            }
        }
        assert forall|k: int| 0 <= k < ps.len() - 1 implies is_strong_boundary((#[trigger] ps[k]).last()) by {
            if k > 0 {
                assert(ps[k] == rest[k - 1]);
            } else {
                assert(x.last() == cs[i]);
            }
        }
        assert forall|k: int, j: int| 0 <= k < ps.len() && 0 <= j < ps[k].len() - 1 implies !is_strong_boundary(
            #[trigger] ps[k][j],
        ) by {
            if k > 0 {
                assert(ps[k] == rest[k - 1]);
            } else {
                assert(x[j] == cs[start + j]);
            }
        }
    } else {
        lemma_pieces_shape(cs, start, i + 1);
    }
}

/// The text is cut right after every one of `。！？!?` and nowhere else: the
/// pieces put back together give the text, none is empty, each but the last
/// ends with one of those marks, and no piece holds one before its end.
pub proof fn lemma_pieces_cut_at_sentence_ends(cs: Seq<char>)
    ensures
        pieces_from(cs, 0, 0).flatten() == cs,
        forall|k: int| 0 <= k < pieces_from(cs, 0, 0).len() ==> (#[trigger] pieces_from(cs, 0, 0)[k]).len() > 0,
        forall|k: int|
            0 <= k < pieces_from(cs, 0, 0).len() - 1 ==> {
                let c = (#[trigger] pieces_from(cs, 0, 0)[k]).last();
                c == '。' || c == '！' || c == '？' || c == '!' || c == '?'
            },
        forall|k: int, j: int|
            0 <= k < pieces_from(cs, 0, 0).len() && 0 <= j < pieces_from(cs, 0, 0)[k].len() - 1 ==> {
                let c = #[trigger] pieces_from(cs, 0, 0)[k][j];
                c != '。' && c != '！' && c != '？' && c != '!' && c != '?'
            },
{
    lemma_pieces_shape(cs, 0, 0);
    assert(cs.subrange(0, cs.len() as int) =~= cs);
}

/// Total number of characters in a list of texts.
pub open spec fn total_len(ps: Seq<Seq<char>>) -> nat
    decreases ps.len(),
{
    if ps.len() == 0 {
        0
    } else {
        total_len(ps.drop_last()) + ps.last().len()
    }
}

/// The pieces trimmed, blank ones dropped, and a piece shorter than
/// `min_chars` appended to the one before it (kept alone when first).
pub open spec fn merge_pieces(ps: Seq<Seq<char>>, min_chars: int) -> Seq<Seq<char>>
    decreases ps.len(),
{
    if ps.len() == 0 {
        Seq::empty()
    } else {
        let acc = merge_pieces(ps.drop_last(), min_chars);
        let seg = trim(ps.last());
        if seg.len() == 0 {
            acc
        } else if seg.len() < min_chars && acc.len() > 0 {
            acc.update(acc.len() - 1, acc.last() + seg)
        } else {
            acc.push(seg)
        }
    }
}

/// `total * part / whole` rounded to the nearest integer, halves away from zero.
pub open spec fn round_share(total: int, part: int, whole: int) -> int {
    (total * part) / whole + if 2 * ((total * part) % whole) >= whole {
        1int
    } else {
        0int
    }
}

/// What the first `k` segments take of `total`: each its rounded share,
/// but never more than is left.
pub open spec fn allocated(segs: Seq<Seq<char>>, total: int, k: int) -> int
    decreases k,
{
    if k <= 0 {
        0
    } else {
        let a = allocated(segs, total, k - 1);
        let r = round_share(total, segs[k - 1].len() as int, total_len(segs) as int);
        if a + r > total {
            total
        } else {
            a + r
        }
    }
}

/// Duration of segment `i` of `n`: its rounded share of `total` by character
/// count, cut to what the segments before it left; the last one takes all
/// that remains.
pub open spec fn segment_duration(segs: Seq<Seq<char>>, total: int, i: int) -> int {
    if i == segs.len() - 1 {
        total - allocated(segs, total, i)
    } else {
        allocated(segs, total, i + 1) - allocated(segs, total, i)
    }
}

proof fn lemma_allocated_bounds(segs: Seq<Seq<char>>, total: int, k: int)
    requires
        total >= 0,
        0 <= k <= segs.len(),
        total_len(segs) > 0,
        forall|m: int| 0 <= m < segs.len() ==> segs[m].len() <= total_len(segs),
    ensures
        0 <= allocated(segs, total, k) <= total,
    decreases k,
{
    if k > 0 {
        lemma_allocated_bounds(segs, total, k - 1);
        lemma_round_share_bound(total, segs[k - 1].len() as int, total_len(segs) as int);
    }
}

/// The segments of `text` with their durations.
pub open spec fn split_spec(text: Seq<char>, total: int, min_chars: int) -> Seq<(Seq<char>, int)> {
    if text.len() == 0 {
        Seq::empty()
    } else {
        let merged = merge_pieces(pieces_from(text, 0, 0), min_chars);
        if merged.len() == 0 {
            seq![(text, total)]
        } else {
            Seq::new(merged.len(), |i: int| (merged[i], segment_duration(merged, total, i)))
        }
    }
}

pub open spec fn char_views(v: Seq<Vec<char>>) -> Seq<Seq<char>> {
    v.map_values(|x: Vec<char>| x@)
}

pub open spec fn split_view(v: Seq<(String, u64)>) -> Seq<(Seq<char>, int)> {
    v.map_values(|e: (String, u64)| (e.0@, e.1 as int))
}

proof fn lemma_total_len_prefix(ps: Seq<Seq<char>>, k: int)
    requires
        0 <= k <= ps.len(),
    ensures
        total_len(ps.subrange(0, k)) <= total_len(ps),
    decreases ps.len(),
{
    if k < ps.len() {
        assert(ps.drop_last().subrange(0, k) =~= ps.subrange(0, k));
        lemma_total_len_prefix(ps.drop_last(), k);
    } else {
        assert(ps.subrange(0, k) =~= ps);
    }
}

proof fn lemma_total_len_elem(ps: Seq<Seq<char>>, j: int)
    requires
        0 <= j < ps.len(),
    ensures
        ps[j].len() <= total_len(ps),
    decreases ps.len(),
{
    if j < ps.len() - 1 {
        lemma_total_len_elem(ps.drop_last(), j);
    }
}

proof fn lemma_round_share_bound(total: int, part: int, whole: int)
    requires
        total >= 0,
        0 <= part <= whole,
        whole > 0,
    ensures
        0 <= round_share(total, part, whole) <= total,
{
    let p = total * part;
    assert(0 <= p <= total * whole) by (nonlinear_arith)
        requires
            p == total * part,
            total >= 0,
            0 <= part <= whole,
    ;
    let q = p / whole;
    let r = p % whole;
    assert(p == whole * q + r && 0 <= r < whole) by (nonlinear_arith)
        requires
            whole > 0,
            q == p / whole,
            r == p % whole,
    ;
    if part == whole {
        assert(p == whole * total) by (nonlinear_arith)
            requires
                p == total * part,
                part == whole,
        ;
        assert(q == total && r == 0) by (nonlinear_arith)
            requires
                p == whole * total,
                p == whole * q + r,
                0 <= r < whole,
                whole > 0,
        ;
    } else {
        assert(q < total || total == 0) by (nonlinear_arith)
            requires
                p == total * part,
                part < whole,
                p == whole * q + r,
                0 <= r < whole,
                whole > 0,
                total >= 0,
                q >= 0,
        ;
        assert(q >= 0) by (nonlinear_arith)
            requires
                p >= 0,
                whole > 0,
                q == p / whole,
        ;
        if total == 0 {
            assert(p == 0);
            assert(q == 0 && r == 0) by (nonlinear_arith)
                requires
                    p == 0,
                    p == whole * q + r,
                    0 <= r < whole,
                    q >= 0,
            ;
        }
    }
}

fn concat_chars(a: &[char], b: &[char]) -> (v: Vec<char>)
    ensures
        v@ == a@ + b@,
{
    let mut v: Vec<char> = Vec::new();
    let mut i: usize = 0;
    while i < a.len()
        invariant
            i <= a.len(),
            v@ == a@.subrange(0, i as int),
        decreases a.len() - i,
    {
        v.push(a[i]);
        i += 1;
    }
    let mut j: usize = 0;
    while j < b.len()
        invariant
            j <= b.len(),
            v@ == a@ + b@.subrange(0, j as int),
        decreases b.len() - j,
    {
        v.push(b[j]);
        j += 1;
    }
    assert(a@.subrange(0, a.len() as int) == a@);
    assert(b@.subrange(0, b.len() as int) == b@);
    v
}

/// Splits `text` after each strong sentence end (`。！？!?`), trims the
/// pieces, merges pieces shorter than `min_chars` into the one before, and
/// shares `total_duration_ms` out by character count: each segment gets its
/// rounded share, cut to what is left, and the last segment the remainder,
/// so the durations add up to the total. A text with no usable piece comes back whole.
pub fn split_on_strong_boundaries(text: &str, total_duration_ms: u64, min_chars: usize) -> (r: Vec<(String, u64)>)
    ensures
        split_view(r@) == split_spec(text@, total_duration_ms as int, min_chars as int),
{
    let cs = chars_of(text);
    let n_chars = cs.len();
    if n_chars == 0 {
        let r: Vec<(String, u64)> = Vec::new();
        assert(split_view(r@) =~= split_spec(text@, total_duration_ms as int, min_chars as int));
        return r;
    }
    // Cut after each strong sentence end.
    let mut raw: Vec<Vec<char>> = Vec::new();
    let mut start: usize = 0;
    let mut i: usize = 0;
    while i < n_chars
        invariant
            start <= i <= n_chars,
            n_chars == cs.len(),
            char_views(raw@) + pieces_from(cs@, start as int, i as int) == pieces_from(cs@, 0, 0),
            total_len(char_views(raw@)) == start,
        decreases n_chars - i,
    {
        if strong_boundary(cs[i]) {
            let seg = chars_range(cs.as_slice(), start, i + 1);
            let ghost before = char_views(raw@);
            raw.push(seg);
            proof {
                assert(char_views(raw@) =~= before.push(seg@));
                assert(char_views(raw@).drop_last() =~= before);
                assert(before + pieces_from(cs@, start as int, i as int) =~= char_views(raw@)
                    + pieces_from(cs@, i + 1, i + 1));
            }
            start = i + 1;
        }
        i += 1;
    }
    if start < n_chars {
        let seg = chars_range(cs.as_slice(), start, n_chars);
        let ghost before = char_views(raw@);
        raw.push(seg);
        proof {
            assert(char_views(raw@) =~= before.push(seg@));
            assert(char_views(raw@).drop_last() =~= before);
            assert(before + pieces_from(cs@, start as int, n_chars as int) =~= char_views(raw@));
        }
    } else {
        assert(char_views(raw@) + pieces_from(cs@, start as int, n_chars as int) =~= char_views(raw@));
    }
    let ghost pieces = char_views(raw@);
    assert(pieces == pieces_from(cs@, 0, 0));
    assert(total_len(pieces) == n_chars);
    // Trim, drop blanks, merge short pieces.
    let mut merged: Vec<Vec<char>> = Vec::new();
    let mut k: usize = 0;
    while k < raw.len()
        invariant
            k <= raw.len(),
            pieces == char_views(raw@),
            total_len(pieces) == n_chars,
            char_views(merged@) == merge_pieces(pieces.subrange(0, k as int), min_chars as int),
            total_len(char_views(merged@)) <= total_len(pieces.subrange(0, k as int)),
            forall|m: int| 0 <= m < merged.len() ==> (#[trigger] merged@[m]).len() > 0,
        decreases raw.len() - k,
    {
        let seg = trim_chars(raw[k].as_slice());
        let ghost acc = char_views(merged@);
        proof {
            let sub = pieces.subrange(0, k + 1);
            assert(sub.drop_last() =~= pieces.subrange(0, k as int));
            assert(sub.last() == raw@[k as int]@);
            lemma_trim_blank(raw@[k as int]@);
        }
        if seg.len() == 0 {
        } else if seg.len() < min_chars && merged.len() > 0 {
            let last = merged.len() - 1;
            let joined = concat_chars(merged[last].as_slice(), seg.as_slice());
            merged.set(last, joined);
            proof {
                assert(char_views(merged@) =~= acc.update(acc.len() - 1, acc.last() + seg@));
                assert(char_views(merged@).drop_last() =~= acc.drop_last());
            }
        } else {
            merged.push(seg);
            proof {
                assert(char_views(merged@) =~= acc.push(seg@));
                assert(char_views(merged@).drop_last() =~= acc);
            }
        }
        k += 1;
    }
    assert(pieces.subrange(0, raw.len() as int) =~= pieces);
    let ghost segs = char_views(merged@);
    assert(segs == merge_pieces(pieces_from(cs@, 0, 0), min_chars as int));
    if merged.len() == 0 {
        let r = vec![(string_of(cs.as_slice()), total_duration_ms)];
        assert(split_view(r@) =~= split_spec(text@, total_duration_ms as int, min_chars as int));
        return r;
    }
    // Total characters over the segments.
    let n = merged.len();
    let mut whole: usize = 0;
    let mut j: usize = 0;
    while j < n
        invariant
            j <= n,
            n == merged.len(),
            segs == char_views(merged@),
            total_len(segs) <= n_chars,
            whole == total_len(segs.subrange(0, j as int)),
        decreases n - j,
    {
        proof {
            assert(segs.subrange(0, j + 1).drop_last() =~= segs.subrange(0, j as int));
            lemma_total_len_prefix(segs, j + 1);
        }
        whole = whole + merged[j].len();
        j += 1;
    }
    assert(segs.subrange(0, n as int) =~= segs);
    assert(whole > 0) by {
        assert(segs.last().len() > 0);
    }
    // Share the duration out.
    let total = total_duration_ms;
    proof {
        assert forall|m: int| 0 <= m < segs.len() implies segs[m].len() <= total_len(segs) by {
            lemma_total_len_elem(segs, m);
        }
    }
    let mut result: Vec<(String, u64)> = Vec::new();
    let mut alloc: u64 = 0;
    let mut j: usize = 0;
    while j < n
        invariant
            j <= n,
            n == merged.len(),
            n >= 1,
            segs == char_views(merged@),
            whole == total_len(segs),
            whole > 0,
            forall|m: int| 0 <= m < segs.len() ==> segs[m].len() <= total_len(segs),
            j <= n - 1 ==> alloc == allocated(segs, total as int, j as int),
            alloc <= total,
            split_view(result@) == Seq::new(j as nat, |m: int| (segs[m], segment_duration(segs, total as int, m))),
        decreases n - j,
    {
        let dur: u64;
        if j == n - 1 {
            dur = total - alloc;
        } else {
            proof {
                lemma_total_len_elem(segs, j as int);
                lemma_round_share_bound(total as int, segs[j as int].len() as int, whole as int);
            }
            let part = merged[j].len() as u128;
            assert((total as int) * (part as int) <= 0xffff_ffff_ffff_ffff_ffff_ffff_ffff_ffff) by (nonlinear_arith)
                requires
                    total <= 0xffff_ffff_ffff_ffff,
                    part <= 0xffff_ffff_ffff_ffff,
            ;
            let prod = (total as u128) * part;
            let q = prod / (whole as u128);
            let rem = prod % (whole as u128);
            let ms: u128 = if 2 * rem >= whole as u128 {
                q + 1
            } else {
                q
            };
            assert(ms == round_share(total as int, segs[j as int].len() as int, whole as int));
            let left: u64 = total - alloc;
            let share: u64 = if ms > left as u128 {
                left
            } else {
                ms as u64
            };
            alloc = alloc + share;
            dur = share;
        }
        let ghost before = split_view(result@);
        assert(dur == segment_duration(segs, total as int, j as int));
        let piece = string_of(merged[j].as_slice());
        assert(piece@ == segs[j as int]);
        result.push((piece, dur));
        proof {
            assert(split_view(result@) =~= before.push((segs[j as int], segment_duration(segs, total as int, j as int))));
            assert(split_view(result@) =~= Seq::new(
                (j + 1) as nat,
                |m: int| (segs[m], segment_duration(segs, total as int, m)),
            ));
        }
        j += 1;
    }
    assert(split_view(result@) =~= split_spec(text@, total_duration_ms as int, min_chars as int));
    result
}

proof fn lemma_trim_start_suffix(s: Seq<char>) -> (a: int)
    ensures
        0 <= a <= s.len(),
        trim_start(s) == s.subrange(a, s.len() as int),
        forall|k: int| 0 <= k < a ==> is_ws(#[trigger] s[k]),
    decreases s.len(),
{
    if s.len() > 0 && is_ws(s[0]) {
        let b = lemma_trim_start_suffix(s.drop_first());
        assert(s.drop_first().subrange(b, s.drop_first().len() as int) =~= s.subrange(b + 1, s.len() as int));
        assert forall|k: int| 0 <= k < b + 1 implies is_ws(#[trigger] s[k]) by {
            if k > 0 {
                assert(s[k] == s.drop_first()[k - 1]);
            }
        }
        b + 1
    } else {
        assert(s.subrange(0, s.len() as int) =~= s);
        0
    }
}

proof fn lemma_trim_end_prefix(u: Seq<char>) -> (b: int)
    ensures
        0 <= b <= u.len(),
        trim_end(u) == u.subrange(0, b),
        u.len() > 0 && !is_ws(u.last()) ==> b == u.len(),
    decreases u.len(),
{
    if u.len() > 0 && is_ws(u.last()) {
        let b = lemma_trim_end_prefix(u.drop_last());
        assert(u.drop_last().subrange(0, b) =~= u.subrange(0, b));
        b
    } else {
        assert(u.subrange(0, u.len() as int) =~= u);
        u.len() as int
    }
}

/// `trim(s)` is the window `s[lo..hi]`; a text that ends in a character other
/// than white space keeps that end.
proof fn lemma_trim_window(s: Seq<char>) -> (r: (int, int))
    ensures
        0 <= r.0 <= r.1 <= s.len(),
        trim(s) == s.subrange(r.0, r.1),
        s.len() > 0 && !is_ws(s.last()) ==> r.1 == s.len() && r.0 < r.1,
{
    let a = lemma_trim_start_suffix(s);
    let u = s.subrange(a, s.len() as int);
    let b = lemma_trim_end_prefix(u);
    assert(u.subrange(0, b) =~= s.subrange(a, a + b));
    if s.len() > 0 && !is_ws(s.last()) {
        if a == s.len() {
            assert(is_ws(s[s.len() - 1]));
        }
        assert(u.last() == s.last());
    }
    (a, a + b)
}

proof fn lemma_strong_boundary_not_ws(c: char)
    requires
        is_strong_boundary(c),
    ensures
        !is_ws(c),
{
}

/// With `min_chars` at most one nothing is merged: every merged segment is a
/// non-empty trimmed piece, so it holds no sentence end before its own end,
/// and it ends with one when all the pieces do.
proof fn lemma_merge_keeps_piece_shape(ps: Seq<Seq<char>>, min_chars: int)
    requires
        min_chars <= 1,
        forall|k: int, j: int|
            0 <= k < ps.len() && 0 <= j < ps[k].len() - 1 ==> !is_strong_boundary(#[trigger] ps[k][j]),
    ensures
        forall|k: int|
            0 <= k < merge_pieces(ps, min_chars).len() ==> (#[trigger] merge_pieces(ps, min_chars)[k]).len() > 0,
        forall|k: int, j: int|
            0 <= k < merge_pieces(ps, min_chars).len() && 0 <= j < merge_pieces(ps, min_chars)[k].len() - 1
                ==> !is_strong_boundary(#[trigger] merge_pieces(ps, min_chars)[k][j]),
        (forall|k: int| 0 <= k < ps.len() ==> (#[trigger] ps[k]).len() > 0 && is_strong_boundary(ps[k].last()))
            ==> forall|k: int|
            0 <= k < merge_pieces(ps, min_chars).len() ==> is_strong_boundary(
                (#[trigger] merge_pieces(ps, min_chars)[k]).last(),
            ),
        forall|k: int| 0 <= k < ps.len() && (#[trigger] trim(ps[k])).len() > 0 ==> merge_pieces(ps, min_chars).len() > 0,
    decreases ps.len(),
{
    if ps.len() > 0 {
        let pre = ps.drop_last();
        let acc = merge_pieces(pre, min_chars);
        let p = ps.last();
        let seg = trim(p);
        let out = merge_pieces(ps, min_chars);
        assert forall|k: int, j: int| 0 <= k < pre.len() && 0 <= j < pre[k].len() - 1 implies !is_strong_boundary(
            #[trigger] pre[k][j],
        ) by {
            assert(pre[k] == ps[k]);
        }
        lemma_merge_keeps_piece_shape(pre, min_chars);
        let w = lemma_trim_window(p);
        if seg.len() > 0 {
            assert(out == acc.push(seg));
            assert forall|j: int| 0 <= j < seg.len() - 1 implies !is_strong_boundary(#[trigger] seg[j]) by {
                assert(seg[j] == p[w.0 + j]);
                assert(p == ps[ps.len() - 1]);
            }
            assert forall|k: int, j: int| 0 <= k < out.len() && 0 <= j < out[k].len() - 1 implies !is_strong_boundary(
                #[trigger] out[k][j],
            ) by {
                if k < acc.len() {
                    assert(out[k] == acc[k]);
                } else {
                    assert(out[k] == seg);
                }
            }
            assert forall|k: int| 0 <= k < out.len() implies (#[trigger] out[k]).len() > 0 by {
                if k < acc.len() {
                    assert(out[k] == acc[k]);
                }
            }
            if forall|k: int| 0 <= k < ps.len() ==> (#[trigger] ps[k]).len() > 0 && is_strong_boundary(ps[k].last()) {
                assert forall|k: int| 0 <= k < pre.len() implies (#[trigger] pre[k]).len() > 0 && is_strong_boundary(
                    pre[k].last(),
                ) by {
                    assert(pre[k] == ps[k]);
                }
                assert(p == ps[ps.len() - 1]);
                lemma_strong_boundary_not_ws(p.last());
                assert(seg.last() == p[w.1 - 1]);
                assert forall|k: int| 0 <= k < out.len() implies is_strong_boundary((#[trigger] out[k]).last()) by {
                    if k < acc.len() {
                        assert(out[k] == acc[k]);
                    }
                }
            }
        } else {
            assert(out == acc);
            if forall|k: int| 0 <= k < ps.len() ==> (#[trigger] ps[k]).len() > 0 && is_strong_boundary(ps[k].last()) {
                assert forall|k: int| 0 <= k < pre.len() implies (#[trigger] pre[k]).len() > 0 && is_strong_boundary(
                    pre[k].last(),
                ) by {
                    assert(pre[k] == ps[k]);
                }
            }
            assert forall|k: int| 0 <= k < ps.len() && (#[trigger] trim(ps[k])).len() > 0 implies out.len() > 0 by {
                if k < pre.len() {
                    assert(pre[k] == ps[k]);
                    assert(trim(pre[k]).len() > 0);
                }
            }
        }
    }
}

/// When short pieces are not merged (`min_chars` at most one), the segments
/// of a split follow the sentence ends: each segment but the last ends with
/// one of `。！？!?`, and no segment holds one before its end.
pub proof fn lemma_split_segments_follow_sentence_ends(text: Seq<char>, total: int, min_chars: int)
    requires
        min_chars <= 1,
    ensures
        forall|k: int|
            0 <= k < split_spec(text, total, min_chars).len() - 1 ==> {
                let c = (#[trigger] split_spec(text, total, min_chars)[k]).0.last();
                c == '。' || c == '！' || c == '？' || c == '!' || c == '?'
            },
        forall|k: int, j: int|
            0 <= k < split_spec(text, total, min_chars).len() && 0 <= j < split_spec(text, total, min_chars)[k].0.len()
                - 1 ==> {
                let c = #[trigger] split_spec(text, total, min_chars)[k].0[j];
                c != '。' && c != '！' && c != '？' && c != '!' && c != '?'
            },
{
    let out = split_spec(text, total, min_chars);
    if text.len() > 0 {
        let ps = pieces_from(text, 0, 0);
        lemma_pieces_shape(text, 0, 0);
        let merged = merge_pieces(ps, min_chars);
        lemma_merge_keeps_piece_shape(ps, min_chars);
        if merged.len() == 0 {
            if ps.len() >= 2 {
                lemma_strong_boundary_not_ws(ps[0].last());
                let w = lemma_trim_window(ps[0]);
                assert(trim(ps[0]).len() > 0);
            }
            if ps.len() == 0 {
                assert(ps.flatten() =~= Seq::<char>::empty());
                assert(text.subrange(0, text.len() as int) =~= text);
            }
            assert(ps.len() == 1);
            ps.lemma_flatten_one_element();
            assert(text.subrange(0, text.len() as int) =~= text);
            assert(out == seq![(text, total)]);
            assert(text == ps[0]);
        } else {
            let pre = ps.drop_last();
            assert forall|k: int, j: int| 0 <= k < pre.len() && 0 <= j < pre[k].len() - 1 implies !is_strong_boundary(
                #[trigger] pre[k][j],
            ) by {
                assert(pre[k] == ps[k]);
            }
            assert forall|k: int| 0 <= k < pre.len() implies (#[trigger] pre[k]).len() > 0 && is_strong_boundary(
                pre[k].last(),
            ) by {
                assert(pre[k] == ps[k]);
            }
            lemma_merge_keeps_piece_shape(pre, min_chars);
            let acc = merge_pieces(pre, min_chars);
            assert(merged == acc || merged == acc.push(trim(ps.last())));
            assert forall|k: int| 0 <= k < out.len() - 1 implies is_strong_boundary(
                (#[trigger] out[k]).0.last(),
            ) by {
                assert(out[k].0 == merged[k]);
                assert(merged[k] == acc[k]);
            }
            assert forall|k: int, j: int| 0 <= k < out.len() && 0 <= j < out[k].0.len() - 1 implies !is_strong_boundary(
                #[trigger] out[k].0[j],
            ) by {
                assert(out[k].0 == merged[k]);
            }
        }
    }
}

/// Sum of the durations of split segments.
pub open spec fn sum_durations(s: Seq<(Seq<char>, int)>) -> int
    decreases s.len(),
{
    if s.len() == 0 {
        0
    } else {
        sum_durations(s.drop_last()) + s.last().1
    }
}

proof fn lemma_sum_prefix(segs: Seq<Seq<char>>, total: int, k: int)
    requires
        0 <= k < segs.len(),
    ensures
        sum_durations(Seq::new(k as nat, |m: int| (segs[m], segment_duration(segs, total, m))))
            == allocated(segs, total, k),
    decreases k,
{
    let f = |m: int| (segs[m], segment_duration(segs, total, m));
    if k > 0 {
        assert(Seq::new(k as nat, f).drop_last() =~= Seq::new((k - 1) as nat, f));
        lemma_sum_prefix(segs, total, k - 1);
    }
}

/// The durations of the segments of a non-empty text add up to the whole
/// duration, each piece carrying its share and no more than is left.
pub proof fn lemma_split_durations_sum(text: Seq<char>, total: int, min_chars: int)
    requires
        total >= 0,
        text.len() > 0,
    ensures
        sum_durations(split_spec(text, total, min_chars)) == total,
{
    let segs = merge_pieces(pieces_from(text, 0, 0), min_chars);
    let out = split_spec(text, total, min_chars);
    if segs.len() == 0 {
        assert(out.drop_last() =~= Seq::<(Seq<char>, int)>::empty());
        assert(sum_durations(out) == sum_durations(out.drop_last()) + out.last().1);
    } else {
        let n = segs.len();
        let f = |m: int| (segs[m], segment_duration(segs, total, m));
        assert(out == Seq::new(n, f));
        assert(out.drop_last() =~= Seq::new((n - 1) as nat, f));
        lemma_sum_prefix(segs, total, n - 1);
        assert(Seq::new((n - 1) as nat, f) =~= Seq::new(
            (n - 1) as nat,
            |m: int| (segs[m], segment_duration(segs, total, m)),
        ));
        assert(out.last() == f(n - 1));
        assert(out.last().1 == segment_duration(segs, total, n - 1));
        assert(sum_durations(out) == sum_durations(out.drop_last()) + out.last().1);
    }
}

} // verus!
