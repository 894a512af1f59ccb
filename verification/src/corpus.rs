//! Reference transcripts of an evaluation corpus in the AISHELL-1 layout:
//! one utterance per line, its id, white space, then the reference text with
//! its characters separated by spaces.
use vstd::prelude::*;

use crate::cli::{lines_of, lines_spec};
use crate::text::{is_whitespace, is_ws, leading_word, lemma_leading_word_is_run, string_of_range, trim, trim_bounds};

verus! {

pub open spec fn not_ws() -> spec_fn(char) -> bool {
    |c: char| !is_ws(c)
}

/// The entry one transcript line holds, if any: the id is the line's first
/// word, the text is what follows the white-space character after it, with
/// all white space taken out. Blank lines, `#` comments and lines with an id
/// but no text hold none.
pub open spec fn transcript_entry(line: Seq<char>) -> Option<(Seq<char>, Seq<char>)> {
    let t = trim(line);
    let id = leading_word(t);
    if t.len() == 0 || t[0] == '#' || id.len() == t.len() {
        None
    } else {
        Some((id, t.skip(id.len() + 1int).filter(not_ws())))
    }
}

pub open spec fn line_entry() -> spec_fn(Seq<char>) -> Option<(Seq<char>, Seq<char>)> {
    |l: Seq<char>| transcript_entry(l)
}

/// How many entries a read keeps: all without a limit, otherwise the limit,
/// and at least one (the limit is checked after an entry is added).
pub open spec fn entry_cap(max: Option<usize>) -> Option<int> {
    match max {
        None => None,
        Some(m) => Some(if m == 0 { 1 } else { m as int }),
    }
}

/// The entries of a transcript, in line order, cut to `max`.
pub open spec fn transcript_entries(content: Seq<char>, max: Option<usize>) -> Seq<(Seq<char>, Seq<char>)> {
    let all = lines_spec(content).filter_map(line_entry());
    match entry_cap(max) {
        Some(c) if c < all.len() => all.take(c),
        _ => all,
    }
}

pub open spec fn entries_view(v: Seq<(String, String)>) -> Seq<(Seq<char>, Seq<char>)> {
    v.map_values(|e: (String, String)| (e.0@, e.1@))
}

/// `s.take(i + 1).filter_map(f)` extends `s.take(i).filter_map(f)` by what
/// `f` makes of `s[i]`.
proof fn lemma_filter_map_step<A, B>(s: Seq<A>, f: spec_fn(A) -> Option<B>, i: int)
    requires
        0 <= i < s.len(),
    ensures
        s.take(i + 1).filter_map(f) == match f(s[i]) {
            Some(b) => s.take(i).filter_map(f).push(b),
            None => s.take(i).filter_map(f),
        },
{
    assert(s.take(i + 1).drop_last() =~= s.take(i));
    assert(s.take(i + 1).last() == s[i]);
    match f(s[i]) {
        Some(b) => {
            assert(s.take(i).filter_map(f) + seq![b] =~= s.take(i).filter_map(f).push(b));
        },
        None => {},
    }
}

/// What `filter_map` gives for a prefix is a prefix of what it gives for the
/// whole sequence.
proof fn lemma_filter_map_prefix<A, B>(s: Seq<A>, f: spec_fn(A) -> Option<B>, i: int)
    requires
        0 <= i <= s.len(),
    ensures
        s.take(i).filter_map(f).len() <= s.filter_map(f).len(),
        s.filter_map(f).take(s.take(i).filter_map(f).len() as int) == s.take(i).filter_map(f),
    decreases s.len(),
{
    if i == s.len() {
        assert(s.take(i) =~= s);
        assert(s.filter_map(f).take(s.filter_map(f).len() as int) =~= s.filter_map(f));
    } else {
        let d = s.drop_last();
        lemma_filter_map_prefix(d, f, i);
        assert(d.take(i) =~= s.take(i));
        let p = s.take(i).filter_map(f);
        match f(s.last()) {
            Some(b) => {
                assert(s.filter_map(f) == d.filter_map(f) + seq![b]);
                assert((d.filter_map(f) + seq![b]).take(p.len() as int) =~= d.filter_map(f).take(p.len() as int));
            },
            None => {},
        }
    }
}

/// The white-space-free characters of `cs[lo..hi]`.
fn non_ws_chars(cs: &[char], lo: usize, hi: usize) -> (s: String)
    requires
        lo <= hi <= cs.len(),
    ensures
        s@ == cs@.subrange(lo as int, hi as int).filter(not_ws()),
{
    let mut s = String::new();
    let mut j: usize = lo;
    proof {
        reveal(Seq::filter);
        assert(cs@.subrange(lo as int, lo as int).filter(not_ws()) =~= Seq::<char>::empty());
    }
    while j < hi
        invariant
            lo <= j <= hi <= cs.len(),
            s@ == cs@.subrange(lo as int, j as int).filter(not_ws()),
        decreases hi - j,
    {
        let c = cs[j];
        proof {
            reveal(Seq::filter);
            let x = cs@.subrange(lo as int, j + 1);
            assert(x.drop_last() =~= cs@.subrange(lo as int, j as int));
            assert(x.last() == c);
        }
        if !is_whitespace(c) {
            crate::text::push_char(&mut s, c);
        }
        j += 1;
    }
    s
}

/// The entry of one transcript line (see [`transcript_entry`]).
pub fn transcript_entry_of(line: &[char]) -> (r: Option<(String, String)>)
    ensures
        match r {
            Some(e) => transcript_entry(line@) == Some((e.0@, e.1@)),
            None => transcript_entry(line@) is None,
        },
{
    let (lo, hi) = trim_bounds(line);
    let ghost t = trim(line@);
    if lo == hi || line[lo] == '#' {
        assert(lo < hi ==> t[0] == line@[lo as int]);
        return None;
    }
    let mut k: usize = lo;
    while k < hi && !is_whitespace(line[k])
        invariant
            lo <= k <= hi <= line.len(),
            forall|q: int| lo <= q < k ==> !is_ws(#[trigger] line@[q]),
        decreases hi - k,
    {
        k += 1;
    }
    proof {
        assert forall|q: int| 0 <= q < k - lo implies !is_ws(#[trigger] t[q]) by {
            assert(t[q] == line@[lo + q]);
        }
        if k < hi {
            assert(t[k - lo] == line@[k as int]);
        }
        lemma_leading_word_is_run(t, k - lo);
        assert(t.take(k - lo) =~= line@.subrange(lo as int, k as int));
        assert(t[0] == line@[lo as int]);
    }
    if k == hi {
        return None;
    }
    let id = string_of_range(line, lo, k);
    let text = non_ws_chars(line, k + 1, hi);
    proof {
        assert(t.skip(k - lo + 1) =~= line@.subrange(k + 1, hi as int));
    }
    Some((id, text))
}

/// Reads a reference transcript: its entries `(id, text)` in line order,
/// stopping once `max` entries are read (one at least).
pub fn parse_transcript(content: &str, max: Option<usize>) -> (entries: Vec<(String, String)>)
    ensures
        entries_view(entries@) == transcript_entries(content@, max),
{
    let ls = lines_of(content);
    let ghost lv = ls@.map_values(|v: Vec<char>| v@);
    let ghost f = line_entry();
    let mut out: Vec<(String, String)> = Vec::new();
    let mut i: usize = 0;
    let mut full = false;
    proof {
        assert(lv.take(0) =~= Seq::<Seq<char>>::empty());
        assert(entries_view(out@) =~= Seq::<(Seq<char>, Seq<char>)>::empty());
    }
    while i < ls.len() && !full
        invariant
            i <= ls.len(),
            lv == ls@.map_values(|v: Vec<char>| v@),
            lv == lines_spec(content@),
            f == line_entry(),
            entries_view(out@) == lv.take(i as int).filter_map(f),
            out@.len() >= 1 || !full,
            match entry_cap(max) {
                Some(c) => out@.len() <= c && (full <==> out@.len() == c),
                None => !full,
            },
        decreases ls.len() - i,
    {
        proof {
            lemma_filter_map_step(lv, f, i as int);
        }
        let e = transcript_entry_of(ls[i].as_slice());
        match e {
            Some(pair) => {
                let ghost before = entries_view(out@);
                out.push(pair);
                assert(entries_view(out@) =~= before.push((out@.last().0@, out@.last().1@)));
                match max {
                    Some(m) => {
                        if out.len() >= m {
                            full = true;
                        }
                    },
                    None => {},
                }
            },
            None => {},
        }
        i += 1;
    }
    proof {
        let all = lv.filter_map(f);
        lemma_filter_map_prefix(lv, f, i as int);
        let p = lv.take(i as int).filter_map(f);
        if !full {
            assert(lv.take(i as int) =~= lv);
        }
        match entry_cap(max) {
            Some(c) => {
                if full {
                    assert(p.len() == c);
                    if c == all.len() {
                        assert(all.take(c) =~= all);
                    }
                }
            },
            None => {},
        }
    }
    out
}

} // verus!
