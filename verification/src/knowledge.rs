//! Local knowledge base over `.md` / `.txt` notes: chunking by heading,
//! tokenisation (ASCII words and CJK bigrams), and the phrase gate a chunk
//! must pass before it is scored.
//!
//! Walking and reading the folder, and the IDF scoring (floating point),
//! happen outside the library.
use vstd::prelude::*;

use crate::cli::{lines_of_chars, lines_spec};
use crate::text::{
    ascii_lower_chars, chars_eq, chars_of, chars_range, is_alnum_spec, is_ascii_alphanumeric,
    lemma_trim_blank, lower_seq, owned, push_char, push_chars, string_of, trim, trim_chars,
};

verus! {

// ---------------------------------------------------------------- tokens

/// CJK unified ideographs (basic block, extension A, extension B).
pub open spec fn is_cjk_spec(c: char) -> bool {
    (0x4E00 <= c as u32 <= 0x9FFF) || (0x3400 <= c as u32 <= 0x4DBF) || (0x20000 <= c as u32 <= 0x2A6DF)
}

pub fn is_cjk(c: char) -> (b: bool)
    ensures
        b == is_cjk_spec(c),
{
    let u = c as u32;
    (0x4E00 <= u && u <= 0x9FFF) || (0x3400 <= u && u <= 0x4DBF) || (0x20000 <= u && u <= 0x2A6DF)
}

/// End of the run of ASCII letters and digits that starts at `i`.
pub open spec fn alnum_end(cs: Seq<char>, i: int) -> int
    decreases cs.len() - i,
{
    if 0 <= i < cs.len() && is_alnum_spec(cs[i]) {
        alnum_end(cs, i + 1)
    } else {
        i
    }
}

/// End of the run of CJK ideographs that starts at `i`.
pub open spec fn cjk_end(cs: Seq<char>, i: int) -> int
    decreases cs.len() - i,
{
    if 0 <= i < cs.len() && is_cjk_spec(cs[i]) {
        cjk_end(cs, i + 1)
    } else {
        i
    }
}

/// The two-character windows of a run.
pub open spec fn bigrams(run: Seq<char>) -> Seq<Seq<char>> {
    Seq::new((run.len() - 1) as nat, |k: int| run.subrange(k, k + 2))
}

/// Ordered tokens of `cs[i..]`: the bigram sequence of each CJK run of two or
/// more ideographs, and each ASCII word of two or more characters (lower-cased).
pub open spec fn tokens_from(cs: Seq<char>, i: int) -> (Seq<Seq<Seq<char>>>, Seq<Seq<char>>)
    decreases cs.len() - i,
{
    if i < 0 || i >= cs.len() {
        (Seq::empty(), Seq::empty())
    } else if is_alnum_spec(cs[i]) {
        let j = alnum_end(cs, i);
        proof {
            lemma_alnum_end(cs, i);
        }
        if j <= i {
            (Seq::empty(), Seq::empty())
        } else {
            let rest = tokens_from(cs, j);
            let word = lower_seq(cs.subrange(i, j));
            (rest.0, if word.len() >= 2 {
                seq![word] + rest.1
            } else {
                rest.1
            })
        }
    } else if is_cjk_spec(cs[i]) {
        let j = cjk_end(cs, i);
        proof {
            lemma_cjk_end(cs, i);
        }
        if j <= i {
            (Seq::empty(), Seq::empty())
        } else {
            let rest = tokens_from(cs, j);
            (if j - i >= 2 {
                seq![bigrams(cs.subrange(i, j))] + rest.0
            } else {
                rest.0
            }, rest.1)
        }
    } else {
        tokens_from(cs, i + 1)
    }
}

pub proof fn lemma_alnum_end(cs: Seq<char>, i: int)
    requires
        0 <= i <= cs.len(),
    ensures
        i <= alnum_end(cs, i) <= cs.len(),
    decreases cs.len() - i,
{
    if i < cs.len() && is_alnum_spec(cs[i]) {
        lemma_alnum_end(cs, i + 1);
    }
}

pub proof fn lemma_cjk_end(cs: Seq<char>, i: int)
    requires
        0 <= i <= cs.len(),
    ensures
        i <= cjk_end(cs, i) <= cs.len(),
    decreases cs.len() - i,
{
    if i < cs.len() && is_cjk_spec(cs[i]) {
        lemma_cjk_end(cs, i + 1);
    }
}

/// The ordered tokens of a text: CJK bigram runs and ASCII words.
pub open spec fn tokenize_ordered_spec(text: Seq<char>) -> (Seq<Seq<Seq<char>>>, Seq<Seq<char>>) {
    tokens_from(text, 0)
}

pub open spec fn views2(v: Seq<Vec<Vec<char>>>) -> Seq<Seq<Seq<char>>> {
    v.map_values(|r: Vec<Vec<char>>| r@.map_values(|x: Vec<char>| x@))
}

pub open spec fn views1(v: Seq<Vec<char>>) -> Seq<Seq<char>> {
    v.map_values(|x: Vec<char>| x@)
}

fn bigrams_of(run: &[char]) -> (v: Vec<Vec<char>>)
    requires
        run.len() >= 2,
    ensures
        views1(v@) == bigrams(run@),
{
    let mut v: Vec<Vec<char>> = Vec::new();
    let mut k: usize = 0;
    while k + 1 < run.len()
        invariant
            k + 1 <= run.len(),
            views1(v@) == bigrams(run@).subrange(0, k as int),
        decreases run.len() - k,
    {
        let w = chars_range(run, k, k + 2);
        let ghost before = views1(v@);
        v.push(w);
        proof {
            let b = bigrams(run@);
            assert(b[k as int] == run@.subrange(k as int, k + 2));
            assert(b.subrange(0, k + 1) =~= b.subrange(0, k as int).push(b[k as int]));
            assert(views1(v@) =~= before.push(w@));
        }
        k += 1;
    }
    assert(bigrams(run@).subrange(0, k as int) =~= bigrams(run@));
    v
}

/// Ordered tokenisation: the bigram sequence of each CJK run, and the ASCII
/// words (the phrase gate needs the order, which a token set loses).
pub fn tokenize_ordered(text: &str) -> (r: (Vec<Vec<Vec<char>>>, Vec<Vec<char>>))
    ensures
        (views2(r.0@), views1(r.1@)) == tokenize_ordered_spec(text@),
{
    let cs = chars_of(text);
    tokenize_ordered_chars(cs.as_slice())
}

pub fn tokenize_ordered_chars(cs: &[char]) -> (r: (Vec<Vec<Vec<char>>>, Vec<Vec<char>>))
    ensures
        (views2(r.0@), views1(r.1@)) == tokens_from(cs@, 0),
{
    let mut runs: Vec<Vec<Vec<char>>> = Vec::new();
    let mut words: Vec<Vec<char>> = Vec::new();
    let mut i: usize = 0;
    while i < cs.len()
        invariant
            i <= cs.len(),
            views2(runs@) + tokens_from(cs@, i as int).0 == tokens_from(cs@, 0).0,
            views1(words@) + tokens_from(cs@, i as int).1 == tokens_from(cs@, 0).1,
        decreases cs.len() - i,
    {
        let c = cs[i];
        if is_ascii_alphanumeric(c) {
            let start = i;
            proof {
                lemma_alnum_end(cs@, i as int);
            }
            while i < cs.len() && is_ascii_alphanumeric(cs[i])
                invariant
                    start <= i <= cs.len(),
                    alnum_end(cs@, start as int) == alnum_end(cs@, i as int),
                decreases cs.len() - i,
            {
                i += 1;
            }
            let raw = chars_range(cs, start, i);
            let word = ascii_lower_chars(raw.as_slice());
            if word.len() >= 2 {
                let ghost before = views1(words@);
                words.push(word);
                proof {
                    assert(views1(words@) =~= before.push(word@));
                    let rest = tokens_from(cs@, i as int).1;
                    assert(before.push(word@) + rest =~= before + (seq![word@] + rest));
                }
            }
        } else if is_cjk(c) {
            let start = i;
            proof {
                lemma_cjk_end(cs@, i as int);
            }
            while i < cs.len() && is_cjk(cs[i])
                invariant
                    start <= i <= cs.len(),
                    cjk_end(cs@, start as int) == cjk_end(cs@, i as int),
                decreases cs.len() - i,
            {
                i += 1;
            }
            if i - start >= 2 {
                let run = chars_range(cs, start, i);
                let bg = bigrams_of(run.as_slice());
                let ghost before = views2(runs@);
                runs.push(bg);
                proof {
                    assert(views2(runs@) =~= before.push(bigrams(cs@.subrange(start as int, i as int))));
                    let rest = tokens_from(cs@, i as int).0;
                    assert(before.push(bigrams(cs@.subrange(start as int, i as int))) + rest =~= before + (
                    seq![bigrams(cs@.subrange(start as int, i as int))] + rest));
                }
            }
        } else {
            i += 1;
        }
    }
    (runs, words)
}

/// The runs' bigrams, one run after the other.
pub open spec fn concat_runs(rs: Seq<Seq<Seq<char>>>) -> Seq<Seq<char>>
    decreases rs.len(),
{
    if rs.len() == 0 {
        Seq::empty()
    } else {
        concat_runs(rs.drop_last()) + rs.last()
    }
}

/// Every token of a text, as a list: its words, then the bigrams of each run.
pub open spec fn token_list(t: (Seq<Seq<Seq<char>>>, Seq<Seq<char>>)) -> Seq<Seq<char>> {
    t.1 + concat_runs(t.0)
}

/// The token set of a text (`tokenize`): ASCII words of two or more
/// characters, lower-cased, and every two-ideograph window of the CJK runs.
pub open spec fn token_set(text: Seq<char>) -> Set<Seq<char>> {
    token_list(tokenize_ordered_spec(text)).to_set()
}

/// The tokens of `cs` as a list (with repeats), whose set is `token_set`.
pub fn tokenize_chars(cs: &[char]) -> (v: Vec<Vec<char>>)
    ensures
        views1(v@) == token_list(tokens_from(cs@, 0)),
{
    let (runs, words) = tokenize_ordered_chars(cs);
    let mut v = words;
    let ghost rv = views2(runs@);
    let ghost w0 = views1(v@);
    let mut k: usize = 0;
    while k < runs.len()
        invariant
            k <= runs.len(),
            rv == views2(runs@),
            views1(v@) == w0 + concat_runs(rv.subrange(0, k as int)),
        decreases runs.len() - k,
    {
        let mut m: usize = 0;
        let ghost base = views1(v@);
        while m < runs[k].len()
            invariant
                k < runs.len(),
                m <= runs@[k as int].len(),
                rv == views2(runs@),
                views1(v@) == base + rv[k as int].subrange(0, m as int),
            decreases runs@[k as int].len() - m,
        {
            let t = chars_range(runs[k][m].as_slice(), 0, runs[k][m].len());
            let ghost before = views1(v@);
            v.push(t);
            proof {
                assert(t@ =~= runs@[k as int]@[m as int]@);
                assert(rv[k as int][m as int] == runs@[k as int]@[m as int]@);
                assert(rv[k as int].subrange(0, m + 1) =~= rv[k as int].subrange(0, m as int).push(rv[k as int][m as int]));
                assert(views1(v@) =~= before.push(t@));
                assert(views1(v@) =~= base + rv[k as int].subrange(0, m + 1));
            }
            m += 1;
        }
        proof {
            assert(rv[k as int].subrange(0, m as int) =~= rv[k as int]);
            let pre = rv.subrange(0, k as int);
            let nxt = rv.subrange(0, k + 1);
            assert(nxt.drop_last() =~= pre);
            assert(nxt.last() == rv[k as int]);
            assert(concat_runs(nxt) == concat_runs(pre) + rv[k as int]);
            assert(views1(v@) =~= w0 + concat_runs(nxt));
        }
        k += 1;
    }
    assert(rv.subrange(0, runs.len() as int) =~= rv);
    v
}

/// Whether `t` is among `tokens`.
pub fn has_token(tokens: &Vec<Vec<char>>, t: &[char]) -> (b: bool)
    ensures
        b == views1(tokens@).contains(t@),
{
    let mut k: usize = 0;
    while k < tokens.len()
        invariant
            k <= tokens.len(),
            forall|j: int| 0 <= j < k ==> (#[trigger] tokens@[j])@ != t@,
        decreases tokens.len() - k,
    {
        if chars_eq(tokens[k].as_slice(), t) {
            assert(views1(tokens@)[k as int] == t@);
            return true;
        }
        k += 1;
    }
    proof {
        if views1(tokens@).contains(t@) {
            let j = choose|j: int| 0 <= j < views1(tokens@).len() && views1(tokens@)[j] == t@;
            assert(tokens@[j]@ == t@);
        }
    }
    false
}

// ---------------------------------------------------------------- chunking

/// The pieces of `s[start..]` between the occurrences of `sep` found
/// scanning from `i`, left to right without overlap (`str::split`).
pub open spec fn split_from(s: Seq<char>, sep: Seq<char>, start: int, i: int) -> Seq<Seq<char>>
    decreases s.len() - i,
{
    if sep.len() == 0 || i < 0 || i + sep.len() > s.len() {
        seq![s.subrange(start, s.len() as int)]
    } else if s.subrange(i, i + sep.len()) == sep {
        seq![s.subrange(start, i)] + split_from(s, sep, i + sep.len(), i + sep.len())
    } else {
        split_from(s, sep, start, i + 1)
    }
}

/// `s` split at every occurrence of `sep` (non-empty).
pub fn split_chars(cs: &[char], sep: &[char]) -> (v: Vec<Vec<char>>)
    requires
        sep.len() >= 1,
    ensures
        views1(v@) == split_from(cs@, sep@, 0, 0),
{
    let mut out: Vec<Vec<char>> = Vec::new();
    let mut start: usize = 0;
    let mut i: usize = 0;
    while i <= cs.len() && sep.len() <= cs.len() - i
        invariant
            start <= i <= cs.len(),
            sep.len() >= 1,
            views1(out@) + split_from(cs@, sep@, start as int, i as int) == split_from(cs@, sep@, 0, 0),
        decreases cs.len() - i,
    {
        if crate::text::matches_at(cs, sep, i) {
            let piece = chars_range(cs, start, i);
            let ghost before = views1(out@);
            out.push(piece);
            proof {
                assert(views1(out@) =~= before.push(piece@));
                let rest = split_from(cs@, sep@, i + sep.len(), i + sep.len());
                assert(before + split_from(cs@, sep@, start as int, i as int) =~= views1(out@) + rest);
            }
            i = i + sep.len();
            start = i;
        } else {
            i += 1;
        }
    }
    let last = chars_range(cs, start, cs.len());
    let ghost before = views1(out@);
    out.push(last);
    assert(views1(out@) =~= before + split_from(cs@, sep@, start as int, i as int));
    out
}

/// `s` without its leading `#` characters.
pub open spec fn strip_hashes(s: Seq<char>) -> Seq<char>
    decreases s.len(),
{
    if s.len() > 0 && s[0] == '#' {
        strip_hashes(s.drop_first())
    } else {
        s
    }
}

/// The heading of a part: its first line without leading `#`, trimmed.
pub open spec fn heading_of(part: Seq<char>) -> Seq<char> {
    let ls = lines_spec(part);
    trim(strip_hashes(if ls.len() > 0 {
        ls[0]
    } else {
        Seq::empty()
    }))
}

/// Paragraphs: the pieces trimmed, blank ones dropped.
pub open spec fn paragraphs(ps: Seq<Seq<char>>) -> Seq<Seq<char>>
    decreases ps.len(),
{
    if ps.len() == 0 {
        Seq::empty()
    } else {
        let r = paragraphs(ps.drop_last());
        if trim(ps.last()).len() > 0 {
            r.push(trim(ps.last()))
        } else {
            r
        }
    }
}

/// Paragraphs packed into chunks: a chunk is emitted (trimmed) before a
/// paragraph that would bring it to 400 characters or more. Returns the
/// emitted chunks and the open buffer (each paragraph followed by `\n`).
pub open spec fn pack(ps: Seq<Seq<char>>) -> (Seq<Seq<char>>, Seq<char>)
    decreases ps.len(),
{
    if ps.len() == 0 {
        (Seq::empty(), Seq::empty())
    } else {
        let (out, buf) = pack(ps.drop_last());
        let p = ps.last();
        if buf.len() + p.len() >= 400 && buf.len() > 0 {
            (out.push(trim(buf)), p + seq!['\n'])
        } else {
            (out, buf + p + seq!['\n'])
        }
    }
}

/// The chunk texts of one part (already trimmed): itself, or when longer than
/// 800 characters its paragraphs packed into chunks.
pub open spec fn part_texts(t: Seq<char>) -> Seq<Seq<char>> {
    if t.len() > 800 {
        let (out, buf) = pack(paragraphs(split_from(t, seq!['\n', '\n'], 0, 0)));
        if trim(buf).len() > 0 {
            out.push(trim(buf))
        } else {
            out
        }
    } else {
        seq![t]
    }
}

/// The (text, heading) chunks of one part.
pub open spec fn part_chunks(part: Seq<char>) -> Seq<(Seq<char>, Seq<char>)> {
    let t = trim(part);
    if t.len() == 0 {
        Seq::empty()
    } else {
        let h = heading_of(t);
        part_texts(t).map_values(|x: Seq<char>| (x, h))
    }
}

pub open spec fn chunks_of_parts(parts: Seq<Seq<char>>) -> Seq<(Seq<char>, Seq<char>)>
    decreases parts.len(),
{
    if parts.len() == 0 {
        Seq::empty()
    } else {
        chunks_of_parts(parts.drop_last()) + part_chunks(parts.last())
    }
}

/// The (text, heading) chunks of a note: split at each line that starts a
/// heading (`\n#`), each part trimmed and headed by its first line.
pub open spec fn chunk_file_spec(text: Seq<char>) -> Seq<(Seq<char>, Seq<char>)> {
    chunks_of_parts(split_from(text, seq!['\n', '#'], 0, 0))
}

fn strip_hashes_chars(cs: &[char]) -> (v: Vec<char>)
    ensures
        v@ == strip_hashes(cs@),
{
    let mut i: usize = 0;
    assert(cs@.subrange(0, cs.len() as int) =~= cs@);
    while i < cs.len() && cs[i] == '#'
        invariant
            i <= cs.len(),
            strip_hashes(cs@) == strip_hashes(cs@.subrange(i as int, cs.len() as int)),
        decreases cs.len() - i,
    {
        assert(cs@.subrange(i as int, cs.len() as int).drop_first() =~= cs@.subrange(i + 1, cs.len() as int));
        i += 1;
    }
    let v = chars_range(cs, i, cs.len());
    v
}

fn heading_chars(t: &[char]) -> (h: Vec<char>)
    ensures
        h@ == heading_of(t@),
{
    let ls = lines_of_chars(t);
    let first: Vec<char> = if ls.len() > 0 {
        chars_range(ls[0].as_slice(), 0, ls[0].len())
    } else {
        Vec::new()
    };
    proof {
        if ls.len() > 0 {
            assert(first@ =~= ls@[0]@);
        }
    }
    let stripped = strip_hashes_chars(first.as_slice());
    trim_chars(stripped.as_slice())
}

/// The chunk texts of a part that is already trimmed.
fn part_text_chunks(t: &[char]) -> (v: Vec<Vec<char>>)
    ensures
        views1(v@) == part_texts(t@),
{
    if t.len() <= 800 {
        let one = chars_range(t, 0, t.len());
        assert(one@ =~= t@);
        let v = vec![one];
        assert(views1(v@) =~= part_texts(t@));
        return v;
    }
    let sep: [char; 2] = ['\n', '\n'];
    let pieces = split_chars(t, sep.as_slice());
    assert(sep@ == seq!['\n', '\n']);
    let ghost pv = views1(pieces@);
    // paragraphs
    let mut paras: Vec<Vec<char>> = Vec::new();
    let mut k: usize = 0;
    while k < pieces.len()
        invariant
            k <= pieces.len(),
            pv == views1(pieces@),
            views1(paras@) == paragraphs(pv.subrange(0, k as int)),
        decreases pieces.len() - k,
    {
        let p = trim_chars(pieces[k].as_slice());
        proof {
            assert(pv.subrange(0, k + 1).drop_last() =~= pv.subrange(0, k as int));
        }
        if p.len() > 0 {
            let ghost before = views1(paras@);
            paras.push(p);
            assert(views1(paras@) =~= before.push(p@));
        }
        k += 1;
    }
    assert(pv.subrange(0, pieces.len() as int) =~= pv);
    let ghost qv = views1(paras@);
    // packing
    let mut out: Vec<Vec<char>> = Vec::new();
    let mut buf: Vec<char> = Vec::new();
    let mut j: usize = 0;
    while j < paras.len()
        invariant
            j <= paras.len(),
            qv == views1(paras@),
            (views1(out@), buf@) == pack(qv.subrange(0, j as int)),
        decreases paras.len() - j,
    {
        proof {
            assert(qv.subrange(0, j + 1).drop_last() =~= qv.subrange(0, j as int));
        }
        let plen = paras[j].len();
        if buf.len() >= 400 || (plen >= 400 - buf.len() && buf.len() > 0) {
            if buf.len() > 0 {
                let tb = trim_chars(buf.as_slice());
                let ghost before = views1(out@);
                out.push(tb);
                assert(views1(out@) =~= before.push(tb@));
                buf = Vec::new();
            }
        }
        let ghost b0 = buf@;
        let mut m: usize = 0;
        while m < plen
            invariant
                j < paras.len(),
                plen == paras@[j as int].len(),
                m <= plen,
                buf@ == b0 + paras@[j as int]@.subrange(0, m as int),
            decreases plen - m,
        {
            buf.push(paras[j][m]);
            assert(buf@ =~= b0 + paras@[j as int]@.subrange(0, m + 1));
            m += 1;
        }
        buf.push('\n');
        proof {
            assert(paras@[j as int]@.subrange(0, plen as int) =~= paras@[j as int]@);
            assert(buf@ =~= b0 + qv[j as int] + seq!['\n']);
        }
        j += 1;
    }
    assert(qv.subrange(0, paras.len() as int) =~= qv);
    let tb = trim_chars(buf.as_slice());
    if tb.len() > 0 {
        let ghost before = views1(out@);
        out.push(tb);
        assert(views1(out@) =~= before.push(tb@));
    }
    out
}

// ---------------------------------------------------------------- the base

/// One indexed chunk of a note, tokenised when it is indexed.
pub struct KBChunk {
    text: String,
    source: String,
    heading: String,
    tokens: Vec<Vec<char>>,
}

impl View for KBChunk {
    /// (text, source, heading)
    type V = (Seq<char>, Seq<char>, Seq<char>);

    closed spec fn view(&self) -> (Seq<char>, Seq<char>, Seq<char>) {
        (self.text@, self.source@, self.heading@)
    }
}

impl KBChunk {
    /// Its tokens agree with its text.
    pub closed spec fn wf(&self) -> bool {
        views1(self.tokens@) == token_list(tokenize_ordered_spec(self.text@))
    }

    pub fn new(text: String, source: String, heading: String) -> (c: Self)
        ensures
            c@ == (text@, source@, heading@),
            c.wf(),
    {
        let cs = chars_of(text.as_str());
        let tokens = tokenize_chars(cs.as_slice());
        KBChunk { text, source, heading, tokens }
    }

    pub fn text(&self) -> (r: &str)
        ensures
            r@ == self@.0,
    {
        self.text.as_str()
    }

    pub fn source(&self) -> (r: &str)
        ensures
            r@ == self@.1,
    {
        self.source.as_str()
    }

    pub fn heading(&self) -> (r: &str)
        ensures
            r@ == self@.2,
    {
        self.heading.as_str()
    }

    /// Whether `token` is one of the chunk's tokens.
    pub fn contains_token(&self, token: &[char]) -> (b: bool)
        requires
            self.wf(),
        ensures
            b == token_set(self@.0).contains(token@),
    {
        has_token(&self.tokens, token)
    }
}

/// Chunks of a note: split at headings, and long parts at paragraphs.
pub fn chunk_file(text: &str, source: &str) -> (v: Vec<KBChunk>)
    ensures
        v@.map_values(|c: KBChunk| c@) == chunk_file_spec(text@).map_values(
            |e: (Seq<char>, Seq<char>)| (e.0, source@, e.1),
        ),
        forall|k: int| 0 <= k < v.len() ==> (#[trigger] v@[k]).wf(),
{
    let cs = chars_of(text);
    let sep: [char; 2] = ['\n', '#'];
    assert(sep@ == seq!['\n', '#']);
    let parts = split_chars(cs.as_slice(), sep.as_slice());
    let ghost pv = views1(parts@);
    let mut out: Vec<KBChunk> = Vec::new();
    let mut k: usize = 0;
    while k < parts.len()
        invariant
            k <= parts.len(),
            pv == views1(parts@),
            out@.map_values(|c: KBChunk| c@) == chunks_of_parts(pv.subrange(0, k as int)).map_values(
                |e: (Seq<char>, Seq<char>)| (e.0, source@, e.1),
            ),
            forall|m: int| 0 <= m < out.len() ==> (#[trigger] out@[m]).wf(),
        decreases parts.len() - k,
    {
        proof {
            assert(pv.subrange(0, k + 1).drop_last() =~= pv.subrange(0, k as int));
        }
        let t = trim_chars(parts[k].as_slice());
        if t.len() > 0 {
            let h = heading_chars(t.as_slice());
            let texts = part_text_chunks(t.as_slice());
            let ghost tv = views1(texts@);
            let ghost base = out@.map_values(|c: KBChunk| c@);
            let mut j: usize = 0;
            while j < texts.len()
                invariant
                    j <= texts.len(),
                    tv == views1(texts@),
                    out@.map_values(|c: KBChunk| c@) == base + tv.subrange(0, j as int).map_values(
                        |x: Seq<char>| (x, source@, h@),
                    ),
                    forall|m: int| 0 <= m < out.len() ==> (#[trigger] out@[m]).wf(),
                decreases texts.len() - j,
            {
                let c = KBChunk::new(string_of(texts[j].as_slice()), owned(source), string_of(h.as_slice()));
                let ghost before = out@.map_values(|c: KBChunk| c@);
                out.push(c);
                proof {
                    assert(out@.map_values(|c: KBChunk| c@) =~= before.push((tv[j as int], source@, h@)));
                    assert(tv.subrange(0, j + 1).map_values(|x: Seq<char>| (x, source@, h@)) =~= tv.subrange(
                        0,
                        j as int,
                    ).map_values(|x: Seq<char>| (x, source@, h@)).push((tv[j as int], source@, h@)));
                }
                j += 1;
            }
            proof {
                assert(tv.subrange(0, texts.len() as int) =~= tv);
                let pc = part_chunks(pv[k as int]);
                assert(pc =~= tv.map_values(|x: Seq<char>| (x, h@)));
                let prev = chunks_of_parts(pv.subrange(0, k as int));
                assert((prev + pc).map_values(|e: (Seq<char>, Seq<char>)| (e.0, source@, e.1)) =~= prev.map_values(
                    |e: (Seq<char>, Seq<char>)| (e.0, source@, e.1),
                ) + pc.map_values(|e: (Seq<char>, Seq<char>)| (e.0, source@, e.1)));
                assert(pc.map_values(|e: (Seq<char>, Seq<char>)| (e.0, source@, e.1)) =~= tv.map_values(
                    |x: Seq<char>| (x, source@, h@),
                ));
                assert(out@.map_values(|c: KBChunk| c@) =~= chunks_of_parts(pv.subrange(0, k + 1)).map_values(
                    |e: (Seq<char>, Seq<char>)| (e.0, source@, e.1),
                ));
            }
        } else {
            proof {
                let prev = chunks_of_parts(pv.subrange(0, k as int));
                assert(part_chunks(pv[k as int]) =~= Seq::<(Seq<char>, Seq<char>)>::empty());
                assert(prev + part_chunks(pv[k as int]) =~= prev);
            }
        }
        k += 1;
    }
    assert(pv.subrange(0, parts.len() as int) =~= pv);
    out
}

/// Whether `run` has three consecutive bigrams that are all in `tokens`.
pub open spec fn run_has_phrase(tokens: Set<Seq<char>>, run: Seq<Seq<char>>) -> bool {
    exists|k: int|
        0 <= k && k + 3 <= run.len() && tokens.contains(#[trigger] run[k]) && tokens.contains(run[k + 1])
            && tokens.contains(run[k + 2])
}

/// A chunk is a candidate when it holds three consecutive bigrams of one
/// query run, or one query word of three or more characters.
pub open spec fn has_phrase_spec(tokens: Set<Seq<char>>, runs: Seq<Seq<Seq<char>>>, words: Seq<Seq<char>>) -> bool {
    (exists|r: int| 0 <= r < runs.len() && run_has_phrase(tokens, #[trigger] runs[r]))
        || (exists|w: int| 0 <= w < words.len() && (#[trigger] words[w]).len() >= 3 && tokens.contains(words[w]))
}

/// Whether a chunk passes the phrase gate for the ordered query tokens.
pub fn chunk_has_phrase(chunk: &KBChunk, q_runs: &Vec<Vec<Vec<char>>>, q_words: &Vec<Vec<char>>) -> (b: bool)
    requires
        chunk.wf(),
    ensures
        b == has_phrase_spec(token_set(chunk@.0), views2(q_runs@), views1(q_words@)),
{
    let ghost ts = token_set(chunk@.0);
    let ghost rv = views2(q_runs@);
    let mut r: usize = 0;
    while r < q_runs.len()
        invariant
            r <= q_runs.len(),
            chunk.wf(),
            ts == token_set(chunk@.0),
            rv == views2(q_runs@),
            forall|x: int| 0 <= x < r ==> !run_has_phrase(ts, #[trigger] rv[x]),
        decreases q_runs.len() - r,
    {
        let ghost run = rv[r as int];
        let mut streak: usize = 0;
        let mut k: usize = 0;
        while k < q_runs[r].len()
            invariant
                r < q_runs.len(),
                chunk.wf(),
                ts == token_set(chunk@.0),
                rv == views2(q_runs@),
                run == rv[r as int],
                k <= run.len(),
                streak <= k,
                streak < 3,
                forall|s: int| k - streak <= s < k ==> ts.contains(#[trigger] run[s]),
                k - streak > 0 ==> !ts.contains(run[k - streak - 1]),
                forall|s: int| 0 <= s && s + 3 <= k ==> !(ts.contains(#[trigger] run[s]) && ts.contains(run[s + 1]) && ts.contains(run[s + 2])),
            decreases run.len() - k,
        {
            assert(q_runs@[r as int]@[k as int]@ == run[k as int]);
            if chunk.contains_token(q_runs[r][k].as_slice()) {
                streak += 1;
                if streak >= 3 {
                    assert(ts.contains(run[k - 2]) && ts.contains(run[k - 1]) && ts.contains(run[k as int]));
                    assert(run_has_phrase(ts, rv[r as int]));
                    return true;
                }
            } else {
                streak = 0;
            }
            k += 1;
        }
        proof {
            assert forall|s: int| 0 <= s && s + 3 <= run.len() implies !(ts.contains(#[trigger] run[s]) && ts.contains(run[s + 1]) && ts.contains(run[s + 2])) by {}
        }
        r += 1;
    }
    let ghost wv = views1(q_words@);
    let mut w: usize = 0;
    while w < q_words.len()
        invariant
            w <= q_words.len(),
            chunk.wf(),
            ts == token_set(chunk@.0),
            wv == views1(q_words@),
            forall|x: int| 0 <= x < w ==> !((#[trigger] wv[x]).len() >= 3 && ts.contains(wv[x])),
        decreases q_words.len() - w,
    {
        assert(q_words@[w as int]@ == wv[w as int]);
        if q_words[w].len() >= 3 && chunk.contains_token(q_words[w].as_slice()) {
            return true;
        }
        w += 1;
    }
    false
}

/// The number of chunks among `cs` whose token set holds `t`.
pub open spec fn doc_freq_spec(cs: Seq<(Seq<char>, Seq<char>, Seq<char>)>, t: Seq<char>) -> nat
    decreases cs.len(),
{
    if cs.len() == 0 {
        0
    } else {
        doc_freq_spec(cs.drop_last(), t) + if token_set(cs.last().0).contains(t) {
            1nat
        } else {
            0nat
        }
    }
}

/// Folders that are never indexed: Obsidian metadata, its trash, and git.
pub open spec fn is_skipped_dir_spec(name: Seq<char>) -> bool {
    name == ".obsidian"@ || name == ".trash"@ || name == ".git"@
}

/// Whether a directory (by its file name) is skipped when indexing.
pub fn is_skipped_dir(name: &str) -> (b: bool)
    ensures
        b == is_skipped_dir_spec(name@),
{
    crate::text::str_eq(name, ".obsidian") || crate::text::str_eq(name, ".trash") || crate::text::str_eq(name, ".git")
}

/// The local knowledge base: the chunks of the indexed notes.
pub struct KnowledgeBase {
    chunks: Vec<KBChunk>,
}

impl View for KnowledgeBase {
    type V = Seq<(Seq<char>, Seq<char>, Seq<char>)>;

    closed spec fn view(&self) -> Seq<(Seq<char>, Seq<char>, Seq<char>)> {
        self.chunks@.map_values(|c: KBChunk| c@)
    }
}

impl KnowledgeBase {
    pub closed spec fn wf(&self) -> bool {
        forall|k: int| 0 <= k < self.chunks.len() ==> (#[trigger] self.chunks@[k]).wf()
    }

    pub fn new() -> (kb: Self)
        ensures
            kb@ == Seq::<(Seq<char>, Seq<char>, Seq<char>)>::empty(),
            kb.wf(),
    {
        let kb = KnowledgeBase { chunks: Vec::new() };
        assert(kb@ =~= Seq::<(Seq<char>, Seq<char>, Seq<char>)>::empty());
        kb
    }

    /// Drops every chunk (before a re-index).
    pub fn clear(&mut self)
        ensures
            final(self)@ == Seq::<(Seq<char>, Seq<char>, Seq<char>)>::empty(),
            final(self).wf(),
    {
        self.chunks = Vec::new();
        assert(self@ =~= Seq::<(Seq<char>, Seq<char>, Seq<char>)>::empty());
    }

    /// Indexes one note (its text, and its path relative to the folder);
    /// returns the number of chunks it gave.
    pub fn add_file(&mut self, text: &str, source: &str) -> (n: usize)
        requires
            old(self).wf(),
        ensures
            final(self).wf(),
            final(self)@ == old(self)@ + chunk_file_spec(text@).map_values(
                |e: (Seq<char>, Seq<char>)| (e.0, source@, e.1),
            ),
            n == chunk_file_spec(text@).len(),
    {
        let mut new_chunks = chunk_file(text, source);
        let n = new_chunks.len();
        let ghost nv = new_chunks@;
        let ghost before = self@;
        self.chunks.append(&mut new_chunks);
        proof {
            assert(self@ =~= before + nv.map_values(|c: KBChunk| c@));
            assert forall|k: int| 0 <= k < self.chunks.len() implies (#[trigger] self.chunks@[k]).wf() by {
                if k >= old(self).chunks.len() {
                    assert(self.chunks@[k] == nv[k - old(self).chunks.len()]);
                }
            }
        }
        n
    }

    pub fn chunk_count(&self) -> (n: usize)
        ensures
            n == self@.len(),
    {
        self.chunks.len()
    }

    /// Chunk `i`.
    pub fn chunk(&self, i: usize) -> (c: &KBChunk)
        requires
            i < self@.len(),
        ensures
            c@ == self@[i as int],
            self.wf() ==> c.wf(),
    {
        &self.chunks[i]
    }

    /// In how many chunks `token` occurs.
    pub fn doc_freq(&self, token: &[char]) -> (n: usize)
        requires
            self.wf(),
        ensures
            n == doc_freq_spec(self@, token@),
    {
        let mut n: usize = 0;
        let mut k: usize = 0;
        while k < self.chunks.len()
            invariant
                k <= self.chunks.len(),
                self.wf(),
                n == doc_freq_spec(self@.subrange(0, k as int), token@),
                n <= k,
            decreases self.chunks.len() - k,
        {
            proof {
                assert(self@.subrange(0, k + 1).drop_last() =~= self@.subrange(0, k as int));
                assert(self.chunks@[k as int].wf());
            }
            if self.chunks[k].contains_token(token) {
                n += 1;
            }
            k += 1;
        }
        assert(self@.subrange(0, self.chunks.len() as int) =~= self@);
        n
    }

    /// Whether a token is worth searching by: always in a base of fewer than
    /// 50 chunks; otherwise only when it occurs in at most a fifth of them.
    pub fn is_informative(&self, token: &[char]) -> (b: bool)
        requires
            self.wf(),
        ensures
            b == (self@.len() < 50 || 5 * doc_freq_spec(self@, token@) <= self@.len()),
    {
        if self.chunks.len() < 50 {
            return true;
        }
        let df = self.doc_freq(token);
        df <= self.chunks.len() / 5
    }
}

impl KnowledgeBase {
    pub open spec fn informative(&self, t: Seq<char>) -> bool {
        self@.len() < 50 || 5 * doc_freq_spec(self@, t) <= self@.len()
    }

    /// The distinct informative tokens of a query, in order of first occurrence.
    pub fn query_tokens(&self, query: &str) -> (v: Vec<Vec<char>>)
        requires
            self.wf(),
        ensures
            views1(v@).no_duplicates(),
            forall|t: Seq<char>| #[trigger] views1(v@).contains(t) <==> (token_set(query@).contains(t) && self.informative(t)),
    {
        let cs = chars_of(query);
        let toks = tokenize_chars(cs.as_slice());
        let ghost tv = views1(toks@);
        assert(tv == token_list(tokenize_ordered_spec(query@)));
        let mut out: Vec<Vec<char>> = Vec::new();
        let mut k: usize = 0;
        while k < toks.len()
            invariant
                k <= toks.len(),
                self.wf(),
                tv == views1(toks@),
                views1(out@).no_duplicates(),
                forall|t: Seq<char>| #[trigger] views1(out@).contains(t) <==> (tv.subrange(0, k as int).contains(t) && self.informative(t)),
            decreases toks.len() - k,
        {
            let ghost t = tv[k as int];
            assert(toks@[k as int]@ == t);
            let ghost before = views1(out@);
            if !has_token(&out, toks[k].as_slice()) && self.is_informative(toks[k].as_slice()) {
                let c = chars_range(toks[k].as_slice(), 0, toks[k].len());
                assert(c@ =~= t);
                out.push(c);
                proof {
                    assert(views1(out@) =~= before.push(t));
                    assert forall|i: int, j: int| 0 <= i < j < views1(out@).len() implies views1(out@)[i] != views1(out@)[j] by {
                        if j == before.len() {
                            assert(before[i] == views1(out@)[i]);
                            assert(before.contains(before[i]));
                        }
                    }
                }
            }
            proof {
                assert(tv.subrange(0, k + 1) =~= tv.subrange(0, k as int).push(t));
                assert forall|x: Seq<char>| #[trigger] views1(out@).contains(x) <==> (tv.subrange(0, k + 1).contains(x) && self.informative(x)) by {
                    if tv.subrange(0, k + 1).contains(x) && !tv.subrange(0, k as int).contains(x) {
                        let j = choose|j: int| 0 <= j < tv.subrange(0, k + 1).len() && #[trigger] tv.subrange(0, k + 1)[j] == x;
                        if j < k {
                            assert(tv.subrange(0, k as int)[j] == x);
                        }
                        assert(x == t);
                    }
                    if views1(out@).contains(x) && !before.contains(x) {
                        let j = choose|j: int| 0 <= j < views1(out@).len() && #[trigger] views1(out@)[j] == x;
                        if j < before.len() {
                            assert(before[j] == x);
                        }
                        assert(x == t);
                        assert(tv.subrange(0, k + 1)[k as int] == t);
                    }
                    if before.contains(x) {
                        let j = choose|j: int| 0 <= j < before.len() && #[trigger] before[j] == x;
                        assert(views1(out@)[j] == x);
                    }
                    if tv.subrange(0, k as int).contains(x) {
                        let j = choose|j: int| 0 <= j < k && #[trigger] tv.subrange(0, k as int)[j] == x;
                        assert(tv.subrange(0, k + 1)[j] == x);
                    }
                    if x == t && self.informative(x) {
                        assert(tv.subrange(0, k + 1)[k as int] == t);
                        if !before.contains(x) {
                            assert(views1(out@)[views1(out@).len() - 1] == x);
                        }
                    }
                }
            }
            k += 1;
        }
        proof {
            assert(tv.subrange(0, toks.len() as int) =~= tv);
            assert forall|t: Seq<char>| #[trigger] views1(out@).contains(t) <==> (token_set(query@).contains(t) && self.informative(t)) by {
                assert(token_set(query@).contains(t) <==> tv.contains(t));
            }
        }
        out
    }
}

} // verus!
