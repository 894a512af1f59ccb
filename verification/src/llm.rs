//! LLM provider model (OpenAI-compatible endpoints), prompt templating and
//! streaming-line parsing.
use vstd::prelude::*;

use crate::text::{
    chars_of, is_whitespace, is_ws, lemma_trim_end_skip, owned, push_chars, push_str, string_of,
    string_of_range, trim, trim_end, trimmed_chars,
};

verus! {

// ---------------------------------------------------------------- prompt templates

/// Some position `j >= i` of `t` holds `c`.
pub open spec fn has_from(t: Seq<char>, c: char, i: int) -> bool {
    exists|j: int| i <= j < t.len() && t[j] == c
}

/// The first position `j >= i` of `t` holding `c`.
pub open spec fn first_from(t: Seq<char>, c: char, i: int) -> int {
    choose|j: int| i <= j < t.len() && t[j] == c && forall|k: int| i <= k < j ==> t[k] != c
}

/// The value of the first variable named `key`.
pub open spec fn lookup(vars: Seq<(&str, &str)>, key: Seq<char>) -> Option<Seq<char>> {
    if exists|k: int| 0 <= k < vars.len() && (#[trigger] vars[k]).0@ == key {
        let k = choose|k: int|
            0 <= k < vars.len() && vars[k].0@ == key && forall|q: int|
                0 <= q < k ==> (#[trigger] vars[q]).0@ != key;
        Some(vars[k].1@)
    } else {
        None
    }
}

proof fn lemma_first_from(t: Seq<char>, c: char, i: int)
    requires
        has_from(t, c, i),
    ensures
        i <= first_from(t, c, i) < t.len(),
        t[first_from(t, c, i)] == c,
        forall|k: int| i <= k < first_from(t, c, i) ==> t[k] != c,
{
    let j0 = choose|j: int| i <= j < t.len() && t[j] == c;
    lemma_min_exists(t, c, i, j0);
}

proof fn lemma_min_exists(t: Seq<char>, c: char, i: int, j0: int)
    requires
        i <= j0 < t.len(),
        t[j0] == c,
    ensures
        exists|j: int| i <= j < t.len() && t[j] == c && forall|k: int| i <= k < j ==> t[k] != c,
    decreases j0 - i,
{
    if exists|k: int| i <= k < j0 && t[k] == c {
        let k = choose|k: int| i <= k < j0 && t[k] == c;
        lemma_min_exists(t, c, i, k);
    } else {
        assert(forall|k: int| i <= k < j0 ==> t[k] != c);
    }
}

/// Rendering of `t` from position `i`: each `{name}` whose name is declared in
/// `vars` is replaced by its value; other braces stay as they are; inserted
/// values are not scanned again.
#[verifier::opaque]
pub open spec fn render_from(t: Seq<char>, i: int, vars: Seq<(&str, &str)>) -> Seq<char>
    decreases t.len() - i,
{
    if i < 0 || i >= t.len() {
        Seq::empty()
    } else if !has_from(t, '{', i) {
        t.subrange(i, t.len() as int)
    } else {
        let s = first_from(t, '{', i);
        if !has_from(t, '}', s) {
            t.subrange(i, t.len() as int)
        } else {
            let e = first_from(t, '}', s);
            match lookup(vars, t.subrange(s + 1, e)) {
                Some(v) => if i < e + 1 <= t.len() {
                    t.subrange(i, s) + v + render_from(t, e + 1, vars)
                } else {
                    Seq::empty()
                },
                None => if i < s + 1 <= t.len() {
                    t.subrange(i, s) + seq!['{'] + render_from(t, s + 1, vars)
                } else {
                    Seq::empty()
                },
            }
        }
    }
}

proof fn lemma_render_plain(t: Seq<char>, i: int, vars: Seq<(&str, &str)>)
    requires
        0 <= i < t.len(),
        !has_from(t, '{', i),
    ensures
        render_from(t, i, vars) == t.subrange(i, t.len() as int),
        render_from(t, t.len() as int, vars) == Seq::<char>::empty(),
{
    reveal(render_from);
}

proof fn lemma_render_unclosed(t: Seq<char>, i: int, vars: Seq<(&str, &str)>)
    requires
        0 <= i < t.len(),
        has_from(t, '{', i),
        !has_from(t, '}', first_from(t, '{', i)),
    ensures
        render_from(t, i, vars) == t.subrange(i, t.len() as int),
        render_from(t, t.len() as int, vars) == Seq::<char>::empty(),
{
    reveal(render_from);
}

proof fn lemma_render_var(t: Seq<char>, i: int, vars: Seq<(&str, &str)>)
    requires
        0 <= i < t.len(),
        has_from(t, '{', i),
        i <= first_from(t, '{', i) < t.len(),
        has_from(t, '}', first_from(t, '{', i)),
        first_from(t, '{', i) <= first_from(t, '}', first_from(t, '{', i)) < t.len(),
        lookup(vars, t.subrange(first_from(t, '{', i) + 1, first_from(t, '}', first_from(t, '{', i)))) is Some,
    ensures
        ({
            let s = first_from(t, '{', i);
            let e = first_from(t, '}', s);
            render_from(t, i, vars) == t.subrange(i, s) + lookup(vars, t.subrange(s + 1, e))->0
                + render_from(t, e + 1, vars)
        }),
{
    reveal(render_from);
}

proof fn lemma_render_brace(t: Seq<char>, i: int, vars: Seq<(&str, &str)>)
    requires
        0 <= i < t.len(),
        has_from(t, '{', i),
        i <= first_from(t, '{', i) < t.len(),
        has_from(t, '}', first_from(t, '{', i)),
        first_from(t, '{', i) <= first_from(t, '}', first_from(t, '{', i)) < t.len(),
        lookup(vars, t.subrange(first_from(t, '{', i) + 1, first_from(t, '}', first_from(t, '{', i)))) is None,
    ensures
        ({
            let s = first_from(t, '{', i);
            render_from(t, i, vars) == t.subrange(i, s) + seq!['{'] + render_from(t, s + 1, vars)
        }),
{
    reveal(render_from);
}

/// What `render_prompt` gives: the template without trailing white space, rendered.
pub open spec fn render_spec(template: Seq<char>, vars: Seq<(&str, &str)>) -> Seq<char> {
    render_from(trim_end(template), 0, vars)
}

fn find_char(cs: &[char], c: char, from: usize) -> (r: Option<usize>)
    requires
        from <= cs.len(),
    ensures
        match r {
            Some(j) => has_from(cs@, c, from as int) && j == first_from(cs@, c, from as int),
            None => !has_from(cs@, c, from as int),
        },
{
    let mut j: usize = from;
    while j < cs.len()
        invariant
            from <= j <= cs.len(),
            forall|k: int| from <= k < j ==> cs@[k] != c,
        decreases cs.len() - j,
    {
        if cs[j] == c {
            proof {
                assert(has_from(cs@, c, from as int));
                lemma_first_from(cs@, c, from as int);
                let f = first_from(cs@, c, from as int);
                assert(f == j);
            }
            return Some(j);
        }
        j += 1;
    }
    None
}

fn lookup_var(vars: &[(&str, &str)], key: &[char]) -> (r: Option<usize>)
    ensures
        match r {
            Some(k) => k < vars.len() && lookup(vars@, key@) == Some(vars@[k as int].1@),
            None => lookup(vars@, key@) is None,
        },
{
    let mut k: usize = 0;
    while k < vars.len()
        invariant
            k <= vars.len(),
            forall|q: int| 0 <= q < k ==> (#[trigger] vars@[q]).0@ != key@,
        decreases vars.len() - k,
    {
        let name = chars_of(vars[k].0);
        if crate::text::chars_eq(name.as_slice(), key) {
            proof {
                let w = choose|w: int|
                    0 <= w < vars@.len() && vars@[w].0@ == key@ && forall|q: int|
                        0 <= q < w ==> (#[trigger] vars@[q]).0@ != key@;
                assert(w == k) by {
                    if w < k {
                        assert(vars@[w].0@ != key@);
                    } else if w > k {
                        assert(vars@[k as int].0@ == key@);
                    }
                }
            }
            return Some(k);
        }
        k += 1;
    }
    None
}

/// Length of `cs` without its trailing white space.
fn trim_end_len(cs: &[char]) -> (n: usize)
    ensures
        n <= cs.len(),
        cs@.subrange(0, n as int) == trim_end(cs@),
{
    let mut hi: usize = cs.len();
    while hi > 0 && is_whitespace(cs[hi - 1])
        invariant
            hi <= cs.len(),
            forall|k: int| hi <= k < cs.len() ==> is_ws(#[trigger] cs@[k]),
        decreases hi,
    {
        hi -= 1;
    }
    proof {
        lemma_trim_end_skip(cs@, hi as int);
        let mid = cs@.subrange(0, hi as int);
        if mid.len() > 0 {
            assert(mid.last() == cs@[hi - 1]);
        }
        assert(trim_end(mid) == mid);
    }
    hi
}

/// Replaces each declared `{name}` of `template` by its value. Undeclared
/// braces stay (so JSON examples survive); inserted values are not rescanned.
pub fn render_prompt(template: &str, vars: &[(&str, &str)]) -> (out: String)
    ensures
        out@ == render_spec(template@, vars@),
{
    let all = chars_of(template);
    let n = trim_end_len(all.as_slice());
    let t = crate::text::chars_prefix(all.as_slice(), n);
    let mut out = String::new();
    let mut i: usize = 0;
    while i < t.len()
        invariant
            i <= t.len(),
            t@ == trim_end(template@),
            out@ + render_from(t@, i as int, vars@) == render_from(t@, 0, vars@),
        decreases t.len() - i,
    {
        let ghost before = out@;
        match find_char(t.as_slice(), '{', i) {
            None => {
                let rest = string_of_range(t.as_slice(), i, t.len());
                push_str(&mut out, rest.as_str());
                proof {
                    lemma_render_plain(t@, i as int, vars@);
                    assert(out@ + render_from(t@, t.len() as int, vars@) =~= before + render_from(t@, i as int, vars@));
                }
                i = t.len();
            },
            Some(s) => {
                proof {
                    lemma_first_from(t@, '{', i as int);
                }
                match find_char(t.as_slice(), '}', s) {
                    None => {
                        let rest = string_of_range(t.as_slice(), i, t.len());
                        push_str(&mut out, rest.as_str());
                        proof {
                            lemma_render_unclosed(t@, i as int, vars@);
                            assert(out@ + render_from(t@, t.len() as int, vars@) =~= before + render_from(t@, i as int, vars@));
                        }
                        i = t.len();
                    },
                    Some(e) => {
                        proof {
                            lemma_first_from(t@, '}', s as int);
                        }
                        let pre = string_of_range(t.as_slice(), i, s);
                        push_str(&mut out, pre.as_str());
                        let key = crate::text::chars_range(t.as_slice(), s + 1, e);
                        match lookup_var(vars, key.as_slice()) {
                            Some(k) => {
                                push_str(&mut out, vars[k].1);
                                proof {
                                    lemma_render_var(t@, i as int, vars@);
                                    assert(out@ + render_from(t@, e + 1, vars@) =~= before + render_from(t@, i as int, vars@));
                                }
                                i = e + 1;
                            },
                            None => {
                                crate::text::push_char(&mut out, '{');
                                proof {
                                    lemma_render_brace(t@, i as int, vars@);
                                    assert(out@ + render_from(t@, s + 1, vars@) =~= before + render_from(t@, i as int, vars@));
                                }
                                i = s + 1;
                            },
                        }
                    },
                }
            },
        }
    }
    proof {
        reveal(render_from);
        assert(render_from(t@, i as int, vars@) == Seq::<char>::empty());
        assert(out@ =~= render_from(t@, 0, vars@));
    }
    out
}

// ---------------------------------------------------------------- chat messages

/// One chat message (multi-turn context).
#[derive(Debug, Clone)]
pub struct ChatMessage {
    /// `system`, `user` or `assistant`.
    pub role: String,
    pub content: String,
}

impl ChatMessage {
    pub fn user(content: &str) -> (m: Self)
        ensures
            m.role@ == "user"@,
            m.content@ == content@,
    {
        ChatMessage { role: owned("user"), content: owned(content) }
    }

    pub fn assistant(content: &str) -> (m: Self)
        ensures
            m.role@ == "assistant"@,
            m.content@ == content@,
    {
        ChatMessage { role: owned("assistant"), content: owned(content) }
    }

    pub fn system(content: &str) -> (m: Self)
        ensures
            m.role@ == "system"@,
            m.content@ == content@,
    {
        ChatMessage { role: owned("system"), content: owned(content) }
    }
}

// ---------------------------------------------------------------- providers

/// An LLM provider: one complete answer for a prompt and a system prompt.
/// Implemented by the users of the library (network clients, mocks).
pub trait LLMProvider {
    fn complete(&self, prompt: &str, system: &str) -> Result<String, String>;
}

/// A provider that always answers with the same text (for tests).
pub struct MockProvider {
    pub response: String,
}

impl LLMProvider for MockProvider {
    fn complete(&self, prompt: &str, system: &str) -> (r: Result<String, String>)
        ensures
            r matches Ok(s) && s@ == self.response@,
    {
        Ok(self.response.clone())
    }
}

/// `s` without its trailing `/` characters (`trim_end_matches('/')`).
pub open spec fn strip_trailing_slashes(s: Seq<char>) -> Seq<char>
    decreases s.len(),
{
    if s.len() > 0 && s.last() == '/' {
        strip_trailing_slashes(s.drop_last())
    } else {
        s
    }
}

/// An OpenAI-compatible endpoint (`POST {base_url}/chat/completions`).
pub struct OpenAICompatProvider {
    api_key: String,
    model: String,
    base_url: String,
    /// Optional proxy URL; `None` connects directly.
    proxy: Option<String>,
}

impl OpenAICompatProvider {
    pub closed spec fn key(&self) -> Seq<char> {
        self.api_key@
    }

    pub closed spec fn model_name(&self) -> Seq<char> {
        self.model@
    }

    pub closed spec fn base(&self) -> Seq<char> {
        self.base_url@
    }

    pub closed spec fn proxy_spec(&self) -> Option<Seq<char>> {
        match self.proxy {
            Some(p) => Some(p@),
            None => None,
        }
    }

    /// A provider for `base_url` (trailing slashes dropped), without a proxy.
    pub fn new(api_key: &str, model: &str, base_url: &str) -> (p: Self)
        ensures
            p.key() == api_key@,
            p.model_name() == model@,
            p.base() == strip_trailing_slashes(base_url@),
            p.proxy_spec() is None,
    {
        let cs = chars_of(base_url);
        let mut n: usize = cs.len();
        assert(cs@.subrange(0, cs.len() as int) =~= cs@);
        while n > 0 && cs[n - 1] == '/'
            invariant
                n <= cs.len(),
                strip_trailing_slashes(cs@.subrange(0, n as int)) == strip_trailing_slashes(cs@),
            decreases n,
        {
            assert(cs@.subrange(0, n as int).drop_last() =~= cs@.subrange(0, n - 1));
            n -= 1;
        }
        assert(cs@.subrange(0, cs.len() as int) =~= cs@);
        let base = string_of_range(cs.as_slice(), 0, n);
        proof {
            let m = cs@.subrange(0, n as int);
            if m.len() > 0 {
                assert(m.last() == cs@[n - 1]);
            }
        }
        OpenAICompatProvider { api_key: owned(api_key), model: owned(model), base_url: base, proxy: None }
    }

    /// The same provider, with the given proxy (or none).
    pub fn with_proxy(self, proxy: Option<String>) -> (p: Self)
        ensures
            p.key() == self.key(),
            p.model_name() == self.model_name(),
            p.base() == self.base(),
            p.proxy_spec() == match proxy {
                Some(s) => Some(s@),
                None => None::<Seq<char>>,
            },
    {
        let mut p = self;
        p.proxy = proxy;
        p
    }

    pub fn api_key(&self) -> (r: &str)
        ensures
            r@ == self.key(),
    {
        self.api_key.as_str()
    }

    pub fn model(&self) -> (r: &str)
        ensures
            r@ == self.model_name(),
    {
        self.model.as_str()
    }

    pub fn base_url(&self) -> (r: &str)
        ensures
            r@ == self.base(),
    {
        self.base_url.as_str()
    }

    pub fn proxy(&self) -> (r: Option<&str>)
        ensures
            match r {
                Some(s) => self.proxy_spec() == Some(s@),
                None => self.proxy_spec() is None,
            },
    {
        match &self.proxy {
            Some(p) => Some(p.as_str()),
            None => None,
        }
    }

    /// The request URL: `{base_url}/chat/completions`.
    pub fn chat_completions_url(&self) -> (r: String)
        ensures
            r@ == self.base() + "/chat/completions"@,
    {
        let mut r = self.base_url.clone();
        push_str(&mut r, "/chat/completions");
        r
    }

    /// Whether requests carry `Authorization: Bearer <key>`: a key is set and
    /// it is not Ollama's placeholder `ollama`.
    pub fn sends_auth(&self) -> (b: bool)
        ensures
            b == (self.key().len() > 0 && self.key() != "ollama"@),
    {
        !self.api_key.as_str().is_empty() && !crate::text::str_eq(self.api_key.as_str(), "ollama")
    }
}

/// Readable explanation of a common endpoint error status.
pub open spec fn friendly_status_spec(status: u16) -> Seq<char> {
    if status == 401 {
        "API Key 无效或未授权（请核对 key 是否复制完整、是否为当前服务商的 key）"@
    } else if status == 403 {
        "无权限访问该模型（key 有效但模型不可用，或套餐未开通）"@
    } else if status == 404 {
        "端点或模型不存在（请核对 base_url / model 名称）"@
    } else if status == 429 {
        "请求过于频繁或余额不足（限流 / 配额用尽）"@
    } else {
        "请求被拒绝"@
    }
}

/// Readable explanation of a common endpoint error status (for the "check
/// connection" button).
pub fn friendly_status(status: u16) -> (r: &'static str)
    ensures
        r@ == friendly_status_spec(status),
{
    match status {
        401 => "API Key 无效或未授权（请核对 key 是否复制完整、是否为当前服务商的 key）",
        403 => "无权限访问该模型（key 有效但模型不可用，或套餐未开通）",
        404 => "端点或模型不存在（请核对 base_url / model 名称）",
        429 => "请求过于频繁或余额不足（限流 / 配额用尽）",
        _ => "请求被拒绝",
    }
}

// ---------------------------------------------------------------- streaming lines

/// What `serde_json` reads at `choices[0].delta.content` of a JSON payload:
/// `None` when the payload is not JSON, `Some(None)` when that path holds no
/// string, `Some(Some(text))` otherwise.
pub uninterp spec fn sse_delta_content(payload: Seq<char>) -> Option<Option<Seq<char>>>;

/// Parses a payload with `serde_json::from_str::<serde_json::Value>` and reads
/// the string at `choices[0].delta.content`. Its result is named by
/// `sse_delta_content`; nothing more is stated of it.
#[verifier::external_body]
fn json_delta_content(payload: &str) -> (r: Option<Option<String>>)
    ensures
        match r {
            None => sse_delta_content(payload@) is None,
            Some(None) => sse_delta_content(payload@) == Some(None::<Seq<char>>),
            Some(Some(s)) => sse_delta_content(payload@) == Some(Some(s@)),
        },
{
    match serde_json::from_str::<serde_json::Value>(payload) {
        Ok(v) => Some(v["choices"][0]["delta"]["content"].as_str().map(|s| s.to_string())),
        Err(_) => None,
    }
}

/// One parsed line of a streaming response.
#[derive(Debug, PartialEq, Eq)]
pub enum SseLine {
    /// A piece of new text.
    Delta(String),
    /// The stream ended normally (`data: [DONE]`).
    Done,
    /// Heart-beats, blank lines, role-only frames and the like.
    Ignore,
}

pub open spec fn sse_view(l: SseLine) -> Option<Option<Seq<char>>> {
    match l {
        SseLine::Delta(s) => Some(Some(s@)),
        SseLine::Done => Some(None),
        SseLine::Ignore => None,
    }
}

/// `s` without its trailing `\r` / `\n` characters.
pub open spec fn strip_line_end(s: Seq<char>) -> Seq<char>
    decreases s.len(),
{
    if s.len() > 0 && (s.last() == '\r' || s.last() == '\n') {
        strip_line_end(s.drop_last())
    } else {
        s
    }
}

/// What `parse_sse_line` gives, as `Some(Some(text))` for a delta,
/// `Some(None)` for the end marker and `None` for lines to ignore.
pub open spec fn sse_spec(line: Seq<char>) -> Option<Option<Seq<char>>> {
    let l = strip_line_end(line);
    if !(l.len() >= 5 && l.take(5) == "data:"@) {
        None
    } else {
        let payload = trim(l.skip(5));
        if payload == "[DONE]"@ {
            Some(None)
        } else {
            match sse_delta_content(payload) {
                Some(Some(text)) => if text.len() > 0 {
                    Some(Some(text))
                } else {
                    None
                },
                _ => None,
            }
        }
    }
}

/// Parses one line of a streaming response; endpoint quirks (role-only first
/// frames, comment heart-beats, reasoning content) all read as `Ignore`.
pub fn parse_sse_line(line: &str) -> (r: SseLine)
    ensures
        sse_view(r) == sse_spec(line@),
{
    let cs = chars_of(line);
    let mut n: usize = cs.len();
    assert(cs@.subrange(0, cs.len() as int) =~= cs@);
    while n > 0 && (cs[n - 1] == '\r' || cs[n - 1] == '\n')
        invariant
            n <= cs.len(),
            strip_line_end(cs@.subrange(0, n as int)) == strip_line_end(cs@),
        decreases n,
    {
        assert(cs@.subrange(0, n as int).drop_last() =~= cs@.subrange(0, n - 1));
        n -= 1;
    }
    assert(cs@.subrange(0, cs.len() as int) =~= cs@);
    let l = crate::text::chars_prefix(cs.as_slice(), n);
    proof {
        let m = cs@.subrange(0, n as int);
        if m.len() > 0 {
            assert(m.last() == cs@[n - 1]);
        }
        assert(strip_line_end(m) == m);
    }
    let prefix = chars_of("data:");
    proof {
        reveal_strlit("data:");
    }
    if !crate::text::starts_with(l.as_slice(), prefix.as_slice()) {
        proof {
            if l@.len() >= 5 && l@.take(5) == "data:"@ {
                assert(l@.subrange(0, 5) == l@.take(5));
            }
        }
        return SseLine::Ignore;
    }
    assert(l@.subrange(0, 5) == l@.take(5));
    let rest = crate::text::chars_range(l.as_slice(), 5, l.len());
    assert(rest@ == l@.skip(5));
    let payload_chars = crate::text::trim_chars(rest.as_slice());
    let payload = string_of(payload_chars.as_slice());
    let done = chars_of("[DONE]");
    if crate::text::chars_eq(payload_chars.as_slice(), done.as_slice()) {
        return SseLine::Done;
    }
    match json_delta_content(payload.as_str()) {
        Some(Some(text)) => {
            if !text.as_str().is_empty() {
                SseLine::Delta(text)
            } else {
                SseLine::Ignore
            }
        },
        _ => SseLine::Ignore,
    }
}

} // verus!
