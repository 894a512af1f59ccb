//! Character-level text helpers shared by the analysis modules.
//!
//! Texts are modelled as `Seq<char>` (the view of `&str` / `String`).
use vstd::prelude::*;
use vstd::std_specs::iter::IteratorSpec;

verus! {

// ---------------------------------------------------------------- chars

/// The characters of `s`, in order.
pub fn chars_of(s: &str) -> (v: Vec<char>)
    ensures
        v@ == s@,
{
    broadcast use vstd::string::group_string_axioms;

    let mut v: Vec<char> = Vec::new();
    let mut it = s.chars();
    loop
        invariant
            v@ + it.remaining() == s@,
            it.decrease() is Some,
        ensures
            v@ == s@,
        decreases it.decrease()->0,
    {
        match it.next() {
            Some(c) => {
                v.push(c);
            },
            None => {
                break ;
            },
        }
    }
    v
}

/// Appends one character to a `String` (`String::push`).
#[verifier::external_body]
pub fn push_char(s: &mut String, c: char)
    ensures
        final(s)@ == old(s)@.push(c),
{
    s.push(c);
}

/// Appends a string slice to a `String` (`String::push_str`).
#[verifier::external_body]
pub fn push_str(s: &mut String, t: &str)
    ensures
        final(s)@ == old(s)@ + t@,
{
    s.push_str(t);
}

/// An owned copy of a string slice (`str::to_string`).
pub fn owned(t: &str) -> (s: String)
    ensures
        s@ == t@,
{
    let s = t.to_string();
    proof {
        vstd::string::to_string_from_display_ensures_for_str(t, s);
    }
    s
}

/// Appends characters to a `String`.
pub fn push_chars(s: &mut String, cs: &[char])
    ensures
        final(s)@ == old(s)@ + cs@,
{
    let mut i: usize = 0;
    while i < cs.len()
        invariant
            i <= cs.len(),
            s@ == old(s)@ + cs@.subrange(0, i as int),
        decreases cs.len() - i,
    {
        push_char(s, cs[i]);
        assert(cs@.subrange(0, i + 1) == cs@.subrange(0, i as int).push(cs@[i as int]));
        i += 1;
    }
    assert(cs@.subrange(0, cs.len() as int) == cs@);
}

/// A `String` holding exactly the given characters.
pub fn string_of(cs: &[char]) -> (s: String)
    ensures
        s@ == cs@,
{
    let mut s = String::new();
    push_chars(&mut s, cs);
    s
}

/// Characters `lo..hi` of `cs` as a `String`.
pub fn string_of_range(cs: &[char], lo: usize, hi: usize) -> (s: String)
    requires
        lo <= hi <= cs.len(),
    ensures
        s@ == cs@.subrange(lo as int, hi as int),
{
    let mut s = String::new();
    let mut i: usize = lo;
    while i < hi
        invariant
            lo <= i <= hi <= cs.len(),
            s@ == cs@.subrange(lo as int, i as int),
        decreases hi - i,
    {
        push_char(&mut s, cs[i]);
        assert(cs@.subrange(lo as int, i + 1) == cs@.subrange(lo as int, i as int).push(cs@[i as int]));
        i += 1;
    }
    s
}

/// Characters `lo..hi` of `cs`.
pub fn chars_range(cs: &[char], lo: usize, hi: usize) -> (v: Vec<char>)
    requires
        lo <= hi <= cs.len(),
    ensures
        v@ == cs@.subrange(lo as int, hi as int),
{
    let mut v: Vec<char> = Vec::new();
    let mut i: usize = lo;
    while i < hi
        invariant
            lo <= i <= hi <= cs.len(),
            v@ == cs@.subrange(lo as int, i as int),
        decreases hi - i,
    {
        v.push(cs[i]);
        assert(cs@.subrange(lo as int, i + 1) == cs@.subrange(lo as int, i as int).push(cs@[i as int]));
        i += 1;
    }
    v
}

/// The first `n` characters of `cs`.
pub fn chars_prefix(cs: &[char], n: usize) -> (v: Vec<char>)
    requires
        n <= cs.len(),
    ensures
        v@ == cs@.subrange(0, n as int),
{
    chars_range(cs, 0, n)
}

/// Whether two character sequences are equal.
pub fn chars_eq(a: &[char], b: &[char]) -> (r: bool)
    ensures
        r == (a@ == b@),
{
    if a.len() != b.len() {
        return false;
    }
    let mut i: usize = 0;
    while i < a.len()
        invariant
            a.len() == b.len(),
            i <= a.len(),
            forall|k: int| 0 <= k < i ==> a@[k] == b@[k],
        decreases a.len() - i,
    {
        if a[i] != b[i] {
            return false;
        }
        i += 1;
    }
    assert(a@ =~= b@);
    true
}

/// Whether two string slices hold the same characters.
pub fn str_eq(a: &str, b: &str) -> (r: bool)
    ensures
        r == (a@ == b@),
{
    let va = chars_of(a);
    let vb = chars_of(b);
    chars_eq(va.as_slice(), vb.as_slice())
}

/// Whether the characters `cs` are exactly those of `w`.
pub fn chars_are(cs: &[char], w: &str) -> (r: bool)
    ensures
        r == (cs@ == w@),
{
    let vw = chars_of(w);
    chars_eq(cs, vw.as_slice())
}

// ---------------------------------------------------------------- classes

/// Unicode `White_Space` (what `char::is_whitespace` tests).
pub open spec fn is_ws(c: char) -> bool {
    let u = c as u32;
    (9 <= u <= 13) || u == 32 || u == 0x85 || u == 0xA0 || u == 0x1680 || (0x2000 <= u <= 0x200A)
        || u == 0x2028 || u == 0x2029 || u == 0x202F || u == 0x205F || u == 0x3000
}

pub fn is_whitespace(c: char) -> (b: bool)
    ensures
        b == is_ws(c),
{
    let u = c as u32;
    (9 <= u && u <= 13) || u == 32 || u == 0x85 || u == 0xA0 || u == 0x1680 || (0x2000 <= u && u
        <= 0x200A) || u == 0x2028 || u == 0x2029 || u == 0x202F || u == 0x205F || u == 0x3000
}

pub open spec fn is_digit_spec(c: char) -> bool {
    '0' <= c <= '9'
}

pub fn is_ascii_digit(c: char) -> (b: bool)
    ensures
        b == is_digit_spec(c),
{
    '0' <= c && c <= '9'
}

pub open spec fn is_alnum_spec(c: char) -> bool {
    ('0' <= c <= '9') || ('a' <= c <= 'z') || ('A' <= c <= 'Z')
}

pub fn is_ascii_alphanumeric(c: char) -> (b: bool)
    ensures
        b == is_alnum_spec(c),
{
    ('0' <= c && c <= '9') || ('a' <= c && c <= 'z') || ('A' <= c && c <= 'Z')
}

/// ASCII lower-casing of one character (`char::to_ascii_lowercase`).
pub open spec fn lower_spec(c: char) -> char {
    if 'A' <= c <= 'Z' {
        ((c as u32) + 32) as char
    } else {
        c
    }
}

pub fn ascii_lower(c: char) -> (r: char)
    ensures
        r == lower_spec(c),
{
    if 'A' <= c && c <= 'Z' {
        let u: u32 = (c as u32) + 32;
        assert(97 <= u <= 122);
        u as u8 as char
    } else {
        c
    }
}

pub open spec fn lower_seq(s: Seq<char>) -> Seq<char> {
    s.map_values(|c: char| lower_spec(c))
}

/// ASCII lower-casing of a whole text (`str::to_ascii_lowercase`).
pub fn ascii_lower_chars(cs: &[char]) -> (r: Vec<char>)
    ensures
        r@ == lower_seq(cs@),
{
    let mut r: Vec<char> = Vec::new();
    let mut i: usize = 0;
    while i < cs.len()
        invariant
            i <= cs.len(),
            r@ == lower_seq(cs@.subrange(0, i as int)),
        decreases cs.len() - i,
    {
        r.push(ascii_lower(cs[i]));
        assert(lower_seq(cs@.subrange(0, i + 1)) =~= lower_seq(cs@.subrange(0, i as int)).push(
            lower_spec(cs@[i as int]),
        ));
        i += 1;
    }
    assert(cs@.subrange(0, cs.len() as int) == cs@);
    r
}

// ---------------------------------------------------------------- trim

/// `s` without its leading white space.
pub open spec fn trim_start(s: Seq<char>) -> Seq<char>
    decreases s.len(),
{
    if s.len() > 0 && is_ws(s[0]) {
        trim_start(s.drop_first())
    } else {
        s
    }
}

/// `s` without its trailing white space.
pub open spec fn trim_end(s: Seq<char>) -> Seq<char>
    decreases s.len(),
{
    if s.len() > 0 && is_ws(s.last()) {
        trim_end(s.drop_last())
    } else {
        s
    }
}

/// `s` without leading and trailing white space (`str::trim`).
pub open spec fn trim(s: Seq<char>) -> Seq<char> {
    trim_end(trim_start(s))
}

/// Whether `s` holds nothing but white space (`s.trim().is_empty()`).
pub open spec fn is_blank(s: Seq<char>) -> bool {
    forall|k: int| 0 <= k < s.len() ==> is_ws(#[trigger] s[k])
}

pub proof fn lemma_trim_start_skip(s: Seq<char>, i: int)
    requires
        0 <= i <= s.len(),
        forall|k: int| 0 <= k < i ==> is_ws(#[trigger] s[k]),
    ensures
        trim_start(s) == trim_start(s.subrange(i, s.len() as int)),
    decreases i,
{
    if i > 0 {
        assert(s.drop_first() == s.subrange(1, s.len() as int));
        lemma_trim_start_skip(s.drop_first(), i - 1);
        assert(s.drop_first().subrange(i - 1, s.drop_first().len() as int) =~= s.subrange(
            i,
            s.len() as int,
        ));
    } else {
        assert(s.subrange(0, s.len() as int) == s);
    }
}

pub proof fn lemma_trim_end_skip(s: Seq<char>, j: int)
    requires
        0 <= j <= s.len(),
        forall|k: int| j <= k < s.len() ==> is_ws(#[trigger] s[k]),
    ensures
        trim_end(s) == trim_end(s.subrange(0, j)),
    decreases s.len() - j,
{
    if j < s.len() {
        lemma_trim_end_skip(s.drop_last(), j);
        assert(s.drop_last().subrange(0, j) =~= s.subrange(0, j));
    } else {
        assert(s.subrange(0, j) == s);
    }
}

pub proof fn lemma_trim_blank(s: Seq<char>)
    ensures
        is_blank(s) <==> trim(s).len() == 0,
        trim(s).len() <= s.len(),
    decreases s.len(),
{
    lemma_trim_start_len(s);
    lemma_trim_end_len(trim_start(s));
    if s.len() > 0 && is_ws(s[0]) {
        lemma_trim_blank(s.drop_first());
        if is_blank(s.drop_first()) {
            assert(is_blank(s)) by {
                assert forall|k: int| 0 <= k < s.len() implies is_ws(#[trigger] s[k]) by {
                    if k > 0 {
                        assert(s[k] == s.drop_first()[k - 1]);
                    }
                }
            }
        }
        if is_blank(s) {
            assert(is_blank(s.drop_first())) by {
                assert forall|k: int| 0 <= k < s.drop_first().len() implies is_ws(
                    #[trigger] s.drop_first()[k],
                ) by {
                    assert(s.drop_first()[k] == s[k + 1]);
                }
            }
        }
    } else if s.len() > 0 {
        assert(trim_start(s) == s);
        lemma_trim_end_keeps_first(s);
        assert(!is_blank(s)) by {
            assert(!is_ws(s[0]));
        }
    } else {
        assert(trim_start(s) == s);
    }
}

proof fn lemma_trim_start_first(s: Seq<char>)
    ensures
        trim_start(s).len() > 0 ==> !is_ws(trim_start(s)[0]),
    decreases s.len(),
{
    if s.len() > 0 && is_ws(s[0]) {
        lemma_trim_start_first(s.drop_first());
    }
}

proof fn lemma_trim_end_last(s: Seq<char>)
    ensures
        trim_end(s).len() > 0 ==> !is_ws(trim_end(s).last()),
    decreases s.len(),
{
    if s.len() > 0 && is_ws(s.last()) {
        lemma_trim_end_last(s.drop_last());
    }
}

/// Trimming twice is trimming once.
pub proof fn lemma_trim_idempotent(s: Seq<char>)
    ensures
        trim(trim(s)) == trim(s),
{
    let u = trim_start(s);
    let t = trim_end(u);
    lemma_trim_start_first(s);
    lemma_trim_end_last(u);
    if t.len() > 0 {
        assert(u.len() > 0) by {
            lemma_trim_end_len(u);
        }
        lemma_trim_end_keeps_first(u);
        assert(trim_start(t) == t);
        assert(trim_end(t) == t);
    } else {
        assert(trim_start(t) == t);
        assert(trim_end(t) == t);
    }
}

proof fn lemma_trim_start_len(s: Seq<char>)
    ensures
        trim_start(s).len() <= s.len(),
    decreases s.len(),
{
    if s.len() > 0 && is_ws(s[0]) {
        lemma_trim_start_len(s.drop_first());
    }
}

proof fn lemma_trim_end_len(s: Seq<char>)
    ensures
        trim_end(s).len() <= s.len(),
    decreases s.len(),
{
    if s.len() > 0 && is_ws(s.last()) {
        lemma_trim_end_len(s.drop_last());
    }
}

proof fn lemma_trim_end_keeps_first(s: Seq<char>)
    requires
        s.len() > 0,
        !is_ws(s[0]),
    ensures
        trim_end(s).len() > 0,
        trim_end(s)[0] == s[0],
    decreases s.len(),
{
    if is_ws(s.last()) {
        assert(s.len() > 1);
        assert(s.drop_last()[0] == s[0]);
        lemma_trim_end_keeps_first(s.drop_last());
    }
}

/// Bounds `(lo, hi)` of the trimmed part of `cs`: `trim(cs) == cs[lo..hi]`.
pub fn trim_bounds(cs: &[char]) -> (r: (usize, usize))
    ensures
        r.0 <= r.1 <= cs.len(),
        cs@.subrange(r.0 as int, r.1 as int) == trim(cs@),
        trim_start(cs@) == cs@.subrange(r.0 as int, cs.len() as int),
{
    let mut lo: usize = 0;
    while lo < cs.len() && is_whitespace(cs[lo])
        invariant
            lo <= cs.len(),
            forall|k: int| 0 <= k < lo ==> is_ws(#[trigger] cs@[k]),
        decreases cs.len() - lo,
    {
        lo += 1;
    }
    proof {
        lemma_trim_start_skip(cs@, lo as int);
        let rest = cs@.subrange(lo as int, cs.len() as int);
        if rest.len() > 0 {
            assert(rest[0] == cs@[lo as int]);
        }
        assert(trim_start(rest) == rest);
    }
    let mut hi: usize = cs.len();
    while hi > lo && is_whitespace(cs[hi - 1])
        invariant
            lo <= hi <= cs.len(),
            forall|k: int| hi <= k < cs.len() ==> is_ws(#[trigger] cs@[k]),
        decreases hi,
    {
        hi -= 1;
    }
    proof {
        let rest = cs@.subrange(lo as int, cs.len() as int);
        lemma_trim_end_skip(rest, (hi - lo) as int);
        assert(rest.subrange(0, (hi - lo) as int) =~= cs@.subrange(lo as int, hi as int));
        let mid = cs@.subrange(lo as int, hi as int);
        if mid.len() > 0 {
            assert(mid.last() == cs@[hi - 1]);
        }
        assert(trim_end(mid) == mid);
    }
    (lo, hi)
}

/// The characters of `s.trim()`.
pub fn trimmed_chars(s: &str) -> (v: Vec<char>)
    ensures
        v@ == trim(s@),
{
    let cs = chars_of(s);
    let (lo, hi) = trim_bounds(cs.as_slice());
    let mut v: Vec<char> = Vec::new();
    let mut i: usize = lo;
    while i < hi
        invariant
            lo <= i <= hi <= cs.len(),
            v@ == cs@.subrange(lo as int, i as int),
        decreases hi - i,
    {
        v.push(cs[i]);
        assert(cs@.subrange(lo as int, i + 1) == cs@.subrange(lo as int, i as int).push(cs@[i as int]));
        i += 1;
    }
    v
}

/// The characters of `cs` without leading and trailing white space.
pub fn trim_chars(cs: &[char]) -> (v: Vec<char>)
    ensures
        v@ == trim(cs@),
{
    let (lo, hi) = trim_bounds(cs);
    let mut v: Vec<char> = Vec::new();
    let mut i: usize = lo;
    while i < hi
        invariant
            lo <= i <= hi <= cs.len(),
            v@ == cs@.subrange(lo as int, i as int),
        decreases hi - i,
    {
        v.push(cs[i]);
        assert(cs@.subrange(lo as int, i + 1) == cs@.subrange(lo as int, i as int).push(cs@[i as int]));
        i += 1;
    }
    v
}

/// `s.trim().to_string()`.
pub fn trimmed_string(s: &str) -> (r: String)
    ensures
        r@ == trim(s@),
{
    let v = trimmed_chars(s);
    string_of(v.as_slice())
}

/// `s.trim().is_empty()`.
pub fn is_blank_str(s: &str) -> (b: bool)
    ensures
        b == is_blank(s@),
        b == (trim(s@).len() == 0),
{
    let v = trimmed_chars(s);
    proof {
        lemma_trim_blank(s@);
    }
    v.len() == 0
}

// ---------------------------------------------------------------- split

/// The pieces of `s` between separator characters (`str::split` with a
/// character predicate): always one more piece than there are separators.
pub open spec fn fields(s: Seq<char>, sep: spec_fn(char) -> bool) -> Seq<Seq<char>>
    decreases s.len(),
{
    if s.len() == 0 {
        seq![Seq::<char>::empty()]
    } else {
        let f = fields(s.drop_last(), sep);
        if sep(s.last()) {
            f.push(Seq::<char>::empty())
        } else {
            f.update(f.len() - 1, f.last().push(s.last()))
        }
    }
}

pub proof fn lemma_fields_len(s: Seq<char>, sep: spec_fn(char) -> bool)
    ensures
        fields(s, sep).len() >= 1,
    decreases s.len(),
{
    if s.len() > 0 {
        lemma_fields_len(s.drop_last(), sep);
    }
}

/// `s.take(i + 1)` extends `s.take(i)` by `s[i]`.
pub proof fn lemma_take_step(s: Seq<char>, i: int)
    requires
        0 <= i < s.len(),
    ensures
        s.take(i + 1).drop_last() == s.take(i),
        s.take(i + 1).last() == s[i],
        s.take(i + 1).len() == i + 1,
{
    assert(s.take(i + 1).drop_last() =~= s.take(i));
}

// ---------------------------------------------------------------- search

/// `needle` occurs in `hay` at position `i`.
pub open spec fn occurs_at(hay: Seq<char>, needle: Seq<char>, i: int) -> bool {
    0 <= i && i + needle.len() <= hay.len() && hay.subrange(i, i + needle.len()) == needle
}

/// `needle` occurs somewhere in `hay` (`str::contains`).
pub open spec fn contains_seq(hay: Seq<char>, needle: Seq<char>) -> bool {
    exists|i: int| occurs_at(hay, needle, i)
}

/// Whether `needle` occurs in `hay` at position `i`.
pub fn matches_at(hay: &[char], needle: &[char], i: usize) -> (b: bool)
    ensures
        b == occurs_at(hay@, needle@, i as int),
{
    if i > hay.len() || needle.len() > hay.len() - i {
        return false;
    }
    let mut k: usize = 0;
    while k < needle.len()
        invariant
            i + needle.len() <= hay.len(),
            k <= needle.len(),
            forall|j: int| 0 <= j < k ==> hay@[i + j] == needle@[j],
        decreases needle.len() - k,
    {
        if hay[i + k] != needle[k] {
            assert(hay@.subrange(i as int, i + needle.len())[k as int] != needle@[k as int]);
            return false;
        }
        k += 1;
    }
    assert(hay@.subrange(i as int, i + needle.len()) =~= needle@);
    true
}

/// Position of the first occurrence of `needle` in `hay` at or after `from`.
pub fn find_from(hay: &[char], needle: &[char], from: usize) -> (r: Option<usize>)
    requires
        from <= hay.len(),
    ensures
        match r {
            Some(p) => from <= p && occurs_at(hay@, needle@, p as int) && forall|q: int|
                from <= q < p ==> !occurs_at(hay@, needle@, q),
            None => forall|q: int| from <= q ==> !occurs_at(hay@, needle@, q),
        },
{
    let mut i: usize = from;
    while i < hay.len()
        invariant
            from <= i <= hay.len(),
            forall|q: int| from <= q < i ==> !occurs_at(hay@, needle@, q),
        decreases hay.len() - i,
    {
        if matches_at(hay, needle, i) {
            return Some(i);
        }
        i += 1;
    }
    if matches_at(hay, needle, i) {
        return Some(i);
    }
    None
}

/// Whether `needle` occurs in `hay`.
pub fn contains(hay: &[char], needle: &[char]) -> (b: bool)
    ensures
        b == contains_seq(hay@, needle@),
{
    match find_from(hay, needle, 0) {
        Some(p) => true,
        None => false,
    }
}

/// Whether `c` occurs in `cs`.
pub fn contains_char(cs: &[char], c: char) -> (b: bool)
    ensures
        b == cs@.contains(c),
{
    let mut i: usize = 0;
    while i < cs.len()
        invariant
            i <= cs.len(),
            forall|k: int| 0 <= k < i ==> cs@[k] != c,
        decreases cs.len() - i,
    {
        if cs[i] == c {
            return true;
        }
        i += 1;
    }
    false
}

/// Whether `cs` starts with `prefix`.
pub fn starts_with(cs: &[char], prefix: &[char]) -> (b: bool)
    ensures
        b == occurs_at(cs@, prefix@, 0),
{
    matches_at(cs, prefix, 0)
}

/// Whether `cs` ends with `suffix`.
pub fn ends_with(cs: &[char], suffix: &[char]) -> (b: bool)
    ensures
        b == (suffix@.len() <= cs@.len() && occurs_at(
            cs@,
            suffix@,
            cs@.len() - suffix@.len(),
        )),
{
    if suffix.len() > cs.len() {
        return false;
    }
    matches_at(cs, suffix, cs.len() - suffix.len())
}

// ---------------------------------------------------------------- numbers

/// Decimal digits of `n` (no leading zeros; `"0"` for zero).
pub open spec fn dec(n: nat) -> Seq<char>
    decreases n,
{
    if n < 10 {
        seq![digit_char(n)]
    } else {
        dec(n / 10).push(digit_char(n % 10))
    }
}

pub open spec fn digit_char(d: nat) -> char {
    ((d + 48) as u32) as char
}

/// `dec(n)` left-padded with zeros to at least `width` characters (`{:0width$}`).
pub open spec fn dec_pad(n: nat, width: nat) -> Seq<char> {
    let d = dec(n);
    if d.len() >= width {
        d
    } else {
        Seq::new((width - d.len()) as nat, |i: int| '0') + d
    }
}

/// Decimal form of a signed number (`i64::to_string`).
pub open spec fn dec_signed(n: int) -> Seq<char> {
    if n < 0 {
        seq!['-'] + dec((-n) as nat)
    } else {
        dec(n as nat)
    }
}

proof fn lemma_dec_len(n: nat)
    ensures
        dec(n).len() >= 1,
    decreases n,
{
    if n >= 10 {
        lemma_dec_len(n / 10);
    }
}

/// Appends the decimal digits of `n`.
pub fn push_dec(s: &mut String, n: u64)
    ensures
        final(s)@ == old(s)@ + dec(n as nat),
    decreases n,
{
    if n < 10 {
        let c: char = ((n as u8) + 48) as char;
        assert(c == digit_char(n as nat));
        push_char(s, c);
        assert(dec(n as nat) == seq![c]);
    } else {
        push_dec(s, n / 10);
        let d: u64 = n % 10;
        let c: char = ((d as u8) + 48) as char;
        assert(c == digit_char(d as nat));
        push_char(s, c);
        assert(old(s)@ + dec(n as nat) =~= old(s)@ + dec((n / 10) as nat) + seq![c]);
    }
}

/// Appends `n` left-padded with zeros to `width` characters.
pub fn push_dec_pad(s: &mut String, n: u64, width: usize)
    ensures
        final(s)@ == old(s)@ + dec_pad(n as nat, width as nat),
{
    let digits: usize = dec_len(n);
    let mut k: usize = digits;
    while k < width
        invariant
            digits <= k,
            digits == dec(n as nat).len(),
            k <= width || k == digits,
            s@ == old(s)@ + Seq::new((k - digits) as nat, |i: int| '0'),
        decreases width - k,
    {
        push_char(s, '0');
        assert(Seq::new((k + 1 - digits) as nat, |i: int| '0') =~= Seq::new(
            (k - digits) as nat,
            |i: int| '0',
        ).push('0'));
        k += 1;
    }
    let ghost before = s@;
    push_dec(s, n);
    proof {
        if digits >= width {
            assert(Seq::new((k - digits) as nat, |i: int| '0') =~= Seq::<char>::empty());
            assert(s@ =~= old(s)@ + dec_pad(n as nat, width as nat));
        } else {
            assert(k == width);
            assert(s@ =~= old(s)@ + dec_pad(n as nat, width as nat));
        }
    }
}

/// Number of decimal digits of `n`.
pub fn dec_len(n: u64) -> (r: usize)
    ensures
        r == dec(n as nat).len(),
        1 <= r <= 20,
    decreases n,
{
    proof {
        reveal_with_fuel(pow10, 21);
        assert(pow10(20) == 100000000000000000000);
        lemma_dec_len_bound(n as nat, 20);
        lemma_dec_len(n as nat);
    }
    if n < 10 {
        1
    } else {
        let r = dec_len(n / 10);
        r + 1
    }
}

pub open spec fn pow10(k: nat) -> nat
    decreases k,
{
    if k == 0 {
        1
    } else {
        10 * pow10((k - 1) as nat)
    }
}

proof fn lemma_dec_len_bound(n: nat, k: nat)
    requires
        k >= 1,
        n < pow10(k),
    ensures
        dec(n).len() <= k,
    decreases k,
{
    if n >= 10 {
        let p = pow10((k - 1) as nat);
        if k == 1 {
            reveal_with_fuel(pow10, 2);
            assert(pow10(1) == 10);
        } else {
            assert(n / 10 < p) by (nonlinear_arith)
                requires
                    n < 10 * p,
            ;
            lemma_dec_len_bound(n / 10, (k - 1) as nat);
        }
    }
}

/// Appends the decimal form of a signed number.
pub fn push_dec_signed(s: &mut String, n: i64)
    ensures
        final(s)@ == old(s)@ + dec_signed(n as int),
{
    if n < 0 {
        push_char(s, '-');
        let m: u64 = if n == i64::MIN {
            9223372036854775808u64
        } else {
            (-n) as u64
        };
        push_dec(s, m);
        assert(s@ =~= old(s)@ + dec_signed(n as int));
    } else {
        push_dec(s, n as u64);
    }
}

// ---------------------------------------------------------------- words

/// The run of non-white-space characters `s` starts with.
pub open spec fn leading_word(s: Seq<char>) -> Seq<char>
    decreases s.len(),
{
    if s.len() > 0 && !is_ws(s[0]) {
        seq![s[0]] + leading_word(s.drop_first())
    } else {
        Seq::empty()
    }
}

/// The first white-space separated word of `s` (empty when `s` is blank).
pub open spec fn first_word(s: Seq<char>) -> Seq<char> {
    leading_word(trim_start(s))
}

/// What follows the first word of `s`.
pub open spec fn after_first_word(s: Seq<char>) -> Seq<char> {
    trim_start(s).skip(first_word(s).len() as int)
}

/// The first two items of `s.split_whitespace()`, when there are two.
pub open spec fn two_words(s: Seq<char>) -> Option<(Seq<char>, Seq<char>)> {
    let w1 = first_word(s);
    let w2 = first_word(after_first_word(s));
    if w1.len() > 0 && w2.len() > 0 {
        Some((w1, w2))
    } else {
        None
    }
}

pub proof fn lemma_leading_word_is_run(s: Seq<char>, j: int)
    requires
        0 <= j <= s.len(),
        forall|k: int| 0 <= k < j ==> !is_ws(#[trigger] s[k]),
        j == s.len() || is_ws(s[j]),
    ensures
        leading_word(s) == s.take(j),
    decreases j,
{
    if j > 0 {
        lemma_leading_word_is_run(s.drop_first(), j - 1);
        assert(seq![s[0]] + s.drop_first().take(j - 1) =~= s.take(j));
    } else {
        assert(s.take(0) =~= Seq::<char>::empty());
    }
}

/// Bounds `(lo, hi)` of the first word of `cs[from..]`.
fn word_bounds(cs: &[char], from: usize) -> (r: (usize, usize))
    requires
        from <= cs.len(),
    ensures
        from <= r.0 <= r.1 <= cs.len(),
        trim_start(cs@.subrange(from as int, cs.len() as int)) == cs@.subrange(r.0 as int, cs.len() as int),
        first_word(cs@.subrange(from as int, cs.len() as int)) == cs@.subrange(r.0 as int, r.1 as int),
{
    let ghost tail = cs@.subrange(from as int, cs.len() as int);
    let mut lo: usize = from;
    while lo < cs.len() && is_whitespace(cs[lo])
        invariant
            from <= lo <= cs.len(),
            forall|k: int| from <= k < lo ==> is_ws(#[trigger] cs@[k]),
        decreases cs.len() - lo,
    {
        lo += 1;
    }
    proof {
        lemma_trim_start_skip(tail, lo - from);
        let rest = cs@.subrange(lo as int, cs.len() as int);
        assert(tail.subrange(lo - from, tail.len() as int) =~= rest);
        if rest.len() > 0 {
            assert(rest[0] == cs@[lo as int]);
        }
        assert(trim_start(rest) == rest);
    }
    let mut hi: usize = lo;
    while hi < cs.len() && !is_whitespace(cs[hi])
        invariant
            lo <= hi <= cs.len(),
            forall|k: int| lo <= k < hi ==> !is_ws(#[trigger] cs@[k]),
        decreases cs.len() - hi,
    {
        hi += 1;
    }
    proof {
        let rest = cs@.subrange(lo as int, cs.len() as int);
        assert forall|k: int| 0 <= k < hi - lo implies !is_ws(#[trigger] rest[k]) by {
            assert(rest[k] == cs@[lo + k]);
        }
        if hi < cs.len() {
            assert(rest[hi - lo] == cs@[hi as int]);
        }
        lemma_leading_word_is_run(rest, hi - lo);
        assert(rest.take(hi - lo) =~= cs@.subrange(lo as int, hi as int));
    }
    (lo, hi)
}

/// The first two words of `cs`, when it has two (`split_whitespace`).
pub fn two_words_of(cs: &[char]) -> (r: Option<(Vec<char>, Vec<char>)>)
    ensures
        match r {
            Some((a, b)) => two_words(cs@) == Some((a@, b@)),
            None => two_words(cs@) is None,
        },
{
    let (lo1, hi1) = word_bounds(cs, 0);
    assert(cs@.subrange(0, cs.len() as int) =~= cs@);
    let (lo2, hi2) = word_bounds(cs, hi1);
    proof {
        let t = trim_start(cs@);
        assert(t.skip(first_word(cs@).len() as int) =~= cs@.subrange(hi1 as int, cs.len() as int));
    }
    if hi1 > lo1 && hi2 > lo2 {
        Some((chars_range(cs, lo1, hi1), chars_range(cs, lo2, hi2)))
    } else {
        None
    }
}

// ---------------------------------------------------------------- unsigned integers

/// The value of a string of decimal digits.
pub open spec fn digits_value(p: Seq<char>) -> nat
    decreases p.len(),
{
    if p.len() == 0 {
        0
    } else {
        digits_value(p.drop_last()) * 10 + (p.last() as nat - 48) as nat
    }
}

pub open spec fn all_digits(p: Seq<char>) -> bool {
    forall|k: int| 0 <= k < p.len() ==> is_digit_spec(#[trigger] p[k])
}

/// `str::parse::<u64>`: an optional `+` followed by one or more decimal
/// digits, of a value that fits in 64 bits.
pub open spec fn parse_u64_spec(s: Seq<char>) -> Option<u64> {
    let d = if s.len() > 0 && s[0] == '+' {
        s.drop_first()
    } else {
        s
    };
    if d.len() > 0 && all_digits(d) && digits_value(d) <= u64::MAX {
        Some(digits_value(d) as u64)
    } else {
        None
    }
}

proof fn lemma_digits_value_grows(p: Seq<char>, k: int)
    requires
        0 <= k <= p.len(),
        all_digits(p),
    ensures
        digits_value(p.take(k)) <= digits_value(p),
    decreases p.len() - k,
{
    if k < p.len() {
        lemma_digits_value_grows(p, k + 1);
        assert(p.take(k + 1).drop_last() =~= p.take(k));
        assert(is_digit_spec(p[k]));
    } else {
        assert(p.take(k) =~= p);
    }
}

/// Parses an unsigned 64-bit decimal number (`str::parse::<u64>`).
pub fn parse_u64(s: &[char]) -> (r: Option<u64>)
    ensures
        r == parse_u64_spec(s@),
{
    let start: usize = if s.len() > 0 && s[0] == '+' {
        1
    } else {
        0
    };
    let ghost d = s@.subrange(start as int, s.len() as int);
    assert(d =~= (if s@.len() > 0 && s@[0] == '+' {
        s@.drop_first()
    } else {
        s@
    }));
    if start == s.len() {
        return None;
    }
    let mut v: u64 = 0;
    let mut i: usize = start;
    while i < s.len()
        invariant
            start <= i <= s.len(),
            d == s@.subrange(start as int, s.len() as int),
            d == (if s@.len() > 0 && s@[0] == '+' {
                s@.drop_first()
            } else {
                s@
            }),
            d.len() > 0,
            v == digits_value(d.take(i - start)),
            all_digits(d.take(i - start)),
        decreases s.len() - i,
    {
        let c = s[i];
        proof {
            assert(d.take(i + 1 - start).drop_last() =~= d.take(i - start));
            assert(d.take(i + 1 - start).last() == c);
        }
        if !('0' <= c && c <= '9') {
            assert(!is_digit_spec(d[i - start]));
            return None;
        }
        let digit: u64 = (c as u64) - 48;
        let next = match v.checked_mul(10) {
            Some(t) => t.checked_add(digit),
            None => None,
        };
        match next {
            Some(n) => {
                v = n;
            },
            None => {
                proof {
                    assert(digits_value(d.take(i + 1 - start)) > u64::MAX);
                    if all_digits(d) {
                        lemma_digits_value_grows(d, i + 1 - start);
                    }
                }
                return None;
            },
        }
        i += 1;
    }
    assert(d.take(i - start) =~= d);
    Some(v)
}

// ---------------------------------------------------------------- word lists

/// The non-empty pieces, in order.
pub open spec fn non_empty_pieces(s: Seq<Seq<char>>) -> Seq<Seq<char>>
    decreases s.len(),
{
    if s.len() == 0 {
        Seq::empty()
    } else if s.last().len() > 0 {
        non_empty_pieces(s.drop_last()).push(s.last())
    } else {
        non_empty_pieces(s.drop_last())
    }
}

pub open spec fn ws_sep() -> spec_fn(char) -> bool {
    |c: char| is_ws(c)
}

/// The white-space separated words of `s` (`str::split_whitespace`).
pub open spec fn words(s: Seq<char>) -> Seq<Seq<char>> {
    non_empty_pieces(fields(s, ws_sep()))
}

proof fn lemma_non_empty_pieces_len(s: Seq<Seq<char>>)
    ensures
        non_empty_pieces(s).len() <= s.len(),
    decreases s.len(),
{
    if s.len() > 0 {
        lemma_non_empty_pieces_len(s.drop_last());
    }
}

/// The words of a text (`split_whitespace`), each as characters.
pub fn words_of(text: &str) -> (v: Vec<Vec<char>>)
    ensures
        v@.map_values(|w: Vec<char>| w@) == words(text@),
        v@.len() <= text@.len(),
{
    let t = chars_of(text);
    let ghost sep = ws_sep();
    let mut done: Vec<Vec<char>> = Vec::new();
    let mut cur: Vec<char> = Vec::new();
    let mut i: usize = 0;
    proof {
        assert(t@.take(0) =~= Seq::<char>::empty());
        assert(fields(Seq::<char>::empty(), sep).drop_last() =~= Seq::<Seq<char>>::empty());
    }
    while i < t.len()
        invariant
            i <= t.len(),
            t@ == text@,
            sep == ws_sep(),
            fields(t@.take(i as int), sep).len() >= 1,
            done@.map_values(|v: Vec<char>| v@) == non_empty_pieces(fields(t@.take(i as int), sep).drop_last()),
            cur@ == fields(t@.take(i as int), sep).last(),
            done@.len() + cur@.len() <= i,
        decreases t.len() - i,
    {
        proof {
            lemma_take_step(t@, i as int);
            lemma_fields_len(t@.take(i as int), sep);
        }
        let ghost f = fields(t@.take(i as int), sep);
        if is_whitespace(t[i]) {
            let ghost before = done@.map_values(|v: Vec<char>| v@);
            if cur.len() > 0 {
                done.push(cur);
                assert(done@.map_values(|v: Vec<char>| v@) =~= before.push(f.last()));
            }
            cur = Vec::new();
            proof {
                let x = t@.take(i + 1);
                assert(x.drop_last() == t@.take(i as int));
                assert(sep(x.last()));
                let g = fields(x, sep);
                assert(g == f.push(Seq::<char>::empty()));
                assert(g.drop_last() =~= f);
                assert(f == f.drop_last().push(f.last()));
            }
        } else {
            cur.push(t[i]);
            proof {
                let x = t@.take(i + 1);
                assert(x.drop_last() == t@.take(i as int));
                assert(!sep(x.last()));
                let g = fields(x, sep);
                assert(g == f.update(f.len() - 1, f.last().push(t@[i as int])));
                assert(g.drop_last() =~= f.drop_last());
            }
        }
        i += 1;
    }
    proof {
        assert(t@.take(t.len() as int) == t@);
        let f = fields(t@, sep);
        lemma_fields_len(t@, sep);
        assert(f == f.drop_last().push(f.last()));
    }
    if cur.len() > 0 {
        let ghost before = done@.map_values(|v: Vec<char>| v@);
        done.push(cur);
        assert(done@.map_values(|v: Vec<char>| v@) =~= before.push(fields(t@, ws_sep()).last()));
    }
    done
}

} // verus!
