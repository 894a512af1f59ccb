//! Webhook URL guard (against server-side request forgery): only http(s),
//! no loopback / private / link-local literal addresses, no local host
//! names, and no host name that resolves to such an address.
//!
//! Name resolution and the POST itself happen outside the library.
use vstd::prelude::*;

use crate::text::{
    ascii_lower_chars, chars_of, chars_range, dec, ends_with, lower_seq, occurs_at, owned, push_chars,
    push_dec, push_str, starts_with, trim, trimmed_chars,
};

verus! {

/// The outcome of one webhook delivery.
#[derive(Debug, Clone)]
pub struct WebhookResult {
    pub url: String,
    pub ok: bool,
    pub message: String,
}

/// An IP address as plain values.
#[derive(Debug, Clone, Copy, PartialEq, Eq, Structural)]
pub enum IpPlain {
    V4(u8, u8, u8, u8),
    V6(u16, u16, u16, u16, u16, u16, u16, u16),
}

/// Loopback, private, link-local, unspecified or shared (CGNAT) IPv4
/// address: 127/8, 10/8, 172.16/12, 192.168/16, 169.254/16, 0.0.0.0, 100.64/10.
pub open spec fn private_v4(a: u8, b: u8, c: u8, d: u8) -> bool {
    a == 127 || a == 10 || (a == 172 && 16 <= b <= 31) || (a == 192 && b == 168) || (a == 169 && b
        == 254) || (a == 0 && b == 0 && c == 0 && d == 0) || (a == 100 && 64 <= b <= 127)
}

/// Loopback (`::1`), unspecified (`::`) or unique local (fc00::/7) IPv6 address.
pub open spec fn private_v6(s: (u16, u16, u16, u16, u16, u16, u16, u16)) -> bool {
    let zero_prefix = s.0 == 0 && s.1 == 0 && s.2 == 0 && s.3 == 0 && s.4 == 0 && s.5 == 0 && s.6 == 0;
    (zero_prefix && (s.7 == 1 || s.7 == 0)) || (0xfc00 <= s.0 <= 0xfdff)
}

pub open spec fn private_ip(ip: IpPlain) -> bool {
    match ip {
        IpPlain::V4(a, b, c, d) => private_v4(a, b, c, d),
        IpPlain::V6(a, b, c, d, e, f, g, h) => private_v6((a, b, c, d, e, f, g, h)),
    }
}

/// Whether an address must not be called.
pub fn is_private_ip(ip: IpPlain) -> (b: bool)
    ensures
        b == private_ip(ip),
{
    match ip {
        IpPlain::V4(a, b, c, d) => {
            a == 127 || a == 10 || (a == 172 && 16 <= b && b <= 31) || (a == 192 && b == 168) || (a
                == 169 && b == 254) || (a == 0 && b == 0 && c == 0 && d == 0) || (a == 100 && 64 <= b
                && b <= 127)
        },
        IpPlain::V6(a, b, c, d, e, f, g, h) => {
            let zero_prefix = a == 0 && b == 0 && c == 0 && d == 0 && e == 0 && f == 0 && g == 0;
            (zero_prefix && (h == 1 || h == 0)) || (0xfc00 <= a && a <= 0xfdff)
        },
    }
}

// ---------------------------------------------------------------- IPv4 literals

pub open spec fn is_dec_digit(c: char) -> bool {
    '0' <= c <= '9'
}

/// The value of a string of decimal digits.
pub open spec fn dec_value(p: Seq<char>) -> nat
    decreases p.len(),
{
    if p.len() == 0 {
        0
    } else {
        dec_value(p.drop_last()) * 10 + (p.last() as nat - 48) as nat
    }
}

/// One octet of a dotted-decimal address: one to three digits, no leading
/// zero, at most 255.
pub open spec fn octet_ok(p: Seq<char>) -> bool {
    1 <= p.len() <= 3 && (forall|k: int| 0 <= k < p.len() ==> is_dec_digit(#[trigger] p[k])) && !(p.len()
        > 1 && p[0] == '0') && dec_value(p) <= 255
}

/// The pieces of `s` between dots.
pub open spec fn dot_fields(s: Seq<char>) -> Seq<Seq<char>> {
    crate::text::fields(s, |c: char| c == '.')
}

/// `Ipv4Addr`'s dotted-decimal syntax: exactly four octets.
pub open spec fn parse_ipv4_spec(s: Seq<char>) -> Option<(u8, u8, u8, u8)> {
    let f = dot_fields(s);
    if f.len() == 4 && octet_ok(f[0]) && octet_ok(f[1]) && octet_ok(f[2]) && octet_ok(f[3]) {
        Some((dec_value(f[0]) as u8, dec_value(f[1]) as u8, dec_value(f[2]) as u8, dec_value(f[3]) as u8))
    } else {
        None
    }
}

fn octet_value(p: &[char]) -> (r: Option<u8>)
    ensures
        match r {
            Some(v) => octet_ok(p@) && v == dec_value(p@),
            None => !octet_ok(p@),
        },
{
    if p.len() == 0 || p.len() > 3 {
        return None;
    }
    if p.len() > 1 && p[0] == '0' {
        return None;
    }
    let mut v: u32 = 0;
    let mut k: usize = 0;
    while k < p.len()
        invariant
            k <= p.len() <= 3,
            v == dec_value(p@.subrange(0, k as int)),
            v < 1000,
            forall|j: int| 0 <= j < k ==> is_dec_digit(#[trigger] p@[j]),
        decreases p.len() - k,
    {
        let c = p[k];
        if !('0' <= c && c <= '9') {
            return None;
        }
        proof {
            assert(p@.subrange(0, k + 1).drop_last() =~= p@.subrange(0, k as int));
            assert(v * 10 + 9 < 10000);
        }
        v = v * 10 + ((c as u32) - 48);
        assert(v < 1000) by {
            assert(dec_value(p@.subrange(0, k as int)) < 100 || k < 3);
            if k == 2 {
                assert(dec_value(p@.subrange(0, 0)) == 0);
            }
            lemma_dec_value_bound(p@.subrange(0, k + 1));
        }
        k += 1;
    }
    assert(p@.subrange(0, p.len() as int) =~= p@);
    if v > 255 {
        None
    } else {
        Some(v as u8)
    }
}

proof fn lemma_dec_value_bound(p: Seq<char>)
    requires
        p.len() <= 3,
        forall|k: int| 0 <= k < p.len() ==> is_dec_digit(#[trigger] p[k]),
    ensures
        p.len() == 0 ==> dec_value(p) == 0,
        p.len() == 1 ==> dec_value(p) < 10,
        p.len() == 2 ==> dec_value(p) < 100,
        p.len() == 3 ==> dec_value(p) < 1000,
    decreases p.len(),
{
    if p.len() > 0 {
        lemma_dec_value_bound(p.drop_last());
    }
}

/// The pieces of `s` between dots (`split('.')`).
pub fn dot_pieces(s: &[char]) -> (parts: Vec<Vec<char>>)
    ensures
        parts@.map_values(|v: Vec<char>| v@) == dot_fields(s@),
{
    let mut parts: Vec<Vec<char>> = Vec::new();
    let mut cur: Vec<char> = Vec::new();
    let ghost sep = |c: char| c == '.';
    let mut i: usize = 0;
    proof {
        assert(s@.take(0) =~= Seq::<char>::empty());
    }
    while i < s.len()
        invariant
            i <= s.len(),
            sep == (|c: char| c == '.'),
            crate::text::fields(s@.take(i as int), sep).len() >= 1,
            parts@.map_values(|v: Vec<char>| v@) == crate::text::fields(s@.take(i as int), sep).drop_last(),
            cur@ == crate::text::fields(s@.take(i as int), sep).last(),
        decreases s.len() - i,
    {
        proof {
            crate::text::lemma_take_step(s@, i as int);
            crate::text::lemma_fields_len(s@.take(i as int), sep);
        }
        let ghost f = crate::text::fields(s@.take(i as int), sep);
        if s[i] == '.' {
            let ghost before = parts@.map_values(|v: Vec<char>| v@);
            parts.push(cur);
            cur = Vec::new();
            proof {
                let x = s@.take(i + 1);
                assert(x.drop_last() == s@.take(i as int));
                assert(sep(x.last()));
                let g = crate::text::fields(x, sep);
                assert(g == f.push(Seq::<char>::empty()));
                assert(g.drop_last() =~= f);
                assert(parts@.map_values(|v: Vec<char>| v@) =~= before.push(f.last()));
                assert(f == f.drop_last().push(f.last()));
            }
        } else {
            cur.push(s[i]);
            proof {
                let x = s@.take(i + 1);
                assert(x.drop_last() == s@.take(i as int));
                assert(!sep(x.last()));
                let g = crate::text::fields(x, sep);
                assert(g == f.update(f.len() - 1, f.last().push(s@[i as int])));
                assert(g.drop_last() =~= f.drop_last());
            }
        }
        i += 1;
    }
    assert(s@.take(s.len() as int) == s@);
    let ghost before = parts@.map_values(|v: Vec<char>| v@);
    parts.push(cur);
    proof {
        let f = crate::text::fields(s@, sep);
        assert(f == f.drop_last().push(f.last()));
        assert(parts@.map_values(|v: Vec<char>| v@) =~= f);
        assert(dot_fields(s@) == f);
    }
    parts
}

/// Parses a dotted-decimal IPv4 address.
pub fn parse_ipv4(s: &[char]) -> (r: Option<(u8, u8, u8, u8)>)
    ensures
        r == parse_ipv4_spec(s@),
{
    let parts = dot_pieces(s);
    assert(parts@.map_values(|v: Vec<char>| v@).len() == parts@.len());
    if parts.len() != 4 {
        return None;
    }
    let a = octet_value(parts[0].as_slice());
    let b = octet_value(parts[1].as_slice());
    let c = octet_value(parts[2].as_slice());
    let d = octet_value(parts[3].as_slice());
    match (a, b, c, d) {
        (Some(a), Some(b), Some(c), Some(d)) => Some((a, b, c, d)),
        _ => None,
    }
}

// ---------------------------------------------------------------- URL checks

/// `s` up to the first `c` (`s.split(c).next()`).
pub open spec fn take_until(s: Seq<char>, c: char) -> Seq<char>
    decreases s.len(),
{
    if s.len() == 0 || s[0] == c {
        Seq::empty()
    } else {
        seq![s[0]] + take_until(s.drop_first(), c)
    }
}

pub open spec fn is_bracket(c: char) -> bool {
    c == '[' || c == ']'
}

/// `s` without leading and trailing `[` / `]` (`trim_matches(['[', ']'])`).
pub open spec fn strip_brackets_start(s: Seq<char>) -> Seq<char>
    decreases s.len(),
{
    if s.len() > 0 && is_bracket(s[0]) {
        strip_brackets_start(s.drop_first())
    } else {
        s
    }
}

pub open spec fn strip_brackets_end(s: Seq<char>) -> Seq<char>
    decreases s.len(),
{
    if s.len() > 0 && is_bracket(s.last()) {
        strip_brackets_end(s.drop_last())
    } else {
        s
    }
}

/// The host of an http(s) URL: after the scheme, up to the first `/`, up to
/// the first `:`, without brackets.
pub open spec fn url_host(t: Seq<char>) -> Seq<char> {
    let rest = if occurs_at(t, "https://"@, 0) {
        t.subrange(8, t.len() as int)
    } else {
        t.subrange(7, t.len() as int)
    };
    strip_brackets_end(strip_brackets_start(take_until(take_until(rest, '/'), ':')))
}

/// Dotted-decimal text of an IPv4 address (its `Display`).
pub open spec fn dotted(a: u8, b: u8, c: u8, d: u8) -> Seq<char> {
    dec(a as nat) + seq!['.'] + dec(b as nat) + seq!['.'] + dec(c as nat) + seq!['.'] + dec(d as nat)
}

/// The URL check before name resolution: `Ok(None)` for a public literal
/// address, `Ok(Some(host))` for a host name still to be resolved, or the
/// refusal message.
pub open spec fn check_url_spec(url: Seq<char>) -> Result<Option<Seq<char>>, Seq<char>> {
    let t = trim(url);
    if !(occurs_at(t, "http://"@, 0) || occurs_at(t, "https://"@, 0)) {
        Err("仅支持 http/https: "@ + t)
    } else {
        let h = url_host(t);
        if h.len() == 0 {
            Err("URL 缺少主机名"@)
        } else {
            match parse_ipv4_spec(h) {
                Some((a, b, c, d)) => if private_v4(a, b, c, d) {
                    Err("拒绝内网/回环地址: "@ + dotted(a, b, c, d))
                } else {
                    Ok(None)
                },
                None => {
                    let l = lower_seq(h);
                    if l == "localhost"@ || (".local"@.len() <= l.len() && occurs_at(l, ".local"@, l.len() - ".local"@.len())) {
                        Err("拒绝本地主机名: "@ + h)
                    } else {
                        Ok(Some(h))
                    }
                },
            }
        }
    }
}

/// What the URL check lets through: only http(s) URLs, never one whose host
/// is a private, loopback or link-local IPv4 literal; a host it leaves for
/// resolution is never such a literal.
pub proof fn lemma_private_targets_refused(url: Seq<char>)
    ensures
        !(occurs_at(trim(url), "http://"@, 0) || occurs_at(trim(url), "https://"@, 0)) ==> check_url_spec(url) is Err,
        parse_ipv4_spec(url_host(trim(url))) matches Some((a, b, c, d)) && private_v4(a, b, c, d)
            ==> check_url_spec(url) is Err,
        check_url_spec(url) matches Ok(Some(h)) ==> parse_ipv4_spec(h) is None,
{
}

fn take_until_chars(s: &[char], c: char) -> (v: Vec<char>)
    ensures
        v@ == take_until(s@, c),
{
    let mut k: usize = 0;
    while k < s.len() && s[k] != c
        invariant
            k <= s.len(),
            forall|j: int| 0 <= j < k ==> s@[j] != c,
        decreases s.len() - k,
    {
        k += 1;
    }
    let v = chars_range(s, 0, k);
    proof {
        lemma_take_until(s@, c, k as int);
    }
    v
}

proof fn lemma_take_until(s: Seq<char>, c: char, k: int)
    requires
        0 <= k <= s.len(),
        forall|j: int| 0 <= j < k ==> s[j] != c,
        k == s.len() || s[k] == c,
    ensures
        take_until(s, c) == s.subrange(0, k),
    decreases s.len(),
{
    if s.len() > 0 && s[0] != c {
        assert(k > 0);
        lemma_take_until(s.drop_first(), c, k - 1);
        assert(s.subrange(0, k) =~= seq![s[0]] + s.drop_first().subrange(0, k - 1));
    } else {
        assert(s.subrange(0, k) =~= Seq::<char>::empty());
    }
}

fn strip_brackets(s: &[char]) -> (v: Vec<char>)
    ensures
        v@ == strip_brackets_end(strip_brackets_start(s@)),
{
    let mut lo: usize = 0;
    assert(s@.subrange(0, s.len() as int) =~= s@);
    while lo < s.len() && (s[lo] == '[' || s[lo] == ']')
        invariant
            lo <= s.len(),
            strip_brackets_start(s@) == strip_brackets_start(s@.subrange(lo as int, s.len() as int)),
        decreases s.len() - lo,
    {
        assert(s@.subrange(lo as int, s.len() as int).drop_first() =~= s@.subrange(lo + 1, s.len() as int));
        lo += 1;
    }
    let mut hi: usize = s.len();
    let ghost mid = s@.subrange(lo as int, s.len() as int);
    assert(mid.subrange(0, mid.len() as int) =~= mid);
    while hi > lo && (s[hi - 1] == '[' || s[hi - 1] == ']')
        invariant
            lo <= hi <= s.len(),
            mid == s@.subrange(lo as int, s.len() as int),
            strip_brackets_end(mid) == strip_brackets_end(s@.subrange(lo as int, hi as int)),
        decreases hi - lo,
    {
        assert(s@.subrange(lo as int, hi as int).drop_last() =~= s@.subrange(lo as int, hi - 1));
        hi -= 1;
    }
    chars_range(s, lo, hi)
}

fn push_dotted(out: &mut String, a: u8, b: u8, c: u8, d: u8)
    ensures
        final(out)@ == old(out)@ + dotted(a, b, c, d),
{
    push_dec(out, a as u64);
    crate::text::push_char(out, '.');
    push_dec(out, b as u64);
    crate::text::push_char(out, '.');
    push_dec(out, c as u64);
    crate::text::push_char(out, '.');
    push_dec(out, d as u64);
    assert(out@ =~= old(out)@ + dotted(a, b, c, d));
}

pub open spec fn check_result_matches(r: Result<Option<String>, String>, s: Result<Option<Seq<char>>, Seq<char>>) -> bool {
    match r {
        Ok(None) => s == Ok::<Option<Seq<char>>, Seq<char>>(None),
        Ok(Some(h)) => s == Ok::<Option<Seq<char>>, Seq<char>>(Some(h@)),
        Err(e) => s == Err::<Option<Seq<char>>, Seq<char>>(e@),
    }
}

/// Checks a webhook URL up to name resolution: the scheme, the host, a
/// literal address, and local host names. `Ok(Some(host))` leaves `host` to
/// be resolved and checked with [`first_private_address`].
pub fn check_webhook_url(url: &str) -> (r: Result<Option<String>, String>)
    ensures
        check_result_matches(r, check_url_spec(url@)),
{
    let t = trimmed_chars(url);
    let http = chars_of("http://");
    let https = chars_of("https://");
    if !(starts_with(t.as_slice(), http.as_slice()) || starts_with(t.as_slice(), https.as_slice())) {
        let mut e = owned("仅支持 http/https: ");
        push_chars(&mut e, t.as_slice());
        return Err(e);
    }
    let rest = if starts_with(t.as_slice(), https.as_slice()) {
        proof {
            reveal_strlit("https://");
        }
        chars_range(t.as_slice(), 8, t.len())
    } else {
        proof {
            reveal_strlit("http://");
        }
        chars_range(t.as_slice(), 7, t.len())
    };
    let path_cut = take_until_chars(rest.as_slice(), '/');
    let port_cut = take_until_chars(path_cut.as_slice(), ':');
    let host = strip_brackets(port_cut.as_slice());
    if host.len() == 0 {
        return Err(owned("URL 缺少主机名"));
    }
    match parse_ipv4(host.as_slice()) {
        Some((a, b, c, d)) => {
            if is_private_ip(IpPlain::V4(a, b, c, d)) {
                let mut e = owned("拒绝内网/回环地址: ");
                push_dotted(&mut e, a, b, c, d);
                Err(e)
            } else {
                Ok(None)
            }
        },
        None => {
            let lower = ascii_lower_chars(host.as_slice());
            let local = chars_of(".local");
            if crate::text::chars_are(lower.as_slice(), "localhost") || ends_with(lower.as_slice(), local.as_slice()) {
                let mut e = owned("拒绝本地主机名: ");
                push_chars(&mut e, host.as_slice());
                Err(e)
            } else {
                Ok(Some(crate::text::string_of(host.as_slice())))
            }
        },
    }
}

/// The first address a host name resolved to that must not be called.
pub fn first_private_address(addrs: &[IpPlain]) -> (r: Option<usize>)
    ensures
        match r {
            Some(k) => k < addrs.len() && private_ip(addrs@[k as int]) && forall|j: int| 0 <= j < k ==> !private_ip(#[trigger] addrs@[j]),
            None => forall|j: int| 0 <= j < addrs.len() ==> !private_ip(#[trigger] addrs@[j]),
        },
{
    let mut k: usize = 0;
    while k < addrs.len()
        invariant
            k <= addrs.len(),
            forall|j: int| 0 <= j < k ==> !private_ip(#[trigger] addrs@[j]),
        decreases addrs.len() - k,
    {
        if is_private_ip(addrs[k]) {
            return Some(k);
        }
        k += 1;
    }
    None
}

} // verus!
