//! Aliyun NLS access tokens: expiry, the signed `CreateToken` request and
//! the encodings it is built from.
//!
//! The HTTP exchange itself happens outside the library; this module decides
//! when a cached token can be reused and builds the exact request URL.
use vstd::prelude::*;
use vstd::utf8::encode_utf8;
use base64::Engine;
use hmac::Mac;

use crate::sorted_map::{
    StrMap, key_before, lemma_key_before_asymmetric, lemma_key_before_transitive,
};
use crate::text::{dec_pad, owned, push_char, push_chars, push_dec_pad, push_str};

verus! {

// ---------------------------------------------------------------- expiry

/// A token is refreshed this many seconds before it expires.
pub const REFRESH_BEFORE_SECS: u64 = 300;

/// An access token and its expiry (Unix seconds).
#[derive(Debug, Clone)]
pub struct TokenInfo {
    pub id: String,
    pub expire_time: u64,
}

/// Whether a token that expires at `expire_time` must be refreshed at `now`.
pub open spec fn expired_at(now: int, expire_time: int) -> bool {
    now + 300 >= expire_time
}

/// Seconds since the Unix epoch by the system clock (`UNIX_EPOCH.elapsed()`,
/// which reads `SystemTime::now()`), or 0 when the clock reads earlier than
/// the epoch. Nothing is stated of the value: it is the current time.
#[verifier::external_body]
fn unix_now_secs() -> u64 {
    match std::time::UNIX_EPOCH.elapsed() {
        Ok(d) => d.as_secs(),
        Err(_) => 0,
    }
}

// ---------------------------------------------------------------- random ids

/// A lowercase hexadecimal digit.
pub open spec fn is_lower_hex(c: char) -> bool {
    ('0' <= c && c <= '9') || ('a' <= c && c <= 'f')
}

/// The text of a random (version 4) UUID in hyphenated lowercase form:
/// `xxxxxxxx-xxxx-4xxx-Vxxx-xxxxxxxxxxxx` with `V` one of `8 9 a b`.
pub open spec fn uuid_v4_text(s: Seq<char>) -> bool {
    &&& s.len() == 36
    &&& forall|i: int|
        0 <= i < 36 ==> if i == 8 || i == 13 || i == 18 || i == 23 {
            #[trigger] s[i] == '-'
        } else {
            is_lower_hex(s[i])
        }
    &&& s[14] == '4'
    &&& (s[19] == '8' || s[19] == '9' || s[19] == 'a' || s[19] == 'b')
}

/// `uuid::Uuid::new_v4().to_string()`: a fresh random UUID, formatted
/// hyphenated in lowercase (its `Display`). The contract states that format,
/// with the version digit 4 and the RFC 4122 variant that `new_v4` sets; the
/// digits themselves are random.
#[verifier::external_body]
pub(crate) fn new_uuid_text() -> (s: String)
    ensures
        uuid_v4_text(s@),
{
    uuid::Uuid::new_v4().to_string()
}

/// `s` without its `-` characters.
pub open spec fn without_hyphens(s: Seq<char>) -> Seq<char>
    decreases s.len(),
{
    if s.len() == 0 {
        s
    } else if s.last() == '-' {
        without_hyphens(s.drop_last())
    } else {
        without_hyphens(s.drop_last()).push(s.last())
    }
}

/// Thirty-two lowercase hexadecimal digits.
pub open spec fn compact_id(s: Seq<char>) -> bool {
    s.len() == 32 && forall|i: int| 0 <= i < 32 ==> is_lower_hex(#[trigger] s[i])
}

proof fn lemma_without_hyphens_prefix(s: Seq<char>, k: int)
    requires
        uuid_v4_text(s),
        0 <= k <= 36,
    ensures
        without_hyphens(s.take(k)).len() == k - (if k > 23 { 4int } else if k > 18 { 3int } else if k > 13 { 2int } else if k > 8 { 1int } else { 0int }),
        forall|i: int| 0 <= i < without_hyphens(s.take(k)).len() ==> is_lower_hex(#[trigger] without_hyphens(s.take(k))[i]),
    decreases k,
{
    if k > 0 {
        lemma_without_hyphens_prefix(s, k - 1);
        assert(s.take(k).drop_last() =~= s.take(k - 1));
        assert(s.take(k).last() == s[k - 1]);
    }
}

/// The compact form of a UUID text: its characters without the hyphens.
pub fn compact_of(uuid_text: &str) -> (r: String)
    ensures
        r@ == without_hyphens(uuid_text@),
{
    let cs = crate::text::chars_of(uuid_text);
    let mut out = String::new();
    let mut i: usize = 0;
    while i < cs.len()
        invariant
            cs@ == uuid_text@,
            i <= cs@.len(),
            out@ == without_hyphens(uuid_text@.take(i as int)),
        decreases cs@.len() - i,
    {
        assert(uuid_text@.take(i + 1).drop_last() =~= uuid_text@.take(i as int));
        if cs[i] != '-' {
            push_char(&mut out, cs[i]);
        }
        i += 1;
    }
    assert(uuid_text@.take(cs@.len() as int) =~= uuid_text@);
    out
}

/// An id made from some v4 UUID by removing its hyphens.
pub open spec fn v4_compact_id(id: Seq<char>) -> bool {
    exists|u: Seq<char>| #[trigger] uuid_v4_text(u) && id == without_hyphens(u)
}

/// A fresh random id in the compact form the NLS protocol uses: a fresh v4
/// UUID with its hyphens removed (so 32 lowercase hexadecimal digits).
pub fn new_compact_id() -> (r: String)
    ensures
        v4_compact_id(r@),
        compact_id(r@),
{
    let u = new_uuid_text();
    let out = compact_of(u.as_str());
    proof {
        lemma_without_hyphens_prefix(u@, 36);
        assert(u@.take(36) =~= u@);
        assert(uuid_v4_text(u@));
    }
    out
}

impl TokenInfo {
    /// Whether the token is due for a refresh at the Unix time `now`.
    pub fn is_expired_at(&self, now: u64) -> (b: bool)
        ensures
            b == expired_at(now as int, self.expire_time as int),
    {
        now >= self.expire_time || self.expire_time - now <= REFRESH_BEFORE_SECS
    }

    /// Whether the token is due for a refresh now (by the system clock).
    pub fn is_expired(&self) -> (b: bool)
        ensures
            self.expire_time <= 300 ==> b,
            exists|now: u64| b == #[trigger] expired_at(now as int, self.expire_time as int),
    {
        let now = unix_now_secs();
        let b = self.is_expired_at(now);
        assert(b == expired_at(now as int, self.expire_time as int));
        b
    }
}

// ---------------------------------------------------------------- percent encoding

/// RFC 3986 unreserved bytes: `A-Z a-z 0-9 - _ . ~`.
pub open spec fn is_unreserved(b: u8) -> bool {
    (65 <= b <= 90) || (97 <= b <= 122) || (48 <= b <= 57) || b == 45 || b == 95 || b == 46
        || b == 126
}

/// Upper-case hexadecimal digit of `d < 16`.
pub open spec fn hex_upper(d: int) -> char {
    if d < 10 {
        (48 + d) as char
    } else {
        (55 + d) as char
    }
}

/// One byte percent-encoded: itself when unreserved, else `%XX`.
pub open spec fn pct_byte(b: u8) -> Seq<char> {
    if is_unreserved(b) {
        seq![b as char]
    } else {
        seq!['%', hex_upper(b as int / 16), hex_upper(b as int % 16)]
    }
}

/// Percent-encoding of a byte string.
pub open spec fn pct_encode(bs: Seq<u8>) -> Seq<char>
    decreases bs.len(),
{
    if bs.len() == 0 {
        Seq::empty()
    } else {
        pct_encode(bs.drop_last()) + pct_byte(bs.last())
    }
}

fn hex_digit(d: u8) -> (c: char)
    requires
        d < 16,
    ensures
        c == hex_upper(d as int),
{
    if d < 10 {
        (d + 48) as char
    } else {
        (d + 55) as char
    }
}

/// Appends the percent-encoding of `bytes`.
fn push_pct(out: &mut String, bytes: &[u8])
    ensures
        final(out)@ == old(out)@ + pct_encode(bytes@),
{
    let mut i: usize = 0;
    while i < bytes.len()
        invariant
            i <= bytes.len(),
            out@ == old(out)@ + pct_encode(bytes@.subrange(0, i as int)),
        decreases bytes.len() - i,
    {
        let b = bytes[i];
        let ghost before = out@;
        if (b >= 65 && b <= 90) || (b >= 97 && b <= 122) || (b >= 48 && b <= 57) || b == 45
            || b == 95 || b == 46 || b == 126 {
            push_char(out, b as char);
        } else {
            push_char(out, '%');
            push_char(out, hex_digit(b / 16));
            push_char(out, hex_digit(b % 16));
        }
        assert(out@ == before + pct_byte(b));
        assert(bytes@.subrange(0, i + 1).drop_last() == bytes@.subrange(0, i as int));
        i += 1;
    }
    assert(bytes@.subrange(0, bytes.len() as int) == bytes@);
}

/// Percent-encodes the UTF-8 bytes of `s` (unreserved bytes stay, the rest
/// become `%XX` in upper-case hex).
pub fn percent_encode(s: &str) -> (r: String)
    ensures
        r@ == pct_encode(encode_utf8(s@)),
{
    let mut out = String::new();
    push_pct(&mut out, s.as_bytes());
    out
}

// ---------------------------------------------------------------- base64 and HMAC

/// Character of a six-bit value in the standard base64 alphabet.
pub open spec fn b64_char(v: int) -> char {
    if v < 26 {
        (65 + v) as char
    } else if v < 52 {
        (71 + v) as char
    } else if v < 62 {
        (v - 4) as char
    } else if v == 62 {
        '+'
    } else {
        '/'
    }
}

/// Standard base64 with `=` padding (RFC 4648, section 4).
pub open spec fn base64_spec(bs: Seq<u8>) -> Seq<char>
    decreases bs.len(),
{
    if bs.len() == 0 {
        Seq::empty()
    } else if bs.len() == 1 {
        seq![b64_char(bs[0] as int / 4), b64_char((bs[0] as int % 4) * 16), '=', '=']
    } else if bs.len() == 2 {
        seq![
            b64_char(bs[0] as int / 4),
            b64_char((bs[0] as int % 4) * 16 + bs[1] as int / 16),
            b64_char((bs[1] as int % 16) * 4),
            '=',
        ]
    } else {
        seq![
            b64_char(bs[0] as int / 4),
            b64_char((bs[0] as int % 4) * 16 + bs[1] as int / 16),
            b64_char((bs[1] as int % 16) * 4 + bs[2] as int / 64),
            b64_char(bs[2] as int % 64),
        ] + base64_spec(bs.subrange(3, bs.len() as int))
    }
}

/// `base64::engine::general_purpose::STANDARD.encode`: the standard alphabet
/// with padding. The crate first computes the output length (`encoded_len`:
/// four characters per started group of three bytes, with checked
/// arithmetic) and panics when it overflows `usize`; below half of
/// `usize::MAX` input bytes it cannot.
#[verifier::external_body]
fn base64_encode(bytes: &[u8]) -> (r: String)
    requires
        bytes@.len() <= usize::MAX / 2,
    ensures
        r@ == base64_spec(bytes@),
{
    base64::engine::general_purpose::STANDARD.encode(bytes)
}

/// HMAC-SHA1 (RFC 2104) of `data` under `key`.
pub uninterp spec fn hmac_sha1(key: Seq<u8>, data: Seq<u8>) -> Seq<u8>;

/// HMAC-SHA1 through the `hmac` and `sha1` crates (`Hmac::<Sha1>` keyed with
/// `new_from_slice`, which accepts keys of any length, then `update` and
/// `finalize`). The tag is named, not stated; its length is SHA-1's 20 bytes.
#[verifier::external_body]
fn hmac_sha1_tag(key: &[u8], data: &[u8]) -> (tag: Vec<u8>)
    ensures
        tag@ == hmac_sha1(key@, data@),
        tag@.len() == 20,
{
    let mut mac = hmac::Hmac::<sha1::Sha1>::new_from_slice(key).expect("HMAC takes keys of any length");
    mac.update(data);
    mac.finalize().into_bytes().to_vec()
}

/// The request signature: base64 of HMAC-SHA1 over the UTF-8 bytes.
pub open spec fn signature_spec(key: Seq<char>, data: Seq<char>) -> Seq<char> {
    base64_spec(hmac_sha1(encode_utf8(key), encode_utf8(data)))
}

/// Signs `data` with `key`: base64 of the HMAC-SHA1 tag.
pub fn sign_hmac_sha1(key: &str, data: &str) -> (sig: String)
    ensures
        sig@ == signature_spec(key@, data@),
{
    let tag = hmac_sha1_tag(key.as_bytes(), data.as_bytes());
    base64_encode(tag.as_slice())
}

/// `name=value`, both percent-encoded: one pair of the canonical query.
pub open spec fn encoded_pair(e: (Seq<char>, Seq<char>)) -> Seq<char> {
    pct_encode(encode_utf8(e.0)) + seq!['='] + pct_encode(encode_utf8(e.1))
}

/// `name=value` with only the value percent-encoded: one pair of the URL.
pub open spec fn url_pair(e: (Seq<char>, Seq<char>)) -> Seq<char> {
    e.0 + seq!['='] + pct_encode(encode_utf8(e.1))
}

/// The canonical query: encoded pairs in order, joined by `&`.
pub open spec fn canonical_query(s: Seq<(Seq<char>, Seq<char>)>) -> Seq<char>
    decreases s.len(),
{
    if s.len() == 0 {
        Seq::empty()
    } else if s.len() == 1 {
        encoded_pair(s[0])
    } else {
        canonical_query(s.drop_last()) + seq!['&'] + encoded_pair(s.last())
    }
}

/// The URL query: URL pairs in order, joined by `&`.
pub open spec fn url_query(s: Seq<(Seq<char>, Seq<char>)>) -> Seq<char>
    decreases s.len(),
{
    if s.len() == 0 {
        Seq::empty()
    } else if s.len() == 1 {
        url_pair(s[0])
    } else {
        url_query(s.drop_last()) + seq!['&'] + url_pair(s.last())
    }
}

/// The canonical query string: `name=value` pairs in name order, both
/// sides percent-encoded, joined by `&`.
pub fn build_canonical_query(params: &StrMap) -> (r: String)
    ensures
        r@ == canonical_query(params@),
{
    let mut out = String::new();
    let mut i: usize = 0;
    while i < params.len()
        invariant
            i <= params@.len(),
            out@ == canonical_query(params@.subrange(0, i as int)),
        decreases params@.len() - i,
    {
        let ghost before = out@;
        if i > 0 {
            push_char(&mut out, '&');
        }
        push_pct(&mut out, params.entry(i).0.as_bytes());
        push_char(&mut out, '=');
        push_pct(&mut out, params.entry(i).1.as_bytes());
        proof {
            let sub = params@.subrange(0, i + 1);
            assert(sub.drop_last() =~= params@.subrange(0, i as int));
            assert(sub.last() == params@[i as int]);
            if i == 0 {
                assert(out@ =~= encoded_pair(sub[0]));
            } else {
                assert(out@ =~= before + seq!['&'] + encoded_pair(sub.last()));
            }
        }
        i += 1;
    }
    assert(params@.subrange(0, params@.len() as int) =~= params@);
    out
}

/// The query string of the request URL: `name=value` pairs in name order,
/// values percent-encoded, joined by `&`.
pub fn url_query_string(params: &StrMap) -> (r: String)
    ensures
        r@ == url_query(params@),
{
    let mut out = String::new();
    let mut i: usize = 0;
    while i < params.len()
        invariant
            i <= params@.len(),
            out@ == url_query(params@.subrange(0, i as int)),
        decreases params@.len() - i,
    {
        let ghost before = out@;
        if i > 0 {
            push_char(&mut out, '&');
        }
        push_str(&mut out, params.entry(i).0);
        push_char(&mut out, '=');
        push_pct(&mut out, params.entry(i).1.as_bytes());
        proof {
            let sub = params@.subrange(0, i + 1);
            assert(sub.drop_last() =~= params@.subrange(0, i as int));
            assert(sub.last() == params@[i as int]);
            if i == 0 {
                assert(out@ =~= url_pair(sub[0]));
            } else {
                assert(out@ =~= before + seq!['&'] + url_pair(sub.last()));
            }
        }
        i += 1;
    }
    assert(params@.subrange(0, params@.len() as int) =~= params@);
    out
}


// ---------------------------------------------------------------- calendar

pub open spec fn is_leap(y: int) -> bool {
    (y % 4 == 0 && y % 100 != 0) || y % 400 == 0
}

pub open spec fn year_length(y: int) -> int {
    if is_leap(y) {
        366
    } else {
        365
    }
}

pub open spec fn month_length(y: int, m: int) -> int {
    if m == 2 {
        if is_leap(y) {
            29
        } else {
            28
        }
    } else if m == 4 || m == 6 || m == 9 || m == 11 {
        30
    } else {
        31
    }
}

/// The year that day `days` (counted from the start of `year`) falls in, and
/// the day's index within it.
pub open spec fn year_of(days: int, year: int) -> (int, int)
    decreases days,
{
    if days < year_length(year) {
        (year, days)
    } else {
        year_of(days - year_length(year), year + 1)
    }
}

/// Month and day of month of day index `doy` of `year`, counting months from `month`.
pub open spec fn month_of(doy: int, year: int, month: int) -> (int, int)
    decreases 13 - month,
{
    if month > 12 || doy < month_length(year, month) {
        (month, doy + 1)
    } else {
        month_of(doy - month_length(year, month), year, month + 1)
    }
}

/// The (year, month, day) of a day count since 1970-01-01 (proleptic Gregorian).
pub open spec fn civil_from_days(days: int) -> (int, int, int) {
    let (y, doy) = year_of(days, 1970);
    let (m, d) = month_of(doy, y, 1);
    (y, m, d)
}

/// Days in the years `from..to`.
pub open spec fn days_between(from: int, to: int) -> int
    decreases to - from,
{
    if to <= from {
        0
    } else {
        year_length(from) + days_between(from + 1, to)
    }
}

/// Days in the months `from..to` of year `y`.
pub open spec fn days_in_months(y: int, from: int, to: int) -> int
    decreases to - from,
{
    if to <= from {
        0
    } else {
        month_length(y, from) + days_in_months(y, from + 1, to)
    }
}

proof fn lemma_year_of(days: int, y: int)
    requires
        days >= 0,
    ensures
        y <= year_of(days, y).0,
        0 <= year_of(days, y).1 < year_length(year_of(days, y).0),
        days_between(y, year_of(days, y).0) + year_of(days, y).1 == days,
    decreases days,
{
    if days >= year_length(y) {
        lemma_year_of(days - year_length(y), y + 1);
    }
}

proof fn lemma_month_of(doy: int, y: int, k: int)
    requires
        1 <= k <= 12,
        0 <= doy < days_in_months(y, k, 13),
    ensures
        k <= month_of(doy, y, k).0 <= 12,
        1 <= month_of(doy, y, k).1 <= month_length(y, month_of(doy, y, k).0),
        days_in_months(y, k, month_of(doy, y, k).0) + month_of(doy, y, k).1 - 1 == doy,
    decreases 13 - k,
{
    if doy >= month_length(y, k) {
        if k == 12 {
            assert(days_in_months(y, 13, 13) == 0);
        }
        lemma_month_of(doy - month_length(y, k), y, k + 1);
    }
}

/// Every day count since 1970-01-01 names a real date (month 1 to 12, day
/// within the month), and counting the days before that date gives the
/// count back.
pub proof fn lemma_civil_from_days(days: int)
    requires
        days >= 0,
    ensures
        1970 <= civil_from_days(days).0,
        1 <= civil_from_days(days).1 <= 12,
        1 <= civil_from_days(days).2 <= month_length(civil_from_days(days).0, civil_from_days(days).1),
        days_between(1970, civil_from_days(days).0) + days_in_months(
            civil_from_days(days).0,
            1,
            civil_from_days(days).1,
        ) + civil_from_days(days).2 - 1 == days,
{
    lemma_year_of(days, 1970);
    let (y, doy) = year_of(days, 1970);
    assert(days_in_months(y, 1, 13) == year_length(y)) by {
        reveal_with_fuel(days_in_months, 13);
    }
    lemma_month_of(doy, y, 1);
}

fn leap_year(y: u64) -> (b: bool)
    ensures
        b == is_leap(y as int),
{
    (y % 4 == 0 && y % 100 != 0) || y % 400 == 0
}

fn month_days(y: u64, m: u64) -> (n: u64)
    ensures
        n == month_length(y as int, m as int),
{
    if m == 2 {
        if leap_year(y) {
            29
        } else {
            28
        }
    } else if m == 4 || m == 6 || m == 9 || m == 11 {
        30
    } else {
        31
    }
}

/// Converts a day count since 1970-01-01 into (year, month, day).
pub fn days_to_ymd(days: u64) -> (r: (u64, u64, u64))
    ensures
        (r.0 as int, r.1 as int, r.2 as int) == civil_from_days(days as int),
{
    let mut d: u64 = days;
    let mut year: u64 = 1970;
    loop
        invariant
            d <= days,
            1970 <= year,
            (year - 1970) * 365 <= days - d,
            year_of(days as int, 1970) == year_of(d as int, year as int),
        ensures
            year_of(days as int, 1970) == (year as int, d as int),
            d < 366,
        decreases d,
    {
        let yd: u64 = if leap_year(year) {
            366
        } else {
            365
        };
        if d < yd {
            break;
        }
        d -= yd;
        year += 1;
    }
    let ghost doy = d;
    let mut month: u64 = 1;
    while month <= 12
        invariant
            1 <= month <= 13,
            d <= doy,
            doy < 366,
            month_of(doy as int, year as int, 1) == month_of(d as int, year as int, month as int),
        ensures
            month_of(doy as int, year as int, 1) == (month as int, d + 1),
            d < 366,
        decreases 13 - month,
    {
        let ml = month_days(year, month);
        if d < ml {
            break;
        }
        d -= ml;
        month += 1;
    }
    (year, month, d + 1)
}

/// The ISO-8601 UTC form `YYYY-MM-DDTHH:MM:SSZ` of a Unix time.
pub open spec fn iso8601_spec(secs: int) -> Seq<char> {
    let (y, m, d) = civil_from_days(secs / 86400);
    dec_pad(y as nat, 4) + seq!['-'] + dec_pad(m as nat, 2) + seq!['-'] + dec_pad(d as nat, 2)
        + seq!['T'] + dec_pad(((secs / 3600) % 24) as nat, 2) + seq![':'] + dec_pad(
        ((secs / 60) % 60) as nat,
        2,
    ) + seq![':'] + dec_pad((secs % 60) as nat, 2) + seq!['Z']
}

/// Formats a Unix time as ISO-8601 UTC (`YYYY-MM-DDTHH:MM:SSZ`).
pub fn time_to_iso8601(unix_secs: u64) -> (r: String)
    ensures
        r@ == iso8601_spec(unix_secs as int),
{
    let sec = unix_secs % 60;
    let min = (unix_secs / 60) % 60;
    let hour = (unix_secs / 3600) % 24;
    let days = unix_secs / 86400;
    let (year, month, day) = days_to_ymd(days);
    let mut out = String::new();
    push_dec_pad(&mut out, year, 4);
    push_char(&mut out, '-');
    push_dec_pad(&mut out, month, 2);
    push_char(&mut out, '-');
    push_dec_pad(&mut out, day, 2);
    push_char(&mut out, 'T');
    push_dec_pad(&mut out, hour, 2);
    push_char(&mut out, ':');
    push_dec_pad(&mut out, min, 2);
    push_char(&mut out, ':');
    push_dec_pad(&mut out, sec, 2);
    push_char(&mut out, 'Z');
    assert(out@ =~= iso8601_spec(unix_secs as int));
    out
}

// ---------------------------------------------------------------- token manager

/// The `CreateToken` parameters before signing, in name order.
pub open spec fn token_params(id: Seq<char>, nonce: Seq<char>, timestamp: Seq<char>) -> Seq<(Seq<char>, Seq<char>)> {
    seq![
        ("AccessKeyId"@, id),
        ("Action"@, "CreateToken"@),
        ("Format"@, "JSON"@),
        ("RegionId"@, "cn-shanghai"@),
        ("SignatureMethod"@, "HMAC-SHA1"@),
        ("SignatureNonce"@, nonce),
        ("SignatureVersion"@, "1.0"@),
        ("Timestamp"@, timestamp),
        ("Version"@, "2019-02-28"@),
    ]
}

/// The string that is signed: method, encoded path and encoded canonical query.
pub open spec fn string_to_sign(canonical: Seq<char>) -> Seq<char> {
    "GET&"@ + pct_encode(encode_utf8("/"@)) + "&"@ + pct_encode(encode_utf8(canonical))
}

/// The signed `CreateToken` request URL for the given key pair, nonce and
/// timestamp (ISO-8601 text).
pub open spec fn token_request_url(
    id: Seq<char>,
    secret: Seq<char>,
    nonce: Seq<char>,
    timestamp: Seq<char>,
) -> Seq<char> {
    let params = token_params(id, nonce, timestamp);
    let sig = signature_spec(secret + "&"@, string_to_sign(canonical_query(params)));
    "http://nls-meta.cn-shanghai.aliyuncs.com/"@ + "?"@ + url_query(params.insert(4, ("Signature"@, sig)))
}

proof fn lemma_token_keys_ordered()
    ensures
        key_before("AccessKeyId"@, "Action"@),
        key_before("Action"@, "Format"@),
        key_before("Format"@, "RegionId"@),
        key_before("RegionId"@, "Signature"@),
        key_before("RegionId"@, "SignatureMethod"@),
        key_before("Signature"@, "SignatureMethod"@),
        key_before("SignatureMethod"@, "SignatureNonce"@),
        key_before("SignatureNonce"@, "SignatureVersion"@),
        key_before("SignatureVersion"@, "Timestamp"@),
        key_before("Timestamp"@, "Version"@),
{
    reveal_strlit("AccessKeyId");
    reveal_strlit("Action");
    reveal_strlit("Format");
    reveal_strlit("RegionId");
    reveal_strlit("Signature");
    reveal_strlit("SignatureMethod");
    reveal_strlit("SignatureNonce");
    reveal_strlit("SignatureVersion");
    reveal_strlit("Timestamp");
    reveal_strlit("Version");
    reveal_with_fuel(key_before, 12);
}


/// Obtains and caches Aliyun NLS tokens for one AccessKey pair.
pub struct TokenManager {
    access_key_id: String,
    access_key_secret: String,
    cached: Option<TokenInfo>,
}

impl TokenManager {
    pub closed spec fn key_id(&self) -> Seq<char> {
        self.access_key_id@
    }

    pub closed spec fn key_secret(&self) -> Seq<char> {
        self.access_key_secret@
    }

    /// The cached token, as (id, expiry).
    pub closed spec fn cached_spec(&self) -> Option<(Seq<char>, u64)> {
        match self.cached {
            Some(t) => Some((t.id@, t.expire_time)),
            None => None,
        }
    }

    pub fn new(access_key_id: &str, access_key_secret: &str) -> (m: Self)
        ensures
            m.key_id() == access_key_id@,
            m.key_secret() == access_key_secret@,
            m.cached_spec() is None,
    {
        TokenManager {
            access_key_id: owned(access_key_id),
            access_key_secret: owned(access_key_secret),
            cached: None,
        }
    }

    /// The cached token id when it is still good at Unix time `now`.
    pub fn cached_token(&self, now: u64) -> (r: Option<String>)
        ensures
            match self.cached_spec() {
                Some((id, exp)) => if expired_at(now as int, exp as int) {
                    r is None
                } else {
                    r is Some && r->0@ == id
                },
                None => r is None,
            },
    {
        match &self.cached {
            Some(t) => {
                if t.is_expired_at(now) {
                    None
                } else {
                    Some(owned(t.id.as_str()))
                }
            },
            None => None,
        }
    }

    /// Caches a freshly obtained token.
    pub fn store(&mut self, info: TokenInfo)
        ensures
            final(self).cached_spec() == Some((info.id@, info.expire_time)),
            final(self).key_id() == old(self).key_id(),
            final(self).key_secret() == old(self).key_secret(),
    {
        self.cached = Some(info);
    }

    /// The signed `CreateToken` request URL for a request made now: stamped
    /// with the system clock and a fresh random v4 UUID as nonce.
    pub fn signed_request_url(&self) -> (url: String)
        ensures
            exists|t: u64, nonce: Seq<char>|
                #![trigger token_request_url(self.key_id(), self.key_secret(), nonce, iso8601_spec(t as int))]
                uuid_v4_text(nonce) && url@ == token_request_url(self.key_id(), self.key_secret(), nonce, iso8601_spec(t as int)),
    {
        let now = unix_now_secs();
        let nonce = new_uuid_text();
        self.request_url(now, nonce.as_str())
    }

    /// The signed `CreateToken` request URL, for a request made at Unix time
    /// `timestamp_secs` with the random `nonce`.
    pub fn request_url(&self, timestamp_secs: u64, nonce: &str) -> (url: String)
        ensures
            url@ == token_request_url(self.key_id(), self.key_secret(), nonce@, iso8601_spec(timestamp_secs as int)),
    {
        let timestamp = time_to_iso8601(timestamp_secs);
        proof {
            lemma_token_keys_ordered();
        }
        let mut params = StrMap::new();
        params.push_last("AccessKeyId", self.access_key_id.as_str());
        params.push_last("Action", "CreateToken");
        params.push_last("Format", "JSON");
        params.push_last("RegionId", "cn-shanghai");
        params.push_last("SignatureMethod", "HMAC-SHA1");
        params.push_last("SignatureNonce", nonce);
        params.push_last("SignatureVersion", "1.0");
        params.push_last("Timestamp", timestamp.as_str());
        params.push_last("Version", "2019-02-28");
        let ghost unsigned = params@;
        assert(unsigned =~= token_params(self.key_id(), nonce@, timestamp@));
        let canonical = build_canonical_query(&params);
        let mut to_sign = owned("GET&");
        let slash = percent_encode("/");
        push_str(&mut to_sign, slash.as_str());
        push_str(&mut to_sign, "&");
        let enc = percent_encode(canonical.as_str());
        push_str(&mut to_sign, enc.as_str());
        let mut key = owned(self.access_key_secret.as_str());
        push_str(&mut key, "&");
        let sig = sign_hmac_sha1(key.as_str(), to_sign.as_str());
        let p = params.insert("Signature", sig.as_str());
        proof {
            assert(key_before(unsigned[3].0, "Signature"@));
            assert(key_before("Signature"@, unsigned[4].0));
            if p < 4 {
                assert(key_before(unsigned[p as int].0, unsigned[3].0) || p == 3);
                if p < 3 {
                    lemma_key_before_transitive(unsigned[p as int].0, unsigned[3].0, "Signature"@);
                }
                lemma_key_before_asymmetric(unsigned[p as int].0, "Signature"@);
            }
            if p > 4 {
                assert(key_before(unsigned[4].0, "Signature"@));
                lemma_key_before_asymmetric(unsigned[4].0, "Signature"@);
            }
            assert(p == 4);
            lemma_key_before_asymmetric("Signature"@, unsigned[4].0);
        }
        let mut url = owned("http://nls-meta.cn-shanghai.aliyuncs.com/");
        push_str(&mut url, "?");
        let q = url_query_string(&params);
        push_str(&mut url, q.as_str());
        url
    }
}

} // verus!
