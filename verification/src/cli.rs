//! Command-line vocabulary and the text work behind a few commands: session
//! sub-command resolution, log tails and timestamp display.
//!
//! Parsing the command line itself happens outside the library.
use vstd::prelude::*;

use crate::asr::{engine_by_name, product_models, EngineKind};
use crate::webhook::{dot_fields, dot_pieces};
use crate::text::{
    all_digits, chars_range, digits_value, is_digit_spec, parse_u64, parse_u64_spec, string_of, non_empty_pieces, ascii_lower_chars, chars_are, lower_seq, trim, trimmed_chars, ends_with, starts_with, occurs_at,
    chars_of, dec_pad, dec_signed, fields, lemma_fields_len, lemma_take_step, owned, push_char,
    push_chars, push_dec_pad, push_dec_signed,
};

verus! {

// ---------------------------------------------------------------- arguments

/// `models` sub-commands.
#[derive(Debug, Clone)]
pub enum ModelsAction {
    /// Product models and their install state.
    List,
    /// Download / install an engine (qwen3-asr / whisper-*-metal / punct).
    Download { engine: String },
    /// Remove an installed model directory (needs `yes`).
    Remove { engine: String, yes: bool },
    /// Probe the GPU and the current ASR route.
    Gpu,
}

#[derive(Debug)]
pub struct ModelsArgs {
    pub command: ModelsAction,
}

/// `config` sub-commands.
#[derive(Debug, Clone)]
pub enum ConfigAction {
    /// Print the config file and data directory paths.
    Path,
    /// Read the configuration (all of it without a path; secrets masked).
    Get { path: Option<String> },
    /// Write one setting and save it.
    SetValue { path: String, value: String },
}

#[derive(Debug)]
pub struct ConfigArgs {
    pub command: ConfigAction,
}

/// Export formats of `session export`.
#[derive(Clone, Copy, Debug, PartialEq, Eq, Structural)]
pub enum ExportFormat {
    Md,
    Txt,
    Audio,
}

pub open spec fn export_name_spec(f: ExportFormat) -> Seq<char> {
    match f {
        ExportFormat::Md => "md"@,
        ExportFormat::Txt => "txt"@,
        ExportFormat::Audio => "audio"@,
    }
}

pub open spec fn export_ext_spec(f: ExportFormat) -> Seq<char> {
    match f {
        ExportFormat::Md => "md"@,
        ExportFormat::Txt => "txt"@,
        ExportFormat::Audio => "wav"@,
    }
}

impl ExportFormat {
    pub fn as_str(self) -> (r: &'static str)
        ensures
            r@ == export_name_spec(self),
    {
        match self {
            ExportFormat::Md => "md",
            ExportFormat::Txt => "txt",
            ExportFormat::Audio => "audio",
        }
    }

    /// File extension of the exported file.
    pub fn ext(self) -> (r: &'static str)
        ensures
            r@ == export_ext_spec(self),
    {
        match self {
            ExportFormat::Md => "md",
            ExportFormat::Txt => "txt",
            ExportFormat::Audio => "wav",
        }
    }
}

/// `session` sub-commands.
#[derive(Debug, Clone)]
pub enum SessionAction {
    /// Recent sessions.
    List { limit: u32 },
    /// A session's transcript and suspected duplicate segments.
    Show { id: i64, dup_only: bool },
    /// Search transcripts across sessions.
    Search { query: String, limit: u32 },
    Rename { id: i64, title: String },
    /// Delete a session's records (needs `yes`).
    Delete { id: i64, yes: bool },
    /// Export a session (the latest one without an id).
    Export { id: Option<i64>, format: ExportFormat, output: Option<String> },
    /// Minutes from a template.
    Notes { id: i64, template: String },
    /// Three-part summary (overview / key points / action items).
    Trio { id: i64, name: Option<String>, desc: Option<String> },
    /// Transcribe a session's recording again, as a new session.
    Replay { id: i64, engine: Option<String> },
}

/// `session` arguments: a sub-command, or the older `session <id>` form.
#[derive(Debug)]
pub struct SessionArgs {
    pub command: Option<SessionAction>,
    pub id: Option<i64>,
    pub dup_only: bool,
}

impl SessionArgs {
    /// The sub-command; `session <id>` alone means `show <id>`.
    pub fn resolve(self) -> (r: Result<SessionAction, String>)
        ensures
            match self.command {
                Some(cmd) => r == Ok::<SessionAction, String>(cmd),
                None => match self.id {
                    Some(id) => r == Ok::<SessionAction, String>(SessionAction::Show { id, dup_only: self.dup_only }),
                    None => r is Err && r->Err_0@ == "请指定子命令（list / show / search / rename / delete / export / notes / trio / replay）或会话 id"@,
                },
            },
    {
        match self.command {
            Some(cmd) => Ok(cmd),
            None => match self.id {
                Some(id) => Ok(SessionAction::Show { id, dup_only: self.dup_only }),
                None => Err(owned("请指定子命令（list / show / search / rename / delete / export / notes / trio / replay）或会话 id")),
            },
        }
    }
}

// ---------------------------------------------------------------- log tails

pub open spec fn newline_fn() -> spec_fn(char) -> bool {
    |c: char| c == '\n'
}

/// A line without the `\r` of a `\r\n` ending.
pub open spec fn strip_cr(l: Seq<char>) -> Seq<char> {
    if l.len() > 0 && l.last() == '\r' {
        l.drop_last()
    } else {
        l
    }
}

/// The lines of a text (`str::lines`): split at `\n` (a `\r` before it is
/// dropped), the final line ending optional.
pub open spec fn lines_spec(s: Seq<char>) -> Seq<Seq<char>> {
    let f = fields(s, newline_fn());
    let body = f.drop_last().map_values(|l: Seq<char>| strip_cr(l));
    if f.last().len() == 0 {
        body
    } else {
        body.push(f.last())
    }
}

/// Lines joined with `\n`.
pub open spec fn join_lines(ls: Seq<Seq<char>>) -> Seq<char>
    decreases ls.len(),
{
    if ls.len() == 0 {
        Seq::empty()
    } else if ls.len() == 1 {
        ls[0]
    } else {
        join_lines(ls.drop_last()) + seq!['\n'] + ls.last()
    }
}

/// The last `n` lines of a text, joined with `\n`.
pub open spec fn tail_lines_spec(content: Seq<char>, n: int) -> Seq<char> {
    if n == 0 {
        Seq::empty()
    } else {
        let ls = lines_spec(content);
        let start = if ls.len() > n {
            ls.len() - n
        } else {
            0
        };
        join_lines(ls.subrange(start, ls.len() as int))
    }
}

fn strip_cr_chars(l: &[char]) -> (r: Vec<char>)
    ensures
        r@ == strip_cr(l@),
{
    let end = if l.len() > 0 && l[l.len() - 1] == '\r' {
        l.len() - 1
    } else {
        l.len()
    };
    let r = crate::text::chars_range(l, 0, end);
    assert(r@ =~= strip_cr(l@));
    r
}

/// The lines of `s` (`str::lines`).
pub fn lines_of(s: &str) -> (ls: Vec<Vec<char>>)
    ensures
        ls@.map_values(|v: Vec<char>| v@) == lines_spec(s@),
{
    let t = chars_of(s);
    lines_of_chars(t.as_slice())
}

/// The lines of a text given as characters.
pub fn lines_of_chars(t: &[char]) -> (ls: Vec<Vec<char>>)
    ensures
        ls@.map_values(|v: Vec<char>| v@) == lines_spec(t@),
{
    let ghost sep = newline_fn();
    let mut done: Vec<Vec<char>> = Vec::new();
    let mut cur: Vec<char> = Vec::new();
    let mut i: usize = 0;
    proof {
        assert(t@.take(0) =~= Seq::<char>::empty());
        assert(fields(Seq::<char>::empty(), sep).drop_last() =~= Seq::<Seq<char>>::empty());
        assert(Seq::<Seq<char>>::empty().map_values(|l: Seq<char>| strip_cr(l)) =~= Seq::<Seq<char>>::empty());
    }
    while i < t.len()
        invariant
            i <= t.len(),
            sep == newline_fn(),
            fields(t@.take(i as int), sep).len() >= 1,
            done@.map_values(|v: Vec<char>| v@) == fields(t@.take(i as int), sep).drop_last().map_values(
                |l: Seq<char>| strip_cr(l),
            ),
            cur@ == fields(t@.take(i as int), sep).last(),
        decreases t.len() - i,
    {
        proof {
            lemma_take_step(t@, i as int);
            lemma_fields_len(t@.take(i as int), sep);
        }
        let ghost f = fields(t@.take(i as int), sep);
        if t[i] == '\n' {
            let line = strip_cr_chars(cur.as_slice());
            let ghost before = done@.map_values(|v: Vec<char>| v@);
            done.push(line);
            cur = Vec::new();
            proof {
                let x = t@.take(i + 1);
                assert(x.drop_last() == t@.take(i as int));
                assert(sep(x.last()));
                let g = fields(x, sep);
                assert(g == f.push(Seq::<char>::empty()));
                assert(g.drop_last() =~= f);
                assert(f == f.drop_last().push(f.last()));
                assert(done@.map_values(|v: Vec<char>| v@) =~= before.push(strip_cr(f.last())));
                assert(f.map_values(|l: Seq<char>| strip_cr(l)) =~= f.drop_last().map_values(
                    |l: Seq<char>| strip_cr(l),
                ).push(strip_cr(f.last())));
            }
        } else {
            cur.push(t[i]);
            proof {
                let x = t@.take(i + 1);
                assert(x.drop_last() == t@.take(i as int));
                assert(!sep(x.last()));
                let g = fields(x, sep);
                assert(g == f.update(f.len() - 1, f.last().push(t@[i as int])));
                assert(g.drop_last() =~= f.drop_last());
            }
        }
        i += 1;
    }
    proof {
        assert(t@.take(t.len() as int) == t@);
    }
    if cur.len() > 0 {
        let ghost before = done@.map_values(|v: Vec<char>| v@);
        done.push(cur);
        assert(done@.map_values(|v: Vec<char>| v@) =~= before.push(fields(t@, newline_fn()).last()));
    }
    done
}

/// The last `n` lines of `content`, joined with `\n` (all of them when there
/// are fewer; nothing when `n` is 0).
pub fn tail_lines(content: &str, n: usize) -> (r: String)
    ensures
        r@ == tail_lines_spec(content@, n as int),
{
    if n == 0 {
        return String::new();
    }
    let ls = lines_of(content);
    let ghost lv = ls@.map_values(|v: Vec<char>| v@);
    let start: usize = if ls.len() > n {
        ls.len() - n
    } else {
        0
    };
    let mut out = String::new();
    let mut k: usize = start;
    while k < ls.len()
        invariant
            start <= k <= ls.len(),
            lv == ls@.map_values(|v: Vec<char>| v@),
            out@ == join_lines(lv.subrange(start as int, k as int)),
        decreases ls.len() - k,
    {
        let ghost before = out@;
        if k > start {
            push_char(&mut out, '\n');
        }
        push_chars(&mut out, ls[k].as_slice());
        proof {
            let sub = lv.subrange(start as int, k + 1);
            assert(sub.drop_last() =~= lv.subrange(start as int, k as int));
            assert(sub.last() == lv[k as int]);
            if k == start {
                assert(out@ =~= sub[0]);
            } else {
                assert(out@ =~= before + seq!['\n'] + sub.last());
            }
        }
        k += 1;
    }
    out
}

// ---------------------------------------------------------------- timestamps

/// The fields (year, month, day, hour, minute, second) the session list shows
/// for a non-negative Unix time, by the day-count formula it uses (days are
/// shifted by 719162 and converted with the March-based era formula).
pub open spec fn listed_time_fields(secs: int) -> (int, int, int, int, int, int) {
    let st = secs % 86400;
    let h = st / 3600;
    let mi = (st % 3600) / 60;
    let se = st % 60;
    let days = secs / 86400;
    let z = days + 719162;
    let era = z / 146097;
    let doe = z - era * 146097;
    let yoe = (doe - doe / 1460 + doe / 36524 - doe / 146096) / 365;
    let y = yoe + era * 400;
    let doy = doe - (365 * yoe + yoe / 4 - yoe / 100);
    let mp = (5 * doy + 2) / 153;
    let d = doy - (153 * mp + 2) / 5 + 1;
    let mo = if mp < 10 {
        mp + 3
    } else {
        mp - 9
    };
    let y2 = if mo <= 2 {
        y + 1
    } else {
        y
    };
    (y2, mo, d, h, mi, se)
}

/// `{:0width$}` of a signed number: the sign, then the digits zero-padded so
/// that sign and digits fill `width`.
pub open spec fn pad_signed(n: int, width: nat) -> Seq<char> {
    if n < 0 {
        seq!['-'] + dec_pad((-n) as nat, if width > 0 {
            (width - 1) as nat
        } else {
            0
        })
    } else {
        dec_pad(n as nat, width)
    }
}

/// `YYYY-MM-DD HH:MM:SS` of the fields above; negative times print as the number.
pub open spec fn listed_time_spec(secs: int) -> Seq<char> {
    if secs < 0 {
        dec_signed(secs)
    } else {
        let (y, mo, d, h, mi, se) = listed_time_fields(secs);
        pad_signed(y, 4) + seq!['-'] + pad_signed(mo, 2) + seq!['-'] + pad_signed(d, 2) + seq![' ']
            + pad_signed(h, 2) + seq![':'] + pad_signed(mi, 2) + seq![':'] + pad_signed(se, 2)
    }
}

fn push_pad_signed(s: &mut String, n: i64, width: usize)
    requires
        n > i64::MIN,
    ensures
        final(s)@ == old(s)@ + pad_signed(n as int, width as nat),
{
    if n < 0 {
        push_char(s, '-');
        let w: usize = if width > 0 {
            width - 1
        } else {
            0
        };
        push_dec_pad(s, (-n) as u64, w);
        assert(s@ =~= old(s)@ + pad_signed(n as int, width as nat));
    } else {
        push_dec_pad(s, n as u64, width);
    }
}

/// (year, month, day) by the session list's day-count formula.
pub open spec fn listed_date(days: int) -> (int, int, int) {
    let z = days + 719162;
    let era = z / 146097;
    let doe = z - era * 146097;
    let yoe = (doe - doe / 1460 + doe / 36524 - doe / 146096) / 365;
    let y = yoe + era * 400;
    let doy = doe - (365 * yoe + yoe / 4 - yoe / 100);
    let mp = (5 * doy + 2) / 153;
    let d = doy - (153 * mp + 2) / 5 + 1;
    let mo = if mp < 10 {
        mp + 3
    } else {
        mp - 9
    };
    (if mo <= 2 {
        y + 1
    } else {
        y
    }, mo, d)
}

proof fn lemma_listed_fields(secs: int)
    requires
        secs >= 0,
    ensures
        listed_time_fields(secs) == (
            listed_date(secs / 86400).0,
            listed_date(secs / 86400).1,
            listed_date(secs / 86400).2,
            (secs % 86400) / 3600,
            ((secs % 86400) % 3600) / 60,
            (secs % 86400) % 60,
        ),
{
}

#[verifier::rlimit(40)]
fn listed_date_exec(days: i64) -> (r: (i64, i64, i64))
    requires
        0 <= days <= 106751991167300,
    ensures
        (r.0 as int, r.1 as int, r.2 as int) == listed_date(days as int),
{
    let z = days + 719162;
    let era = z / 146097;
    assert(0 <= era <= 730692566);
    let doe = z - era * 146097;
    assert(0 <= doe < 146097);
    let t = doe - doe / 1460 + doe / 36524 - doe / 146096;
    assert(0 <= t <= 2 * 146097);
    let yoe = t / 365;
    assert(0 <= yoe <= 801);
    let y = yoe + era * 400;
    let doy = doe - (365 * yoe + yoe / 4 - yoe / 100);
    assert(-400000 <= doy <= 146097);
    let mp = (5 * doy + 2) / 153;
    let d = doy - (153 * mp + 2) / 5 + 1;
    let mo = if mp < 10 {
        mp + 3
    } else {
        mp - 9
    };
    let y2 = if mo <= 2 {
        y + 1
    } else {
        y
    };
    (y2, mo, d)
}

/// Display form of a session's Unix start time.
pub fn chrono_fmt(unix_secs: i64) -> (r: String)
    ensures
        r@ == listed_time_spec(unix_secs as int),
{
    let mut out = String::new();
    if unix_secs < 0 {
        push_dec_signed(&mut out, unix_secs);
        return out;
    }
    let secs_today = unix_secs % 86400;
    let h = secs_today / 3600;
    let m = (secs_today % 3600) / 60;
    let s = secs_today % 60;
    let days = unix_secs / 86400;
    let (y, mo, d) = listed_date_exec(days);
    proof {
        lemma_listed_fields(unix_secs as int);
    }
    push_pad_signed(&mut out, y, 4);
    push_char(&mut out, '-');
    push_pad_signed(&mut out, mo, 2);
    push_char(&mut out, '-');
    push_pad_signed(&mut out, d, 2);
    push_char(&mut out, ' ');
    push_pad_signed(&mut out, h, 2);
    push_char(&mut out, ':');
    push_pad_signed(&mut out, m, 2);
    push_char(&mut out, ':');
    push_pad_signed(&mut out, s, 2);
    assert(out@ =~= listed_time_spec(unix_secs as int));
    out
}

// ---------------------------------------------------------------- model commands

/// What a `models download` / `models remove` argument designates.
#[derive(Debug, Clone, Copy, PartialEq, Eq, Structural)]
pub enum ModelTarget {
    /// Installed by the download script (`silero-vad`, `wespeaker`).
    ScriptInstalled,
    /// The punctuation model.
    Punct,
    /// No known engine.
    Unknown,
    /// The cloud engine: nothing to download.
    Cloud,
    /// A model no longer managed as a product model.
    Retired,
    /// A product model.
    Engine(EngineKind),
}

/// The target of `models download <name>` (the name trimmed, matched
/// without regard to ASCII case).
pub open spec fn download_target_spec(name: Seq<char>) -> ModelTarget {
    let t = trim(name);
    let l = lower_seq(t);
    if l == "silero-vad"@ || l == "wespeaker"@ {
        ModelTarget::ScriptInstalled
    } else if l == "punct"@ {
        ModelTarget::Punct
    } else {
        match engine_by_name(t) {
            None => ModelTarget::Unknown,
            Some(k) => if k == EngineKind::AliyunCloud {
                ModelTarget::Cloud
            } else if !product_models().contains(k) {
                ModelTarget::Retired
            } else {
                ModelTarget::Engine(k)
            },
        }
    }
}

pub fn download_target(name: &str) -> (r: ModelTarget)
    ensures
        r == download_target_spec(name@),
{
    let t = trimmed_chars(name);
    let l = ascii_lower_chars(t.as_slice());
    if chars_are(l.as_slice(), "silero-vad") || chars_are(l.as_slice(), "wespeaker") {
        return ModelTarget::ScriptInstalled;
    }
    if chars_are(l.as_slice(), "punct") {
        return ModelTarget::Punct;
    }
    let ts = crate::text::string_of(t.as_slice());
    match EngineKind::from_name(ts.as_str()) {
        None => ModelTarget::Unknown,
        Some(k) => {
            if k == EngineKind::AliyunCloud {
                ModelTarget::Cloud
            } else if !k.is_product_model() {
                ModelTarget::Retired
            } else {
                ModelTarget::Engine(k)
            }
        },
    }
}

/// The target of `models remove <name>` (matched without regard to ASCII
/// case, not trimmed); the cloud engine counts as retired.
pub open spec fn remove_target_spec(name: Seq<char>) -> ModelTarget {
    if lower_seq(name) == "punct"@ {
        ModelTarget::Punct
    } else {
        match engine_by_name(name) {
            None => ModelTarget::Unknown,
            Some(k) => if !product_models().contains(k) {
                ModelTarget::Retired
            } else {
                ModelTarget::Engine(k)
            },
        }
    }
}

pub fn remove_target(name: &str) -> (r: ModelTarget)
    ensures
        r == remove_target_spec(name@),
{
    let cs = chars_of(name);
    let l = ascii_lower_chars(cs.as_slice());
    if chars_are(l.as_slice(), "punct") {
        return ModelTarget::Punct;
    }
    match EngineKind::from_name(name) {
        None => ModelTarget::Unknown,
        Some(k) => {
            if !k.is_product_model() {
                ModelTarget::Retired
            } else {
                ModelTarget::Engine(k)
            }
        },
    }
}

// ---------------------------------------------------------------- logs

/// A log file of the application: `talksage*.log`.
pub open spec fn is_log_name(name: Seq<char>) -> bool {
    occurs_at(name, "talksage"@, 0) && "talksage"@.len() <= name.len() && ".log"@.len() <= name.len()
        && occurs_at(name, ".log"@, name.len() - ".log"@.len())
}

/// The entry shown by `logs`: among the log files, the one modified last,
/// and of those modified at that same time, the last listed.
pub open spec fn is_latest_log(entries: Seq<(Seq<char>, u128)>, i: int) -> bool {
    &&& 0 <= i < entries.len()
    &&& is_log_name(entries[i].0)
    &&& forall|j: int| 0 <= j < entries.len() && is_log_name(#[trigger] entries[j].0) ==> entries[j].1 <= entries[i].1
    &&& forall|j: int| i < j < entries.len() && is_log_name(#[trigger] entries[j].0) ==> entries[j].1 < entries[i].1
}

fn log_name(name: &str) -> (b: bool)
    ensures
        b == is_log_name(name@),
{
    let cs = chars_of(name);
    let p = chars_of("talksage");
    let q = chars_of(".log");
    starts_with(cs.as_slice(), p.as_slice()) && ends_with(cs.as_slice(), q.as_slice()) && p.len() <= cs.len()
}

/// Picks the log file to show from a directory listing (file name and
/// modification time, in any unit that orders times).
pub fn latest_log_index(entries: &Vec<(String, u128)>) -> (r: Option<usize>)
    ensures
        match r {
            Some(i) => is_latest_log(entries@.map_values(|e: (String, u128)| (e.0@, e.1)), i as int),
            None => forall|j: int| 0 <= j < entries@.len() ==> !is_log_name(#[trigger] entries@[j].0@),
        },
{
    let ghost ev = entries@.map_values(|e: (String, u128)| (e.0@, e.1));
    let mut best: Option<usize> = None;
    let mut i: usize = 0;
    while i < entries.len()
        invariant
            i <= entries@.len(),
            ev == entries@.map_values(|e: (String, u128)| (e.0@, e.1)),
            match best {
                Some(b) => {
                    &&& b < i
                    &&& is_log_name(ev[b as int].0)
                    &&& forall|j: int| 0 <= j < i && is_log_name(#[trigger] ev[j].0) ==> ev[j].1 <= ev[b as int].1
                    &&& forall|j: int| b < j < i && is_log_name(#[trigger] ev[j].0) ==> ev[j].1 < ev[b as int].1
                },
                None => forall|j: int| 0 <= j < i ==> !is_log_name(#[trigger] ev[j].0),
            },
        decreases entries@.len() - i,
    {
        assert(ev[i as int] == (entries@[i as int].0@, entries@[i as int].1));
        if log_name(entries[i].0.as_str()) {
            match best {
                None => {
                    best = Some(i);
                },
                Some(b) => {
                    if entries[i].1 >= entries[b].1 {
                        best = Some(i);
                    }
                },
            }
        }
        i += 1;
    }
    proof {
        if best is None {
            assert forall|j: int| 0 <= j < entries@.len() implies !is_log_name(#[trigger] entries@[j].0@) by {
                assert(ev[j].0 == entries@[j].0@);
            }
        }
    }
    best
}

// ---------------------------------------------------------------- config values

/// `str::parse::<i64>`: an optional sign, then decimal digits of a value
/// that fits in 64 signed bits.
pub open spec fn parse_i64_spec(s: Seq<char>) -> Option<i64> {
    if s.len() > 0 && s[0] == '-' {
        let d = s.drop_first();
        if d.len() > 0 && all_digits(d) && digits_value(d) <= 0x8000_0000_0000_0000 {
            Some((0 - digits_value(d)) as i64)
        } else {
            None
        }
    } else {
        match parse_u64_spec(s) {
            Some(v) if v <= i64::MAX => Some(v as i64),
            _ => None,
        }
    }
}

/// Parses a signed 64-bit decimal number (`str::parse::<i64>`).
pub fn parse_i64(s: &[char]) -> (r: Option<i64>)
    ensures
        r == parse_i64_spec(s@),
{
    if s.len() > 0 && s[0] == '-' {
        let d = chars_range(s, 1, s.len());
        assert(d@ =~= s@.drop_first());
        if d.len() == 0 || d[0] == '+' {
            assert(d@.len() > 0 ==> !is_digit_spec(d@[0]));
            return None;
        }
        match parse_u64(d.as_slice()) {
            Some(v) => {
                if v < 0x8000_0000_0000_0000 {
                    let n: i64 = v as i64;
                    Some(-n)
                } else if v == 0x8000_0000_0000_0000 {
                    Some(i64::MIN)
                } else {
                    None
                }
            },
            None => None,
        }
    } else {
        match parse_u64(s) {
            Some(v) => {
                if v <= 0x7fff_ffff_ffff_ffff {
                    Some(v as i64)
                } else {
                    None
                }
            },
            None => None,
        }
    }
}

/// A value given to `config set`, as far as its text decides it: the
/// words `true`, `false` and `null` in any ASCII case, a signed 64-bit
/// integer, or else the trimmed text (which may still be a decimal fraction
/// or a JSON array or object).
#[derive(Debug, Clone, PartialEq, Eq)]
pub enum CliScalar {
    Bool(bool),
    Null,
    Int(i64),
    Text(String),
}

pub open spec fn cli_scalar_spec(raw: Seq<char>) -> CliScalarView {
    let t = trim(raw);
    if lower_seq(t) == "true"@ {
        CliScalarView::Bool(true)
    } else if lower_seq(t) == "false"@ {
        CliScalarView::Bool(false)
    } else if lower_seq(t) == "null"@ {
        CliScalarView::Null
    } else if parse_i64_spec(t) is Some {
        CliScalarView::Int(parse_i64_spec(t)->0)
    } else {
        CliScalarView::Text(t)
    }
}

/// What a [`CliScalar`] holds, text as characters.
pub enum CliScalarView {
    Bool(bool),
    Null,
    Int(i64),
    Text(Seq<char>),
}

impl View for CliScalar {
    type V = CliScalarView;

    open spec fn view(&self) -> CliScalarView {
        match self {
            CliScalar::Bool(b) => CliScalarView::Bool(*b),
            CliScalar::Null => CliScalarView::Null,
            CliScalar::Int(n) => CliScalarView::Int(*n),
            CliScalar::Text(t) => CliScalarView::Text(t@),
        }
    }
}

/// Reads a value given on the command line (see [`CliScalar`]).
pub fn cli_scalar(raw: &str) -> (r: CliScalar)
    ensures
        r@ == cli_scalar_spec(raw@),
{
    let t = trimmed_chars(raw);
    let l = ascii_lower_chars(t.as_slice());
    if chars_are(l.as_slice(), "true") {
        CliScalar::Bool(true)
    } else if chars_are(l.as_slice(), "false") {
        CliScalar::Bool(false)
    } else if chars_are(l.as_slice(), "null") {
        CliScalar::Null
    } else {
        match parse_i64(t.as_slice()) {
            Some(n) => CliScalar::Int(n),
            None => CliScalar::Text(string_of(t.as_slice())),
        }
    }
}

// ---------------------------------------------------------------- config paths

/// The keys of a dotted settings path to write (`config set`): the
/// non-empty pieces between dots; an error when there are none.
pub open spec fn set_path_keys_spec(path: Seq<char>) -> Result<Seq<Seq<char>>, Seq<char>> {
    let keys = non_empty_pieces(dot_fields(path));
    if keys.len() == 0 {
        Err("配置路径不能为空"@)
    } else {
        Ok(keys)
    }
}

/// The keys of a dotted settings path to read (`config get`): none for a
/// blank path (the whole configuration); an error when a piece is empty.
pub open spec fn get_path_keys_spec(path: Seq<char>) -> Result<Seq<Seq<char>>, Seq<char>> {
    if trim(path).len() == 0 {
        Ok(Seq::empty())
    } else if exists|k: int| 0 <= k < dot_fields(path).len() && (#[trigger] dot_fields(path)[k]).len() == 0 {
        Err("无效配置路径: "@ + path)
    } else {
        Ok(dot_fields(path))
    }
}

pub open spec fn keys_view(v: Seq<String>) -> Seq<Seq<char>> {
    v.map_values(|s: String| s@)
}

pub fn set_path_keys(path: &str) -> (r: Result<Vec<String>, String>)
    ensures
        match r {
            Ok(v) => set_path_keys_spec(path@) == Ok::<Seq<Seq<char>>, Seq<char>>(keys_view(v@)),
            Err(e) => set_path_keys_spec(path@) == Err::<Seq<Seq<char>>, Seq<char>>(e@),
        },
{
    let cs = chars_of(path);
    let parts = dot_pieces(cs.as_slice());
    let ghost pv = parts@.map_values(|v: Vec<char>| v@);
    let mut keys: Vec<String> = Vec::new();
    let mut i: usize = 0;
    while i < parts.len()
        invariant
            i <= parts@.len(),
            pv == parts@.map_values(|v: Vec<char>| v@),
            pv == dot_fields(path@),
            keys_view(keys@) == non_empty_pieces(pv.take(i as int)),
        decreases parts@.len() - i,
    {
        proof {
            assert(pv.take(i + 1).drop_last() =~= pv.take(i as int));
            assert(pv.take(i + 1).last() == pv[i as int]);
        }
        if parts[i].len() > 0 {
            let ghost before = keys_view(keys@);
            let k = crate::text::string_of(parts[i].as_slice());
            keys.push(k);
            assert(keys_view(keys@) =~= before.push(pv[i as int]));
        }
        i += 1;
    }
    assert(pv.take(parts@.len() as int) =~= pv);
    if keys.len() == 0 {
        Err(owned("配置路径不能为空"))
    } else {
        Ok(keys)
    }
}

pub fn get_path_keys(path: &str) -> (r: Result<Vec<String>, String>)
    ensures
        match r {
            Ok(v) => get_path_keys_spec(path@) == Ok::<Seq<Seq<char>>, Seq<char>>(keys_view(v@)),
            Err(e) => get_path_keys_spec(path@) == Err::<Seq<Seq<char>>, Seq<char>>(e@),
        },
{
    if crate::text::is_blank_str(path) {
        proof {
            crate::text::lemma_trim_blank(path@);
        }
        let v: Vec<String> = Vec::new();
        assert(keys_view(v@) =~= Seq::<Seq<char>>::empty());
        return Ok(v);
    }
    proof {
        crate::text::lemma_trim_blank(path@);
    }
    let cs = chars_of(path);
    let parts = dot_pieces(cs.as_slice());
    let ghost pv = parts@.map_values(|v: Vec<char>| v@);
    let mut keys: Vec<String> = Vec::new();
    let mut i: usize = 0;
    while i < parts.len()
        invariant
            i <= parts@.len(),
            pv == parts@.map_values(|v: Vec<char>| v@),
            pv == dot_fields(path@),
            trim(path@).len() > 0,
            keys_view(keys@) == pv.take(i as int),
            forall|k: int| 0 <= k < i ==> (#[trigger] pv[k]).len() > 0,
        decreases parts@.len() - i,
    {
        if parts[i].len() == 0 {
            let mut msg = owned("无效配置路径: ");
            crate::text::push_str(&mut msg, path);
            assert(dot_fields(path@)[i as int].len() == 0);
            assert(get_path_keys_spec(path@) == Err::<Seq<Seq<char>>, Seq<char>>("无效配置路径: "@ + path@));
            return Err(msg);
        }
        let ghost before = keys_view(keys@);
        let k = crate::text::string_of(parts[i].as_slice());
        keys.push(k);
        assert(keys_view(keys@) =~= before.push(pv[i as int]));
        assert(pv.take(i + 1) =~= pv.take(i as int).push(pv[i as int]));
        i += 1;
    }
    assert(pv.take(parts@.len() as int) =~= pv);
    Ok(keys)
}

} // verus!
