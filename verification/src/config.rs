//! Configuration vocabulary, per-session directory layout and secret masking.
//!
//! Paths are handled as text with `/` separators (Unix path rules).
use vstd::prelude::*;

use crate::knowledge::{split_chars, split_from, views1};
use crate::notes::join;
use crate::sorted_map::{key_before, StrMap};
use crate::text::{
    chars_are, parse_u64, parse_u64_spec, chars_of, dec_signed, is_blank, is_blank_str, owned, push_chars, push_dec_signed, push_str,
    string_of, string_of_range, trim, trimmed_chars, trimmed_string,
};

verus! {

// ---------------------------------------------------------------- paths

/// `base` joined with a relative or absolute `part` (`Path::join`): an
/// absolute part replaces the base; otherwise one `/` separates them.
pub open spec fn join_path(base: Seq<char>, part: Seq<char>) -> Seq<char> {
    if part.len() > 0 && part[0] == '/' {
        part
    } else if base.len() == 0 {
        part
    } else if base.last() == '/' {
        base + part
    } else {
        base + seq!['/'] + part
    }
}

/// Joins a path component onto a path.
pub fn path_join(base: &str, part: &str) -> (r: String)
    ensures
        r@ == join_path(base@, part@),
{
    let b = chars_of(base);
    let p = chars_of(part);
    if p.len() > 0 && p[0] == '/' {
        return owned(part);
    }
    if b.len() == 0 {
        return owned(part);
    }
    let mut r = owned(base);
    if b[b.len() - 1] != '/' {
        crate::text::push_char(&mut r, '/');
    }
    push_str(&mut r, part);
    r
}

/// `<data_dir>/sessions/<id>`.
pub open spec fn session_dir_spec(data_dir: Seq<char>, session_id: i64) -> Seq<char> {
    join_path(join_path(data_dir, "sessions"@), dec_signed(session_id as int))
}

/// Directory of one session: `<data_dir>/sessions/<id>/` (not created here).
pub fn session_dir(data_dir: &str, session_id: i64) -> (r: String)
    ensures
        r@ == session_dir_spec(data_dir@, session_id),
{
    let sessions = path_join(data_dir, "sessions");
    let mut id = String::new();
    push_dec_signed(&mut id, session_id);
    path_join(sessions.as_str(), id.as_str())
}

/// Recordings of one session: `<data_dir>/sessions/<id>/recordings/`.
pub fn session_recordings_dir(data_dir: &str, session_id: i64) -> (r: String)
    ensures
        r@ == join_path(session_dir_spec(data_dir@, session_id), "recordings"@),
{
    let d = session_dir(data_dir, session_id);
    path_join(d.as_str(), "recordings")
}

/// Exports of one session: `<data_dir>/sessions/<id>/exports/`.
pub fn session_exports_dir(data_dir: &str, session_id: i64) -> (r: String)
    ensures
        r@ == join_path(session_dir_spec(data_dir@, session_id), "exports"@),
{
    let d = session_dir(data_dir, session_id);
    path_join(d.as_str(), "exports")
}

// ---------------------------------------------------------------- scene vocabulary

/// Scene mode: each scene runs a different parameter set.
#[derive(Debug, Clone, Copy, PartialEq, Eq, Structural)]
pub enum SceneMode {
    Dictation,
    Conversation,
    Bilingual,
    LiveTranslation,
    Meeting,
    Lecture,
    Custom,
}

impl Default for SceneMode {
    fn default() -> (m: Self)
        ensures
            m == SceneMode::Conversation,
    {
        SceneMode::Conversation
    }
}

/// Speaker attribution policy.
#[derive(Debug, Clone, Copy, PartialEq, Eq, Structural)]
pub enum SpeakerMode {
    Off,
    Channel,
    Voiceprint,
}

impl Default for SpeakerMode {
    fn default() -> (m: Self)
        ensures
            m == SpeakerMode::Channel,
    {
        SpeakerMode::Channel
    }
}

/// Live translation policy.
#[derive(Debug, Clone, Copy, PartialEq, Eq, Structural)]
pub enum TranslationMode {
    Off,
    ClientToUser,
    Bidirectional,
}

impl Default for TranslationMode {
    fn default() -> (m: Self)
        ensures
            m == TranslationMode::Off,
    {
        TranslationMode::Off
    }
}

/// Voice-activity sensitivity preset.
#[derive(Debug, Clone, Copy, PartialEq, Eq, Structural)]
pub enum VadPreset {
    Standard,
    Sensitive,
    Strict,
}

impl Default for VadPreset {
    fn default() -> (m: Self)
        ensures
            m == VadPreset::Standard,
    {
        VadPreset::Standard
    }
}

/// Ids of every analysis plugin (the allowlist of the scenes that run them all).
pub open spec fn all_analysis_plugins_spec() -> Seq<Seq<char>> {
    seq!["term_explainer"@, "translator"@, "brief_retriever"@, "key_point_llm"@]
}

pub fn all_analysis_plugins() -> (v: Vec<String>)
    ensures
        v@.map_values(|s: String| s@) == all_analysis_plugins_spec(),
{
    let v = vec![owned("term_explainer"), owned("translator"), owned("brief_retriever"), owned("key_point_llm")];
    assert(v@.map_values(|s: String| s@) =~= all_analysis_plugins_spec());
    v
}

/// Display label of a scene mode.
pub open spec fn mode_label_spec(m: SceneMode) -> Seq<char> {
    match m {
        SceneMode::Dictation => "单人听写"@,
        SceneMode::Conversation => "一对一会话"@,
        SceneMode::Bilingual => "双语对话"@,
        SceneMode::LiveTranslation => "实时翻译"@,
        SceneMode::Meeting => "多人会议"@,
        SceneMode::Lecture => "演讲/课堂"@,
        SceneMode::Custom => "自定义"@,
    }
}

// ---------------------------------------------------------------- sections

/// Network proxy settings (external requests only).
#[derive(Debug)]
pub struct NetworkConfig {
    /// HTTP/HTTPS proxy (`http://127.0.0.1:7890`); blank connects directly.
    pub proxy: String,
}

impl Default for NetworkConfig {
    fn default() -> (c: Self)
        ensures
            c.proxy@ == Seq::<char>::empty(),
    {
        NetworkConfig { proxy: String::new() }
    }
}

impl NetworkConfig {
    /// The effective proxy URL (trimmed); `None` when blank.
    pub fn proxy_url(&self) -> (r: Option<String>)
        ensures
            match r {
                Some(s) => trim(self.proxy@).len() > 0 && s@ == trim(self.proxy@),
                None => trim(self.proxy@).len() == 0,
            },
    {
        let t = trimmed_string(self.proxy.as_str());
        if t.as_str().is_empty() {
            None
        } else {
            Some(t)
        }
    }
}

/// Meeting-end webhooks.
#[derive(Debug)]
pub struct WebhooksConfig {
    pub enabled: bool,
    pub urls: Vec<String>,
}

impl Default for WebhooksConfig {
    fn default() -> (c: Self)
        ensures
            !c.enabled,
            c.urls@.len() == 0,
    {
        WebhooksConfig { enabled: false, urls: Vec::new() }
    }
}

/// The webhook URLs kept from a submitted list: the string items, trimmed,
/// blank ones dropped, in order.
pub open spec fn cleaned_urls(items: Seq<Option<String>>) -> Seq<Seq<char>>
    decreases items.len(),
{
    if items.len() == 0 {
        Seq::empty()
    } else {
        let r = cleaned_urls(items.drop_last());
        match items.last() {
            Some(u) => if trim(u@).len() > 0 {
                r.push(trim(u@))
            } else {
                r
            },
            None => r,
        }
    }
}

/// The webhook URL list to store from the items of a submitted array (each
/// `Some` when the item is a string).
pub fn cleaned_webhook_urls(items: &Vec<Option<String>>) -> (r: Vec<String>)
    ensures
        r@.map_values(|s: String| s@) == cleaned_urls(items@),
{
    let mut r: Vec<String> = Vec::new();
    let mut i: usize = 0;
    while i < items.len()
        invariant
            i <= items@.len(),
            r@.map_values(|s: String| s@) == cleaned_urls(items@.subrange(0, i as int)),
        decreases items@.len() - i,
    {
        assert(items@.subrange(0, i + 1).drop_last() =~= items@.subrange(0, i as int));
        if let Some(u) = &items[i] {
            let t = trimmed_string(u.as_str());
            if !t.as_str().is_empty() {
                let ghost before = r@.map_values(|s: String| s@);
                let ghost tv = t@;
                r.push(t);
                assert(r@.map_values(|s: String| s@) =~= before.push(tv));
            }
        }
        i += 1;
    }
    assert(items@.subrange(0, items@.len() as int) =~= items@);
    r
}

/// The capture source to store for a submitted name: `loopback` (system
/// audio) when so named, the microphone otherwise.
pub fn audio_source_of(name: &str) -> (r: String)
    ensures
        r@ == (if name@ == "loopback"@ {
            "loopback"@
        } else {
            "mic"@
        }),
{
    if crate::text::str_eq(name, "loopback") {
        owned("loopback")
    } else {
        owned("mic")
    }
}

/// Client-brief knowledge base.
#[derive(Debug)]
pub struct KnowledgeBaseConfig {
    pub enabled: bool,
    pub folder: String,
}

impl Default for KnowledgeBaseConfig {
    fn default() -> (c: Self)
        ensures
            !c.enabled,
            c.folder@ == Seq::<char>::empty(),
    {
        KnowledgeBaseConfig { enabled: false, folder: String::new() }
    }
}

/// One LLM provider entry.
#[derive(Debug)]
pub struct LlmProviderConfig {
    pub base_url: Option<String>,
    pub model: String,
    pub api_key: String,
}

impl Default for LlmProviderConfig {
    fn default() -> (c: Self)
        ensures
            c.base_url is None,
            c.model@ == "deepseek-chat"@,
            c.api_key@ == Seq::<char>::empty(),
    {
        LlmProviderConfig { base_url: None, model: owned("deepseek-chat"), api_key: String::new() }
    }
}

/// LLM settings: the default provider's name and the named providers.
#[derive(Debug)]
pub struct LlmConfig {
    pub default: String,
    pub providers: Vec<(String, LlmProviderConfig)>,
}

impl Default for LlmConfig {
    fn default() -> (c: Self)
        ensures
            c.default@ == "deepseek"@,
            c.providers.len() == 2,
            c.providers[0].0@ == "deepseek"@,
            c.providers[0].1.base_url matches Some(u) && u@ == "https://api.deepseek.com/v1"@,
            c.providers[0].1.model@ == "deepseek-chat"@,
            c.providers[0].1.api_key@ == Seq::<char>::empty(),
            c.providers[1].0@ == "ollama"@,
            c.providers[1].1.base_url matches Some(u) && u@ == "http://localhost:11434/v1"@,
            c.providers[1].1.model@ == "llama3"@,
            c.providers[1].1.api_key@ == "ollama"@,
    {
        let deepseek = LlmProviderConfig {
            base_url: Some(owned("https://api.deepseek.com/v1")),
            model: owned("deepseek-chat"),
            api_key: String::new(),
        };
        let ollama = LlmProviderConfig {
            base_url: Some(owned("http://localhost:11434/v1")),
            model: owned("llama3"),
            api_key: owned("ollama"),
        };
        LlmConfig { default: owned("deepseek"), providers: vec![(owned("deepseek"), deepseek), (owned("ollama"), ollama)] }
    }
}

/// Notes settings (the template id).
#[derive(Debug)]
pub struct NotesConfig {
    pub template: String,
}

impl Default for NotesConfig {
    fn default() -> (c: Self)
        ensures
            c.template@ == "standard_meeting"@,
    {
        NotesConfig { template: owned("standard_meeting") }
    }
}

/// Meeting recording settings.
#[derive(Debug)]
pub struct RecordingConfig {
    pub enabled: bool,
    /// Relative to the data directory, or absolute; blank = `<data_dir>/recordings`.
    pub dir: String,
    pub clean_silence: bool,
}

impl Default for RecordingConfig {
    fn default() -> (c: Self)
        ensures
            c.enabled,
            c.dir@ == Seq::<char>::empty(),
            !c.clean_silence,
    {
        RecordingConfig { enabled: true, dir: String::new(), clean_silence: false }
    }
}

/// The recording directory for a configured `dir`.
pub open spec fn recording_dir_spec(dir: Seq<char>, data_dir: Seq<char>) -> Seq<char> {
    if dir.len() > 0 && dir[0] == '/' {
        dir
    } else if is_blank(dir) {
        join_path(data_dir, "recordings"@)
    } else {
        join_path(data_dir, dir)
    }
}

impl RecordingConfig {
    /// Recording directory: absolute paths as they are, blank as
    /// `<data_dir>/recordings`, others relative to `data_dir`.
    pub fn resolve_dir(&self, data_dir: &str) -> (r: String)
        ensures
            r@ == recording_dir_spec(self.dir@, data_dir@),
    {
        let d = chars_of(self.dir.as_str());
        if d.len() > 0 && d[0] == '/' {
            return self.dir.clone();
        }
        if is_blank_str(self.dir.as_str()) {
            path_join(data_dir, "recordings")
        } else {
            path_join(data_dir, self.dir.as_str())
        }
    }
}

/// Privacy settings.
#[derive(Debug)]
pub struct PrivacyConfig {
    pub recording_consent_accepted: bool,
}

impl Default for PrivacyConfig {
    fn default() -> (c: Self)
        ensures
            !c.recording_consent_accepted,
    {
        PrivacyConfig { recording_consent_accepted: false }
    }
}

/// Headless server settings.
#[derive(Debug)]
pub struct ServerConfig {
    pub enabled: bool,
    pub host: String,
    pub port: u16,
    pub token: String,
}

impl Default for ServerConfig {
    fn default() -> (c: Self)
        ensures
            !c.enabled,
            c.host@ == "127.0.0.1"@,
            c.port == 8080,
            c.token@ == Seq::<char>::empty(),
    {
        ServerConfig { enabled: false, host: owned("127.0.0.1"), port: 8080, token: String::new() }
    }
}

/// The default ASR mode.
pub fn default_asr_mode() -> (s: String)
    ensures
        s@ == "auto"@,
{
    owned("auto")
}

// ---------------------------------------------------------------- environment overrides

/// A text setting given in the environment, as the configuration takes it:
/// trimmed; nothing when unset or blank.
pub open spec fn text_override_spec(raw: Option<Seq<char>>) -> Option<Seq<char>> {
    match raw {
        Some(v) if !is_blank(v) => Some(trim(v)),
        _ => None,
    }
}

/// `str::parse::<u16>`: an optional `+`, then decimal digits of a value
/// below 65536.
pub open spec fn parse_u16_spec(s: Seq<char>) -> Option<u16> {
    match parse_u64_spec(s) {
        Some(v) if v <= u16::MAX => Some(v as u16),
        _ => None,
    }
}

/// `str::parse::<bool>`: exactly `true` or `false`.
pub open spec fn parse_bool_spec(s: Seq<char>) -> Option<bool> {
    if s == "true"@ {
        Some(true)
    } else if s == "false"@ {
        Some(false)
    } else {
        None
    }
}

/// The value an environment variable sets a text setting to, if any.
pub fn text_override(raw: Option<&str>) -> (r: Option<String>)
    ensures
        match r {
            Some(v) => text_override_spec(opt_view(raw)) == Some(v@),
            None => text_override_spec(opt_view(raw)) is None,
        },
{
    match raw {
        Some(v) => {
            if is_blank_str(v) {
                None
            } else {
                Some(trimmed_string(v))
            }
        },
        None => None,
    }
}

pub open spec fn opt_view(raw: Option<&str>) -> Option<Seq<char>> {
    match raw {
        Some(v) => Some(v@),
        None => None,
    }
}

/// The port an environment variable sets: its trimmed value read as a
/// 16-bit number; nothing when unset or unreadable.
pub fn port_override(raw: Option<&str>) -> (r: Option<u16>)
    ensures
        r == match opt_view(raw) {
            Some(v) => parse_u16_spec(trim(v)),
            None => None,
        },
{
    match raw {
        Some(v) => {
            let t = trimmed_chars(v);
            match parse_u64(t.as_slice()) {
                Some(n) => {
                    if n <= 65535 {
                        Some(n as u16)
                    } else {
                        None
                    }
                },
                None => None,
            }
        },
        None => None,
    }
}

/// The switch an environment variable sets: its trimmed value read as
/// `true` or `false`; nothing when unset or anything else.
pub fn flag_override(raw: Option<&str>) -> (r: Option<bool>)
    ensures
        r == match opt_view(raw) {
            Some(v) => parse_bool_spec(trim(v)),
            None => None,
        },
{
    match raw {
        Some(v) => {
            let t = trimmed_chars(v);
            if chars_are(t.as_slice(), "true") {
                Some(true)
            } else if chars_are(t.as_slice(), "false") {
                Some(false)
            } else {
                None
            }
        },
        None => None,
    }
}

/// A user value, or the default when the user value is blank.
pub fn take_or(user: String, default: String) -> (r: String)
    ensures
        r@ == if is_blank(user@) {
            default@
        } else {
            user@
        },
{
    if is_blank_str(user.as_str()) {
        default
    } else {
        user
    }
}

// ---------------------------------------------------------------- secrets

/// How secrets leave the process: in clear (desktop IPC) or masked (network).
#[derive(Debug, Clone, Copy, PartialEq, Eq, Structural)]
pub enum SecretPolicy {
    Reveal,
    Mask,
}

pub open spec fn bullets() -> Seq<char> {
    seq!['•', '•', '•', '•', '•', '•', '•', '•']
}

/// Masked form of a secret: empty when blank, eight bullets when at most eight
/// characters, else the first three, eight bullets and the last four.
pub open spec fn mask_spec(secret: Seq<char>) -> Seq<char> {
    let s = trim(secret);
    if s.len() == 0 {
        Seq::empty()
    } else if s.len() <= 8 {
        bullets()
    } else {
        s.take(3) + bullets() + s.skip(s.len() - 4)
    }
}

/// Masks a secret: `sk-••••••••cdef`; stable, so it can be written back.
pub fn mask_secret(secret: &str) -> (r: String)
    ensures
        r@ == mask_spec(secret@),
{
    let s = trimmed_chars(secret);
    if s.len() == 0 {
        return String::new();
    }
    let b = ['•', '•', '•', '•', '•', '•', '•', '•'];
    assert(b@ == bullets());
    if s.len() <= 8 {
        return string_of(&b);
    }
    let mut r = string_of_range(s.as_slice(), 0, 3);
    push_chars(&mut r, &b);
    let tail = string_of_range(s.as_slice(), s.len() - 4, s.len());
    push_str(&mut r, tail.as_str());
    assert(s@.subrange(0, 3) == s@.take(3));
    assert(s@.subrange(s.len() - 4, s.len() as int) == s@.skip(s.len() - 4));
    r
}

pub open spec fn is_mask_spec(submitted: Seq<char>, stored: Seq<char>) -> bool {
    !is_blank(stored) && submitted == mask_spec(stored)
}

/// Whether `submitted` is exactly the mask of `stored` (the field was not edited).
pub fn is_secret_mask(submitted: &str, stored: &str) -> (b: bool)
    ensures
        b == is_mask_spec(submitted@, stored@),
{
    if is_blank_str(stored) {
        return false;
    }
    let m = mask_secret(stored);
    crate::text::str_eq(submitted, m.as_str())
}

/// Writes a submitted secret: its own mask keeps the stored value; anything
/// else is taken (trimmed), an empty submission clearing it.
pub fn apply_secret(stored: &mut String, submitted: &str)
    ensures
        final(stored)@ == if is_mask_spec(submitted@, old(stored)@) {
            old(stored)@
        } else {
            trim(submitted@)
        },
{
    if !is_secret_mask(submitted, stored.as_str()) {
        *stored = trimmed_string(submitted);
    }
}

/// A secret read from a form: blank or masked input falls back to the stored value.
pub fn resolve_secret_input(submitted: Option<&str>, stored: &str) -> (r: String)
    ensures
        r@ == match submitted {
            Some(v) => if !is_blank(v@) && !is_mask_spec(v@, stored@) {
                trim(v@)
            } else {
                stored@
            },
            None => stored@,
        },
{
    match submitted {
        Some(v) => {
            if !is_blank_str(v) && !is_secret_mask(v, stored) {
                trimmed_string(v)
            } else {
                owned(stored)
            }
        },
        None => owned(stored),
    }
}

/// Law: a form that sends back the mask it was shown keeps the stored secret.
pub proof fn lemma_mask_round_trip(stored: Seq<char>)
    requires
        !is_blank(stored),
    ensures
        is_mask_spec(mask_spec(stored), stored),
{
}

/// Law: a secret of more than eight characters never shows its middle: the
/// mask has fifteen characters and keeps only the first three and last four.
pub proof fn lemma_mask_hides_middle(stored: Seq<char>)
    requires
        trim(stored).len() > 8,
    ensures
        mask_spec(stored).len() == 15,
        mask_spec(stored).take(3) == trim(stored).take(3),
        mask_spec(stored).skip(11) == trim(stored).skip(trim(stored).len() - 4),
{
    let s = trim(stored);
    assert(mask_spec(stored).take(3) =~= s.take(3));
    assert(mask_spec(stored).skip(11) =~= s.skip(s.len() - 4));
}

// ---------------------------------------------------------------- terminology

/// Domain terms and known misrecognitions (the float hot-word weight of the
/// settings file is kept outside the library).
#[derive(Debug)]
pub struct TerminologyConfig {
    pub enabled: bool,
    /// Product names, people, abbreviations or trade terms, one per entry.
    pub terms: Vec<String>,
    /// Common misrecognition → correct term, in key order.
    pub corrections: StrMap,
}

impl Default for TerminologyConfig {
    fn default() -> (c: Self)
        ensures
            !c.enabled,
            c.terms@.len() == 0,
            c.corrections@.len() == 0,
            c.corrections.wf(),
    {
        TerminologyConfig { enabled: false, terms: Vec::new(), corrections: StrMap::new() }
    }
}

/// The terms as a set: trimmed, blank ones dropped.
pub open spec fn term_set(terms: Seq<Seq<char>>) -> Set<Seq<char>> {
    Set::new(|t: Seq<char>| exists|k: int| 0 <= k < terms.len() && t == trim(#[trigger] terms[k]) && t.len() > 0)
}

pub open spec fn has_key(m: Seq<(Seq<char>, Seq<char>)>, t: Seq<char>) -> bool {
    exists|j: int| 0 <= j < m.len() && (#[trigger] m[j]).0 == t
}

/// The corrections that can apply: both sides non-empty, in key order.
pub open spec fn usable_corrections(m: Seq<(Seq<char>, Seq<char>)>) -> Seq<(Seq<char>, Seq<char>)>
    decreases m.len(),
{
    if m.len() == 0 {
        Seq::empty()
    } else {
        let r = usable_corrections(m.drop_last());
        if m.last().0.len() > 0 && m.last().1.len() > 0 {
            r.push(m.last())
        } else {
            r
        }
    }
}

/// `x` placed after every rule whose alias is at least as long: one step of
/// a stable sort by alias length, longest first.
pub open spec fn insert_by_alias_len(s: Seq<(Seq<char>, Seq<char>)>, x: (Seq<char>, Seq<char>)) -> Seq<(Seq<char>, Seq<char>)>
    decreases s.len(),
{
    if s.len() == 0 {
        seq![x]
    } else if s.last().0.len() >= x.0.len() {
        s.push(x)
    } else {
        insert_by_alias_len(s.drop_last(), x).push(s.last())
    }
}

/// Rules ordered by alias length, longest first, ties in their given order.
pub open spec fn longest_alias_first(s: Seq<(Seq<char>, Seq<char>)>) -> Seq<(Seq<char>, Seq<char>)>
    decreases s.len(),
{
    if s.len() == 0 {
        Seq::empty()
    } else {
        insert_by_alias_len(longest_alias_first(s.drop_last()), s.last())
    }
}

/// Rules in order of alias length, longest first.
pub open spec fn longest_first(s: Seq<(Seq<char>, Seq<char>)>) -> bool {
    forall|i: int, j: int| 0 <= i <= j < s.len() ==> (#[trigger] s[i]).0.len() >= (#[trigger] s[j]).0.len()
}

proof fn lemma_insert_by_alias_len_keeps(s: Seq<(Seq<char>, Seq<char>)>, x: (Seq<char>, Seq<char>))
    ensures
        insert_by_alias_len(s, x).to_multiset() =~= s.to_multiset().insert(x),
        longest_first(s) ==> longest_first(insert_by_alias_len(s, x)),
        insert_by_alias_len(s, x).len() == s.len() + 1,
        forall|k: int| 0 <= k < insert_by_alias_len(s, x).len() ==> (#[trigger] insert_by_alias_len(s, x)[k] == x
            || s.contains(insert_by_alias_len(s, x)[k])),
    decreases s.len(),
{
    broadcast use vstd::seq_lib::group_to_multiset_ensures;

    if s.len() == 0 {
        assert(seq![x] =~= Seq::<(Seq<char>, Seq<char>)>::empty().push(x));
    } else if s.last().0.len() >= x.0.len() {
        let r = s.push(x);
        assert forall|k: int| 0 <= k < r.len() implies (#[trigger] r[k] == x || s.contains(r[k])) by {
            if k < s.len() {
                assert(r[k] == s[k]);
            }
        }
    } else {
        let d = s.drop_last();
        lemma_insert_by_alias_len_keeps(d, x);
        let i = insert_by_alias_len(d, x);
        let r = i.push(s.last());
        assert(s =~= d.push(s.last()));
        assert forall|k: int| 0 <= k < r.len() implies (#[trigger] r[k] == x || s.contains(r[k])) by {
            if k < i.len() {
                assert(r[k] == i[k]);
                if i[k] != x {
                    let w = choose|w: int| 0 <= w < d.len() && d[w] == i[k];
                    assert(s[w] == d[w]);
                }
            } else {
                assert(r[k] == s[s.len() - 1]);
            }
        }
        if longest_first(s) {
            assert(longest_first(d)) by {
                assert forall|a: int, b: int| 0 <= a <= b < d.len() implies (#[trigger] d[a]).0.len()
                    >= (#[trigger] d[b]).0.len() by {
                    assert(d[a] == s[a] && d[b] == s[b]);
                }
            }
            assert forall|a: int, b: int| 0 <= a <= b < r.len() implies (#[trigger] r[a]).0.len()
                >= (#[trigger] r[b]).0.len() by {
                if a == b {
                } else if b == r.len() - 1 {
                    assert(r[b] == s.last());
                    assert(r[a] == i[a]);
                    if i[a] != x {
                        let w = choose|w: int| 0 <= w < d.len() && d[w] == i[a];
                        assert(s[w] == d[w]);
                        assert(s[w].0.len() >= s[s.len() - 1].0.len());
                    }
                } else {
                    assert(r[a] == i[a] && r[b] == i[b]);
                }
            }
        }
    }
}

/// Ordering the rules by alias length puts longer aliases first, so a longer
/// alias is replaced before any shorter one inside it, and keeps every rule.
pub proof fn lemma_longest_alias_first_orders_and_keeps(s: Seq<(Seq<char>, Seq<char>)>)
    ensures
        longest_first(longest_alias_first(s)),
        longest_alias_first(s).to_multiset() =~= s.to_multiset(),
    decreases s.len(),
{
    broadcast use vstd::seq_lib::group_to_multiset_ensures;

    if s.len() > 0 {
        lemma_longest_alias_first_orders_and_keeps(s.drop_last());
        lemma_insert_by_alias_len_keeps(longest_alias_first(s.drop_last()), s.last());
        assert(s =~= s.drop_last().push(s.last()));
    }
}

/// `str::replace`: every non-overlapping occurrence of `from`, left to right,
/// replaced by `to`.
pub open spec fn replace_spec(t: Seq<char>, from: Seq<char>, to: Seq<char>) -> Seq<char> {
    join(split_from(t, from, 0, 0), to)
}

/// The rules applied one after the other.
pub open spec fn apply_rules(t: Seq<char>, rules: Seq<(Seq<char>, Seq<char>)>) -> Seq<char>
    decreases rules.len(),
{
    if rules.len() == 0 {
        t
    } else {
        replace_spec(apply_rules(t, rules.drop_last()), rules.last().0, rules.last().1)
    }
}

/// The rules `correct` applies: the first 256 usable corrections, longest
/// alias first.
pub open spec fn correction_rules(m: Seq<(Seq<char>, Seq<char>)>) -> Seq<(Seq<char>, Seq<char>)> {
    let u = usable_corrections(m);
    longest_alias_first(u.take(if u.len() > 256 { 256 } else { u.len() as int }))
}

fn replace_all(t: &[char], from: &[char], to: &[char]) -> (r: Vec<char>)
    requires
        from.len() >= 1,
    ensures
        r@ == replace_spec(t@, from@, to@),
{
    let parts = split_chars(t, from);
    let ghost pv = views1(parts@);
    let mut out: Vec<char> = Vec::new();
    let mut k: usize = 0;
    while k < parts.len()
        invariant
            k <= parts.len(),
            pv == views1(parts@),
            out@ == join(pv.subrange(0, k as int), to@),
        decreases parts.len() - k,
    {
        let ghost before = out@;
        if k > 0 {
            out.extend_from_slice(to);
        }
        out.extend_from_slice(parts[k].as_slice());
        proof {
            let sub = pv.subrange(0, k + 1);
            assert(sub.drop_last() =~= pv.subrange(0, k as int));
            assert(sub.last() == pv[k as int]);
            if k == 0 {
                assert(out@ =~= sub[0]);
            } else {
                assert(out@ =~= before + to@ + sub.last());
            }
        }
        k += 1;
    }
    assert(pv.subrange(0, parts.len() as int) =~= pv);
    out
}

impl TerminologyConfig {
    /// The configured terms: trimmed, blank ones dropped, sorted (code-point
    /// order), each once, at most 256 of them; none when disabled.
    pub fn normalized_terms(&self) -> (r: Vec<String>)
        ensures
            !self.enabled ==> r@.len() == 0,
            self.enabled ==> {
                let rv = r@.map_values(|s: String| s@);
                let ts = term_set(self.terms@.map_values(|s: String| s@));
                &&& rv.len() <= 256
                &&& forall|i: int, j: int| 0 <= i < j < rv.len() ==> key_before(#[trigger] rv[i], #[trigger] rv[j])
                &&& forall|i: int| 0 <= i < rv.len() ==> ts.contains(#[trigger] rv[i])
                &&& forall|t: Seq<char>| #[trigger] ts.contains(t) && !rv.contains(t) ==> rv.len() == 256 && forall|i: int|
                    0 <= i < rv.len() ==> key_before(#[trigger] rv[i], t)
            },
    {
        let mut r: Vec<String> = Vec::new();
        if !self.enabled {
            return r;
        }
        let ghost tv = self.terms@.map_values(|s: String| s@);
        let mut m = StrMap::new();
        let mut i: usize = 0;
        while i < self.terms.len()
            invariant
                i <= self.terms.len(),
                tv == self.terms@.map_values(|s: String| s@),
                m.wf(),
                forall|t: Seq<char>| #[trigger] has_key(m@, t) <==> (exists|k: int| 0 <= k < i && t == trim(#[trigger] tv[k]) && t.len() > 0),
            decreases self.terms.len() - i,
        {
            let t = trimmed_string(self.terms[i].as_str());
            if !t.as_str().is_empty() {
                let ghost old_m = m@;
                let p = m.insert(t.as_str(), "");
                proof {
                    assert forall|x: Seq<char>| #[trigger] has_key(m@, x) <==> (has_key(old_m, x) || x == t@) by {
                        if p < old_m.len() && old_m[p as int].0 == t@ {
                            assert(m@ == old_m.update(p as int, (t@, ""@)));
                            if has_key(old_m, x) {
                                let j = choose|j: int| 0 <= j < old_m.len() && (#[trigger] old_m[j]).0 == x;
                                if j == p {
                                    assert(m@[j].0 == x);
                                } else {
                                    assert(m@[j].0 == x);
                                }
                            }
                            if has_key(m@, x) {
                                let j = choose|j: int| 0 <= j < m@.len() && (#[trigger] m@[j]).0 == x;
                                if j != p {
                                    assert(old_m[j].0 == x);
                                }
                            }
                            if x == t@ {
                                assert(m@[p as int].0 == x);
                            }
                        } else {
                            assert(m@ == old_m.insert(p as int, (t@, ""@)));
                            if has_key(old_m, x) {
                                let j = choose|j: int| 0 <= j < old_m.len() && (#[trigger] old_m[j]).0 == x;
                                if j < p {
                                    assert(m@[j].0 == x);
                                } else {
                                    assert(m@[j + 1].0 == x);
                                }
                            }
                            if has_key(m@, x) {
                                let j = choose|j: int| 0 <= j < m@.len() && (#[trigger] m@[j]).0 == x;
                                if j < p {
                                    assert(old_m[j].0 == x);
                                } else if j > p {
                                    assert(old_m[j - 1].0 == x);
                                }
                            }
                            if x == t@ {
                                assert(m@[p as int].0 == x);
                            }
                        }
                    }
                    assert forall|x: Seq<char>| #[trigger] has_key(m@, x) <==> (exists|k: int| 0 <= k < i + 1 && x == trim(#[trigger] tv[k]) && x.len() > 0) by {
                        if x == t@ {
                            assert(x == trim(tv[i as int]) && x.len() > 0);
                        }
                        if exists|k: int| 0 <= k < i + 1 && x == trim(#[trigger] tv[k]) && x.len() > 0 {
                            let k = choose|k: int| 0 <= k < i + 1 && x == trim(#[trigger] tv[k]) && x.len() > 0;
                            if k < i {
                                assert(has_key(old_m, x));
                            }
                        }
                    }
                }
            } else {
                proof {
                    assert forall|x: Seq<char>| #[trigger] has_key(m@, x) <==> (exists|k: int| 0 <= k < i + 1 && x == trim(#[trigger] tv[k]) && x.len() > 0) by {
                        if exists|k: int| 0 <= k < i + 1 && x == trim(#[trigger] tv[k]) && x.len() > 0 {
                            let k = choose|k: int| 0 <= k < i + 1 && x == trim(#[trigger] tv[k]) && x.len() > 0;
                            if k == i {
                                assert(trim(tv[i as int]).len() == 0);
                            }
                        }
                    }
                }
            }
            i += 1;
        }
        let ghost mv = m@;
        let n: usize = if m.len() > 256 {
            256
        } else {
            m.len()
        };
        let mut j: usize = 0;
        while j < n
            invariant
                j <= n <= mv.len(),
                n <= 256,
                mv == m@,
                r@.map_values(|s: String| s@) == mv.subrange(0, j as int).map_values(|e: (Seq<char>, Seq<char>)| e.0),
            decreases n - j,
        {
            let (k, _) = m.entry(j);
            let ghost before = r@.map_values(|s: String| s@);
            let ks = owned(k);
            assert(ks@ == mv[j as int].0);
            r.push(ks);
            assert(r@.map_values(|s: String| s@) =~= before.push(ks@));
            assert(mv.subrange(0, j + 1).map_values(|e: (Seq<char>, Seq<char>)| e.0) =~= mv.subrange(
                0,
                j as int,
            ).map_values(|e: (Seq<char>, Seq<char>)| e.0).push(mv[j as int].0));
            j += 1;
        }
        proof {
            let rv = r@.map_values(|s: String| s@);
            let ts = term_set(tv);
            assert(forall|x: int| 0 <= x < rv.len() ==> rv[x] == mv[x].0);
            assert forall|x: int| 0 <= x < rv.len() implies ts.contains(#[trigger] rv[x]) by {
                assert(has_key(mv, mv[x].0));
            }
            assert forall|t: Seq<char>| #[trigger] ts.contains(t) && !rv.contains(t) implies rv.len() == 256 && forall|x: int|
                0 <= x < rv.len() ==> key_before(#[trigger] rv[x], t) by {
                assert(has_key(mv, t));
                let q = choose|q: int| 0 <= q < mv.len() && (#[trigger] mv[q]).0 == t;
                if q < n {
                    assert(rv[q] == t);
                }
                assert forall|x: int| 0 <= x < rv.len() implies key_before(#[trigger] rv[x], t) by {
                    assert(key_before(mv[x].0, mv[q].0));
                }
            }
        }
        r
    }

    /// Applies the corrections: the first 256 usable ones (in key order),
    /// longest alias first, each replacing every occurrence; the text
    /// unchanged when disabled.
    pub fn correct(&self, text: &str) -> (r: String)
        ensures
            !self.enabled ==> r@ == text@,
            self.enabled ==> r@ == apply_rules(text@, correction_rules(self.corrections@)),
    {
        if !self.enabled {
            return owned(text);
        }
        let ghost mv = self.corrections@;
        // usable corrections, in key order, at most 256
        let mut usable: Vec<(Vec<char>, Vec<char>)> = Vec::new();
        let mut k: usize = 0;
        while k < self.corrections.len()
            invariant
                k <= self.corrections@.len(),
                mv == self.corrections@,
                usable@.map_values(|e: (Vec<char>, Vec<char>)| (e.0@, e.1@)) == usable_corrections(mv.subrange(0, k as int)),
                forall|q: int| 0 <= q < usable@.len() ==> (#[trigger] usable@[q]).0@.len() > 0,
            decreases self.corrections@.len() - k,
        {
            let (w, c) = self.corrections.entry(k);
            let wc = chars_of(w);
            let cc = chars_of(c);
            proof {
                assert(mv.subrange(0, k + 1).drop_last() =~= mv.subrange(0, k as int));
            }
            if wc.len() > 0 && cc.len() > 0 {
                let ghost before = usable@.map_values(|e: (Vec<char>, Vec<char>)| (e.0@, e.1@));
                usable.push((wc, cc));
                assert(usable@.map_values(|e: (Vec<char>, Vec<char>)| (e.0@, e.1@)) =~= before.push(mv[k as int]));
            }
            k += 1;
        }
        assert(mv.subrange(0, mv.len() as int) =~= mv);
        let ghost uv = usable_corrections(mv);
        let limit: usize = if usable.len() > 256 {
            256
        } else {
            usable.len()
        };
        // stable sort by alias length, longest first
        let mut rules: Vec<(Vec<char>, Vec<char>)> = Vec::new();
        let mut a: usize = 0;
        while a < limit
            invariant
                a <= limit <= usable.len(),
                uv == usable@.map_values(|e: (Vec<char>, Vec<char>)| (e.0@, e.1@)),
                limit == (if uv.len() > 256 { 256 } else { uv.len() as int }),
                rules@.map_values(|e: (Vec<char>, Vec<char>)| (e.0@, e.1@)) == longest_alias_first(uv.take(a as int)),
                forall|q: int| 0 <= q < usable@.len() ==> (#[trigger] usable@[q]).0@.len() > 0,
                forall|q: int| 0 <= q < rules@.len() ==> (#[trigger] rules@[q]).0@.len() > 0,
            decreases limit - a,
        {
            let ghost rv0 = rules@.map_values(|e: (Vec<char>, Vec<char>)| (e.0@, e.1@));
            let x = (crate::text::chars_range(usable[a].0.as_slice(), 0, usable[a].0.len()), crate::text::chars_range(usable[a].1.as_slice(), 0, usable[a].1.len()));
            proof {
                assert(x.0@ =~= uv[a as int].0);
                assert(x.1@ =~= uv[a as int].1);
                assert(uv.take(a + 1).drop_last() =~= uv.take(a as int));
            }
            let mut p: usize = rules.len();
            while p > 0 && rules[p - 1].0.len() < x.0.len()
                invariant
                    p <= rules.len(),
                    rules@.map_values(|e: (Vec<char>, Vec<char>)| (e.0@, e.1@)) == rv0,
                    forall|q: int| p <= q < rv0.len() ==> (#[trigger] rv0[q]).0.len() < x.0@.len(),
                decreases p,
            {
                p -= 1;
            }
            proof {
                lemma_insert_alias_at(rv0, (x.0@, x.1@), p as int);
            }
            let ghost xv = x.0@;
            assert(xv.len() > 0);
            let ghost rules_before = rules@;
            rules.insert(p, x);
            assert(forall|q: int| 0 <= q < rules@.len() ==> (#[trigger] rules@[q]).0@.len() > 0) by {
                assert forall|q: int| 0 <= q < rules@.len() implies (#[trigger] rules@[q]).0@.len() > 0 by {
                    if q < p {
                        assert(rules@[q] == rules_before[q]);
                    } else if q > p {
                        assert(rules@[q] == rules_before[q - 1]);
                    }
                }
            }
            assert(rules@.map_values(|e: (Vec<char>, Vec<char>)| (e.0@, e.1@)) =~= rv0.insert(p as int, (x.0@, x.1@)));
            a += 1;
        }
        // apply
        let ghost rules_v = rules@.map_values(|e: (Vec<char>, Vec<char>)| (e.0@, e.1@));
        assert(rules_v == correction_rules(mv));
        assert(forall|q: int| 0 <= q < rules_v.len() ==> (#[trigger] rules_v[q]).0 == rules@[q].0@);
        let mut out = chars_of(text);
        let mut b: usize = 0;
        while b < rules.len()
            invariant
                b <= rules.len(),
                rules_v == rules@.map_values(|e: (Vec<char>, Vec<char>)| (e.0@, e.1@)),
                forall|q: int| 0 <= q < rules_v.len() ==> (#[trigger] rules_v[q]).0.len() > 0,
                out@ == apply_rules(text@, rules_v.take(b as int)),
            decreases rules.len() - b,
        {
            proof {
                assert(rules_v.take(b + 1).drop_last() =~= rules_v.take(b as int));
                assert(rules_v[b as int].0.len() > 0);
            }
            out = replace_all(out.as_slice(), rules[b].0.as_slice(), rules[b].1.as_slice());
            b += 1;
        }
        assert(rules_v.take(rules.len() as int) =~= rules_v);
        string_of(out.as_slice())
    }
}

proof fn lemma_insert_alias_at(s: Seq<(Seq<char>, Seq<char>)>, x: (Seq<char>, Seq<char>), p: int)
    requires
        0 <= p <= s.len(),
        forall|q: int| p <= q < s.len() ==> (#[trigger] s[q]).0.len() < x.0.len(),
        p > 0 ==> s[p - 1].0.len() >= x.0.len(),
    ensures
        insert_by_alias_len(s, x) == s.insert(p, x),
    decreases s.len(),
{
    if s.len() == 0 {
        assert(s.insert(p, x) =~= seq![x]);
    } else if p == s.len() {
        assert(s.insert(p, x) =~= s.push(x));
    } else {
        let d = s.drop_last();
        assert(forall|q: int| p <= q < d.len() ==> (#[trigger] d[q]).0.len() == s[q].0.len());
        lemma_insert_alias_at(d, x, p);
        assert(s.insert(p, x) =~= d.insert(p, x).push(s.last()));
    }
}

// ---------------------------------------------------------------- ASR settings

/// Speech-recognition settings. The hot-word bias strength of the
/// terminology settings is a float and is kept outside the library.
#[derive(Debug)]
pub struct AsrConfig {
    /// Engine for Chinese scenes (both streams).
    pub engine_zh: String,
    /// Engine for English scenes (both streams).
    pub engine_en: String,
    /// Local inference backend: `auto`, `cpu`, `cuda` or `metal`.
    pub backend: String,
    /// Hot words and deterministic corrections.
    pub terminology: TerminologyConfig,
    /// Punctuation restoration and semantic segmentation.
    pub punct_enabled: bool,
    pub aliyun_access_key_id: String,
    pub aliyun_access_key_secret: String,
    pub aliyun_app_key: String,
    /// `auto`, `local` or `cloud`.
    pub asr_mode: String,
}

impl Default for AsrConfig {
    fn default() -> (c: Self)
        ensures
            c.engine_zh@ == "qwen3-asr"@,
            c.engine_en@ == "qwen3-asr"@,
            c.backend@ == "auto"@,
            !c.terminology.enabled,
            c.terminology.terms@.len() == 0,
            c.terminology.corrections@.len() == 0,
            c.punct_enabled,
            c.aliyun_access_key_id@.len() == 0,
            c.aliyun_access_key_secret@.len() == 0,
            c.aliyun_app_key@.len() == 0,
            c.asr_mode@ == "auto"@,
    {
        AsrConfig {
            engine_zh: owned("qwen3-asr"),
            engine_en: owned("qwen3-asr"),
            backend: owned("auto"),
            terminology: TerminologyConfig::default(),
            punct_enabled: true,
            aliyun_access_key_id: String::new(),
            aliyun_access_key_secret: String::new(),
            aliyun_app_key: String::new(),
            asr_mode: default_asr_mode(),
        }
    }
}

} // verus!
