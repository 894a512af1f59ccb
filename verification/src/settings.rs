//! The settings the settings page edits, and how a submitted update changes
//! them: field by field, keys not submitted keep their value. Reading the
//! submitted JSON object happens outside the library; it hands over one
//! [`Field`] per key. Single-precision settings are held by their IEEE-754
//! bit patterns and arrive already clamped to their ranges.
//!
//! Plugin tables (arbitrary JSON values per plugin) and the custom scene's
//! parameters (see `scene::apply_scene_params`) are updated apart.
use vstd::prelude::*;

use crate::config::{cleaned_urls, is_mask_spec, mask_spec, LlmProviderConfig, SceneMode, VadPreset};
use crate::scene::{scene_mode_from_name, scene_mode_spec, vad_preset_from_name, vad_preset_spec};
use crate::sorted_map::StrMap;
use crate::text::{is_blank, is_blank_str, owned, str_eq, trim, trimmed_string};

verus! {

/// A submitted key: left as it is, or set to a value.
#[derive(Debug)]
pub enum Field<T> {
    Keep,
    Put(T),
}

/// Bits of the quality defaults: noise threshold 0.45, speech ratios 0.15
/// and 0.85, silence RMS 0.01, high RMS 0.5.
pub const QUALITY_NOISE_BITS: u32 = 0x3ee66666;
pub const QUALITY_MIN_SPEECH_BITS: u32 = 0x3e19999a;
pub const QUALITY_MAX_SPEECH_BITS: u32 = 0x3f59999a;
pub const QUALITY_SILENCE_BITS: u32 = 0x3c23d70a;
pub const QUALITY_HIGH_BITS: u32 = 0x3f000000;

/// The edited settings.
#[derive(Debug)]
pub struct Settings {
    pub llm_default: String,
    /// LLM providers by name, each name once.
    pub providers: Vec<(String, LlmProviderConfig)>,
    pub kb_enabled: bool,
    pub kb_folder: String,
    pub engine_zh: String,
    pub engine_en: String,
    pub backend: String,
    pub punct_enabled: bool,
    pub asr_mode: String,
    pub aliyun_access_key_id: String,
    pub aliyun_access_key_secret: String,
    pub aliyun_app_key: String,
    pub terminology_enabled: bool,
    pub hotword_score_bits: u32,
    pub terms: Vec<String>,
    pub corrections: StrMap,
    pub audio_source: String,
    pub input_gain_bits: u32,
    pub vad_preset: VadPreset,
    pub vad_threshold_bits: Option<u32>,
    pub vad_min_speech_ms: Option<u64>,
    pub vad_min_silence_ms: Option<u64>,
    pub vad_max_speech_ms: Option<u64>,
    pub mic_device: Option<i32>,
    pub loopback_device: Option<i32>,
    pub denoise_enabled: bool,
    pub denoise_gate_bits: u32,
    pub highpass: bool,
    pub endpoint_enabled: bool,
    pub endpoint_stable_ms: u64,
    pub endpoint_quiet_ms: u64,
    pub endpoint_force_quiet_ms: u64,
    pub endpoint_quiet_rms_bits: u32,
    pub endpoint_min_segment_ms: u64,
    /// Shortest committed segment (ms); `None`: no limit.
    pub min_segment_ms: Option<u64>,
    pub recording_enabled: bool,
    pub recording_dir: String,
    pub recording_clean_silence: bool,
    pub quality_auto_detect: bool,
    pub quality_noise_bits: u32,
    pub quality_min_speech_bits: u32,
    pub quality_max_speech_bits: u32,
    pub quality_silence_bits: u32,
    pub quality_high_bits: u32,
    pub webhooks_enabled: bool,
    pub webhook_urls: Vec<String>,
    pub proxy: String,
    pub scene_mode: SceneMode,
}

/// A provider as (base URL, model, API key).
pub type ProviderView = (Option<Seq<char>>, Seq<char>, Seq<char>);

pub open spec fn provider_view(p: LlmProviderConfig) -> ProviderView {
    (
        match p.base_url {
            Some(b) => Some(b@),
            None => None,
        },
        p.model@,
        p.api_key@,
    )
}

pub open spec fn providers_view(v: Seq<(String, LlmProviderConfig)>) -> Seq<(Seq<char>, ProviderView)> {
    v.map_values(|e: (String, LlmProviderConfig)| (e.0@, provider_view(e.1)))
}

pub open spec fn strings_view(v: Seq<String>) -> Seq<Seq<char>> {
    v.map_values(|s: String| s@)
}

/// What the settings hold, texts as character sequences.
pub struct SettingsView {
    pub llm_default: Seq<char>,
    pub providers: Seq<(Seq<char>, ProviderView)>,
    pub kb_enabled: bool,
    pub kb_folder: Seq<char>,
    pub engine_zh: Seq<char>,
    pub engine_en: Seq<char>,
    pub backend: Seq<char>,
    pub punct_enabled: bool,
    pub asr_mode: Seq<char>,
    pub aliyun_access_key_id: Seq<char>,
    pub aliyun_access_key_secret: Seq<char>,
    pub aliyun_app_key: Seq<char>,
    pub terminology_enabled: bool,
    pub hotword_score_bits: u32,
    pub terms: Seq<Seq<char>>,
    pub corrections: Seq<(Seq<char>, Seq<char>)>,
    pub audio_source: Seq<char>,
    pub input_gain_bits: u32,
    pub vad_preset: VadPreset,
    pub vad_threshold_bits: Option<u32>,
    pub vad_min_speech_ms: Option<u64>,
    pub vad_min_silence_ms: Option<u64>,
    pub vad_max_speech_ms: Option<u64>,
    pub mic_device: Option<i32>,
    pub loopback_device: Option<i32>,
    pub denoise_enabled: bool,
    pub denoise_gate_bits: u32,
    pub highpass: bool,
    pub endpoint_enabled: bool,
    pub endpoint_stable_ms: u64,
    pub endpoint_quiet_ms: u64,
    pub endpoint_force_quiet_ms: u64,
    pub endpoint_quiet_rms_bits: u32,
    pub endpoint_min_segment_ms: u64,
    pub min_segment_ms: Option<u64>,
    pub recording_enabled: bool,
    pub recording_dir: Seq<char>,
    pub recording_clean_silence: bool,
    pub quality_auto_detect: bool,
    pub quality_noise_bits: u32,
    pub quality_min_speech_bits: u32,
    pub quality_max_speech_bits: u32,
    pub quality_silence_bits: u32,
    pub quality_high_bits: u32,
    pub webhooks_enabled: bool,
    pub webhook_urls: Seq<Seq<char>>,
    pub proxy: Seq<char>,
    pub scene_mode: SceneMode,
}

impl View for Settings {
    type V = SettingsView;

    open spec fn view(&self) -> SettingsView {
        SettingsView {
            llm_default: self.llm_default@,
            providers: providers_view(self.providers@),
            kb_enabled: self.kb_enabled,
            kb_folder: self.kb_folder@,
            engine_zh: self.engine_zh@,
            engine_en: self.engine_en@,
            backend: self.backend@,
            punct_enabled: self.punct_enabled,
            asr_mode: self.asr_mode@,
            aliyun_access_key_id: self.aliyun_access_key_id@,
            aliyun_access_key_secret: self.aliyun_access_key_secret@,
            aliyun_app_key: self.aliyun_app_key@,
            terminology_enabled: self.terminology_enabled,
            hotword_score_bits: self.hotword_score_bits,
            terms: strings_view(self.terms@),
            corrections: self.corrections@,
            audio_source: self.audio_source@,
            input_gain_bits: self.input_gain_bits,
            vad_preset: self.vad_preset,
            vad_threshold_bits: self.vad_threshold_bits,
            vad_min_speech_ms: self.vad_min_speech_ms,
            vad_min_silence_ms: self.vad_min_silence_ms,
            vad_max_speech_ms: self.vad_max_speech_ms,
            mic_device: self.mic_device,
            loopback_device: self.loopback_device,
            denoise_enabled: self.denoise_enabled,
            denoise_gate_bits: self.denoise_gate_bits,
            highpass: self.highpass,
            endpoint_enabled: self.endpoint_enabled,
            endpoint_stable_ms: self.endpoint_stable_ms,
            endpoint_quiet_ms: self.endpoint_quiet_ms,
            endpoint_force_quiet_ms: self.endpoint_force_quiet_ms,
            endpoint_quiet_rms_bits: self.endpoint_quiet_rms_bits,
            endpoint_min_segment_ms: self.endpoint_min_segment_ms,
            min_segment_ms: self.min_segment_ms,
            recording_enabled: self.recording_enabled,
            recording_dir: self.recording_dir@,
            recording_clean_silence: self.recording_clean_silence,
            quality_auto_detect: self.quality_auto_detect,
            quality_noise_bits: self.quality_noise_bits,
            quality_min_speech_bits: self.quality_min_speech_bits,
            quality_max_speech_bits: self.quality_max_speech_bits,
            quality_silence_bits: self.quality_silence_bits,
            quality_high_bits: self.quality_high_bits,
            webhooks_enabled: self.webhooks_enabled,
            webhook_urls: strings_view(self.webhook_urls@),
            proxy: self.proxy@,
            scene_mode: self.scene_mode,
        }
    }
}

/// The submitted keys of one LLM provider.
#[derive(Debug)]
pub struct ProviderUpdate {
    pub name: String,
    pub api_key: Field<String>,
    pub model: Field<String>,
    pub base_url: Field<String>,
}

/// The submitted quality section: absent, `null` (back to the defaults), or
/// an object of keys.
#[derive(Debug)]
pub enum QualityUpdate {
    Keep,
    Reset,
    Fields {
        auto_detect: Field<bool>,
        noise_bits: Field<u32>,
        min_speech_bits: Field<u32>,
        max_speech_bits: Field<u32>,
        silence_bits: Field<u32>,
        high_bits: Field<u32>,
    },
}

/// A submission of the settings page, one field per key. A key that may be
/// present with a value of another type is a `Field<Option<_>>`, `Put(None)`
/// meaning present but not of the expected type.
#[derive(Debug)]
pub struct SettingsUpdate {
    pub llm_default: Field<String>,
    pub providers: Vec<ProviderUpdate>,
    pub kb_enabled: Field<bool>,
    pub kb_folder: Field<String>,
    /// `asr.engine_en`, and its former name `asr.client_engine`.
    pub engine_en: Field<Option<String>>,
    pub client_engine: Field<Option<String>>,
    /// `asr.engine_zh`, and its former name `asr.user_engine`.
    pub engine_zh: Field<Option<String>>,
    pub user_engine: Field<Option<String>>,
    pub backend: Field<String>,
    pub punct_enabled: Field<bool>,
    pub asr_mode: Field<String>,
    pub aliyun_access_key_id: Field<String>,
    pub aliyun_access_key_secret: Field<String>,
    pub aliyun_app_key: Field<String>,
    pub terminology_enabled: Field<bool>,
    /// Already clamped to 0..=10.
    pub hotword_score_bits: Field<u32>,
    pub terms: Field<Vec<String>>,
    pub corrections: Field<StrMap>,
    pub audio_source: Field<String>,
    /// Already clamped to 0..=24 dB.
    pub input_gain_bits: Field<u32>,
    pub vad_preset: Field<String>,
    pub vad_threshold_bits: Field<u32>,
    pub denoise_enabled: Field<bool>,
    pub denoise_gate_bits: Field<u32>,
    pub highpass: Field<bool>,
    pub endpoint_enabled: Field<bool>,
    pub endpoint_stable_ms: Field<u64>,
    pub endpoint_quiet_ms: Field<u64>,
    pub endpoint_force_quiet_ms: Field<u64>,
    /// Already clamped to 0..=0.5.
    pub endpoint_quiet_rms_bits: Field<u32>,
    pub endpoint_min_segment_ms: Field<u64>,
    /// `audio.min_segment_ms`: `Put(Some(n))` for an unsigned integer,
    /// `Put(None)` for `null`.
    pub min_segment_ms: Field<Option<u64>>,
    pub recording_enabled: Field<bool>,
    pub recording_dir: Field<String>,
    pub recording_clean_silence: Field<bool>,
    pub quality: QualityUpdate,
    pub webhooks_enabled: Field<bool>,
    /// `webhooks.urls` when an array: each item, when a string.
    pub webhook_urls: Field<Vec<Option<String>>>,
    pub proxy: Field<String>,
    pub scene_mode: Field<String>,
}

// ---------------------------------------------------------------- field rules

pub open spec fn field_or<T>(f: Field<T>, keep: T) -> T {
    match f {
        Field::Put(v) => v,
        Field::Keep => keep,
    }
}

pub open spec fn text_or(f: Field<String>, keep: Seq<char>) -> Seq<char> {
    match f {
        Field::Put(v) => v@,
        Field::Keep => keep,
    }
}

/// A text setting that is stored trimmed.
pub open spec fn trimmed_or(f: Field<String>, keep: Seq<char>) -> Seq<char> {
    match f {
        Field::Put(v) => trim(v@),
        Field::Keep => keep,
    }
}

/// A secret after a submission: the mask of the stored value (the field was
/// not edited) keeps it; anything else replaces it, trimmed.
pub open spec fn secret_or(f: Field<String>, stored: Seq<char>) -> Seq<char> {
    match f {
        Field::Put(v) => if is_mask_spec(v@, stored) {
            stored
        } else {
            trim(v@)
        },
        Field::Keep => stored,
    }
}

/// A setting with a current and a former key: the current key decides when
/// present (applied only when a string), else the former one.
pub open spec fn aliased_or(current: Field<Option<String>>, former: Field<Option<String>>, keep: Seq<char>) -> Seq<
    char,
> {
    match current {
        Field::Put(Some(v)) => v@,
        Field::Put(None) => keep,
        Field::Keep => match former {
            Field::Put(Some(v)) => v@,
            _ => keep,
        },
    }
}

/// A duration setting with a floor.
pub open spec fn at_least_or(f: Field<u64>, floor: u64, keep: u64) -> u64 {
    match f {
        Field::Put(v) => if v < floor {
            floor
        } else {
            v
        },
        Field::Keep => keep,
    }
}

/// The shortest committed segment after a submission: 0 or `null` turn the
/// limit off.
pub open spec fn min_segment_or(f: Field<Option<u64>>, keep: Option<u64>) -> Option<u64> {
    match f {
        Field::Put(Some(v)) => if v == 0 {
            None
        } else {
            Some(v)
        },
        Field::Put(None) => None,
        Field::Keep => keep,
    }
}

/// The capture source: `loopback`, or else the microphone.
pub open spec fn source_or(f: Field<String>, keep: Seq<char>) -> Seq<char> {
    match f {
        Field::Put(v) => if v@ == "loopback"@ {
            "loopback"@
        } else {
            "mic"@
        },
        Field::Keep => keep,
    }
}

/// The index of the provider named `name`, from `i` on; -1 when none.
pub open spec fn provider_index(ps: Seq<(Seq<char>, ProviderView)>, name: Seq<char>, i: int) -> int
    decreases ps.len() - i,
{
    if i < 0 || i >= ps.len() {
        -1
    } else if ps[i].0 == name {
        i
    } else {
        provider_index(ps, name, i + 1)
    }
}

/// A new provider's settings: no base URL, model `deepseek-chat`, no key.
pub open spec fn default_provider() -> ProviderView {
    (None, "deepseek-chat"@, Seq::empty())
}

/// A provider's settings after its submitted keys.
pub open spec fn provider_after(p: ProviderView, up: ProviderUpdate) -> ProviderView {
    (
        match up.base_url {
            Field::Put(b) => Some(b@),
            Field::Keep => p.0,
        },
        text_or(up.model, p.1),
        secret_or(up.api_key, p.2),
    )
}

/// One provider's submission: the named provider is updated in place, or
/// added (from the defaults) when there is none.
pub open spec fn provider_step(ps: Seq<(Seq<char>, ProviderView)>, up: ProviderUpdate) -> Seq<
    (Seq<char>, ProviderView),
> {
    let i = provider_index(ps, up.name@, 0);
    if i < 0 {
        ps.push((up.name@, provider_after(default_provider(), up)))
    } else {
        ps.update(i, (ps[i].0, provider_after(ps[i].1, up)))
    }
}

/// The providers after the submissions, in order.
pub open spec fn providers_after(ps: Seq<(Seq<char>, ProviderView)>, ups: Seq<ProviderUpdate>) -> Seq<
    (Seq<char>, ProviderView),
>
    decreases ups.len(),
{
    if ups.len() == 0 {
        ps
    } else {
        provider_step(providers_after(ps, ups.drop_last()), ups.last())
    }
}

// ---------------------------------------------------------------- sections

pub open spec fn llm_after(s: SettingsView, u: SettingsUpdate) -> SettingsView {
    SettingsView {
        llm_default: text_or(u.llm_default, s.llm_default),
        providers: providers_after(s.providers, u.providers@),
        kb_enabled: field_or(u.kb_enabled, s.kb_enabled),
        kb_folder: text_or(u.kb_folder, s.kb_folder),
        ..s
    }
}

pub open spec fn asr_after(s: SettingsView, u: SettingsUpdate) -> SettingsView {
    SettingsView {
        engine_en: aliased_or(u.engine_en, u.client_engine, s.engine_en),
        engine_zh: aliased_or(u.engine_zh, u.user_engine, s.engine_zh),
        backend: text_or(u.backend, s.backend),
        punct_enabled: field_or(u.punct_enabled, s.punct_enabled),
        asr_mode: text_or(u.asr_mode, s.asr_mode),
        aliyun_access_key_id: trimmed_or(u.aliyun_access_key_id, s.aliyun_access_key_id),
        aliyun_access_key_secret: secret_or(u.aliyun_access_key_secret, s.aliyun_access_key_secret),
        aliyun_app_key: trimmed_or(u.aliyun_app_key, s.aliyun_app_key),
        terminology_enabled: field_or(u.terminology_enabled, s.terminology_enabled),
        hotword_score_bits: field_or(u.hotword_score_bits, s.hotword_score_bits),
        terms: match u.terms {
            Field::Put(v) => strings_view(v@),
            Field::Keep => s.terms,
        },
        corrections: match u.corrections {
            Field::Put(m) => m@,
            Field::Keep => s.corrections,
        },
        ..s
    }
}

pub open spec fn audio_input_after(s: SettingsView, u: SettingsUpdate) -> SettingsView {
    SettingsView {
        audio_source: source_or(u.audio_source, s.audio_source),
        input_gain_bits: field_or(u.input_gain_bits, s.input_gain_bits),
        vad_preset: match u.vad_preset {
            Field::Put(n) => vad_preset_spec(n@),
            Field::Keep => s.vad_preset,
        },
        vad_threshold_bits: match u.vad_threshold_bits {
            Field::Put(b) => Some(b),
            Field::Keep => s.vad_threshold_bits,
        },
        denoise_enabled: field_or(u.denoise_enabled, s.denoise_enabled),
        denoise_gate_bits: field_or(u.denoise_gate_bits, s.denoise_gate_bits),
        highpass: field_or(u.highpass, s.highpass),
        ..s
    }
}

pub open spec fn endpoint_after(s: SettingsView, u: SettingsUpdate) -> SettingsView {
    SettingsView {
        endpoint_enabled: field_or(u.endpoint_enabled, s.endpoint_enabled),
        endpoint_stable_ms: at_least_or(u.endpoint_stable_ms, 100, s.endpoint_stable_ms),
        endpoint_quiet_ms: at_least_or(u.endpoint_quiet_ms, 100, s.endpoint_quiet_ms),
        endpoint_force_quiet_ms: at_least_or(u.endpoint_force_quiet_ms, 200, s.endpoint_force_quiet_ms),
        endpoint_quiet_rms_bits: field_or(u.endpoint_quiet_rms_bits, s.endpoint_quiet_rms_bits),
        endpoint_min_segment_ms: field_or(u.endpoint_min_segment_ms, s.endpoint_min_segment_ms),
        min_segment_ms: min_segment_or(u.min_segment_ms, s.min_segment_ms),
        ..s
    }
}

pub open spec fn audio_after(s: SettingsView, u: SettingsUpdate) -> SettingsView {
    endpoint_after(audio_input_after(s, u), u)
}

pub open spec fn quality_after(s: SettingsView, q: QualityUpdate) -> SettingsView {
    match q {
        QualityUpdate::Keep => s,
        QualityUpdate::Reset => SettingsView {
            quality_auto_detect: true,
            quality_noise_bits: QUALITY_NOISE_BITS,
            quality_min_speech_bits: QUALITY_MIN_SPEECH_BITS,
            quality_max_speech_bits: QUALITY_MAX_SPEECH_BITS,
            quality_silence_bits: QUALITY_SILENCE_BITS,
            quality_high_bits: QUALITY_HIGH_BITS,
            ..s
        },
        QualityUpdate::Fields { auto_detect, noise_bits, min_speech_bits, max_speech_bits, silence_bits, high_bits } =>
            SettingsView {
            quality_auto_detect: field_or(auto_detect, s.quality_auto_detect),
            quality_noise_bits: field_or(noise_bits, s.quality_noise_bits),
            quality_min_speech_bits: field_or(min_speech_bits, s.quality_min_speech_bits),
            quality_max_speech_bits: field_or(max_speech_bits, s.quality_max_speech_bits),
            quality_silence_bits: field_or(silence_bits, s.quality_silence_bits),
            quality_high_bits: field_or(high_bits, s.quality_high_bits),
            ..s
        },
    }
}

pub open spec fn rest_after(s: SettingsView, u: SettingsUpdate) -> SettingsView {
    SettingsView {
        recording_enabled: field_or(u.recording_enabled, s.recording_enabled),
        recording_dir: text_or(u.recording_dir, s.recording_dir),
        recording_clean_silence: field_or(u.recording_clean_silence, s.recording_clean_silence),
        webhooks_enabled: field_or(u.webhooks_enabled, s.webhooks_enabled),
        webhook_urls: match u.webhook_urls {
            Field::Put(items) => cleaned_urls(items@),
            Field::Keep => s.webhook_urls,
        },
        proxy: trimmed_or(u.proxy, s.proxy),
        scene_mode: match u.scene_mode {
            Field::Put(n) => scene_mode_spec(n@),
            Field::Keep => s.scene_mode,
        },
        ..s
    }
}

/// The settings after a submission: every submitted key applied by its
/// rule, every other setting kept.
pub open spec fn settings_after(s: SettingsView, u: SettingsUpdate) -> SettingsView {
    rest_after(quality_after(audio_after(asr_after(llm_after(s, u), u), u), u.quality), u)
}

// ---------------------------------------------------------------- applying

fn put_copy<T: Copy>(dst: &mut T, f: &Field<T>)
    ensures
        *final(dst) == field_or(*f, *old(dst)),
{
    match f {
        Field::Put(v) => {
            *dst = *v;
        },
        Field::Keep => {},
    }
}

fn put_text(dst: &mut String, f: &Field<String>)
    ensures
        final(dst)@ == text_or(*f, old(dst)@),
{
    match f {
        Field::Put(v) => {
            *dst = owned(v.as_str());
        },
        Field::Keep => {},
    }
}

fn put_trimmed(dst: &mut String, f: &Field<String>)
    ensures
        final(dst)@ == trimmed_or(*f, old(dst)@),
{
    match f {
        Field::Put(v) => {
            *dst = trimmed_string(v.as_str());
        },
        Field::Keep => {},
    }
}

fn put_secret(dst: &mut String, f: &Field<String>)
    ensures
        final(dst)@ == secret_or(*f, old(dst)@),
{
    match f {
        Field::Put(v) => {
            crate::config::apply_secret(dst, v.as_str());
        },
        Field::Keep => {},
    }
}

fn put_aliased(dst: &mut String, current: &Field<Option<String>>, former: &Field<Option<String>>)
    ensures
        final(dst)@ == aliased_or(*current, *former, old(dst)@),
{
    match current {
        Field::Put(Some(v)) => {
            *dst = owned(v.as_str());
        },
        Field::Put(None) => {},
        Field::Keep => match former {
            Field::Put(Some(v)) => {
                *dst = owned(v.as_str());
            },
            _ => {},
        },
    }
}

fn put_at_least(dst: &mut u64, f: &Field<u64>, floor: u64)
    ensures
        *final(dst) == at_least_or(*f, floor, *old(dst)),
{
    match f {
        Field::Put(v) => {
            *dst = if *v < floor {
                floor
            } else {
                *v
            };
        },
        Field::Keep => {},
    }
}

fn put_source(dst: &mut String, f: &Field<String>)
    ensures
        final(dst)@ == source_or(*f, old(dst)@),
{
    match f {
        Field::Put(v) => {
            *dst = if str_eq(v.as_str(), "loopback") {
                owned("loopback")
            } else {
                owned("mic")
            };
        },
        Field::Keep => {},
    }
}

fn put_preset(dst: &mut VadPreset, f: &Field<String>)
    ensures
        *final(dst) == match *f {
            Field::Put(n) => vad_preset_spec(n@),
            Field::Keep => *old(dst),
        },
{
    match f {
        Field::Put(n) => {
            *dst = vad_preset_from_name(n.as_str());
        },
        Field::Keep => {},
    }
}

fn put_threshold(dst: &mut Option<u32>, f: &Field<u32>)
    ensures
        *final(dst) == match *f {
            Field::Put(b) => Some(b),
            Field::Keep => *old(dst),
        },
{
    match f {
        Field::Put(b) => {
            *dst = Some(*b);
        },
        Field::Keep => {},
    }
}

fn provider_updated(p: LlmProviderConfig, up: &ProviderUpdate) -> (r: LlmProviderConfig)
    ensures
        provider_view(r) == provider_after(provider_view(p), *up),
{
    let mut p = p;
    match &up.base_url {
        Field::Put(b) => {
            p.base_url = Some(owned(b.as_str()));
        },
        Field::Keep => {},
    }
    put_text(&mut p.model, &up.model);
    put_secret(&mut p.api_key, &up.api_key);
    p
}

/// Applies one provider's submission (see [`provider_step`]).
fn apply_provider(ps: &mut Vec<(String, LlmProviderConfig)>, up: &ProviderUpdate)
    ensures
        providers_view(final(ps)@) == provider_step(providers_view(old(ps)@), *up),
{
    let ghost pv = providers_view(ps@);
    let mut i: usize = 0;
    while i < ps.len() && !str_eq(ps[i].0.as_str(), up.name.as_str())
        invariant
            i <= ps.len(),
            pv == providers_view(ps@),
            provider_index(pv, up.name@, 0) == provider_index(pv, up.name@, i as int),
        decreases ps.len() - i,
    {
        assert(pv[i as int].0 == ps@[i as int].0@);
        i += 1;
    }
    if i == ps.len() {
        proof {
            reveal_strlit("deepseek-chat");
        }
        let fresh = LlmProviderConfig { base_url: None, model: owned("deepseek-chat"), api_key: String::new() };
        assert(provider_view(fresh) == default_provider());
        let cfg = provider_updated(fresh, up);
        ps.push((owned(up.name.as_str()), cfg));
        assert(providers_view(ps@) =~= pv.push((up.name@, provider_after(default_provider(), *up))));
    } else {
        assert(pv[i as int].0 == up.name@);
        let (n, cfg) = ps.remove(i);
        let cfg2 = provider_updated(cfg, up);
        ps.insert(i, (n, cfg2));
        assert(providers_view(ps@) =~= pv.update(i as int, (pv[i as int].0, provider_after(pv[i as int].1, *up))));
    }
}

fn apply_llm(c: &mut Settings, u: &SettingsUpdate)
    ensures
        final(c)@ == llm_after(old(c)@, *u),
{
    put_text(&mut c.llm_default, &u.llm_default);
    let ghost start = providers_view(c.providers@);
    let ghost mid = c@;
    let mut k: usize = 0;
    while k < u.providers.len()
        invariant
            k <= u.providers@.len(),
            providers_view(c.providers@) == providers_after(start, u.providers@.take(k as int)),
            c@ == (SettingsView { providers: c@.providers, ..mid }),
        decreases u.providers@.len() - k,
    {
        proof {
            let t = u.providers@.take(k + 1);
            assert(t.drop_last() =~= u.providers@.take(k as int));
            assert(t.last() == u.providers@[k as int]);
        }
        apply_provider(&mut c.providers, &u.providers[k]);
        k += 1;
    }
    assert(u.providers@.take(u.providers@.len() as int) =~= u.providers@);
    put_copy(&mut c.kb_enabled, &u.kb_enabled);
    put_text(&mut c.kb_folder, &u.kb_folder);
}

fn apply_asr(c: &mut Settings, u: &SettingsUpdate)
    ensures
        final(c)@ == (SettingsView { terms: old(c)@.terms, corrections: old(c)@.corrections, ..asr_after(old(c)@, *u) }),
{
    put_aliased(&mut c.engine_en, &u.engine_en, &u.client_engine);
    put_aliased(&mut c.engine_zh, &u.engine_zh, &u.user_engine);
    put_text(&mut c.backend, &u.backend);
    put_copy(&mut c.punct_enabled, &u.punct_enabled);
    put_text(&mut c.asr_mode, &u.asr_mode);
    put_trimmed(&mut c.aliyun_access_key_id, &u.aliyun_access_key_id);
    put_secret(&mut c.aliyun_access_key_secret, &u.aliyun_access_key_secret);
    put_trimmed(&mut c.aliyun_app_key, &u.aliyun_app_key);
    put_copy(&mut c.terminology_enabled, &u.terminology_enabled);
    put_copy(&mut c.hotword_score_bits, &u.hotword_score_bits);
}

fn apply_audio(c: &mut Settings, u: &SettingsUpdate)
    ensures
        final(c)@ == audio_after(old(c)@, *u),
{
    apply_audio_input(c, u);
    apply_endpoint(c, u);
}

#[verifier::rlimit(100)]
fn apply_audio_input(c: &mut Settings, u: &SettingsUpdate)
    ensures
        final(c)@ == audio_input_after(old(c)@, *u),
{
    put_source(&mut c.audio_source, &u.audio_source);
    put_copy(&mut c.input_gain_bits, &u.input_gain_bits);
    put_preset(&mut c.vad_preset, &u.vad_preset);
    put_threshold(&mut c.vad_threshold_bits, &u.vad_threshold_bits);
    put_copy(&mut c.denoise_enabled, &u.denoise_enabled);
    put_copy(&mut c.denoise_gate_bits, &u.denoise_gate_bits);
    put_copy(&mut c.highpass, &u.highpass);
}

#[verifier::rlimit(100)]
fn apply_endpoint(c: &mut Settings, u: &SettingsUpdate)
    ensures
        final(c)@ == endpoint_after(old(c)@, *u),
{
    put_copy(&mut c.endpoint_enabled, &u.endpoint_enabled);
    put_at_least(&mut c.endpoint_stable_ms, &u.endpoint_stable_ms, 100);
    put_at_least(&mut c.endpoint_quiet_ms, &u.endpoint_quiet_ms, 100);
    put_at_least(&mut c.endpoint_force_quiet_ms, &u.endpoint_force_quiet_ms, 200);
    put_copy(&mut c.endpoint_quiet_rms_bits, &u.endpoint_quiet_rms_bits);
    put_copy(&mut c.endpoint_min_segment_ms, &u.endpoint_min_segment_ms);
    match &u.min_segment_ms {
        Field::Put(Some(v)) => {
            c.min_segment_ms = if *v == 0 {
                None
            } else {
                Some(*v)
            };
        },
        Field::Put(None) => {
            c.min_segment_ms = None;
        },
        Field::Keep => {},
    }
}

#[verifier::rlimit(100)]
fn apply_quality(c: &mut Settings, q: &QualityUpdate)
    ensures
        final(c)@ == quality_after(old(c)@, *q),
{
    match q {
        QualityUpdate::Keep => {},
        QualityUpdate::Reset => {
            c.quality_auto_detect = true;
            c.quality_noise_bits = QUALITY_NOISE_BITS;
            c.quality_min_speech_bits = QUALITY_MIN_SPEECH_BITS;
            c.quality_max_speech_bits = QUALITY_MAX_SPEECH_BITS;
            c.quality_silence_bits = QUALITY_SILENCE_BITS;
            c.quality_high_bits = QUALITY_HIGH_BITS;
        },
        QualityUpdate::Fields { auto_detect, noise_bits, min_speech_bits, max_speech_bits, silence_bits, high_bits } => {
            put_copy(&mut c.quality_auto_detect, auto_detect);
            put_copy(&mut c.quality_noise_bits, noise_bits);
            put_copy(&mut c.quality_min_speech_bits, min_speech_bits);
            put_copy(&mut c.quality_max_speech_bits, max_speech_bits);
            put_copy(&mut c.quality_silence_bits, silence_bits);
            put_copy(&mut c.quality_high_bits, high_bits);
        },
    }
}

#[verifier::rlimit(100)]
fn apply_rest(c: &mut Settings, u: &SettingsUpdate)
    ensures
        final(c)@ == rest_after(old(c)@, *u),
{
    put_copy(&mut c.recording_enabled, &u.recording_enabled);
    put_text(&mut c.recording_dir, &u.recording_dir);
    put_copy(&mut c.recording_clean_silence, &u.recording_clean_silence);
    put_copy(&mut c.webhooks_enabled, &u.webhooks_enabled);
    match &u.webhook_urls {
        Field::Put(items) => {
            c.webhook_urls = crate::config::cleaned_webhook_urls(items);
        },
        Field::Keep => {},
    }
    put_trimmed(&mut c.proxy, &u.proxy);
    match &u.scene_mode {
        Field::Put(n) => {
            c.scene_mode = scene_mode_from_name(n.as_str());
        },
        Field::Keep => {},
    }
}

/// Applies a submission of the settings page (see [`settings_after`]).
#[verifier::rlimit(100)]
pub fn apply_settings_update(c: &mut Settings, u: SettingsUpdate)
    ensures
        final(c)@ == settings_after(old(c)@, u),
{
    let ghost uu = u;
    apply_llm(c, &u);
    apply_asr(c, &u);
    apply_audio(c, &u);
    apply_quality(c, &u.quality);
    apply_rest(c, &u);
    let ghost before = c@;
    match u.terms {
        Field::Put(v) => {
            c.terms = v;
        },
        Field::Keep => {},
    }
    match u.corrections {
        Field::Put(m) => {
            c.corrections = m;
        },
        Field::Keep => {},
    }
    assert(c@ == settings_after(old(c)@, uu));
}

// ---------------------------------------------------------------- writing a snapshot back

pub open spec fn puts<T>(f: Field<T>, v: T) -> bool {
    f == Field::Put(v)
}

pub open spec fn some_text(o: Option<String>, v: Seq<char>) -> bool {
    o matches Some(x) && x@ == v
}

pub open spec fn puts_text(f: Field<String>, v: Seq<char>) -> bool {
    f matches Field::Put(x) && x@ == v
}

/// The submission of one provider's snapshot: its name, its model, its
/// base URL when it has one, and the mask of its key.
pub open spec fn provider_snapshot(name: Seq<char>, p: ProviderView, up: ProviderUpdate) -> bool {
    &&& up.name@ == name
    &&& puts_text(up.api_key, mask_spec(p.2))
    &&& puts_text(up.model, p.1)
    &&& match p.0 {
        Some(b) => puts_text(up.base_url, b),
        None => up.base_url is Keep,
    }
}

/// A submission made of the settings page's snapshot of `s`: every key
/// holds the value shown, secrets their masks, the preset and scene mode
/// names that read back as the current ones, and one entry per shown
/// provider.
pub open spec fn is_snapshot_update(s: SettingsView, u: SettingsUpdate) -> bool {
    &&& puts_text(u.llm_default, s.llm_default)
    &&& forall|j: int|
        0 <= j < u.providers@.len() ==> exists|i: int|
            0 <= i < s.providers.len() && provider_snapshot(s.providers[i].0, s.providers[i].1, #[trigger] u.providers@[j])
    &&& puts(u.kb_enabled, s.kb_enabled)
    &&& puts_text(u.kb_folder, s.kb_folder)
    &&& u.engine_en matches Field::Put(Some(x)) && x@ == s.engine_en
    &&& u.engine_zh matches Field::Put(Some(x)) && x@ == s.engine_zh
    &&& puts_text(u.backend, s.backend)
    &&& puts(u.punct_enabled, s.punct_enabled)
    &&& puts_text(u.asr_mode, s.asr_mode)
    &&& puts_text(u.aliyun_access_key_id, s.aliyun_access_key_id)
    &&& puts_text(u.aliyun_access_key_secret, mask_spec(s.aliyun_access_key_secret))
    &&& puts_text(u.aliyun_app_key, s.aliyun_app_key)
    &&& puts(u.terminology_enabled, s.terminology_enabled)
    &&& puts(u.hotword_score_bits, s.hotword_score_bits)
    &&& u.terms matches Field::Put(v) && strings_view(v@) == s.terms
    &&& u.corrections matches Field::Put(m) && m@ == s.corrections
    &&& puts_text(u.audio_source, s.audio_source)
    &&& puts(u.input_gain_bits, s.input_gain_bits)
    &&& u.vad_preset matches Field::Put(n) && vad_preset_spec(n@) == s.vad_preset
    &&& match s.vad_threshold_bits {
        Some(b) => puts(u.vad_threshold_bits, b),
        None => u.vad_threshold_bits is Keep,
    }
    &&& puts(u.denoise_enabled, s.denoise_enabled)
    &&& puts(u.denoise_gate_bits, s.denoise_gate_bits)
    &&& puts(u.highpass, s.highpass)
    &&& puts(u.endpoint_enabled, s.endpoint_enabled)
    &&& puts(u.endpoint_stable_ms, s.endpoint_stable_ms)
    &&& puts(u.endpoint_quiet_ms, s.endpoint_quiet_ms)
    &&& puts(u.endpoint_force_quiet_ms, s.endpoint_force_quiet_ms)
    &&& puts(u.endpoint_quiet_rms_bits, s.endpoint_quiet_rms_bits)
    &&& puts(u.endpoint_min_segment_ms, s.endpoint_min_segment_ms)
    &&& puts(u.min_segment_ms, s.min_segment_ms)
    &&& puts(u.recording_enabled, s.recording_enabled)
    &&& puts_text(u.recording_dir, s.recording_dir)
    &&& puts(u.recording_clean_silence, s.recording_clean_silence)
    &&& u.quality == QualityUpdate::Fields {
        auto_detect: Field::Put(s.quality_auto_detect),
        noise_bits: Field::Put(s.quality_noise_bits),
        min_speech_bits: Field::Put(s.quality_min_speech_bits),
        max_speech_bits: Field::Put(s.quality_max_speech_bits),
        silence_bits: Field::Put(s.quality_silence_bits),
        high_bits: Field::Put(s.quality_high_bits),
    }
    &&& puts(u.webhooks_enabled, s.webhooks_enabled)
    &&& u.webhook_urls matches Field::Put(items) && items@.len() == s.webhook_urls.len() && forall|k: int|
        0 <= k < items@.len() ==> some_text(#[trigger] items@[k], s.webhook_urls[k])
    &&& puts_text(u.proxy, s.proxy)
    &&& u.scene_mode matches Field::Put(n) && scene_mode_spec(n@) == s.scene_mode
}

/// Settings in the form the update rules leave them: trimmed identifiers,
/// secrets and proxy, a known capture source, durations above their floors,
/// no zero segment limit, clean webhook URLs, each provider named once.
pub open spec fn settings_normalized(s: SettingsView) -> bool {
    &&& s.aliyun_access_key_id == trim(s.aliyun_access_key_id)
    &&& s.aliyun_access_key_secret == trim(s.aliyun_access_key_secret)
    &&& s.aliyun_app_key == trim(s.aliyun_app_key)
    &&& s.proxy == trim(s.proxy)
    &&& (s.audio_source == "mic"@ || s.audio_source == "loopback"@)
    &&& s.endpoint_stable_ms >= 100
    &&& s.endpoint_quiet_ms >= 100
    &&& s.endpoint_force_quiet_ms >= 200
    &&& s.min_segment_ms != Some(0u64)
    &&& forall|k: int| 0 <= k < s.webhook_urls.len() ==> #[trigger] trim(s.webhook_urls[k]) == s.webhook_urls[k] && s.webhook_urls[k].len() > 0
    &&& forall|i: int, j: int| 0 <= i < j < s.providers.len() ==> (#[trigger] s.providers[i]).0 != (#[trigger] s.providers[j]).0
    &&& forall|i: int| 0 <= i < s.providers.len() ==> (#[trigger] s.providers[i]).1.2 == trim(s.providers[i].1.2)
}

proof fn lemma_secret_round_trip(stored: Seq<char>, f: Field<String>)
    requires
        stored == trim(stored),
        puts_text(f, mask_spec(stored)),
    ensures
        secret_or(f, stored) == stored,
{
    crate::text::lemma_trim_blank(stored);
    if is_blank(stored) {
        assert(trim(stored).len() == 0);
        assert(stored.len() == 0);
        assert(mask_spec(stored) == Seq::<char>::empty());
        crate::text::lemma_trim_blank(Seq::<char>::empty());
        assert(trim(Seq::<char>::empty()).len() == 0);
    }
}

proof fn lemma_provider_index_of(ps: Seq<(Seq<char>, ProviderView)>, i: int, k: int)
    requires
        0 <= k <= i < ps.len(),
        forall|a: int, b: int| 0 <= a < b < ps.len() ==> (#[trigger] ps[a]).0 != (#[trigger] ps[b]).0,
    ensures
        provider_index(ps, ps[i].0, k) == i,
    decreases i - k,
{
    if k < i {
        assert(ps[k].0 != ps[i].0);
        lemma_provider_index_of(ps, i, k + 1);
    }
}

proof fn lemma_providers_round_trip(ps: Seq<(Seq<char>, ProviderView)>, ups: Seq<ProviderUpdate>)
    requires
        forall|a: int, b: int| 0 <= a < b < ps.len() ==> (#[trigger] ps[a]).0 != (#[trigger] ps[b]).0,
        forall|i: int| 0 <= i < ps.len() ==> (#[trigger] ps[i]).1.2 == trim(ps[i].1.2),
        forall|j: int|
            0 <= j < ups.len() ==> exists|i: int| 0 <= i < ps.len() && provider_snapshot(ps[i].0, ps[i].1, #[trigger] ups[j]),
    ensures
        providers_after(ps, ups) == ps,
    decreases ups.len(),
{
    if ups.len() > 0 {
        assert forall|j: int| 0 <= j < ups.drop_last().len() implies exists|i: int|
            0 <= i < ps.len() && provider_snapshot(ps[i].0, ps[i].1, #[trigger] ups.drop_last()[j]) by {
            assert(ups.drop_last()[j] == ups[j]);
        }
        lemma_providers_round_trip(ps, ups.drop_last());
        let up = ups.last();
        assert(ups[ups.len() - 1] == up);
        let i = choose|i: int| 0 <= i < ps.len() && provider_snapshot(ps[i].0, ps[i].1, up);
        lemma_provider_index_of(ps, i, 0);
        lemma_secret_round_trip(ps[i].1.2, up.api_key);
        assert(provider_after(ps[i].1, up) == ps[i].1);
        assert(ps.update(i, (ps[i].0, ps[i].1)) =~= ps);
    }
}

proof fn lemma_urls_round_trip(items: Seq<Option<String>>, urls: Seq<Seq<char>>)
    requires
        items.len() == urls.len(),
        forall|k: int| 0 <= k < items.len() ==> some_text(#[trigger] items[k], urls[k]),
        forall|k: int| 0 <= k < urls.len() ==> #[trigger] trim(urls[k]) == urls[k] && urls[k].len() > 0,
    ensures
        cleaned_urls(items) == urls,
    decreases items.len(),
{
    if items.len() > 0 {
        let n = items.len() - 1;
        assert forall|k: int| 0 <= k < items.drop_last().len() implies some_text(
            #[trigger] items.drop_last()[k],
            urls.drop_last()[k],
        ) by {
            assert(items.drop_last()[k] == items[k]);
        }
        assert forall|k: int| 0 <= k < urls.drop_last().len() implies #[trigger] trim(urls.drop_last()[k])
            == urls.drop_last()[k] && urls.drop_last()[k].len() > 0 by {
            assert(urls.drop_last()[k] == urls[k]);
        }
        lemma_urls_round_trip(items.drop_last(), urls.drop_last());
        assert(some_text(items[n], urls[n]));
        assert(trim(urls[n]) == urls[n]);
        assert(urls =~= urls.drop_last().push(urls[n]));
    }
}

/// Writing the settings page's snapshot back changes nothing: applying a
/// submission of the shown values (secrets shown masked) to settings in
/// normal form gives the same settings.
pub proof fn lemma_snapshot_round_trip(s: SettingsView, u: SettingsUpdate)
    requires
        settings_normalized(s),
        is_snapshot_update(s, u),
    ensures
        settings_after(s, u) == s,
{
    lemma_providers_round_trip(s.providers, u.providers@);
    lemma_secret_round_trip(s.aliyun_access_key_secret, u.aliyun_access_key_secret);
    let items = u.webhook_urls->Put_0@;
    lemma_urls_round_trip(items, s.webhook_urls);
    let l = llm_after(s, u);
    assert(l == s);
    let a = asr_after(l, u);
    assert(a == s);
    let d = audio_after(a, u);
    assert(audio_input_after(s, u) == s);
    assert(d == s);
    let q = quality_after(d, u.quality);
    assert(q == s);
    assert(rest_after(q, u) == s);
}

// ---------------------------------------------------------------- merging a settings file over the defaults

/// A text setting of the file over its default: a blank value falls back.
pub open spec fn text_over(user: Seq<char>, default: Seq<char>) -> Seq<char> {
    if is_blank(user) {
        default
    } else {
        user
    }
}

pub open spec fn or_else<T>(user: Option<T>, default: Option<T>) -> Option<T> {
    match user {
        Some(v) => Some(v),
        None => default,
    }
}

/// A provider of the file over the list: it replaces the provider of that
/// name, or is added.
pub open spec fn provider_upsert(ps: Seq<(Seq<char>, ProviderView)>, e: (Seq<char>, ProviderView)) -> Seq<
    (Seq<char>, ProviderView),
> {
    let i = provider_index(ps, e.0, 0);
    if i < 0 {
        ps.push(e)
    } else {
        ps.update(i, e)
    }
}

/// The default providers with the file's providers put over them, in order.
pub open spec fn providers_merged(d: Seq<(Seq<char>, ProviderView)>, us: Seq<(Seq<char>, ProviderView)>) -> Seq<
    (Seq<char>, ProviderView),
>
    decreases us.len(),
{
    if us.len() == 0 {
        d
    } else {
        provider_upsert(providers_merged(d, us.drop_last()), us.last())
    }
}

/// The settings of a file over the defaults: engine names, backend, capture
/// source, default provider and recording folder fall back when blank; VAD
/// overrides, devices and the segment limit fall back when unset; providers
/// are the defaults with the file's put over them; everything else is the
/// file's.
pub open spec fn merged_settings(d: SettingsView, u: SettingsView) -> SettingsView {
    SettingsView {
        engine_zh: text_over(u.engine_zh, d.engine_zh),
        engine_en: text_over(u.engine_en, d.engine_en),
        backend: text_over(u.backend, d.backend),
        audio_source: text_over(u.audio_source, d.audio_source),
        llm_default: text_over(u.llm_default, d.llm_default),
        recording_dir: text_over(u.recording_dir, d.recording_dir),
        providers: providers_merged(d.providers, u.providers),
        vad_threshold_bits: or_else(u.vad_threshold_bits, d.vad_threshold_bits),
        vad_min_speech_ms: or_else(u.vad_min_speech_ms, d.vad_min_speech_ms),
        vad_min_silence_ms: or_else(u.vad_min_silence_ms, d.vad_min_silence_ms),
        vad_max_speech_ms: or_else(u.vad_max_speech_ms, d.vad_max_speech_ms),
        mic_device: or_else(u.mic_device, d.mic_device),
        loopback_device: or_else(u.loopback_device, d.loopback_device),
        min_segment_ms: or_else(u.min_segment_ms, d.min_segment_ms),
        ..u
    }
}

fn copy_provider(p: &LlmProviderConfig) -> (r: LlmProviderConfig)
    ensures
        provider_view(r) == provider_view(*p),
{
    LlmProviderConfig {
        base_url: match &p.base_url {
            Some(b) => Some(owned(b.as_str())),
            None => None,
        },
        model: owned(p.model.as_str()),
        api_key: owned(p.api_key.as_str()),
    }
}

fn upsert_provider(ps: &mut Vec<(String, LlmProviderConfig)>, name: &str, p: &LlmProviderConfig)
    ensures
        providers_view(final(ps)@) == provider_upsert(providers_view(old(ps)@), (name@, provider_view(*p))),
{
    let ghost pv = providers_view(ps@);
    let mut i: usize = 0;
    while i < ps.len() && !str_eq(ps[i].0.as_str(), name)
        invariant
            i <= ps.len(),
            pv == providers_view(ps@),
            provider_index(pv, name@, 0) == provider_index(pv, name@, i as int),
        decreases ps.len() - i,
    {
        assert(pv[i as int].0 == ps@[i as int].0@);
        i += 1;
    }
    let e = (owned(name), copy_provider(p));
    if i == ps.len() {
        ps.push(e);
        assert(providers_view(ps@) =~= pv.push((name@, provider_view(*p))));
    } else {
        ps.set(i, e);
        assert(providers_view(ps@) =~= pv.update(i as int, (name@, provider_view(*p))));
    }
}

fn pick_text(user: &mut String, default: String)
    ensures
        final(user)@ == text_over(old(user)@, default@),
{
    if is_blank_str(user.as_str()) {
        *user = default;
    }
}

fn pick_opt<T: Copy>(user: &mut Option<T>, default: Option<T>)
    ensures
        *final(user) == or_else(*old(user), default),
{
    if user.is_none() {
        *user = default;
    }
}

/// The settings of a settings file over the defaults (see
/// [`merged_settings`]).
#[verifier::rlimit(100)]
pub fn merge_settings(default: Settings, user: Settings) -> (r: Settings)
    ensures
        r@ == merged_settings(default@, user@),
{
    let ghost dv = default@;
    let ghost uv = user@;
    let mut r = user;
    let mut ups: Vec<(String, LlmProviderConfig)> = Vec::new();
    std::mem::swap(&mut ups, &mut r.providers);
    let Settings {
        engine_zh,
        engine_en,
        backend,
        audio_source,
        llm_default,
        recording_dir,
        providers,
        vad_threshold_bits,
        vad_min_speech_ms,
        vad_min_silence_ms,
        vad_max_speech_ms,
        mic_device,
        loopback_device,
        min_segment_ms,
        ..
    } = default;
    let mut ps = providers;
    let ghost start = providers_view(ps@);
    let ghost uprov = providers_view(ups@);
    let mut k: usize = 0;
    while k < ups.len()
        invariant
            k <= ups.len(),
            uprov == providers_view(ups@),
            providers_view(ps@) == providers_merged(start, uprov.take(k as int)),
        decreases ups.len() - k,
    {
        proof {
            let t = uprov.take(k + 1);
            assert(t.drop_last() =~= uprov.take(k as int));
            assert(t.last() == uprov[k as int]);
        }
        upsert_provider(&mut ps, ups[k].0.as_str(), &ups[k].1);
        k += 1;
    }
    assert(uprov.take(ups.len() as int) =~= uprov);
    r.providers = ps;
    pick_text(&mut r.engine_zh, engine_zh);
    pick_text(&mut r.engine_en, engine_en);
    pick_text(&mut r.backend, backend);
    pick_text(&mut r.audio_source, audio_source);
    pick_text(&mut r.llm_default, llm_default);
    pick_text(&mut r.recording_dir, recording_dir);
    pick_opt(&mut r.vad_threshold_bits, vad_threshold_bits);
    pick_opt(&mut r.vad_min_speech_ms, vad_min_speech_ms);
    pick_opt(&mut r.vad_min_silence_ms, vad_min_silence_ms);
    pick_opt(&mut r.vad_max_speech_ms, vad_max_speech_ms);
    pick_opt(&mut r.mic_device, mic_device);
    pick_opt(&mut r.loopback_device, loopback_device);
    pick_opt(&mut r.min_segment_ms, min_segment_ms);
    r
}

} // verus!
