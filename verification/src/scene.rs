//! Scene parameter sets: the built-in templates, the active set of a scene
//! configuration and the field-by-field updates submitted from the settings
//! page.
//!
//! Single-precision settings (detection threshold, noise-gate level, filter
//! cut-off) are held by their IEEE-754 bit patterns (`f32::to_bits`); the
//! library copies them and never computes with them.
use vstd::prelude::*;

use crate::config::{
    all_analysis_plugins, all_analysis_plugins_spec, mode_label_spec, SceneMode, SpeakerMode,
    TranslationMode, VadPreset,
};
use crate::text::{owned, str_eq};

verus! {

/// Bits of `0.008f32`, the default noise-gate RMS level.
pub const DEFAULT_GATE_BITS: u32 = 0x3c03126f;

/// Bits of `100.0f32`, the high-pass cut-off in Hz.
pub const HIGHPASS_CUTOFF_BITS: u32 = 0x42c80000;

/// Upper bound of the segment-level ASR context, in ms.
pub const MAX_ASR_SEGMENT_MS: u64 = 60_000;

/// A scene's full parameter set.
#[derive(Debug)]
pub struct SceneParams {
    pub vad_preset: VadPreset,
    /// Detection-threshold override (bits of an `f32`).
    pub vad_threshold_bits: Option<u32>,
    pub vad_min_speech_ms: Option<u64>,
    pub vad_min_silence_ms: Option<u64>,
    pub vad_max_speech_ms: Option<u64>,
    /// Noise gate and high-pass filter switch.
    pub denoise_enabled: bool,
    /// Noise-gate RMS level (bits of an `f32`).
    pub denoise_gate_bits: u32,
    /// Shortest committed segment, ms (0: no limit).
    pub min_segment_ms: u64,
    /// Longest segment-level ASR context, ms (0: no forced split).
    pub asr_segment_ms: u64,
    pub user_engine: String,
    /// Whether the second (system loopback) stream runs.
    pub client_enabled: bool,
    pub client_engine: String,
    /// The scene's main language.
    pub language: String,
    /// The other party's language, or the translation target.
    pub client_language: String,
    pub translation_mode: TranslationMode,
    /// Ids of the analysis plugins the scene may run; all others stay off.
    pub plugin_allowlist: Vec<String>,
    pub speaker_mode: SpeakerMode,
    /// Whether quality assessment detects background noise by itself.
    pub noise_auto_detect: bool,
}

/// What a parameter set holds, strings as character sequences.
pub struct SceneSpec {
    pub vad_preset: VadPreset,
    pub vad_threshold_bits: Option<u32>,
    pub vad_min_speech_ms: Option<u64>,
    pub vad_min_silence_ms: Option<u64>,
    pub vad_max_speech_ms: Option<u64>,
    pub denoise_enabled: bool,
    pub denoise_gate_bits: u32,
    pub min_segment_ms: u64,
    pub asr_segment_ms: u64,
    pub user_engine: Seq<char>,
    pub client_enabled: bool,
    pub client_engine: Seq<char>,
    pub language: Seq<char>,
    pub client_language: Seq<char>,
    pub translation_mode: TranslationMode,
    pub plugin_allowlist: Seq<Seq<char>>,
    pub speaker_mode: SpeakerMode,
    pub noise_auto_detect: bool,
}

impl View for SceneParams {
    type V = SceneSpec;

    open spec fn view(&self) -> SceneSpec {
        SceneSpec {
            vad_preset: self.vad_preset,
            vad_threshold_bits: self.vad_threshold_bits,
            vad_min_speech_ms: self.vad_min_speech_ms,
            vad_min_silence_ms: self.vad_min_silence_ms,
            vad_max_speech_ms: self.vad_max_speech_ms,
            denoise_enabled: self.denoise_enabled,
            denoise_gate_bits: self.denoise_gate_bits,
            min_segment_ms: self.min_segment_ms,
            asr_segment_ms: self.asr_segment_ms,
            user_engine: self.user_engine@,
            client_enabled: self.client_enabled,
            client_engine: self.client_engine@,
            language: self.language@,
            client_language: self.client_language@,
            translation_mode: self.translation_mode,
            plugin_allowlist: self.plugin_allowlist@.map_values(|s: String| s@),
            speaker_mode: self.speaker_mode,
            noise_auto_detect: self.noise_auto_detect,
        }
    }
}

/// The built-in template of a scene mode. All templates share the standard
/// defaults (no VAD overrides, gate off at 0.008, Qwen3-ASR on both streams,
/// Chinese main language, background-noise detection on) and differ in:
///
/// | mode             | preset    | silence | max speech | min seg | asr seg | client | client lang | translation   | plugins                      | speakers   |
/// |------------------|-----------|---------|------------|---------|---------|--------|-------------|---------------|------------------------------|------------|
/// | dictation        | sensitive | 600     | -          | 0       | 5000    | off    | en          | off           | key points                   | off        |
/// | conversation     | standard  | -       | -          | 300     | 4000    | on     | zh          | off           | terms, brief, key points     | channel    |
/// | bilingual        | standard  | -       | -          | 300     | 4000    | on     | en          | bidirectional | all                          | channel    |
/// | live translation | standard  | -       | -          | 300     | 3000    | off    | en          | bidirectional | translator                   | off        |
/// | meeting          | standard  | -       | -          | 0       | 6000    | on     | zh          | off           | all                          | voiceprint |
/// | lecture          | strict    | 700     | 60000      | 300     | 6000    | off    | en          | off           | terms, brief, key points     | off        |
/// | custom           | standard  | -       | -          | 0       | 4000    | on     | en          | off           | all                          | channel    |
pub open spec fn scene_template(mode: SceneMode) -> SceneSpec {
    let (preset, silence, max_speech, min_seg, asr_seg, client, client_lang, translation, plugins, speakers) =
        match mode {
        SceneMode::Dictation => (
            VadPreset::Sensitive,
            Some(600u64),
            None,
            0u64,
            5000u64,
            false,
            "en"@,
            TranslationMode::Off,
            seq!["key_point_llm"@],
            SpeakerMode::Off,
        ),
        SceneMode::Conversation => (
            VadPreset::Standard,
            None,
            None,
            300,
            4000,
            true,
            "zh"@,
            TranslationMode::Off,
            seq!["term_explainer"@, "brief_retriever"@, "key_point_llm"@],
            SpeakerMode::Channel,
        ),
        SceneMode::Bilingual => (
            VadPreset::Standard,
            None,
            None,
            300,
            4000,
            true,
            "en"@,
            TranslationMode::Bidirectional,
            all_analysis_plugins_spec(),
            SpeakerMode::Channel,
        ),
        SceneMode::LiveTranslation => (
            VadPreset::Standard,
            None,
            None,
            300,
            3000,
            false,
            "en"@,
            TranslationMode::Bidirectional,
            seq!["translator"@],
            SpeakerMode::Off,
        ),
        SceneMode::Meeting => (
            VadPreset::Standard,
            None,
            None,
            0,
            6000,
            true,
            "zh"@,
            TranslationMode::Off,
            all_analysis_plugins_spec(),
            SpeakerMode::Voiceprint,
        ),
        SceneMode::Lecture => (
            VadPreset::Strict,
            Some(700u64),
            Some(60000u64),
            300,
            6000,
            false,
            "en"@,
            TranslationMode::Off,
            seq!["term_explainer"@, "brief_retriever"@, "key_point_llm"@],
            SpeakerMode::Off,
        ),
        SceneMode::Custom => (
            VadPreset::Standard,
            None,
            None,
            0,
            4000,
            true,
            "en"@,
            TranslationMode::Off,
            all_analysis_plugins_spec(),
            SpeakerMode::Channel,
        ),
    };
    SceneSpec {
        vad_preset: preset,
        vad_threshold_bits: None,
        vad_min_speech_ms: None,
        vad_min_silence_ms: silence,
        vad_max_speech_ms: max_speech,
        denoise_enabled: false,
        denoise_gate_bits: DEFAULT_GATE_BITS,
        min_segment_ms: min_seg,
        asr_segment_ms: asr_seg,
        user_engine: "qwen3-asr"@,
        client_enabled: client,
        client_engine: "qwen3-asr"@,
        language: "zh"@,
        client_language: client_lang,
        translation_mode: translation,
        plugin_allowlist: plugins,
        speaker_mode: speakers,
        noise_auto_detect: true,
    }
}

/// Of the built-in templates only the meeting one clusters speakers by
/// voiceprint; every other mode attributes by channel or not at all.
pub proof fn lemma_only_meeting_uses_voiceprint(mode: SceneMode)
    ensures
        scene_template(mode).speaker_mode == SpeakerMode::Voiceprint <==> mode == SceneMode::Meeting,
{
}

/// No built-in template turns background-noise suppression on, so faint or
/// distant speech is kept unless the user enables it.
pub proof fn lemma_templates_keep_denoise_off(mode: SceneMode)
    ensures
        !scene_template(mode).denoise_enabled,
{
}

fn plugin_list(ids: &[&str]) -> (v: Vec<String>)
    ensures
        v@.len() == ids@.len(),
        forall|i: int| 0 <= i < ids@.len() ==> (#[trigger] v@[i])@ == ids@[i]@,
{
    let mut v: Vec<String> = Vec::new();
    let mut i: usize = 0;
    while i < ids.len()
        invariant
            i <= ids@.len(),
            v@.len() == i,
            forall|k: int| 0 <= k < i ==> (#[trigger] v@[k])@ == ids@[k]@,
        decreases ids@.len() - i,
    {
        v.push(owned(ids[i]));
        i += 1;
    }
    v
}

/// The built-in parameter template of `mode`.
pub fn scene_params(mode: SceneMode) -> (p: SceneParams)
    ensures
        p@ == scene_template(mode),
{
    let (preset, silence, max_speech, min_seg, asr_seg, client, client_lang, translation, plugins, speakers):
        (VadPreset, Option<u64>, Option<u64>, u64, u64, bool, &str, TranslationMode, Vec<String>, SpeakerMode) =
        match mode {
        SceneMode::Dictation => {
            let ids = ["key_point_llm"];
            let v = plugin_list(&ids);
            assert(v@.map_values(|s: String| s@) =~= seq!["key_point_llm"@]);
            (VadPreset::Sensitive, Some(600), None, 0, 5000, false, "en", TranslationMode::Off, v, SpeakerMode::Off)
        },
        SceneMode::Conversation => {
            let ids = ["term_explainer", "brief_retriever", "key_point_llm"];
            let v = plugin_list(&ids);
            assert(v@.map_values(|s: String| s@) =~= seq!["term_explainer"@, "brief_retriever"@, "key_point_llm"@]);
            (VadPreset::Standard, None, None, 300, 4000, true, "zh", TranslationMode::Off, v, SpeakerMode::Channel)
        },
        SceneMode::Bilingual => {
            (
                VadPreset::Standard,
                None,
                None,
                300,
                4000,
                true,
                "en",
                TranslationMode::Bidirectional,
                all_analysis_plugins(),
                SpeakerMode::Channel,
            )
        },
        SceneMode::LiveTranslation => {
            let ids = ["translator"];
            let v = plugin_list(&ids);
            assert(v@.map_values(|s: String| s@) =~= seq!["translator"@]);
            (VadPreset::Standard, None, None, 300, 3000, false, "en", TranslationMode::Bidirectional, v, SpeakerMode::Off)
        },
        SceneMode::Meeting => {
            (
                VadPreset::Standard,
                None,
                None,
                0,
                6000,
                true,
                "zh",
                TranslationMode::Off,
                all_analysis_plugins(),
                SpeakerMode::Voiceprint,
            )
        },
        SceneMode::Lecture => {
            let ids = ["term_explainer", "brief_retriever", "key_point_llm"];
            let v = plugin_list(&ids);
            assert(v@.map_values(|s: String| s@) =~= seq!["term_explainer"@, "brief_retriever"@, "key_point_llm"@]);
            (VadPreset::Strict, Some(700), Some(60000), 300, 6000, false, "en", TranslationMode::Off, v, SpeakerMode::Off)
        },
        SceneMode::Custom => {
            (
                VadPreset::Standard,
                None,
                None,
                0,
                4000,
                true,
                "en",
                TranslationMode::Off,
                all_analysis_plugins(),
                SpeakerMode::Channel,
            )
        },
    };
    SceneParams {
        vad_preset: preset,
        vad_threshold_bits: None,
        vad_min_speech_ms: None,
        vad_min_silence_ms: silence,
        vad_max_speech_ms: max_speech,
        denoise_enabled: false,
        denoise_gate_bits: DEFAULT_GATE_BITS,
        min_segment_ms: min_seg,
        asr_segment_ms: asr_seg,
        user_engine: owned("qwen3-asr"),
        client_enabled: client,
        client_engine: owned("qwen3-asr"),
        language: owned("zh"),
        client_language: owned(client_lang),
        translation_mode: translation,
        plugin_allowlist: plugins,
        speaker_mode: speakers,
        noise_auto_detect: true,
    }
}

/// Owned copies of the strings `v`, in order.
fn copy_strings(v: &Vec<String>) -> (r: Vec<String>)
    ensures
        r@.map_values(|s: String| s@) == v@.map_values(|s: String| s@),
{
    let mut r: Vec<String> = Vec::new();
    let mut i: usize = 0;
    while i < v.len()
        invariant
            i <= v@.len(),
            r@.map_values(|s: String| s@) == v@.subrange(0, i as int).map_values(|s: String| s@),
        decreases v@.len() - i,
    {
        let ghost before = r@.map_values(|s: String| s@);
        let c = owned(v[i].as_str());
        r.push(c);
        assert(r@.map_values(|s: String| s@) =~= before.push(c@));
        assert(v@.subrange(0, i + 1).map_values(|s: String| s@) =~= v@.subrange(0, i as int).map_values(
            |s: String| s@,
        ).push(v@[i as int]@));
        i += 1;
    }
    assert(v@.subrange(0, v@.len() as int) =~= v@);
    r
}

impl SceneParams {
    /// A copy of the parameter set.
    pub fn duplicate(&self) -> (r: SceneParams)
        ensures
            r@ == self@,
    {
        SceneParams {
            vad_preset: self.vad_preset,
            vad_threshold_bits: self.vad_threshold_bits,
            vad_min_speech_ms: self.vad_min_speech_ms,
            vad_min_silence_ms: self.vad_min_silence_ms,
            vad_max_speech_ms: self.vad_max_speech_ms,
            denoise_enabled: self.denoise_enabled,
            denoise_gate_bits: self.denoise_gate_bits,
            min_segment_ms: self.min_segment_ms,
            asr_segment_ms: self.asr_segment_ms,
            user_engine: owned(self.user_engine.as_str()),
            client_enabled: self.client_enabled,
            client_engine: owned(self.client_engine.as_str()),
            language: owned(self.language.as_str()),
            client_language: owned(self.client_language.as_str()),
            translation_mode: self.translation_mode,
            plugin_allowlist: copy_strings(&self.plugin_allowlist),
            speaker_mode: self.speaker_mode,
            noise_auto_detect: self.noise_auto_detect,
        }
    }

    /// The scene's VAD settings.
    pub fn to_vad_config(&self) -> (c: VadConfig)
        ensures
            c.preset == self.vad_preset,
            c.threshold_bits == self.vad_threshold_bits,
            c.min_speech_ms == self.vad_min_speech_ms,
            c.min_silence_ms == self.vad_min_silence_ms,
            c.max_speech_ms == self.vad_max_speech_ms,
    {
        VadConfig {
            preset: self.vad_preset,
            threshold_bits: self.vad_threshold_bits,
            min_speech_ms: self.vad_min_speech_ms,
            min_silence_ms: self.vad_min_silence_ms,
            max_speech_ms: self.vad_max_speech_ms,
        }
    }

    /// The scene's preprocessing settings: its gate, with the 100 Hz
    /// high-pass filter on.
    pub fn to_denoise_config(&self) -> (c: DenoiseConfig)
        ensures
            c.enabled == self.denoise_enabled,
            c.gate_threshold_bits == self.denoise_gate_bits,
            c.highpass,
            c.highpass_cutoff_bits == HIGHPASS_CUTOFF_BITS,
    {
        DenoiseConfig {
            enabled: self.denoise_enabled,
            gate_threshold_bits: self.denoise_gate_bits,
            highpass: true,
            highpass_cutoff_bits: HIGHPASS_CUTOFF_BITS,
        }
    }
}

impl Default for SceneParams {
    /// The conversation template.
    fn default() -> (p: Self)
        ensures
            p@ == scene_template(SceneMode::Conversation),
    {
        scene_params(SceneMode::Conversation)
    }
}

/// Streaming VAD settings: a preset and optional overrides.
#[derive(Debug)]
pub struct VadConfig {
    pub preset: VadPreset,
    /// Detection-threshold override (bits of an `f32`).
    pub threshold_bits: Option<u32>,
    pub min_speech_ms: Option<u64>,
    pub min_silence_ms: Option<u64>,
    pub max_speech_ms: Option<u64>,
}

impl Default for VadConfig {
    fn default() -> (c: Self)
        ensures
            c.preset == VadPreset::Standard,
            c.threshold_bits.is_none(),
            c.min_speech_ms.is_none(),
            c.min_silence_ms.is_none(),
            c.max_speech_ms.is_none(),
    {
        VadConfig {
            preset: VadPreset::Standard,
            threshold_bits: None,
            min_speech_ms: None,
            min_silence_ms: None,
            max_speech_ms: None,
        }
    }
}

/// Audio preprocessing (background noise) settings.
#[derive(Debug)]
pub struct DenoiseConfig {
    pub enabled: bool,
    /// Noise-gate RMS level (bits of an `f32`).
    pub gate_threshold_bits: u32,
    pub highpass: bool,
    /// High-pass cut-off in Hz (bits of an `f32`).
    pub highpass_cutoff_bits: u32,
}

impl Default for DenoiseConfig {
    /// Disabled (it would silence faint far-end speech), level 0.008, and the
    /// 100 Hz low-cut filter on.
    fn default() -> (c: Self)
        ensures
            !c.enabled,
            c.gate_threshold_bits == DEFAULT_GATE_BITS,
            c.highpass,
            c.highpass_cutoff_bits == HIGHPASS_CUTOFF_BITS,
    {
        DenoiseConfig {
            enabled: false,
            gate_threshold_bits: DEFAULT_GATE_BITS,
            highpass: true,
            highpass_cutoff_bits: HIGHPASS_CUTOFF_BITS,
        }
    }
}

/// Scene settings: the mode, and the full parameter set of the custom mode
/// (ignored by the other modes).
#[derive(Debug)]
pub struct SceneConfig {
    pub mode: SceneMode,
    pub custom: SceneParams,
}

impl Default for SceneConfig {
    /// The conversation mode; the custom parameters start as a copy of the
    /// meeting template.
    fn default() -> (c: Self)
        ensures
            c.mode == SceneMode::Conversation,
            c.custom@ == scene_template(SceneMode::Meeting),
    {
        SceneConfig { mode: SceneMode::Conversation, custom: scene_params(SceneMode::Meeting) }
    }
}

/// The parameters a scene configuration runs with.
pub open spec fn effective_spec(mode: SceneMode, custom: SceneSpec) -> SceneSpec {
    match mode {
        SceneMode::Custom => custom,
        m => scene_template(m),
    }
}

impl SceneConfig {
    /// The active parameters: the custom set in custom mode, the built-in
    /// template otherwise.
    pub fn effective(&self) -> (p: SceneParams)
        ensures
            p@ == effective_spec(self.mode, self.custom@),
    {
        match self.mode {
            SceneMode::Custom => self.custom.duplicate(),
            m => scene_params(m),
        }
    }

    /// The current mode's name as shown to users.
    pub fn mode_label(&self) -> (r: &'static str)
        ensures
            r@ == mode_label_spec(self.mode),
    {
        match self.mode {
            SceneMode::Dictation => "单人听写",
            SceneMode::Conversation => "一对一会话",
            SceneMode::Bilingual => "双语对话",
            SceneMode::LiveTranslation => "实时翻译",
            SceneMode::Meeting => "多人会议",
            SceneMode::Lecture => "演讲/课堂",
            SceneMode::Custom => "自定义",
        }
    }
}

// ---------------------------------------------------------------- settings vocabulary

/// A VAD preset by its settings name; unknown names mean standard.
pub open spec fn vad_preset_spec(name: Seq<char>) -> VadPreset {
    if name == "sensitive"@ {
        VadPreset::Sensitive
    } else if name == "strict"@ {
        VadPreset::Strict
    } else {
        VadPreset::Standard
    }
}

pub fn vad_preset_from_name(name: &str) -> (p: VadPreset)
    ensures
        p == vad_preset_spec(name@),
{
    if str_eq(name, "sensitive") {
        VadPreset::Sensitive
    } else if str_eq(name, "strict") {
        VadPreset::Strict
    } else {
        VadPreset::Standard
    }
}

/// A translation mode by its settings name; unknown names mean off.
pub open spec fn translation_mode_spec(name: Seq<char>) -> TranslationMode {
    if name == "client_to_user"@ {
        TranslationMode::ClientToUser
    } else if name == "bidirectional"@ {
        TranslationMode::Bidirectional
    } else {
        TranslationMode::Off
    }
}

pub fn translation_mode_from_name(name: &str) -> (m: TranslationMode)
    ensures
        m == translation_mode_spec(name@),
{
    if str_eq(name, "client_to_user") {
        TranslationMode::ClientToUser
    } else if str_eq(name, "bidirectional") {
        TranslationMode::Bidirectional
    } else {
        TranslationMode::Off
    }
}

/// A speaker policy by its settings name; unknown names mean channel.
pub open spec fn speaker_mode_spec(name: Seq<char>) -> SpeakerMode {
    if name == "off"@ {
        SpeakerMode::Off
    } else if name == "voiceprint"@ {
        SpeakerMode::Voiceprint
    } else {
        SpeakerMode::Channel
    }
}

pub fn speaker_mode_from_name(name: &str) -> (m: SpeakerMode)
    ensures
        m == speaker_mode_spec(name@),
{
    if str_eq(name, "off") {
        SpeakerMode::Off
    } else if str_eq(name, "voiceprint") {
        SpeakerMode::Voiceprint
    } else {
        SpeakerMode::Channel
    }
}

/// A scene mode by its settings name (`translation` is the former name of
/// bilingual); unknown names mean conversation.
pub open spec fn scene_mode_spec(name: Seq<char>) -> SceneMode {
    if name == "dictation"@ {
        SceneMode::Dictation
    } else if name == "conversation"@ {
        SceneMode::Conversation
    } else if name == "translation"@ || name == "bilingual"@ {
        SceneMode::Bilingual
    } else if name == "live_translation"@ {
        SceneMode::LiveTranslation
    } else if name == "meeting"@ {
        SceneMode::Meeting
    } else if name == "lecture"@ {
        SceneMode::Lecture
    } else if name == "custom"@ {
        SceneMode::Custom
    } else {
        SceneMode::Conversation
    }
}

pub fn scene_mode_from_name(name: &str) -> (m: SceneMode)
    ensures
        m == scene_mode_spec(name@),
{
    if str_eq(name, "dictation") {
        SceneMode::Dictation
    } else if str_eq(name, "conversation") {
        SceneMode::Conversation
    } else if str_eq(name, "translation") || str_eq(name, "bilingual") {
        SceneMode::Bilingual
    } else if str_eq(name, "live_translation") {
        SceneMode::LiveTranslation
    } else if str_eq(name, "meeting") {
        SceneMode::Meeting
    } else if str_eq(name, "lecture") {
        SceneMode::Lecture
    } else if str_eq(name, "custom") {
        SceneMode::Custom
    } else {
        SceneMode::Conversation
    }
}

// ---------------------------------------------------------------- updates

/// A scene update as submitted from the settings page, read off its JSON
/// object: a field is `None` where its key is absent. Where the update
/// treats a key that is present but holds a value of another type apart
/// from an absent one, the field is `Some(None)`.
#[derive(Debug)]
pub struct SceneUpdate {
    /// `vad_preset`, when a string.
    pub vad_preset: Option<String>,
    /// `vad_threshold`: the number as `f32` bits, or `None` when not a number.
    pub vad_threshold_bits: Option<Option<u32>>,
    /// `vad_min_speech_ms`: the unsigned integer, or `None` when not one.
    pub vad_min_speech_ms: Option<Option<u64>>,
    pub vad_min_silence_ms: Option<Option<u64>>,
    pub vad_max_speech_ms: Option<Option<u64>>,
    /// `denoise_enabled`, when a boolean.
    pub denoise_enabled: Option<bool>,
    /// `denoise_gate`, when a number (as `f32` bits).
    pub denoise_gate_bits: Option<u32>,
    /// `min_segment_ms`: the unsigned integer, or `None` when not one.
    pub min_segment_ms: Option<Option<u64>>,
    /// `asr_segment_ms`: the unsigned integer, or `None` when not one.
    pub asr_segment_ms: Option<Option<u64>>,
    pub user_engine: Option<String>,
    pub client_enabled: Option<bool>,
    pub client_engine: Option<String>,
    /// `plugin_allowlist`, when an array: each item, when a string.
    pub plugin_allowlist: Option<Vec<Option<String>>>,
    /// `language`: the string, or `None` when not a string.
    pub language: Option<Option<String>>,
    /// `user_language` (the former name of `language`).
    pub user_language: Option<Option<String>>,
    pub client_language: Option<String>,
    pub translation_mode: Option<String>,
    pub speaker_mode: Option<String>,
    pub noise_auto_detect: Option<bool>,
}

/// The strings among `items`, in order.
pub open spec fn strings_among(items: Seq<Option<String>>) -> Seq<Seq<char>>
    decreases items.len(),
{
    if items.len() == 0 {
        Seq::empty()
    } else {
        let r = strings_among(items.drop_last());
        match items.last() {
            Some(s) => r.push(s@),
            None => r,
        }
    }
}

pub open spec fn or_keep<T>(v: Option<T>, keep: T) -> T {
    match v {
        Some(x) => x,
        None => keep,
    }
}

pub open spec fn str_or_keep(v: Option<String>, keep: Seq<char>) -> Seq<char> {
    match v {
        Some(x) => x@,
        None => keep,
    }
}

/// The main language after an update: `language` when present (applied only
/// when a string), else the former key `user_language`.
pub open spec fn updated_language(u: SceneUpdate, keep: Seq<char>) -> Seq<char> {
    match u.language {
        Some(Some(l)) => l@,
        Some(None) => keep,
        None => match u.user_language {
            Some(Some(l)) => l@,
            _ => keep,
        },
    }
}

/// The VAD fields of `p` after an update.
pub open spec fn vad_update(p: SceneSpec, u: SceneUpdate) -> SceneSpec {
    SceneSpec {
        vad_preset: match u.vad_preset {
            Some(n) => vad_preset_spec(n@),
            None => p.vad_preset,
        },
        vad_threshold_bits: or_keep(u.vad_threshold_bits, p.vad_threshold_bits),
        vad_min_speech_ms: or_keep(u.vad_min_speech_ms, p.vad_min_speech_ms),
        vad_min_silence_ms: or_keep(u.vad_min_silence_ms, p.vad_min_silence_ms),
        vad_max_speech_ms: or_keep(u.vad_max_speech_ms, p.vad_max_speech_ms),
        ..p
    }
}

/// The preprocessing and segmentation fields of `p` after an update:
/// segment durations that are not unsigned integers become 0, and the ASR
/// segment is capped at 60 s.
pub open spec fn segment_update(p: SceneSpec, u: SceneUpdate) -> SceneSpec {
    SceneSpec {
        denoise_enabled: or_keep(u.denoise_enabled, p.denoise_enabled),
        denoise_gate_bits: or_keep(u.denoise_gate_bits, p.denoise_gate_bits),
        min_segment_ms: match u.min_segment_ms {
            Some(v) => or_keep(v, 0u64),
            None => p.min_segment_ms,
        },
        asr_segment_ms: match u.asr_segment_ms {
            Some(v) => if or_keep(v, 0u64) > MAX_ASR_SEGMENT_MS {
                MAX_ASR_SEGMENT_MS
            } else {
                or_keep(v, 0u64)
            },
            None => p.asr_segment_ms,
        },
        ..p
    }
}

/// The stream fields of `p` after an update: the allowlist is replaced whole
/// by the strings submitted.
pub open spec fn stream_update(p: SceneSpec, u: SceneUpdate) -> SceneSpec {
    SceneSpec {
        user_engine: str_or_keep(u.user_engine, p.user_engine),
        client_enabled: or_keep(u.client_enabled, p.client_enabled),
        client_engine: str_or_keep(u.client_engine, p.client_engine),
        plugin_allowlist: match u.plugin_allowlist {
            Some(items) => strings_among(items@),
            None => p.plugin_allowlist,
        },
        ..p
    }
}

/// The language and policy fields of `p` after an update.
pub open spec fn policy_update(p: SceneSpec, u: SceneUpdate) -> SceneSpec {
    SceneSpec {
        language: updated_language(u, p.language),
        client_language: str_or_keep(u.client_language, p.client_language),
        translation_mode: match u.translation_mode {
            Some(n) => translation_mode_spec(n@),
            None => p.translation_mode,
        },
        speaker_mode: match u.speaker_mode {
            Some(n) => speaker_mode_spec(n@),
            None => p.speaker_mode,
        },
        noise_auto_detect: or_keep(u.noise_auto_detect, p.noise_auto_detect),
        ..p
    }
}

/// `p` with the submitted fields of `u` applied, the others kept.
pub open spec fn updated_scene(p: SceneSpec, u: SceneUpdate) -> SceneSpec {
    policy_update(stream_update(segment_update(vad_update(p, u), u), u), u)
}

fn strings_of(items: &Vec<Option<String>>) -> (r: Vec<String>)
    ensures
        r@.map_values(|s: String| s@) == strings_among(items@),
{
    let mut r: Vec<String> = Vec::new();
    let mut i: usize = 0;
    while i < items.len()
        invariant
            i <= items@.len(),
            r@.map_values(|s: String| s@) == strings_among(items@.subrange(0, i as int)),
        decreases items@.len() - i,
    {
        assert(items@.subrange(0, i + 1).drop_last() =~= items@.subrange(0, i as int));
        if let Some(s) = &items[i] {
            let ghost before = r@.map_values(|s: String| s@);
            let c = owned(s.as_str());
            r.push(c);
            assert(r@.map_values(|s: String| s@) =~= before.push(c@));
        }
        i += 1;
    }
    assert(items@.subrange(0, items@.len() as int) =~= items@);
    r
}

fn apply_vad_fields(p: &mut SceneParams, u: &SceneUpdate)
    ensures
        final(p)@ == vad_update(old(p)@, *u),
{
    if let Some(v) = &u.vad_preset {
        p.vad_preset = vad_preset_from_name(v.as_str());
    }
    if let Some(v) = u.vad_threshold_bits {
        p.vad_threshold_bits = v;
    }
    if let Some(v) = u.vad_min_speech_ms {
        p.vad_min_speech_ms = v;
    }
    if let Some(v) = u.vad_min_silence_ms {
        p.vad_min_silence_ms = v;
    }
    if let Some(v) = u.vad_max_speech_ms {
        p.vad_max_speech_ms = v;
    }
}

fn apply_segment_fields(p: &mut SceneParams, u: &SceneUpdate)
    ensures
        final(p)@ == segment_update(old(p)@, *u),
{
    if let Some(v) = u.denoise_enabled {
        p.denoise_enabled = v;
    }
    if let Some(v) = u.denoise_gate_bits {
        p.denoise_gate_bits = v;
    }
    if let Some(v) = u.min_segment_ms {
        p.min_segment_ms = match v {
            Some(x) => x,
            None => 0,
        };
    }
    if let Some(v) = u.asr_segment_ms {
        let x: u64 = match v {
            Some(x) => x,
            None => 0,
        };
        p.asr_segment_ms = if x > MAX_ASR_SEGMENT_MS {
            MAX_ASR_SEGMENT_MS
        } else {
            x
        };
    }
}

fn apply_stream_fields(p: &mut SceneParams, u: &SceneUpdate)
    ensures
        final(p)@ == stream_update(old(p)@, *u),
{
    if let Some(v) = &u.user_engine {
        p.user_engine = owned(v.as_str());
    }
    if let Some(v) = u.client_enabled {
        p.client_enabled = v;
    }
    if let Some(v) = &u.client_engine {
        p.client_engine = owned(v.as_str());
    }
    if let Some(items) = &u.plugin_allowlist {
        p.plugin_allowlist = strings_of(items);
    }
}

fn apply_policy_fields(p: &mut SceneParams, u: &SceneUpdate)
    ensures
        final(p)@ == policy_update(old(p)@, *u),
{
    match &u.language {
        Some(Some(l)) => {
            p.language = owned(l.as_str());
        },
        Some(None) => {},
        None => {
            if let Some(Some(l)) = &u.user_language {
                p.language = owned(l.as_str());
            }
        },
    }
    if let Some(v) = &u.client_language {
        p.client_language = owned(v.as_str());
    }
    if let Some(v) = &u.translation_mode {
        p.translation_mode = translation_mode_from_name(v.as_str());
    }
    if let Some(v) = &u.speaker_mode {
        p.speaker_mode = speaker_mode_from_name(v.as_str());
    }
    if let Some(v) = u.noise_auto_detect {
        p.noise_auto_detect = v;
    }
}

/// Applies a scene update field by field; fields not submitted keep their
/// values.
pub fn apply_scene_params(p: &mut SceneParams, u: &SceneUpdate)
    ensures
        final(p)@ == updated_scene(old(p)@, *u),
{
    apply_vad_fields(p, u);
    apply_segment_fields(p, u);
    apply_stream_fields(p, u);
    apply_policy_fields(p, u);
}

/// The custom parameter set after loading a settings file over the
/// defaults: the user's values, overrides the user left out taken from the
/// defaults, and the ASR segment capped at 60 s.
pub open spec fn merged_scene(default: SceneSpec, user: SceneSpec) -> SceneSpec {
    SceneSpec {
        vad_threshold_bits: if user.vad_threshold_bits.is_some() {
            user.vad_threshold_bits
        } else {
            default.vad_threshold_bits
        },
        vad_min_speech_ms: if user.vad_min_speech_ms.is_some() {
            user.vad_min_speech_ms
        } else {
            default.vad_min_speech_ms
        },
        vad_min_silence_ms: if user.vad_min_silence_ms.is_some() {
            user.vad_min_silence_ms
        } else {
            default.vad_min_silence_ms
        },
        vad_max_speech_ms: if user.vad_max_speech_ms.is_some() {
            user.vad_max_speech_ms
        } else {
            default.vad_max_speech_ms
        },
        asr_segment_ms: if user.asr_segment_ms > MAX_ASR_SEGMENT_MS {
            MAX_ASR_SEGMENT_MS
        } else {
            user.asr_segment_ms
        },
        ..user
    }
}

/// Merges the user's custom parameter set over the default one.
pub fn merge_scene_params(default: SceneParams, user: SceneParams) -> (r: SceneParams)
    ensures
        r@ == merged_scene(default@, user@),
{
    SceneParams {
        vad_threshold_bits: match user.vad_threshold_bits {
            Some(x) => Some(x),
            None => default.vad_threshold_bits,
        },
        vad_min_speech_ms: match user.vad_min_speech_ms {
            Some(x) => Some(x),
            None => default.vad_min_speech_ms,
        },
        vad_min_silence_ms: match user.vad_min_silence_ms {
            Some(x) => Some(x),
            None => default.vad_min_silence_ms,
        },
        vad_max_speech_ms: match user.vad_max_speech_ms {
            Some(x) => Some(x),
            None => default.vad_max_speech_ms,
        },
        asr_segment_ms: if user.asr_segment_ms > MAX_ASR_SEGMENT_MS {
            MAX_ASR_SEGMENT_MS
        } else {
            user.asr_segment_ms
        },
        ..user
    }
}

} // verus!
