//! The Aliyun NLS real-time transcription protocol: the start and stop
//! messages, the events read from server messages, and the decisions of a
//! streaming session (audio held back until the server is ready, the stop
//! request deferred likewise, the session ending on a final result or an
//! error). The WebSocket connection itself is driven outside the library.
use vstd::prelude::*;

use crate::text::{owned, push_str};
use crate::token::{compact_id, new_compact_id, v4_compact_id};

verus! {

// ---------------------------------------------------------------- JSON strings

/// A lowercase hexadecimal digit of value `d` (0..16).
pub open spec fn hex_lower(d: int) -> char {
    if d < 10 {
        ('0' as int + d) as char
    } else {
        ('a' as int + d - 10) as char
    }
}

/// How `serde_json` writes one character inside a string: `"` and `\`
/// backslash-escaped, the controls with a short form (`\b \t \n \f \r`)
/// escaped so, the other controls below U+0020 as `\u00XX` (lowercase hex),
/// everything else as is.
pub open spec fn json_escape_char(c: char) -> Seq<char> {
    if c == '"' {
        seq!['\\', '"']
    } else if c == '\\' {
        seq!['\\', '\\']
    } else if c == '\x08' {
        seq!['\\', 'b']
    } else if c == '\t' {
        seq!['\\', 't']
    } else if c == '\n' {
        seq!['\\', 'n']
    } else if c == '\x0c' {
        seq!['\\', 'f']
    } else if c == '\r' {
        seq!['\\', 'r']
    } else if (c as int) < 0x20 {
        seq!['\\', 'u', '0', '0', hex_lower((c as int) / 16), hex_lower((c as int) % 16)]
    } else {
        seq![c]
    }
}

pub open spec fn json_escape(s: Seq<char>) -> Seq<char>
    decreases s.len(),
{
    if s.len() == 0 {
        Seq::empty()
    } else {
        json_escape(s.drop_last()) + json_escape_char(s.last())
    }
}

/// A JSON string literal holding `s`.
pub open spec fn json_quote(s: Seq<char>) -> Seq<char> {
    seq!['"'] + json_escape(s) + seq!['"']
}

/// `serde_json::to_string(s)` for a string slice: the JSON string literal of
/// `s` as `serde_json`'s compact formatter writes it (see
/// [`json_escape_char`]; its escape table in `ser.rs`). Serialising a `str`
/// into a `Vec` does not fail; the empty string stands in for the error
/// that cannot occur.
#[verifier::external_body]
fn json_quoted(s: &str) -> (r: String)
    ensures
        r@ == json_quote(s@),
{
    serde_json::to_string(s).unwrap_or_default()
}

// ---------------------------------------------------------------- messages

/// The `StartTranscription` request: 16 kHz PCM with intermediate results,
/// punctuation, inverse text normalisation and semantic sentence detection
/// on. Keys are in the order `serde_json` writes an object (sorted).
pub open spec fn start_message_spec(app_key: Seq<char>, task_id: Seq<char>, message_id: Seq<char>) -> Seq<char> {
    "{\"header\":{\"appkey\":"@ + json_quote(app_key) + ",\"message_id\":"@ + json_quote(message_id)
        + ",\"name\":\"StartTranscription\",\"namespace\":\"SpeechTranscriber\",\"task_id\":"@ + json_quote(task_id)
        + "},\"payload\":{\"enable_intermediate_result\":true,\"enable_inverse_text_normalization\":true,\"enable_punctuation_prediction\":true,\"enable_semantic_sentence_detection\":true,\"format\":\"pcm\",\"sample_rate\":16000}}"@
}

/// The `StopTranscription` request.
pub open spec fn stop_message_spec(app_key: Seq<char>, task_id: Seq<char>, message_id: Seq<char>) -> Seq<char> {
    "{\"header\":{\"appkey\":"@ + json_quote(app_key) + ",\"message_id\":"@ + json_quote(message_id)
        + ",\"name\":\"StopTranscription\",\"namespace\":\"SpeechTranscriber\",\"task_id\":"@ + json_quote(task_id)
        + "},\"payload\":{}}"@
}

fn push_header(out: &mut String, app_key: &str, message_id: &str)
    ensures
        final(out)@ == old(out)@ + "{\"header\":{\"appkey\":"@ + json_quote(app_key@) + ",\"message_id\":"@ + json_quote(
            message_id@,
        ),
{
    push_str(out, "{\"header\":{\"appkey\":");
    let k = json_quoted(app_key);
    push_str(out, k.as_str());
    push_str(out, ",\"message_id\":");
    let m = json_quoted(message_id);
    push_str(out, m.as_str());
}

/// The start request with the given message id.
pub fn start_message(app_key: &str, task_id: &str, message_id: &str) -> (r: String)
    ensures
        r@ == start_message_spec(app_key@, task_id@, message_id@),
{
    let mut out = String::new();
    push_header(&mut out, app_key, message_id);
    push_str(&mut out, ",\"name\":\"StartTranscription\",\"namespace\":\"SpeechTranscriber\",\"task_id\":");
    let t = json_quoted(task_id);
    push_str(&mut out, t.as_str());
    push_str(
        &mut out,
        "},\"payload\":{\"enable_intermediate_result\":true,\"enable_inverse_text_normalization\":true,\"enable_punctuation_prediction\":true,\"enable_semantic_sentence_detection\":true,\"format\":\"pcm\",\"sample_rate\":16000}}",
    );
    assert(out@ =~= start_message_spec(app_key@, task_id@, message_id@));
    out
}

/// The stop request with the given message id.
pub fn stop_message(app_key: &str, task_id: &str, message_id: &str) -> (r: String)
    ensures
        r@ == stop_message_spec(app_key@, task_id@, message_id@),
{
    let mut out = String::new();
    push_header(&mut out, app_key, message_id);
    push_str(&mut out, ",\"name\":\"StopTranscription\",\"namespace\":\"SpeechTranscriber\",\"task_id\":");
    let t = json_quoted(task_id);
    push_str(&mut out, t.as_str());
    push_str(&mut out, "},\"payload\":{}}");
    assert(out@ =~= stop_message_spec(app_key@, task_id@, message_id@));
    out
}

/// The start request, under a fresh random message id.
pub fn build_start_message(app_key: &str, task_id: &str) -> (r: String)
    ensures
        exists|id: Seq<char>| #![trigger start_message_spec(app_key@, task_id@, id)]
            v4_compact_id(id) && compact_id(id) && r@ == start_message_spec(app_key@, task_id@, id),
{
    let id = new_compact_id();
    start_message(app_key, task_id, id.as_str())
}

/// The stop request, under a fresh random message id.
pub fn build_stop_message(app_key: &str, task_id: &str) -> (r: String)
    ensures
        exists|id: Seq<char>| #![trigger stop_message_spec(app_key@, task_id@, id)]
            v4_compact_id(id) && compact_id(id) && r@ == stop_message_spec(app_key@, task_id@, id),
{
    let id = new_compact_id();
    stop_message(app_key, task_id, id.as_str())
}

// ---------------------------------------------------------------- events

/// What a server message tells a session.
#[derive(Debug, PartialEq, Eq)]
pub enum NlsEvent {
    /// The server accepted the start request.
    Ready,
    /// The running text of the current sentence.
    Partial(String),
    /// The text of a finished sentence.
    Final(String),
    /// The task failed, with the server's status text.
    Error(String),
}

pub enum NlsEventSpec {
    Ready,
    Partial(Seq<char>),
    Final(Seq<char>),
    Error(Seq<char>),
}

impl View for NlsEvent {
    type V = NlsEventSpec;

    open spec fn view(&self) -> NlsEventSpec {
        match self {
            NlsEvent::Ready => NlsEventSpec::Ready,
            NlsEvent::Partial(t) => NlsEventSpec::Partial(t@),
            NlsEvent::Final(t) => NlsEventSpec::Final(t@),
            NlsEvent::Error(t) => NlsEventSpec::Error(t@),
        }
    }
}

/// The fields a server message carries, as `serde_json` reads them: `None`
/// when the text is not JSON; otherwise `header.name`, `payload.result` and
/// `header.status_text`, each `Some` when it is a string.
pub uninterp spec fn nls_fields(text: Seq<char>) -> Option<(Option<Seq<char>>, Option<Seq<char>>, Option<Seq<char>>)>;

pub open spec fn opt_view(o: Option<String>) -> Option<Seq<char>> {
    match o {
        Some(s) => Some(s@),
        None => None,
    }
}

pub open spec fn fields_view(f: Option<(Option<String>, Option<String>, Option<String>)>) -> Option<
    (Option<Seq<char>>, Option<Seq<char>>, Option<Seq<char>>),
> {
    match f {
        Some((a, b, c)) => Some((opt_view(a), opt_view(b), opt_view(c))),
        None => None,
    }
}

/// Parses a server message with `serde_json::from_str::<serde_json::Value>`
/// and reads the strings at `header.name`, `payload.result` and
/// `header.status_text`. Its result is named by `nls_fields`.
#[verifier::external_body]
fn read_nls_fields(text: &str) -> (r: Option<(Option<String>, Option<String>, Option<String>)>)
    ensures
        fields_view(r) == nls_fields(text@),
{
    match serde_json::from_str::<serde_json::Value>(text) {
        Ok(v) => Some((
            v["header"]["name"].as_str().map(|s| s.to_string()),
            v["payload"]["result"].as_str().map(|s| s.to_string()),
            v["header"]["status_text"].as_str().map(|s| s.to_string()),
        )),
        Err(_) => None,
    }
}

/// The event a message with these fields means: by the header name
/// (`TranscriptionStarted`, `TranscriptionResultChanged`, `SentenceEnd`,
/// `TaskFailed`); a missing result reads as empty text, a missing status as
/// `unknown`. Other names, and text that is not JSON, mean no event.
pub open spec fn event_of(f: Option<(Option<Seq<char>>, Option<Seq<char>>, Option<Seq<char>>)>) -> Option<NlsEventSpec> {
    match f {
        None => None,
        Some((name, result, status)) => match name {
            None => None,
            Some(n) => {
                let text = match result {
                    Some(t) => t,
                    None => Seq::empty(),
                };
                if n == "TranscriptionStarted"@ {
                    Some(NlsEventSpec::Ready)
                } else if n == "TranscriptionResultChanged"@ {
                    Some(NlsEventSpec::Partial(text))
                } else if n == "SentenceEnd"@ {
                    Some(NlsEventSpec::Final(text))
                } else if n == "TaskFailed"@ {
                    Some(
                        NlsEventSpec::Error(
                            match status {
                                Some(t) => t,
                                None => "unknown"@,
                            },
                        ),
                    )
                } else {
                    None
                }
            },
        },
    }
}

pub open spec fn event_opt_view(e: Option<NlsEvent>) -> Option<NlsEventSpec> {
    match e {
        Some(x) => Some(x@),
        None => None,
    }
}

/// The event a message with the given fields means (see [`event_of`]).
pub fn event_from_fields(f: Option<(Option<String>, Option<String>, Option<String>)>) -> (r: Option<NlsEvent>)
    ensures
        event_opt_view(r) == event_of(fields_view(f)),
{
    match f {
        None => None,
        Some((name, result, status)) => match name {
            None => None,
            Some(n) => {
                let text = match result {
                    Some(t) => t,
                    None => String::new(),
                };
                if crate::text::str_eq(n.as_str(), "TranscriptionStarted") {
                    Some(NlsEvent::Ready)
                } else if crate::text::str_eq(n.as_str(), "TranscriptionResultChanged") {
                    Some(NlsEvent::Partial(text))
                } else if crate::text::str_eq(n.as_str(), "SentenceEnd") {
                    Some(NlsEvent::Final(text))
                } else if crate::text::str_eq(n.as_str(), "TaskFailed") {
                    Some(
                        NlsEvent::Error(
                            match status {
                                Some(t) => t,
                                None => owned("unknown"),
                            },
                        ),
                    )
                } else {
                    None
                }
            },
        },
    }
}

/// The event a server message means.
pub fn parse_event(text: &str) -> (r: Option<NlsEvent>)
    ensures
        event_opt_view(r) == event_of(nls_fields(text@)),
{
    event_from_fields(read_nls_fields(text))
}

// ---------------------------------------------------------------- session decisions

/// What reaches a session task: audio from the engine, its stop request, or
/// an event read from the server.
pub enum NlsInput {
    Audio(Seq<u8>),
    Stop,
    Event(NlsEventSpec),
}

/// What a session task does in answer.
pub enum NlsActionSpec {
    /// Send a binary frame of PCM audio.
    SendAudio(Seq<u8>),
    /// Send the stop request.
    SendStop,
    /// Hand the event to the engine.
    Deliver(NlsEventSpec),
}

/// A session task's state: whether the server is ready, the audio held back
/// until it is, and whether a stop was requested before it was.
pub struct SessionState {
    pub ready: bool,
    pub pending: Seq<Seq<u8>>,
    pub stop_pending: bool,
}

pub open spec fn send_all(pending: Seq<Seq<u8>>) -> Seq<NlsActionSpec> {
    pending.map_values(|p: Seq<u8>| NlsActionSpec::SendAudio(p))
}

/// One step of a session: audio and the stop request go out at once when
/// the server is ready and are held back otherwise; the ready event releases
/// the held audio in order, then the deferred stop; every event is handed
/// on.
pub open spec fn step(s: SessionState, i: NlsInput) -> (SessionState, Seq<NlsActionSpec>) {
    match i {
        NlsInput::Audio(pcm) => if s.ready {
            (s, seq![NlsActionSpec::SendAudio(pcm)])
        } else {
            (SessionState { pending: s.pending.push(pcm), ..s }, Seq::empty())
        },
        NlsInput::Stop => if s.ready {
            (s, seq![NlsActionSpec::SendStop])
        } else {
            (SessionState { stop_pending: true, ..s }, Seq::empty())
        },
        NlsInput::Event(e) => match e {
            NlsEventSpec::Ready => (
                SessionState { ready: true, pending: Seq::empty(), ..s },
                send_all(s.pending) + (if s.stop_pending {
                    seq![NlsActionSpec::SendStop]
                } else {
                    Seq::empty()
                }) + seq![NlsActionSpec::Deliver(e)],
            ),
            _ => (s, seq![NlsActionSpec::Deliver(e)]),
        },
    }
}

/// Whether an event ends the session (a final result or an error).
pub open spec fn ends_session(e: NlsEventSpec) -> bool {
    e is Final || e is Error
}

/// The state and actions after a sequence of inputs.
pub open spec fn run(s: SessionState, inputs: Seq<NlsInput>) -> (SessionState, Seq<NlsActionSpec>)
    decreases inputs.len(),
{
    if inputs.len() == 0 {
        (s, Seq::empty())
    } else {
        let (s1, a1) = run(s, inputs.drop_last());
        let (s2, a2) = step(s1, inputs.last());
        (s2, a1 + a2)
    }
}

/// The audio frames sent, in order.
pub open spec fn audio_sent(a: Seq<NlsActionSpec>) -> Seq<Seq<u8>>
    decreases a.len(),
{
    if a.len() == 0 {
        Seq::empty()
    } else {
        let r = audio_sent(a.drop_last());
        match a.last() {
            NlsActionSpec::SendAudio(p) => r.push(p),
            _ => r,
        }
    }
}

/// The audio frames submitted, in order.
pub open spec fn audio_in(inputs: Seq<NlsInput>) -> Seq<Seq<u8>>
    decreases inputs.len(),
{
    if inputs.len() == 0 {
        Seq::empty()
    } else {
        let r = audio_in(inputs.drop_last());
        match inputs.last() {
            NlsInput::Audio(p) => r.push(p),
            _ => r,
        }
    }
}

/// A ready session holds no audio back.
pub open spec fn session_wf(s: SessionState) -> bool {
    s.ready ==> s.pending.len() == 0
}

proof fn lemma_audio_sent_concat(a: Seq<NlsActionSpec>, b: Seq<NlsActionSpec>)
    ensures
        audio_sent(a + b) == audio_sent(a) + audio_sent(b),
    decreases b.len(),
{
    if b.len() == 0 {
        assert(a + b =~= a);
        assert(audio_sent(b) =~= Seq::<Seq<u8>>::empty());
        assert(audio_sent(a) + audio_sent(b) =~= audio_sent(a));
    } else {
        lemma_audio_sent_concat(a, b.drop_last());
        assert((a + b).drop_last() =~= a + b.drop_last());
        assert((a + b).last() == b.last());
        match b.last() {
            NlsActionSpec::SendAudio(p) => {
                assert(audio_sent(a) + audio_sent(b) =~= (audio_sent(a) + audio_sent(b.drop_last())).push(p));
            },
            _ => {},
        }
    }
}

proof fn lemma_audio_sent_all(pending: Seq<Seq<u8>>)
    ensures
        audio_sent(send_all(pending)) == pending,
    decreases pending.len(),
{
    if pending.len() > 0 {
        lemma_audio_sent_all(pending.drop_last());
        assert(send_all(pending).drop_last() =~= send_all(pending.drop_last()));
        assert(pending.drop_last().push(pending.last()) =~= pending);
    } else {
        assert(send_all(pending) =~= Seq::<NlsActionSpec>::empty());
    }
}

proof fn lemma_audio_in_single(i: NlsInput)
    ensures
        audio_in(seq![i]) == (match i {
            NlsInput::Audio(p) => seq![p],
            _ => Seq::<Seq<u8>>::empty(),
        }),
{
    let s = seq![i];
    assert(s.drop_last() =~= Seq::<NlsInput>::empty());
    assert(audio_in(s.drop_last()) == Seq::<Seq<u8>>::empty());
    assert(s.last() == i);
    match i {
        NlsInput::Audio(p) => {
            assert(audio_in(s) =~= seq![p]);
        },
        _ => {},
    }
}

proof fn lemma_audio_sent_single(x: NlsActionSpec)
    ensures
        audio_sent(seq![x]) == (match x {
            NlsActionSpec::SendAudio(p) => seq![p],
            _ => Seq::<Seq<u8>>::empty(),
        }),
{
    let s = seq![x];
    assert(s.drop_last() =~= Seq::<NlsActionSpec>::empty());
    assert(audio_sent(s.drop_last()) == Seq::<Seq<u8>>::empty());
    assert(s.last() == x);
    match x {
        NlsActionSpec::SendAudio(p) => {
            assert(audio_sent(s) =~= seq![p]);
        },
        _ => {},
    }
}

proof fn lemma_step_audio(s: SessionState, i: NlsInput)
    requires
        session_wf(s),
    ensures
        session_wf(step(s, i).0),
        audio_sent(step(s, i).1) + step(s, i).0.pending == s.pending + audio_in(seq![i]),
{
    lemma_audio_in_single(i);
    match i {
        NlsInput::Audio(pcm) => {
            if s.ready {
                lemma_audio_sent_single(NlsActionSpec::SendAudio(pcm));
                assert(s.pending =~= Seq::<Seq<u8>>::empty());
                assert(seq![pcm] + s.pending =~= s.pending + seq![pcm]);
            } else {
                assert(audio_sent(Seq::<NlsActionSpec>::empty()) + s.pending.push(pcm) =~= s.pending + seq![pcm]);
            }
        },
        NlsInput::Stop => {
            if s.ready {
                lemma_audio_sent_single(NlsActionSpec::SendStop);
            }
            assert(audio_in(seq![i]) =~= Seq::<Seq<u8>>::empty());
            assert(audio_sent(step(s, i).1) + step(s, i).0.pending =~= s.pending + audio_in(seq![i]));
        },
        NlsInput::Event(e) => {
            assert(audio_in(seq![i]) =~= Seq::<Seq<u8>>::empty());
            let d = seq![NlsActionSpec::Deliver(e)];
            lemma_audio_sent_single(NlsActionSpec::Deliver(e));
            match e {
                NlsEventSpec::Ready => {
                    let st: Seq<NlsActionSpec> = if s.stop_pending {
                        seq![NlsActionSpec::SendStop]
                    } else {
                        Seq::empty()
                    };
                    if s.stop_pending {
                        lemma_audio_sent_single(NlsActionSpec::SendStop);
                    }
                    assert(audio_sent(st) =~= Seq::<Seq<u8>>::empty());
                    lemma_audio_sent_all(s.pending);
                    lemma_audio_sent_concat(send_all(s.pending), st);
                    lemma_audio_sent_concat(send_all(s.pending) + st, d);
                    assert(audio_sent(step(s, i).1) =~= s.pending);
                    assert(audio_sent(step(s, i).1) + step(s, i).0.pending =~= s.pending + audio_in(seq![i]));
                },
                _ => {
                    assert(audio_sent(step(s, i).1) + step(s, i).0.pending =~= s.pending + audio_in(seq![i]));
                },
            }
        },
    }
}

/// Audio reaches the server in the order it was submitted, none lost and
/// none repeated: over any run of a session, the frames sent followed by
/// those still held back are the frames held at the start followed by those
/// submitted. A ready session holds nothing back.
pub proof fn lemma_audio_order_preserved(s: SessionState, inputs: Seq<NlsInput>)
    requires
        session_wf(s),
    ensures
        session_wf(run(s, inputs).0),
        audio_sent(run(s, inputs).1) + run(s, inputs).0.pending == s.pending + audio_in(inputs),
    decreases inputs.len(),
{
    if inputs.len() == 0 {
        assert(audio_sent(Seq::<NlsActionSpec>::empty()) =~= Seq::<Seq<u8>>::empty());
        assert(audio_in(inputs) =~= Seq::<Seq<u8>>::empty());
        assert(Seq::<Seq<u8>>::empty() + s.pending =~= s.pending + Seq::<Seq<u8>>::empty());
    } else {
        let init = inputs.drop_last();
        let last = inputs.last();
        lemma_audio_order_preserved(s, init);
        let (s1, a1) = run(s, init);
        lemma_step_audio(s1, last);
        let (s2, a2) = step(s1, last);
        lemma_audio_sent_concat(a1, a2);
        // audio_in(inputs) == audio_in(init) + audio_in([last])
        lemma_audio_in_single(last);
        assert(audio_in(inputs) =~= audio_in(init) + audio_in(seq![last]));
        let x = audio_in(seq![last]);
        assert(audio_sent(a1 + a2) + s2.pending =~= audio_sent(a1) + (audio_sent(a2) + s2.pending));
        assert(audio_sent(a1) + (s1.pending + x) =~= (audio_sent(a1) + s1.pending) + x);
        assert((s.pending + audio_in(init)) + x =~= s.pending + (audio_in(init) + x));
        assert(audio_sent(a1 + a2) + s2.pending =~= s.pending + audio_in(inputs));
    }
}

/// Nothing goes to the server before it is ready: a session that is not
/// ready sends neither audio nor the stop request until the ready event
/// arrives.
pub proof fn lemma_nothing_sent_before_ready(s: SessionState, inputs: Seq<NlsInput>)
    requires
        !s.ready,
        forall|k: int| 0 <= k < inputs.len() ==> !(#[trigger] inputs[k] matches NlsInput::Event(NlsEventSpec::Ready)),
    ensures
        !run(s, inputs).0.ready,
        forall|k: int|
            0 <= k < run(s, inputs).1.len() ==> (#[trigger] run(s, inputs).1[k]) is Deliver,
    decreases inputs.len(),
{
    if inputs.len() > 0 {
        let init = inputs.drop_last();
        assert forall|k: int| 0 <= k < init.len() implies !(#[trigger] init[k] matches NlsInput::Event(NlsEventSpec::Ready)) by {
            assert(init[k] == inputs[k]);
        }
        lemma_nothing_sent_before_ready(s, init);
        let (s1, a1) = run(s, init);
        let last = inputs.last();
        assert(!(inputs[inputs.len() - 1] matches NlsInput::Event(NlsEventSpec::Ready)));
        let (s2, a2) = step(s1, last);
        assert forall|k: int| 0 <= k < (a1 + a2).len() implies (#[trigger] (a1 + a2)[k]) is Deliver by {
            if k >= a1.len() {
                assert((a1 + a2)[k] == a2[k - a1.len()]);
            } else {
                assert((a1 + a2)[k] == a1[k]);
            }
        }
    }
}

/// A request or an answer of a session task.
#[derive(Debug)]
pub enum NlsAction {
    SendAudio(Vec<u8>),
    SendStop,
    Deliver(NlsEvent),
}

impl View for NlsAction {
    type V = NlsActionSpec;

    open spec fn view(&self) -> NlsActionSpec {
        match self {
            NlsAction::SendAudio(p) => NlsActionSpec::SendAudio(p@),
            NlsAction::SendStop => NlsActionSpec::SendStop,
            NlsAction::Deliver(e) => NlsActionSpec::Deliver(e@),
        }
    }
}

pub open spec fn actions_view(a: Seq<NlsAction>) -> Seq<NlsActionSpec> {
    a.map_values(|x: NlsAction| x@)
}

/// The decisions of one streaming session task.
pub struct NlsSession {
    ready: bool,
    pending: Vec<Vec<u8>>,
    stop_pending: bool,
}

impl View for NlsSession {
    type V = SessionState;

    closed spec fn view(&self) -> SessionState {
        SessionState {
            ready: self.ready,
            pending: self.pending@.map_values(|p: Vec<u8>| p@),
            stop_pending: self.stop_pending,
        }
    }
}

impl NlsSession {
    /// A session whose start request was just sent.
    pub fn new() -> (s: Self)
        ensures
            s@ == (SessionState { ready: false, pending: Seq::empty(), stop_pending: false }),
    {
        let s = NlsSession { ready: false, pending: Vec::new(), stop_pending: false };
        assert(s@.pending =~= Seq::<Seq<u8>>::empty());
        s
    }

    /// Whether the server has accepted the start request.
    pub fn is_ready(&self) -> (b: bool)
        ensures
            b == self@.ready,
    {
        self.ready
    }

    /// A chunk of PCM audio from the engine.
    pub fn on_audio(&mut self, pcm: Vec<u8>) -> (a: Vec<NlsAction>)
        ensures
            (final(self)@, actions_view(a@)) == step(old(self)@, NlsInput::Audio(pcm@)),
    {
        let ghost pv = pcm@;
        let mut a: Vec<NlsAction> = Vec::new();
        if self.ready {
            a.push(NlsAction::SendAudio(pcm));
            assert(actions_view(a@) =~= seq![NlsActionSpec::SendAudio(pv)]);
        } else {
            let ghost before = self@.pending;
            self.pending.push(pcm);
            assert(self@.pending =~= before.push(pv));
            assert(actions_view(a@) =~= Seq::<NlsActionSpec>::empty());
        }
        a
    }

    /// The engine's stop request.
    pub fn on_stop(&mut self) -> (a: Vec<NlsAction>)
        ensures
            (final(self)@, actions_view(a@)) == step(old(self)@, NlsInput::Stop),
    {
        let mut a: Vec<NlsAction> = Vec::new();
        if self.ready {
            a.push(NlsAction::SendStop);
            assert(actions_view(a@) =~= seq![NlsActionSpec::SendStop]);
        } else {
            self.stop_pending = true;
            assert(actions_view(a@) =~= Seq::<NlsActionSpec>::empty());
        }
        a
    }

    /// An event read from the server; the flag tells whether it ends the
    /// session.
    pub fn on_event(&mut self, e: NlsEvent) -> (r: (Vec<NlsAction>, bool))
        ensures
            (final(self)@, actions_view(r.0@)) == step(old(self)@, NlsInput::Event(e@)),
            r.1 == ends_session(e@),
    {
        let ghost ev = e@;
        let done = match &e {
            NlsEvent::Final(_) => true,
            NlsEvent::Error(_) => true,
            _ => false,
        };
        let mut a: Vec<NlsAction> = Vec::new();
        if let NlsEvent::Ready = e {
            let ghost held = self@.pending;
            self.ready = true;
            while self.pending.len() > 0
                invariant
                    self.ready,
                    self.stop_pending == old(self).stop_pending,
                    actions_view(a@) + send_all(self.pending@.map_values(|p: Vec<u8>| p@)) == send_all(held),
                decreases self.pending.len(),
            {
                let ghost rest = self.pending@.map_values(|p: Vec<u8>| p@);
                let ghost av = actions_view(a@);
                let p = self.pending.remove(0);
                a.push(NlsAction::SendAudio(p));
                assert(actions_view(a@) =~= av.push(NlsActionSpec::SendAudio(rest[0])));
                assert(send_all(rest) =~= seq![NlsActionSpec::SendAudio(rest[0])] + send_all(
                    self.pending@.map_values(|p: Vec<u8>| p@),
                ));
                assert(actions_view(a@) + send_all(self.pending@.map_values(|p: Vec<u8>| p@)) =~= av + send_all(rest));
            }
            assert(send_all(self.pending@.map_values(|p: Vec<u8>| p@)) =~= Seq::<NlsActionSpec>::empty());
            assert(actions_view(a@) =~= send_all(held));
            let ghost flushed = actions_view(a@);
            if self.stop_pending {
                a.push(NlsAction::SendStop);
            }
            let ghost with_stop = actions_view(a@);
            assert(with_stop =~= flushed + (if self.stop_pending {
                seq![NlsActionSpec::SendStop]
            } else {
                Seq::empty()
            }));
            a.push(NlsAction::Deliver(e));
            assert(actions_view(a@) =~= with_stop + seq![NlsActionSpec::Deliver(ev)]);
            assert(self@.pending =~= Seq::<Seq<u8>>::empty());
            assert(ev == NlsEventSpec::Ready);
            assert(self@ == SessionState { ready: true, pending: Seq::empty(), ..old(self)@ });
            assert(actions_view(a@) == step(old(self)@, NlsInput::Event(ev)).1);
        } else {
            a.push(NlsAction::Deliver(e));
            assert(actions_view(a@) =~= seq![NlsActionSpec::Deliver(ev)]);
        }
        (a, done)
    }
}

// ---------------------------------------------------------------- engine decisions

/// Takes an event while streaming: a partial or final result becomes the
/// current text; the returned flag tells whether the task failed (the
/// session is then dropped and reconnected on the next audio).
pub fn absorb_event(current: &mut String, e: NlsEvent) -> (failed: bool)
    ensures
        failed == (e@ is Error),
        match e@ {
            NlsEventSpec::Partial(t) => final(current)@ == t,
            NlsEventSpec::Final(t) => final(current)@ == t,
            _ => final(current)@ == old(current)@,
        },
{
    match e {
        NlsEvent::Ready => false,
        NlsEvent::Partial(t) => {
            *current = t;
            false
        },
        NlsEvent::Final(t) => {
            *current = t;
            false
        },
        NlsEvent::Error(_) => true,
    }
}

/// Takes an event while waiting for the end of a segment: results become
/// the segment text; the returned flag tells whether waiting ends (a final
/// result or an error).
pub fn finish_event(final_text: &mut String, e: NlsEvent) -> (stop: bool)
    ensures
        stop == ends_session(e@),
        match e@ {
            NlsEventSpec::Partial(t) => final(final_text)@ == t,
            NlsEventSpec::Final(t) => final(final_text)@ == t,
            _ => final(final_text)@ == old(final_text)@,
        },
{
    match e {
        NlsEvent::Ready => false,
        NlsEvent::Partial(t) => {
            *final_text = t;
            false
        },
        NlsEvent::Final(t) => {
            *final_text = t;
            true
        },
        NlsEvent::Error(_) => true,
    }
}

} // verus!
