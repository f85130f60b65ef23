//! Deepgram streaming: request construction, audio encoding, response
//! interpretation and the decisions of the streaming session.
use vstd::prelude::*;

use crate::asr::{error_event, AsrEvent};
use crate::text::{join2, str_equals, trim, trim_str};

verus! {

/// The BCP-47 tag that Deepgram expects for one of the app's language codes;
/// codes it does not know pass through unchanged.
pub open spec fn bcp47_code(lang: Seq<char>) -> Seq<char> {
    if lang == "en"@ {
        "en-US"@
    } else if lang == "ta"@ {
        "ta"@
    } else if lang == "hi"@ {
        "hi"@
    } else if lang == "es"@ {
        "es"@
    } else if lang == "fr"@ {
        "fr"@
    } else if lang == "de"@ {
        "de"@
    } else if lang == "ja"@ {
        "ja"@
    } else if lang == "zh-CN"@ || lang == "zh"@ {
        "zh-CN"@
    } else if lang == "ko"@ {
        "ko"@
    } else if lang == "ar"@ {
        "ar"@
    } else if lang == "pt"@ {
        "pt-BR"@
    } else if lang == "ru"@ {
        "ru"@
    } else if lang == "it"@ {
        "it"@
    } else if lang == "nl"@ {
        "nl"@
    } else if lang == "tr"@ {
        "tr"@
    } else if lang == "vi"@ {
        "vi"@
    } else if lang == "th"@ {
        "th"@
    } else if lang == "id"@ {
        "id"@
    } else {
        lang
    }
}

/// Maps an app language code to the tag Deepgram expects.
pub fn to_bcp47<'a>(lang: &'a str) -> (res: &'a str)
    ensures
        res@ == bcp47_code(lang@),
{
    if str_equals(lang, "en") {
        "en-US"
    } else if str_equals(lang, "ta") {
        "ta"
    } else if str_equals(lang, "hi") {
        "hi"
    } else if str_equals(lang, "es") {
        "es"
    } else if str_equals(lang, "fr") {
        "fr"
    } else if str_equals(lang, "de") {
        "de"
    } else if str_equals(lang, "ja") {
        "ja"
    } else if str_equals(lang, "zh-CN") || str_equals(lang, "zh") {
        "zh-CN"
    } else if str_equals(lang, "ko") {
        "ko"
    } else if str_equals(lang, "ar") {
        "ar"
    } else if str_equals(lang, "pt") {
        "pt-BR"
    } else if str_equals(lang, "ru") {
        "ru"
    } else if str_equals(lang, "it") {
        "it"
    } else if str_equals(lang, "nl") {
        "nl"
    } else if str_equals(lang, "tr") {
        "tr"
    } else if str_equals(lang, "vi") {
        "vi"
    } else if str_equals(lang, "th") {
        "th"
    } else if str_equals(lang, "id") {
        "id"
    } else {
        lang
    }
}

/// The part of the streaming URL before the language tag.
pub open spec fn listen_url_head() -> Seq<char> {
    "wss://api.deepgram.com/v1/listen?model=nova-2-general&language="@
}

/// The part of the streaming URL after the language tag.
pub open spec fn listen_url_tail() -> Seq<char> {
    "&punctuate=true&interim_results=true&endpointing=700&smart_format=true&encoding=linear16&sample_rate=16000&channels=1"@
}

/// The WebSocket URL of a streaming session in `language` (nova-2-general,
/// punctuation, interim results, 700 ms endpointing, 16 kHz mono linear16).
pub fn listen_url(language: &str) -> (res: String)
    ensures
        res@ == listen_url_head() + bcp47_code(language@) + listen_url_tail(),
{
    let mut url = String::from_str(
        "wss://api.deepgram.com/v1/listen?model=nova-2-general&language=",
    );
    url.append(to_bcp47(language));
    url.append(
        "&punctuate=true&interim_results=true&endpointing=700&smart_format=true&encoding=linear16&sample_rate=16000&channels=1",
    );
    url
}

/// The value of the `Authorization` header: `Token <api_key>`.
pub fn authorization_value(api_key: &str) -> (res: String)
    ensures
        res@ == "Token "@ + api_key@,
{
    join2("Token ", api_key)
}

/// The low byte of a sample in two's complement.
pub open spec fn low_byte(s: i16) -> u8 {
    ((s as u16) % 256) as u8
}

/// The high byte of a sample in two's complement.
pub open spec fn high_byte(s: i16) -> u8 {
    ((s as u16) / 256) as u8
}

/// Encodes 16-bit PCM as raw little-endian bytes, as Deepgram expects
/// (the bytes of `i16::to_le_bytes` for each sample, in order).
pub fn pcm_to_le_bytes(samples: &[i16]) -> (res: Vec<u8>)
    ensures
        res@.len() == 2 * samples@.len(),
        forall|i: int|
            0 <= i < samples@.len() ==> #[trigger] res@[2 * i] == low_byte(samples@[i]) && res@[2
                * i + 1] == high_byte(samples@[i]),
{
    let mut out: Vec<u8> = Vec::new();
    let n = samples.len();
    let mut i: usize = 0;
    while i < n
        invariant
            n == samples@.len(),
            i <= n,
            out@.len() == 2 * i,
            forall|k: int|
                0 <= k < i ==> #[trigger] out@[2 * k] == low_byte(samples@[k]) && out@[2 * k + 1]
                    == high_byte(samples@[k]),
        decreases n - i,
    {
        let u = #[verifier::truncate] (samples[i] as u16);
        let ghost before = out@;
        out.push((u % 256) as u8);
        out.push((u / 256) as u8);
        assert forall|k: int| 0 <= k <= i implies #[trigger] out@[2 * k] == low_byte(samples@[k])
            && out@[2 * k + 1] == high_byte(samples@[k]) by {
            if k < i {
                assert(out@[2 * k] == before[2 * k]);
                assert(out@[2 * k + 1] == before[2 * k + 1]);
            }
        }
        i = i + 1;
    }
    out
}

/// Law: Deepgram receives exactly the samples: the two bytes of each sample,
/// read back little-endian (as `i16::from_le_bytes` does), give the sample.
pub proof fn lemma_le_bytes_decode(s: i16)
    ensures
        ((low_byte(s) as u16 + 256 * (high_byte(s) as u16)) as u16) as i16 == s,
{
    assert((((((s as u16) % 256) as u8) as u16 + 256 * ((((s as u16) / 256) as u8) as u16)) as u16)
        as i16 == s) by (bit_vector);
}

/// One alternative transcript of a Deepgram result.
#[derive(Debug)]
pub struct DeepgramAlternative {
    pub transcript: String,
}

/// The channel of a Deepgram result.
#[derive(Debug)]
pub struct DeepgramChannel {
    pub alternatives: Vec<DeepgramAlternative>,
}

/// A message of Deepgram's streaming API, as far as the app reads it.
#[derive(Debug)]
pub struct DeepgramResponse {
    pub channel: Option<DeepgramChannel>,
    pub is_final: bool,
}

/// The trimmed first alternative of a response, if it has one.
pub open spec fn first_transcript(response: DeepgramResponse) -> Option<Seq<char>> {
    match response.channel {
        Some(channel) => if channel.alternatives@.len() > 0 {
            Some(trim(channel.alternatives@[0].transcript@))
        } else {
            None
        },
        None => None,
    }
}

/// The event a transcript message gives: its trimmed first alternative, as a
/// final or interim transcription; nothing when that text is empty or the
/// message carries no transcript.
pub fn transcript_event(response: &DeepgramResponse) -> (res: Option<AsrEvent>)
    ensures
        match first_transcript(*response) {
            Some(t) if t.len() > 0 => if response.is_final {
                res matches Some(AsrEvent::Final { text }) && text@ == t
            } else {
                res matches Some(AsrEvent::Interim { text }) && text@ == t
            },
            _ => res is None,
        },
{
    match &response.channel {
        Some(channel) => {
            if channel.alternatives.len() == 0 {
                return None;
            }
            let t = trim_str(channel.alternatives[0].transcript.as_str());
            if t.unicode_len() == 0 {
                return None;
            }
            let text = String::from_str(t);
            if response.is_final {
                Some(AsrEvent::Final { text })
            } else {
                Some(AsrEvent::Interim { text })
            }
        },
        None => None,
    }
}

/// The message sent when the worker starts without an API key.
pub open spec fn missing_key_message() -> Seq<char> {
    "Deepgram API key is missing. Open Settings (\u{2699}) and enter your key."@
}

/// The error the worker reports, and then stops, when the API key is empty.
pub fn missing_key_event(api_key: &str) -> (res: Option<AsrEvent>)
    ensures
        api_key@.len() == 0 ==> (res matches Some(AsrEvent::Error { message }) && message@
            == missing_key_message()),
        api_key@.len() > 0 ==> res is None,
{
    if api_key.unicode_len() == 0 {
        Some(
            AsrEvent::Error {
                message: String::from_str(
                    "Deepgram API key is missing. Open Settings (\u{2699}) and enter your key.",
                ),
            },
        )
    } else {
        None
    }
}

/// Messages from the engine to its streaming worker.
#[derive(Debug)]
pub enum AudioMsg {
    Samples(Vec<i16>),
    Flush,
    LanguageChange(String),
    Stop,
}

/// What a non-blocking read of the worker's queue gave.
#[derive(Debug)]
pub enum AudioPoll {
    Message(AudioMsg),
    Empty,
    Disconnected,
}

/// What the streaming session does next.
#[derive(Debug)]
pub enum SessionAction {
    /// Send these bytes as a binary frame and keep streaming.
    SendAudio(Vec<u8>),
    /// Send a close frame and end the session, to reconnect in another language.
    Reconnect { new_language: String },
    /// Send this text frame, let the reader drain for 600 ms, and end the worker.
    FinishStream { message: String },
    /// Send a close frame and end the worker.
    Close,
    /// Nothing queued: sleep this long and poll again.
    Wait { millis: u64 },
}

/// The text frame asking Deepgram to finalize the stream.
pub open spec fn close_stream_message() -> Seq<char> {
    "{\"type\":\"CloseStream\"}"@
}

/// Decides the session's next step from what the queue gave.
pub fn on_audio_poll(poll: AudioPoll) -> (res: SessionAction)
    ensures
        match poll {
            AudioPoll::Message(AudioMsg::Samples(s)) => res matches SessionAction::SendAudio(
                bytes,
            ) && bytes@.len() == 2 * s@.len() && forall|i: int|
                0 <= i < s@.len() ==> #[trigger] bytes@[2 * i] == low_byte(s@[i]) && bytes@[2 * i
                    + 1] == high_byte(s@[i]),
            AudioPoll::Message(AudioMsg::LanguageChange(l)) => res matches SessionAction::Reconnect {
                new_language,
            } && new_language == l,
            AudioPoll::Message(AudioMsg::Flush) => res matches SessionAction::FinishStream {
                message,
            } && message@ == close_stream_message(),
            AudioPoll::Message(AudioMsg::Stop) => res is Close,
            AudioPoll::Empty => res matches SessionAction::Wait { millis } && millis == 10,
            AudioPoll::Disconnected => res is Close,
        },
{
    match poll {
        AudioPoll::Message(AudioMsg::Samples(s)) => SessionAction::SendAudio(
            pcm_to_le_bytes(s.as_slice()),
        ),
        AudioPoll::Message(AudioMsg::LanguageChange(l)) => SessionAction::Reconnect {
            new_language: l,
        },
        AudioPoll::Message(AudioMsg::Flush) => SessionAction::FinishStream {
            message: String::from_str("{\"type\":\"CloseStream\"}"),
        },
        AudioPoll::Message(AudioMsg::Stop) => SessionAction::Close,
        AudioPoll::Empty => SessionAction::Wait { millis: 10 },
        AudioPoll::Disconnected => SessionAction::Close,
    }
}

/// How a streaming session ended.
#[derive(Debug)]
pub enum SessionOutcome {
    Stop,
    Reconnect { new_language: String },
    Error { message: String },
}

/// What the worker does after a session ended.
#[derive(Debug)]
pub enum WorkerStep {
    /// The worker is done.
    Finish,
    /// Wait, then open a session in this language.
    Reconnect { language: String, delay_millis: u64 },
    /// Report this event, wait, then open a session in the same language.
    Retry { event: AsrEvent, delay_millis: u64 },
}

/// Decides the worker's next step after a session ended.
pub fn on_session_outcome(outcome: SessionOutcome) -> (res: WorkerStep)
    ensures
        match outcome {
            SessionOutcome::Stop => res is Finish,
            SessionOutcome::Reconnect { new_language } => res matches WorkerStep::Reconnect {
                language,
                delay_millis,
            } && language == new_language && delay_millis == 200,
            SessionOutcome::Error { message } => res matches WorkerStep::Retry {
                event: AsrEvent::Error { message: m },
                delay_millis,
            } && m@ == "Deepgram error: "@ + message@ && delay_millis == 3000,
        },
{
    match outcome {
        SessionOutcome::Stop => WorkerStep::Finish,
        SessionOutcome::Reconnect { new_language } => WorkerStep::Reconnect {
            language: new_language,
            delay_millis: 200,
        },
        SessionOutcome::Error { message } => WorkerStep::Retry {
            event: error_event("Deepgram error: ", message.as_str()),
            delay_millis: 3000,
        },
    }
}

} // verus!
