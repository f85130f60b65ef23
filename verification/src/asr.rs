//! Speech recognition: the events that engines report, the engine interface,
//! and the choice of engine from the settings.
use vstd::prelude::*;

use crate::text::{join2, str_equals};

pub mod deepgram;
pub mod whisper;

verus! {

/// Events emitted by ASR engines.
#[derive(Debug, Clone)]
pub enum AsrEvent {
    /// Partial transcription (still speaking)
    Interim { text: String },
    /// Final transcription (sentence boundary detected)
    Final { text: String },
    /// Error from ASR engine
    Error { message: String },
}

/// Interface of every ASR backend.
pub trait AsrEngine {
    /// Feed raw 16kHz mono i16 PCM audio.
    fn feed_audio(&mut self, samples: &[i16]) -> Result<Vec<AsrEvent>, String>;

    /// Flush remaining audio buffer (call on stop).
    fn flush(&mut self) -> Result<Vec<AsrEvent>, String>;

    /// Change recognition language.
    fn set_language(&mut self, language: &str);
}

/// Which engine to build, with what it is built from.
#[derive(Debug)]
pub enum AsrEngineConfig {
    /// Deepgram's streaming service.
    Deepgram { api_key: String, language: String },
    /// A local Whisper model.
    Whisper { model_size: String, language: String },
}

/// The message of the error returned when Deepgram is chosen without a key.
pub open spec fn missing_deepgram_key_message() -> Seq<char> {
    "Deepgram API key is required. Set DEEPGRAM_API_KEY in your .env file."@
}

/// Chooses the ASR engine. `api_key` is required for "deepgram"; every other
/// engine name selects Whisper.
pub fn create_asr_engine(
    engine_type: &str,
    language: &str,
    model_size: &str,
    api_key: Option<&str>,
) -> (res: Result<AsrEngineConfig, String>)
    ensures
        engine_type@ == "deepgram"@ ==> match api_key {
            None => (res matches Err(e) && e@ == missing_deepgram_key_message()),
            Some(k) => (res matches Ok(AsrEngineConfig::Deepgram { api_key: key, language: l })
                && key@ == k@ && l@ == language@),
        },
        engine_type@ != "deepgram"@ ==> (res matches Ok(
            AsrEngineConfig::Whisper { model_size: m, language: l },
        ) && m@ == model_size@ && l@ == language@),
{
    if str_equals(engine_type, "deepgram") {
        match api_key {
            None => Err(
                String::from_str(
                    "Deepgram API key is required. Set DEEPGRAM_API_KEY in your .env file.",
                ),
            ),
            Some(k) => Ok(
                AsrEngineConfig::Deepgram {
                    api_key: String::from_str(k),
                    language: String::from_str(language),
                },
            ),
        }
    } else {
        Ok(
            AsrEngineConfig::Whisper {
                model_size: String::from_str(model_size),
                language: String::from_str(language),
            },
        )
    }
}

/// An error event whose message is `prefix` followed by `detail`.
pub fn error_event(prefix: &str, detail: &str) -> (res: AsrEvent)
    ensures
        res matches AsrEvent::Error { message } && message@ == prefix@ + detail@,
{
    AsrEvent::Error { message: join2(prefix, detail) }
}

} // verus!
