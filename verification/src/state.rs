//! Settings: their defaults, what the frontend sees of them, where the API
//! key comes from, and how it reaches the recognizer.
use vstd::prelude::*;

use crate::commands::{validate_settings, CommandError};

verus! {

/// The user's settings (the overlay's opacity aside, which the host keeps).
#[derive(Debug, Clone)]
pub struct Settings {
    pub asr_engine: String,
    pub translation_engine: String,
    pub source_lang: String,
    pub target_lang: String,
    pub whisper_model: String,
    pub deepgram_api_key: String,
    pub overlay_show_source: bool,
}

impl Settings {
    /// The settings of a fresh installation: Deepgram, the free translation
    /// service, English to Tamil, the large-v3-turbo model, no key, and the
    /// source text shown in the overlay.
    pub fn defaults() -> (res: Self)
        ensures
            res.asr_engine@ == "deepgram"@,
            res.translation_engine@ == "libre"@,
            res.source_lang@ == "en"@,
            res.target_lang@ == "ta"@,
            res.whisper_model@ == "large-v3-turbo"@,
            res.deepgram_api_key@.len() == 0,
            res.overlay_show_source,
    {
        Settings {
            asr_engine: String::from_str("deepgram"),
            translation_engine: String::from_str("libre"),
            source_lang: String::from_str("en"),
            target_lang: String::from_str("ta"),
            whisper_model: String::from_str("large-v3-turbo"),
            deepgram_api_key: String::new(),
            overlay_show_source: true,
        }
    }

    /// The settings as the frontend sees them: everything but the API key,
    /// which never leaves the backend.
    pub fn for_frontend(&self) -> (res: Self)
        ensures
            res.asr_engine == self.asr_engine,
            res.translation_engine == self.translation_engine,
            res.source_lang == self.source_lang,
            res.target_lang == self.target_lang,
            res.whisper_model == self.whisper_model,
            res.deepgram_api_key@.len() == 0,
            res.overlay_show_source == self.overlay_show_source,
    {
        Settings {
            asr_engine: self.asr_engine.clone(),
            translation_engine: self.translation_engine.clone(),
            source_lang: self.source_lang.clone(),
            target_lang: self.target_lang.clone(),
            whisper_model: self.whisper_model.clone(),
            deepgram_api_key: String::new(),
            overlay_show_source: self.overlay_show_source,
        }
    }

    /// The settings stored when the frontend saves `sent`: checked first
    /// (see [`validate_settings`]), then its values, except that an empty key
    /// (the frontend is never shown the stored one) keeps `stored_key`.
    pub fn saved_from(sent: Settings, stored_key: String) -> (res: Result<Self, CommandError>)
        ensures
            match crate::commands::settings_error(
                sent.asr_engine@,
                sent.translation_engine@,
                sent.source_lang@,
                sent.target_lang@,
                sent.whisper_model@,
            ) {
                Some(m) => res matches Err(e) && e@ == m,
                None => res matches Ok(s) && {
                    &&& s.asr_engine == sent.asr_engine
                    &&& s.translation_engine == sent.translation_engine
                    &&& s.source_lang == sent.source_lang
                    &&& s.target_lang == sent.target_lang
                    &&& s.whisper_model == sent.whisper_model
                    &&& s.overlay_show_source == sent.overlay_show_source
                    &&& s.deepgram_api_key == (if sent.deepgram_api_key@.len() > 0 {
                        sent.deepgram_api_key
                    } else {
                        stored_key
                    })
                },
            },
    {
        validate_settings(
            sent.asr_engine.as_str(),
            sent.translation_engine.as_str(),
            sent.source_lang.as_str(),
            sent.target_lang.as_str(),
            sent.whisper_model.as_str(),
        )?;
        let Settings {
            asr_engine,
            translation_engine,
            source_lang,
            target_lang,
            whisper_model,
            deepgram_api_key,
            overlay_show_source,
        } = sent;
        Ok(
            Settings {
                asr_engine,
                translation_engine,
                source_lang,
                target_lang,
                whisper_model,
                deepgram_api_key: effective_api_key(stored_key, Some(deepgram_api_key)),
                overlay_show_source,
            },
        )
    }
}

/// The Deepgram key in effect: a non-empty `DEEPGRAM_API_KEY` from the
/// environment takes precedence over the saved one.
pub fn effective_api_key(saved: String, from_env: Option<String>) -> (res: String)
    ensures
        match from_env {
            Some(k) if k@.len() > 0 => res == k,
            _ => res == saved,
        },
{
    match from_env {
        Some(k) => if k.as_str().unicode_len() > 0 {
            k
        } else {
            saved
        },
        None => saved,
    }
}

/// The key handed to the recognizer: none when it is empty.
pub fn optional_api_key(key: &str) -> (res: Option<&str>)
    ensures
        key@.len() == 0 ==> res is None,
        key@.len() > 0 ==> res == Some(key),
{
    if key.unicode_len() == 0 {
        None
    } else {
        Some(key)
    }
}

} // verus!
