//! The logic behind the frontend's commands: errors, validation of languages and settings, and
//! the device a capture is started on.
use vstd::prelude::*;

use crate::audio::capture::AudioDevice;
use crate::text::str_equals;

verus! {

/// The error a command reports to the frontend.
#[derive(Debug)]
pub struct CommandError {
    message: String,
}

impl View for CommandError {
    type V = Seq<char>;

    /// The message shown to the user.
    closed spec fn view(&self) -> Seq<char> {
        self.message@
    }
}

impl CommandError {
    /// An error with this message.
    pub fn new(message: String) -> (res: Self)
        ensures
            res@ == message@,
    {
        CommandError { message }
    }

    /// The message shown to the user.
    pub fn message(&self) -> (res: &str)
        ensures
            res@ == self@,
    {
        self.message.as_str()
    }
}

/// The language codes the app accepts.
pub open spec fn supported_language_codes() -> Seq<Seq<char>> {
    seq![
        "en"@,
        "ta"@,
        "hi"@,
        "es"@,
        "fr"@,
        "de"@,
        "ja"@,
        "ko"@,
        "zh-CN"@,
        "ar"@,
        "pt"@,
        "ru"@,
        "it"@,
        "te"@,
        "bn"@,
        "vi"@,
        "th"@,
        "id"@,
        "nl"@,
        "tr"@,
    ]
}

/// Whether the app accepts `code` as a language.
pub fn is_supported_language(code: &str) -> (res: bool)
    ensures
        res == supported_language_codes().contains(code@),
{
    let valid_codes: [&str; 20] = [
        "en",
        "ta",
        "hi",
        "es",
        "fr",
        "de",
        "ja",
        "ko",
        "zh-CN",
        "ar",
        "pt",
        "ru",
        "it",
        "te",
        "bn",
        "vi",
        "th",
        "id",
        "nl",
        "tr",
    ];
    let ghost codes = supported_language_codes();
    assert(forall|k: int| 0 <= k < 20 ==> #[trigger] valid_codes@[k]@ == codes[k]);
    let mut i: usize = 0;
    while i < 20
        invariant
            i <= 20,
            codes == supported_language_codes(),
            forall|k: int| 0 <= k < 20 ==> #[trigger] valid_codes@[k]@ == codes[k],
            forall|k: int| 0 <= k < i ==> codes[k] != code@,
        decreases 20 - i,
    {
        if str_equals(valid_codes[i], code) {
            assert(codes[i as int] == code@);
            return true;
        }
        i = i + 1;
    }
    false
}

/// The message of the error for an unsupported language.
pub open spec fn invalid_language_message() -> Seq<char> {
    "Invalid language code"@
}

/// Checks a language pair before it is stored: both must be supported.
pub fn validate_languages(source_lang: &str, target_lang: &str) -> (res: Result<(), CommandError>)
    ensures
        supported_language_codes().contains(source_lang@) && supported_language_codes().contains(
            target_lang@,
        ) ==> res is Ok,
        !(supported_language_codes().contains(source_lang@) && supported_language_codes().contains(
            target_lang@,
        )) ==> (res matches Err(e) && e@ == invalid_language_message()),
{
    if !is_supported_language(source_lang) || !is_supported_language(target_lang) {
        return Err(CommandError::new(String::from_str("Invalid language code")));
    }
    Ok(())
}

/// The recognizers the settings may name.
pub open spec fn asr_engine_names() -> Seq<Seq<char>> {
    seq!["deepgram"@, "whisper"@]
}

/// The translation services the settings may name.
pub open spec fn translation_engine_names() -> Seq<Seq<char>> {
    seq!["libre"@, "google"@]
}

/// The Whisper models the settings may name.
pub open spec fn whisper_model_names() -> Seq<Seq<char>> {
    seq!["large-v3-turbo"@, "large-v3-turbo-q5_0"@, "large-v3"@, "medium"@, "small"@, "base"@]
}

/// The error, if any, for settings that name these engines, languages and
/// model: each value is checked against its list, in this order, and the
/// first one not on it gives the error.
pub open spec fn settings_error(
    asr_engine: Seq<char>,
    translation_engine: Seq<char>,
    source_lang: Seq<char>,
    target_lang: Seq<char>,
    whisper_model: Seq<char>,
) -> Option<Seq<char>> {
    if !asr_engine_names().contains(asr_engine) {
        Some("Invalid ASR engine"@)
    } else if !translation_engine_names().contains(translation_engine) {
        Some("Invalid translation engine"@)
    } else if !(supported_language_codes().contains(source_lang)
        && supported_language_codes().contains(target_lang)) {
        Some(invalid_language_message())
    } else if !whisper_model_names().contains(whisper_model) {
        Some("Invalid Whisper model"@)
    } else {
        None
    }
}

fn is_one_of(value: &str, names: &[&str]) -> (res: bool)
    ensures
        res == names@.map_values(|n: &str| n@).contains(value@),
{
    let ghost seen = names@.map_values(|n: &str| n@);
    let mut i: usize = 0;
    while i < names.len()
        invariant
            i <= names@.len(),
            seen == names@.map_values(|n: &str| n@),
            forall|k: int| 0 <= k < i ==> seen[k] != value@,
        decreases names@.len() - i,
    {
        if str_equals(names[i], value) {
            assert(seen[i as int] == value@);
            return true;
        }
        i = i + 1;
    }
    false
}

/// Checks settings before they are stored (see [`settings_error`]).
pub fn validate_settings(
    asr_engine: &str,
    translation_engine: &str,
    source_lang: &str,
    target_lang: &str,
    whisper_model: &str,
) -> (res: Result<(), CommandError>)
    ensures
        match settings_error(asr_engine@, translation_engine@, source_lang@, target_lang@, whisper_model@) {
            None => res is Ok,
            Some(m) => res matches Err(e) && e@ == m,
        },
{
    let asr_names: [&str; 2] = ["deepgram", "whisper"];
    assert(asr_names@.map_values(|n: &str| n@) =~= asr_engine_names());
    if !is_one_of(asr_engine, &asr_names) {
        return Err(CommandError::new(String::from_str("Invalid ASR engine")));
    }
    let translation_names: [&str; 2] = ["libre", "google"];
    assert(translation_names@.map_values(|n: &str| n@) =~= translation_engine_names());
    if !is_one_of(translation_engine, &translation_names) {
        return Err(CommandError::new(String::from_str("Invalid translation engine")));
    }
    validate_languages(source_lang, target_lang)?;
    let models: [&str; 6] = [
        "large-v3-turbo",
        "large-v3-turbo-q5_0",
        "large-v3",
        "medium",
        "small",
        "base",
    ];
    assert(models@.map_values(|n: &str| n@) =~= whisper_model_names());
    if !is_one_of(whisper_model, &models) {
        return Err(CommandError::new(String::from_str("Invalid Whisper model")));
    }
    Ok(())
}

/// The device a capture is started on from the frontend's selection: the
/// selected name doubles as the process name, and the device is active.
pub fn selected_device(device_id: String, device_name: String, sample_rate: u32, channels: u16) -> (res:
    AudioDevice)
    ensures
        res.id == device_id,
        res.name == device_name,
        res.process_name == device_name,
        res.sample_rate == sample_rate,
        res.channels == channels,
        res.is_active,
{
    AudioDevice {
        id: device_id,
        name: device_name.clone(),
        process_name: device_name,
        sample_rate,
        channels,
        is_active: true,
    }
}

} // verus!
