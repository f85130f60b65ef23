use speech_translator::commands::{
    is_supported_language, selected_device, validate_languages, validate_settings, CommandError,
};
use speech_translator::state::{effective_api_key, optional_api_key, Settings};

#[test]
fn supported_languages_are_the_readme_table() {
    for code in [
        "en", "ta", "hi", "te", "bn", "es", "fr", "de", "ja", "ko", "zh-CN", "ar", "pt", "ru",
        "it", "nl", "tr", "vi", "th", "id",
    ] {
        assert!(is_supported_language(code), "{}", code);
    }
    for code in ["", "EN", "zh", "xx", "en-US", " en"] {
        assert!(!is_supported_language(code), "{}", code);
    }
}

#[test]
fn language_pair_validation() {
    assert!(validate_languages("en", "ta").is_ok());
    assert!(validate_languages("zh-CN", "bn").is_ok());
    assert_eq!(validate_languages("en", "klingon").unwrap_err().message(), "Invalid language code");
    assert_eq!(validate_languages("xx", "ta").unwrap_err().message(), "Invalid language code");
}

#[test]
fn command_errors_and_devices() {
    let e = CommandError::new("boom".to_string());
    assert_eq!(e.message(), "boom");
    let d = selected_device("endpoint-1".to_string(), "Zoom Meetings".to_string(), 48000, 2);
    assert_eq!(d.id, "endpoint-1");
    assert_eq!(d.name, "Zoom Meetings");
    assert_eq!(d.process_name, "Zoom Meetings");
    assert_eq!(d.sample_rate, 48000);
    assert_eq!(d.channels, 2);
    assert!(d.is_active);
}

#[test]
fn api_key_sources() {
    assert_eq!(effective_api_key("saved".to_string(), Some("env".to_string())), "env");
    assert_eq!(effective_api_key("saved".to_string(), Some(String::new())), "saved");
    assert_eq!(effective_api_key("saved".to_string(), None), "saved");
    assert_eq!(optional_api_key(""), None);
    assert_eq!(optional_api_key("k"), Some("k"));
}

#[test]
fn settings_are_checked_against_their_lists() {
    assert!(validate_settings("deepgram", "libre", "en", "ta", "large-v3-turbo").is_ok());
    assert!(validate_settings("whisper", "google", "ja", "de", "base").is_ok());
    for model in ["large-v3-turbo", "large-v3-turbo-q5_0", "large-v3", "medium", "small", "base"] {
        assert!(validate_settings("whisper", "libre", "en", "fr", model).is_ok(), "{}", model);
    }
    let msg = |r: Result<(), CommandError>| r.unwrap_err().message().to_string();
    assert_eq!(msg(validate_settings("vosk", "libre", "en", "ta", "base")), "Invalid ASR engine");
    assert_eq!(msg(validate_settings("deepgram", "deepl", "en", "ta", "base")), "Invalid translation engine");
    assert_eq!(msg(validate_settings("deepgram", "libre", "xx", "ta", "base")), "Invalid language code");
    assert_eq!(msg(validate_settings("deepgram", "libre", "en", "ta", "tiny")), "Invalid Whisper model");
    // the first value off its list decides the error
    assert_eq!(msg(validate_settings("", "", "", "", "")), "Invalid ASR engine");
}

#[test]
fn settings_defaults_and_the_frontend_view() {
    let d = Settings::defaults();
    assert_eq!(d.asr_engine, "deepgram");
    assert_eq!(d.translation_engine, "libre");
    assert_eq!(d.source_lang, "en");
    assert_eq!(d.target_lang, "ta");
    assert_eq!(d.whisper_model, "large-v3-turbo");
    assert_eq!(d.deepgram_api_key, "");
    assert!(d.overlay_show_source);
    let mut stored = Settings::defaults();
    stored.deepgram_api_key = "secret".to_string();
    let shown = stored.for_frontend();
    assert_eq!(shown.deepgram_api_key, "");
    assert_eq!(shown.asr_engine, "deepgram");
    // saving what the frontend was shown keeps the stored key
    let saved = Settings::saved_from(shown, "secret".to_string()).unwrap();
    assert_eq!(saved.deepgram_api_key, "secret");
    let mut sent = Settings::defaults();
    sent.deepgram_api_key = "new".to_string();
    sent.target_lang = "fr".to_string();
    let saved = Settings::saved_from(sent, "secret".to_string()).unwrap();
    assert_eq!(saved.deepgram_api_key, "new");
    assert_eq!(saved.target_lang, "fr");
    let mut bad = Settings::defaults();
    bad.whisper_model = "huge".to_string();
    assert_eq!(Settings::saved_from(bad, String::new()).unwrap_err().message(), "Invalid Whisper model");
}
