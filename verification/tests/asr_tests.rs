use speech_translator::asr::deepgram::{
    authorization_value, listen_url, missing_key_event, on_audio_poll, on_session_outcome,
    pcm_to_le_bytes, to_bcp47, transcript_event, AudioMsg, AudioPoll, DeepgramAlternative,
    DeepgramChannel, DeepgramResponse, SessionAction, SessionOutcome, WorkerStep,
};
use speech_translator::asr::whisper::{
    chunk_is_loud, flush_transcription_event, join_segments, model_download_url,
    model_file_name, sum_of_squares, transcription_event, whisper_language, SpeechSegmenter,
    MAX_AUDIO_SAMPLES, MIN_AUDIO_SAMPLES,
};
use speech_translator::asr::{create_asr_engine, error_event, AsrEngineConfig, AsrEvent};

#[test]
fn asr_engine_choice() {
    match create_asr_engine("deepgram", "en", "large-v3-turbo", Some("key123")) {
        Ok(AsrEngineConfig::Deepgram { api_key, language }) => {
            assert_eq!(api_key, "key123");
            assert_eq!(language, "en");
        }
        other => panic!("unexpected {:?}", other),
    }
    match create_asr_engine("deepgram", "en", "base", None) {
        Err(e) => assert_eq!(
            e,
            "Deepgram API key is required. Set DEEPGRAM_API_KEY in your .env file."
        ),
        other => panic!("unexpected {:?}", other),
    }
    match create_asr_engine("whisper", "ta", "small", Some("ignored")) {
        Ok(AsrEngineConfig::Whisper { model_size, language }) => {
            assert_eq!(model_size, "small");
            assert_eq!(language, "ta");
        }
        other => panic!("unexpected {:?}", other),
    }
    assert!(matches!(
        create_asr_engine("something-else", "fr", "base", None),
        Ok(AsrEngineConfig::Whisper { .. })
    ));
}

#[test]
fn bcp47_mapping_of_supported_languages() {
    let table = [
        ("en", "en-US"), ("ta", "ta"), ("hi", "hi"), ("es", "es"), ("fr", "fr"), ("de", "de"),
        ("ja", "ja"), ("zh-CN", "zh-CN"), ("zh", "zh-CN"), ("ko", "ko"), ("ar", "ar"),
        ("pt", "pt-BR"), ("ru", "ru"), ("it", "it"), ("nl", "nl"), ("tr", "tr"), ("vi", "vi"),
        ("th", "th"), ("id", "id"), ("te", "te"), ("bn", "bn"), ("xx", "xx"),
    ];
    for (code, tag) in table {
        assert_eq!(to_bcp47(code), tag, "code {}", code);
    }
}

#[test]
fn deepgram_request_parts() {
    assert_eq!(
        listen_url("en"),
        "wss://api.deepgram.com/v1/listen?model=nova-2-general&language=en-US&punctuate=true&interim_results=true&endpointing=700&smart_format=true&encoding=linear16&sample_rate=16000&channels=1"
    );
    assert!(listen_url("pt").contains("language=pt-BR&"));
    assert_eq!(authorization_value("abcd"), "Token abcd");
}

#[test]
fn pcm_bytes_are_little_endian() {
    let samples: Vec<i16> = vec![0, 1, -1, 256, i16::MIN, i16::MAX, 0x1234];
    let bytes = pcm_to_le_bytes(&samples);
    let expected: Vec<u8> = samples.iter().flat_map(|s| s.to_le_bytes()).collect();
    assert_eq!(bytes, expected);
    for (i, s) in samples.iter().enumerate() {
        assert_eq!(i16::from_le_bytes([bytes[2 * i], bytes[2 * i + 1]]), *s);
    }
    assert!(pcm_to_le_bytes(&[]).is_empty());
}

fn response(transcripts: &[&str], is_final: bool) -> DeepgramResponse {
    DeepgramResponse {
        channel: Some(DeepgramChannel {
            alternatives: transcripts
                .iter()
                .map(|t| DeepgramAlternative { transcript: t.to_string() })
                .collect(),
        }),
        is_final,
    }
}

#[test]
fn deepgram_transcripts_become_events() {
    match transcript_event(&response(&["  Hello there. ", "other"], true)) {
        Some(AsrEvent::Final { text }) => assert_eq!(text, "Hello there."),
        other => panic!("unexpected {:?}", other),
    }
    match transcript_event(&response(&["hello"], false)) {
        Some(AsrEvent::Interim { text }) => assert_eq!(text, "hello"),
        other => panic!("unexpected {:?}", other),
    }
    assert!(transcript_event(&response(&["   "], true)).is_none());
    assert!(transcript_event(&response(&[], true)).is_none());
    assert!(transcript_event(&DeepgramResponse { channel: None, is_final: true }).is_none());
}

#[test]
fn deepgram_worker_decisions() {
    match missing_key_event("") {
        Some(AsrEvent::Error { message }) => assert_eq!(
            message,
            "Deepgram API key is missing. Open Settings (\u{2699}) and enter your key."
        ),
        other => panic!("unexpected {:?}", other),
    }
    assert!(missing_key_event("k").is_none());

    match on_audio_poll(AudioPoll::Message(AudioMsg::Samples(vec![1, -2]))) {
        SessionAction::SendAudio(b) => assert_eq!(b, vec![1, 0, 0xfe, 0xff]),
        other => panic!("unexpected {:?}", other),
    }
    match on_audio_poll(AudioPoll::Message(AudioMsg::LanguageChange("ta".to_string()))) {
        SessionAction::Reconnect { new_language } => assert_eq!(new_language, "ta"),
        other => panic!("unexpected {:?}", other),
    }
    match on_audio_poll(AudioPoll::Message(AudioMsg::Flush)) {
        SessionAction::FinishStream { message } => {
            assert_eq!(message, r#"{"type":"CloseStream"}"#)
        }
        other => panic!("unexpected {:?}", other),
    }
    assert!(matches!(on_audio_poll(AudioPoll::Message(AudioMsg::Stop)), SessionAction::Close));
    assert!(matches!(on_audio_poll(AudioPoll::Disconnected), SessionAction::Close));
    assert!(matches!(on_audio_poll(AudioPoll::Empty), SessionAction::Wait { millis: 10 }));

    assert!(matches!(on_session_outcome(SessionOutcome::Stop), WorkerStep::Finish));
    match on_session_outcome(SessionOutcome::Reconnect { new_language: "de".to_string() }) {
        WorkerStep::Reconnect { language, delay_millis } => {
            assert_eq!(language, "de");
            assert_eq!(delay_millis, 200);
        }
        other => panic!("unexpected {:?}", other),
    }
    match on_session_outcome(SessionOutcome::Error { message: "timeout".to_string() }) {
        WorkerStep::Retry { event: AsrEvent::Error { message }, delay_millis } => {
            assert_eq!(message, "Deepgram error: timeout");
            assert_eq!(delay_millis, 3000);
        }
        other => panic!("unexpected {:?}", other),
    }
}

#[test]
fn loudness_is_rms_above_400() {
    assert_eq!(sum_of_squares(&[3, -4]), 25);
    assert_eq!(sum_of_squares(&[i16::MIN; 4]), 4 * 32768u128 * 32768);
    assert!(!chunk_is_loud(&[]));
    assert!(!chunk_is_loud(&[400; 10]));
    assert!(chunk_is_loud(&[401; 10]));
    assert!(chunk_is_loud(&[-1000, 0]));
    assert!(!chunk_is_loud(&[0; 1600]));
}

#[test]
fn segmenter_emits_utterance_after_silence() {
    let mut seg = SpeechSegmenter::new();
    let speech = vec![2000i16; 1600];
    let silence = vec![0i16; 1600];
    for _ in 0..5 {
        assert!(seg.feed(&speech).is_none());
    }
    // 8 chunks of silence = 12800 samples: the utterance is complete.
    let mut out = None;
    for k in 0..8 {
        let r = seg.feed(&silence);
        if k < 7 {
            assert!(r.is_none());
        } else {
            out = r;
        }
    }
    let audio = out.expect("segment expected");
    // trailing silence is left out: only the 5 speech chunks remain
    assert_eq!(audio.len(), 8000);
    assert!(audio.iter().all(|&s| s == 2000));
    assert_eq!(seg.buffered_samples(), 0);
}

#[test]
fn segmenter_keeps_at_least_min_samples() {
    let mut seg = SpeechSegmenter::new();
    assert!(seg.feed(&vec![3000i16; 1600]).is_none());
    let mut out = None;
    for _ in 0..8 {
        if let Some(a) = seg.feed(&vec![0i16; 1600]) {
            out = Some(a);
        }
    }
    let audio = out.expect("segment expected");
    assert_eq!(audio.len(), MIN_AUDIO_SAMPLES);
    assert!(audio[..1600].iter().all(|&s| s == 3000));
}

#[test]
fn segmenter_silence_only_never_emits() {
    let mut seg = SpeechSegmenter::new();
    for _ in 0..200 {
        assert!(seg.feed(&vec![10i16; 1600]).is_none());
    }
    // fifteen seconds of silence are dropped, so the buffer stays under the maximum
    assert_eq!(seg.buffered_samples(), 50 * 1600);
    assert!(seg.buffered_samples() < MAX_AUDIO_SAMPLES);
    assert!(seg.flush().is_none());
    assert_eq!(seg.buffered_samples(), 0);
}

#[test]
fn segmenter_forces_segment_at_fifteen_seconds() {
    let mut seg = SpeechSegmenter::new();
    let loud = vec![5000i16; 1600];
    let mut emitted = None;
    for k in 0..150 {
        let r = seg.feed(&loud);
        if k < 149 {
            assert!(r.is_none());
        } else {
            emitted = r;
        }
    }
    assert_eq!(emitted.expect("segment").len(), MAX_AUDIO_SAMPLES);
}

#[test]
fn segmenter_flush_and_reset() {
    let mut seg = SpeechSegmenter::new();
    seg.feed(&vec![5000i16; 9000]);
    assert_eq!(seg.flush().map(|a| a.len()), Some(9000));
    seg.feed(&vec![5000i16; 100]);
    assert!(seg.flush().is_none());
    seg.feed(&vec![5000i16; 9000]);
    seg.reset();
    assert_eq!(seg.buffered_samples(), 0);
    assert!(seg.flush().is_none());
}

#[test]
fn whisper_segments_are_filtered_and_joined() {
    let segs: Vec<String> = [" Hello", "[BLANK_AUDIO]", "  ", " world. ", "(Music)", "[Music playing]", "Bye"]
        .iter()
        .map(|s| s.to_string())
        .collect();
    assert_eq!(join_segments(&segs), "Hello world. Bye");
    assert_eq!(join_segments(&vec![]), "");
    assert_eq!(join_segments(&vec!["[BLANK_AUDIO]".to_string()]), "");
}

#[test]
fn whisper_results_become_events() {
    match transcription_event(Ok("hi".to_string())) {
        Some(AsrEvent::Final { text }) => assert_eq!(text, "hi"),
        other => panic!("unexpected {:?}", other),
    }
    assert!(transcription_event(Ok(String::new())).is_none());
    match transcription_event(Err("boom".to_string())) {
        Some(AsrEvent::Error { message }) => assert_eq!(message, "Transcription error: boom"),
        other => panic!("unexpected {:?}", other),
    }
    assert!(flush_transcription_event(Err("boom".to_string())).is_none());
    assert!(matches!(flush_transcription_event(Ok("x".to_string())), Some(AsrEvent::Final { .. })));
    match error_event("ASR: ", "down") {
        AsrEvent::Error { message } => assert_eq!(message, "ASR: down"),
        other => panic!("unexpected {:?}", other),
    }
}

#[test]
fn whisper_model_files() {
    assert_eq!(whisper_language("auto"), None);
    assert_eq!(whisper_language("ta"), Some("ta"));
    assert_eq!(model_file_name("large-v3-turbo"), "ggml-large-v3-turbo.bin");
    assert_eq!(
        model_download_url("large-v3-turbo"),
        "https://huggingface.co/ggerganov/whisper.cpp/resolve/main/ggml-large-v3-turbo.bin"
    );
    assert_eq!(
        model_download_url("base"),
        "https://huggingface.co/ggerganov/whisper.cpp/resolve/main/ggml-base.bin"
    );
    assert_eq!(model_download_url("tiny"), "https://huggingface.co/ggerganov/whisper.cpp/tree/main");
}

#[test]
fn speech_after_long_silence_is_not_padded_with_it() {
    let mut seg = SpeechSegmenter::new();
    for _ in 0..151 {
        assert!(seg.feed(&vec![0i16; 1600]).is_none());
        assert!(seg.buffered_samples() < MAX_AUDIO_SAMPLES);
    }
    assert_eq!(seg.buffered_samples(), 1600);
    for _ in 0..10 {
        assert!(seg.feed(&vec![5000i16; 1600]).is_none());
    }
    let mut out = None;
    for _ in 0..8 {
        if let Some(a) = seg.feed(&vec![0i16; 1600]) {
            out = Some(a);
        }
    }
    let audio = out.expect("segment expected");
    // one silent chunk before the speech, then the ten loud chunks
    assert_eq!(audio.len(), 11 * 1600);
}
