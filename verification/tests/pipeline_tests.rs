use std::cell::Cell;
use std::rc::Rc;

use speech_translator::asr::AsrEvent;
use speech_translator::pipeline::{
    asr_failure_event, stopped_event, translation_event, PipelineCounters, PipelineEvent,
    PipelineStatus,
};
use speech_translator::translation::{TranslationBackend, TranslationEngine, TranslationResult};

struct Echo {
    calls: Rc<Cell<usize>>,
    fail_on: &'static str,
}

impl TranslationBackend for Echo {
    fn translate(&self, text: &str, _s: &str, target_lang: &str) -> Result<String, String> {
        self.calls.set(self.calls.get() + 1);
        if text == self.fail_on {
            Err("quota exceeded".to_string())
        } else {
            Ok(format!("[{}] {}", target_lang, text))
        }
    }

    fn name(&self) -> &str {
        "Echo"
    }
}

fn translator(fail_on: &'static str) -> (TranslationEngine<Echo>, Rc<Cell<usize>>) {
    let calls = Rc::new(Cell::new(0));
    (TranslationEngine::new(Echo { calls: calls.clone(), fail_on }), calls)
}

/// Runs one recognizer event the way the host does: the event is reported,
/// and a final transcription is then translated.
fn step(c: &mut PipelineCounters, tr: &mut TranslationEngine<Echo>, event: AsrEvent, src: &str, tgt: &str) -> Vec<PipelineEvent> {
    let first = c.on_asr_event(event);
    let text = match &first {
        PipelineEvent::Transcribed { text, .. } => Some(text.clone()),
        _ => None,
    };
    let mut out = vec![first];
    if let Some(text) = text {
        out.push(c.translate_sentence(&text, tr, src, tgt));
    }
    out
}

/// Runs one event of the final flush the way the host does.
fn flush_step(c: &mut PipelineCounters, tr: &mut TranslationEngine<Echo>, event: AsrEvent, src: &str, tgt: &str) -> Vec<PipelineEvent> {
    let mut out = Vec::new();
    if let Some(first) = c.on_flushed_event(event) {
        let text = match &first {
            PipelineEvent::Transcribed { text, .. } => text.clone(),
            other => panic!("unexpected {:?}", other),
        };
        out.push(first);
        if let Some(second) = c.translate_flushed_sentence(&text, tr, src, tgt) {
            out.push(second);
        }
    }
    out
}

#[test]
fn status_reports() {
    let idle = PipelineStatus::idle();
    assert_eq!(idle.state, "idle");
    assert_eq!(idle.duration_secs, 0);
    assert_eq!(idle.sentences_transcribed, 0);
    assert_eq!(idle.sentences_translated, 0);
    let running = PipelineStatus::of_pipeline(true, 42, 3, 2);
    assert_eq!(running.state, "running");
    assert_eq!(running.duration_secs, 42);
    assert_eq!(running.sentences_transcribed, 3);
    assert_eq!(running.sentences_translated, 2);
    assert_eq!(PipelineStatus::of_pipeline(false, 0, 0, 0).state, "stopped");
}

#[test]
fn level_meter_every_third_chunk() {
    let mut c = PipelineCounters::new();
    let emitted: Vec<bool> = (0..7).map(|_| c.on_audio_chunk()).collect();
    assert_eq!(emitted, vec![false, false, true, false, false, true, false]);
    assert_eq!(c.level_ticks, 7);
}

#[test]
fn final_transcriptions_are_numbered_then_translated() {
    let (mut tr, calls) = translator("");
    let mut c = PipelineCounters::new();
    let out = step(&mut c, &mut tr, AsrEvent::Final { text: "Hello".to_string() }, "en", "ta");
    assert_eq!(out.len(), 2);
    match &out[0] {
        PipelineEvent::Transcribed { id, text } => {
            assert_eq!(*id, 1);
            assert_eq!(text, "Hello");
        }
        other => panic!("unexpected {:?}", other),
    }
    match &out[1] {
        PipelineEvent::Translated { id, source_text, translated_text } => {
            assert_eq!(*id, 1);
            assert_eq!(source_text, "Hello");
            assert_eq!(translated_text, "[ta] Hello");
        }
        other => panic!("unexpected {:?}", other),
    }
    let out = step(&mut c, &mut tr, AsrEvent::Final { text: " Hello ".to_string() }, "en", "ta");
    assert!(matches!(out[0], PipelineEvent::Transcribed { id: 2, .. }));
    assert!(matches!(out[1], PipelineEvent::Translated { id: 2, .. }));
    assert_eq!(calls.get(), 1);
    assert_eq!(c.sentence_id, 2);
    assert_eq!(c.transcribed, 2);
    assert_eq!(c.translated, 2);
}

#[test]
fn translation_failure_is_reported() {
    let (mut tr, _) = translator("broken");
    let mut c = PipelineCounters::new();
    let out = step(&mut c, &mut tr, AsrEvent::Final { text: "broken".to_string() }, "en", "ta");
    match &out[1] {
        PipelineEvent::Error { message } => assert_eq!(message, "Translation failed: quota exceeded"),
        other => panic!("unexpected {:?}", other),
    }
    assert_eq!(c.transcribed, 1);
    assert_eq!(c.translated, 0);
}

#[test]
fn interim_and_error_events_pass_through() {
    let (mut tr, calls) = translator("");
    let mut c = PipelineCounters::new();
    let out = step(&mut c, &mut tr, AsrEvent::Interim { text: "I think".to_string() }, "en", "ta");
    assert!(matches!(&out[..], [PipelineEvent::Interim { text }] if text == "I think"));
    let out = step(&mut c, &mut tr, AsrEvent::Error { message: "socket".to_string() }, "en", "ta");
    assert!(matches!(&out[..], [PipelineEvent::Error { message }] if message == "socket"));
    assert_eq!(c.sentence_id, 0);
    assert_eq!(calls.get(), 0);
}

#[test]
fn flushed_events_do_not_count() {
    let (mut tr, _) = translator("bad");
    let mut c = PipelineCounters::new();
    c.sentence_id = 4;
    let out = flush_step(&mut c, &mut tr, AsrEvent::Final { text: "last words".to_string() }, "en", "fr");
    assert_eq!(out.len(), 2);
    assert!(matches!(out[0], PipelineEvent::Transcribed { id: 5, .. }));
    assert!(matches!(&out[1], PipelineEvent::Translated { id: 5, translated_text, .. } if translated_text == "[fr] last words"));
    let out = flush_step(&mut c, &mut tr, AsrEvent::Final { text: "bad".to_string() }, "en", "fr");
    assert_eq!(out.len(), 1);
    assert!(matches!(out[0], PipelineEvent::Transcribed { id: 6, .. }));
    let out = flush_step(&mut c, &mut tr, AsrEvent::Interim { text: "x".to_string() }, "en", "fr");
    assert!(out.is_empty());
    assert_eq!(c.transcribed, 0);
    assert_eq!(c.translated, 0);
    assert_eq!(c.sentence_id, 6);
}

#[test]
fn counters_wrap_like_atomics() {
    let (mut tr, _) = translator("");
    let mut c = PipelineCounters::new();
    c.transcribed = u32::MAX;
    c.translated = u32::MAX;
    step(&mut c, &mut tr, AsrEvent::Final { text: "wrap".to_string() }, "en", "ta");
    assert_eq!(c.transcribed, 0);
    assert_eq!(c.translated, 0);
}

#[test]
fn fixed_events() {
    match asr_failure_event("no audio") {
        PipelineEvent::Error { message } => assert_eq!(message, "ASR error: no audio"),
        other => panic!("unexpected {:?}", other),
    }
    match stopped_event() {
        PipelineEvent::StateChange { state } => assert_eq!(state, "stopped"),
        other => panic!("unexpected {:?}", other),
    }
    let r = TranslationResult {
        source_text: "a".to_string(),
        translated_text: "b".to_string(),
        source_lang: "en".to_string(),
        target_lang: "ta".to_string(),
    };
    assert!(matches!(translation_event(9, Ok(r)), PipelineEvent::Translated { id: 9, .. }));
    match translation_event(9, Err("x".to_string())) {
        PipelineEvent::Error { message } => assert_eq!(message, "Translation failed: x"),
        other => panic!("unexpected {:?}", other),
    }
}

#[test]
fn interim_events_at_the_last_sentence_number() {
    let (mut tr, _) = translator("");
    let mut c = PipelineCounters::new();
    c.sentence_id = u32::MAX;
    let out = step(&mut c, &mut tr, AsrEvent::Interim { text: "still".to_string() }, "en", "ta");
    assert_eq!(out.len(), 1);
    assert!(flush_step(&mut c, &mut tr, AsrEvent::Error { message: "e".to_string() }, "en", "ta").is_empty());
    assert_eq!(c.sentence_id, u32::MAX);
}

#[test]
fn translated_never_exceeds_transcribed() {
    let (mut tr, _) = translator("fails");
    let mut c = PipelineCounters::new();
    for text in ["a", "fails", "b", "  ", "fails", "a"] {
        step(&mut c, &mut tr, AsrEvent::Final { text: text.to_string() }, "en", "ta");
        assert!(c.translated <= c.transcribed);
    }
    assert_eq!(c.transcribed, 6);
    assert_eq!(c.translated, 4);
}

#[test]
fn blank_or_remembered_finals_are_always_translated() {
    let (mut tr, calls) = translator("");
    let mut c = PipelineCounters::new();
    let out = step(&mut c, &mut tr, AsrEvent::Final { text: "   ".to_string() }, "en", "ta");
    assert!(matches!(&out[1], PipelineEvent::Translated { id: 1, source_text, translated_text } if source_text.is_empty() && translated_text.is_empty()));
    let out = flush_step(&mut c, &mut tr, AsrEvent::Final { text: "".to_string() }, "en", "ta");
    assert_eq!(out.len(), 2);
    assert_eq!(calls.get(), 0);
}

#[test]
fn transcription_is_reported_before_translation() {
    let (mut tr, calls) = translator("");
    let mut c = PipelineCounters::new();
    let first = c.on_asr_event(AsrEvent::Final { text: "Good morning".to_string() });
    assert!(matches!(&first, PipelineEvent::Transcribed { id: 1, text } if text == "Good morning"));
    assert_eq!(calls.get(), 0);
    assert_eq!(c.transcribed, 1);
    assert_eq!(c.translated, 0);
    let second = c.translate_sentence("Good morning", &mut tr, "en", "de");
    assert!(matches!(&second, PipelineEvent::Translated { id: 1, translated_text, .. } if translated_text == "[de] Good morning"));
    assert_eq!(calls.get(), 1);
    assert_eq!(c.translated, 1);
}
