//! The decisions of the translation pipeline: which events reach the UI, how
//! sentences are numbered and counted, and what the status reports.
use vstd::prelude::*;

use crate::asr::AsrEvent;
use crate::text::join2;
use crate::translation::{
    cache_lookup, request_key, translation_outcome, TranslationBackend, TranslationEngine,
    TranslationResult,
};

verus! {

/// Events emitted to the frontend (the audio level meter aside, which is
/// reported by the host).
#[derive(Debug, Clone)]
pub enum PipelineEvent {
    /// Partial transcription (still speaking)
    Interim { text: String },
    /// ASR finished — fires immediately, before translation
    Transcribed { id: u32, text: String },
    /// Translation arrived for a previously transcribed sentence
    Translated { id: u32, source_text: String, translated_text: String },
    /// Error from any pipeline component
    Error { message: String },
    /// Pipeline state changed
    StateChange { state: String },
}

/// What the status command reports (the level meter aside, which always
/// reads zero).
#[derive(Debug, Clone)]
pub struct PipelineStatus {
    pub state: String,
    pub duration_secs: u64,
    pub sentences_transcribed: u32,
    pub sentences_translated: u32,
}

impl PipelineStatus {
    /// The status when no pipeline exists.
    pub fn idle() -> (res: Self)
        ensures
            res.state@ == "idle"@,
            res.duration_secs == 0,
            res.sentences_transcribed == 0,
            res.sentences_translated == 0,
    {
        PipelineStatus {
            state: String::from_str("idle"),
            duration_secs: 0,
            sentences_transcribed: 0,
            sentences_translated: 0,
        }
    }

    /// The status of a pipeline: "running" or "stopped", with its counters.
    pub fn of_pipeline(
        running: bool,
        duration_secs: u64,
        sentences_transcribed: u32,
        sentences_translated: u32,
    ) -> (res: Self)
        ensures
            res.state@ == (if running {
                "running"@
            } else {
                "stopped"@
            }),
            res.duration_secs == duration_secs,
            res.sentences_transcribed == sentences_transcribed,
            res.sentences_translated == sentences_translated,
    {
        PipelineStatus {
            state: if running {
                String::from_str("running")
            } else {
                String::from_str("stopped")
            },
            duration_secs,
            sentences_transcribed,
            sentences_translated,
        }
    }
}

/// Adds one, wrapping around as an atomic counter does.
pub open spec fn wrap_inc(x: u32) -> u32 {
    if x == u32::MAX {
        0
    } else {
        (x + 1) as u32
    }
}

fn increment(x: u32) -> (res: u32)
    ensures
        res == wrap_inc(x),
{
    if x == u32::MAX {
        0
    } else {
        x + 1
    }
}

/// The event that reports the outcome of translating sentence `id`.
pub open spec fn translation_event_is(
    ev: PipelineEvent,
    id: u32,
    outcome: Result<TranslationResult, String>,
) -> bool {
    match outcome {
        Ok(r) => ev matches PipelineEvent::Translated { id: i, source_text, translated_text } && i
            == id && source_text == r.source_text && translated_text == r.translated_text,
        Err(e) => ev matches PipelineEvent::Error { message } && message@
            == "Translation failed: "@ + e@,
    }
}

/// The event that reports the outcome of translating sentence `id`: the
/// translation, or an error "Translation failed: ...".
pub fn translation_event(id: u32, outcome: Result<TranslationResult, String>) -> (res:
    PipelineEvent)
    ensures
        translation_event_is(res, id, outcome),
{
    match outcome {
        Ok(r) => PipelineEvent::Translated {
            id,
            source_text: r.source_text,
            translated_text: r.translated_text,
        },
        Err(e) => PipelineEvent::Error { message: join2("Translation failed: ", e.as_str()) },
    }
}

/// The event reported when the recognizer itself fails.
pub fn asr_failure_event(message: &str) -> (res: PipelineEvent)
    ensures
        res matches PipelineEvent::Error { message: m } && m@ == "ASR error: "@ + message@,
{
    PipelineEvent::Error { message: join2("ASR error: ", message) }
}

/// The event that ends every run of the pipeline.
pub fn stopped_event() -> (res: PipelineEvent)
    ensures
        res matches PipelineEvent::StateChange { state } && state@ == "stopped"@,
{
    PipelineEvent::StateChange { state: String::from_str("stopped") }
}

/// The counters of a running pipeline.
#[derive(Debug)]
pub struct PipelineCounters {
    /// Audio chunks received.
    pub level_ticks: u32,
    /// Number of the last sentence transcribed.
    pub sentence_id: u32,
    /// Sentences transcribed while streaming.
    pub transcribed: u32,
    /// Sentences translated while streaming.
    pub translated: u32,
}

impl PipelineCounters {
    /// Counters of a pipeline that has just started.
    pub fn new() -> (res: Self)
        ensures
            res.level_ticks == 0,
            res.sentence_id == 0,
            res.transcribed == 0,
            res.translated == 0,
    {
        PipelineCounters { level_ticks: 0, sentence_id: 0, transcribed: 0, translated: 0 }
    }

    /// Counts an audio chunk; the level meter is updated on every third one.
    pub fn on_audio_chunk(&mut self) -> (emit_level: bool)
        requires
            old(self).level_ticks < u32::MAX,
        ensures
            final(self).level_ticks == old(self).level_ticks + 1,
            final(self).sentence_id == old(self).sentence_id,
            final(self).transcribed == old(self).transcribed,
            final(self).translated == old(self).translated,
            emit_level == (final(self).level_ticks % 3 == 0),
    {
        self.level_ticks = self.level_ticks + 1;
        self.level_ticks % 3 == 0
    }

    /// Handles an event of the recognizer while streaming. A final
    /// transcription gets the next sentence number and is counted; the
    /// event that reports it is returned at once, so that the host can show
    /// it before the sentence is translated (see `translate_sentence`).
    /// Partial transcriptions and errors pass through unchanged.
    pub fn on_asr_event(&mut self, event: AsrEvent) -> (res: PipelineEvent)
        requires
            event is Final ==> old(self).sentence_id < u32::MAX,
        ensures
            final(self).level_ticks == old(self).level_ticks,
            final(self).translated == old(self).translated,
            old(self).translated <= old(self).transcribed < u32::MAX ==> final(self).translated
                <= final(self).transcribed,
            match event {
                AsrEvent::Interim { text } => res == PipelineEvent::Interim { text }
                    && *final(self) == *old(self),
                AsrEvent::Error { message } => res == PipelineEvent::Error { message }
                    && *final(self) == *old(self),
                AsrEvent::Final { text } => {
                    &&& final(self).sentence_id == old(self).sentence_id + 1
                    &&& final(self).transcribed == wrap_inc(old(self).transcribed)
                    &&& res == PipelineEvent::Transcribed { id: final(self).sentence_id, text }
                },
            },
    {
        match event {
            AsrEvent::Interim { text } => PipelineEvent::Interim { text },
            AsrEvent::Error { message } => PipelineEvent::Error { message },
            AsrEvent::Final { text } => {
                self.sentence_id = self.sentence_id + 1;
                self.transcribed = increment(self.transcribed);
                PipelineEvent::Transcribed { id: self.sentence_id, text }
            },
        }
    }

    /// Translates the sentence last numbered by `on_asr_event` and returns
    /// the event that reports the outcome: the translation under that
    /// sentence's number, counted, or the reason it failed.
    pub fn translate_sentence<B: TranslationBackend>(
        &mut self,
        text: &str,
        translator: &mut TranslationEngine<B>,
        source_lang: &str,
        target_lang: &str,
    ) -> (res: PipelineEvent)
        requires
            old(translator).wf(),
        ensures
            final(translator).wf(),
            final(translator).backend_spec() == old(translator).backend_spec(),
            final(self).level_ticks == old(self).level_ticks,
            final(self).sentence_id == old(self).sentence_id,
            final(self).transcribed == old(self).transcribed,
            old(self).translated < old(self).transcribed ==> final(self).translated
                <= final(self).transcribed,
            exists|o: Result<TranslationResult, String>|
                #![trigger translation_event_is(res, old(self).sentence_id, o)]
                {
                    &&& translation_outcome(
                        old(translator).backend_spec(),
                        old(translator)@,
                        final(translator)@,
                        text@,
                        source_lang@,
                        target_lang@,
                        o,
                    )
                    &&& translation_event_is(res, old(self).sentence_id, o)
                    &&& final(self).translated == (if o is Ok {
                        wrap_inc(old(self).translated)
                    } else {
                        old(self).translated
                    })
                },
            ({
                let key = request_key(text@, source_lang@, target_lang@);
                key.0.len() == 0 || cache_lookup(old(translator)@, key) is Some
            }) ==> res is Translated,
    {
        let outcome = translator.translate(text, source_lang, target_lang);
        if outcome.is_ok() {
            self.translated = increment(self.translated);
        }
        let ghost o = outcome;
        let res = translation_event(self.sentence_id, outcome);
        assert(translation_event_is(res, old(self).sentence_id, o));
        res
    }

    /// Handles an event the recognizer gives when it is flushed at the end:
    /// a final transcription is numbered and reported, and nothing else is;
    /// the counters of transcribed and translated sentences stay as they are.
    pub fn on_flushed_event(&mut self, event: AsrEvent) -> (res: Option<PipelineEvent>)
        requires
            event is Final ==> old(self).sentence_id < u32::MAX,
        ensures
            final(self).level_ticks == old(self).level_ticks,
            final(self).transcribed == old(self).transcribed,
            final(self).translated == old(self).translated,
            match event {
                AsrEvent::Final { text } => {
                    &&& final(self).sentence_id == old(self).sentence_id + 1
                    &&& res == Some(PipelineEvent::Transcribed { id: final(self).sentence_id, text })
                },
                _ => res is None && *final(self) == *old(self),
            },
    {
        match event {
            AsrEvent::Final { text } => {
                self.sentence_id = self.sentence_id + 1;
                Some(PipelineEvent::Transcribed { id: self.sentence_id, text })
            },
            _ => None,
        }
    }

    /// Translates the sentence last numbered by `on_flushed_event`: the
    /// translation is reported under that sentence's number if it succeeds,
    /// and a failure is not reported.
    pub fn translate_flushed_sentence<B: TranslationBackend>(
        &self,
        text: &str,
        translator: &mut TranslationEngine<B>,
        source_lang: &str,
        target_lang: &str,
    ) -> (res: Option<PipelineEvent>)
        requires
            old(translator).wf(),
        ensures
            final(translator).wf(),
            final(translator).backend_spec() == old(translator).backend_spec(),
            exists|o: Result<TranslationResult, String>|
                #![trigger translation_outcome(old(translator).backend_spec(), old(translator)@, final(translator)@, text@, source_lang@, target_lang@, o)]
                {
                    &&& translation_outcome(
                        old(translator).backend_spec(),
                        old(translator)@,
                        final(translator)@,
                        text@,
                        source_lang@,
                        target_lang@,
                        o,
                    )
                    &&& match o {
                        Ok(_) => res matches Some(ev) && translation_event_is(
                            ev,
                            self.sentence_id,
                            o,
                        ),
                        Err(_) => res is None,
                    }
                },
            ({
                let key = request_key(text@, source_lang@, target_lang@);
                key.0.len() == 0 || cache_lookup(old(translator)@, key) is Some
            }) ==> (res matches Some(ev) && ev is Translated),
    {
        let outcome = translator.translate(text, source_lang, target_lang);
        let ghost o = outcome;
        if outcome.is_ok() {
            let ev = translation_event(self.sentence_id, outcome);
            assert(translation_event_is(ev, self.sentence_id, o));
            Some(ev)
        } else {
            None
        }
    }
}

} // verus!
