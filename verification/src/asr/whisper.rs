//! Local Whisper recognition: silence-based segmentation of the audio stream,
//! interpretation of the model's output, and the model files.
use vstd::prelude::*;

use crate::asr::{error_event, AsrEvent};
use crate::text::{
    has_prefix, is_whitespace, lemma_trim_shape, starts_with, str_equals, trim, trim_end,
    trim_start, trim_str,
};

verus! {

/// Mean-square level above which a chunk counts as speech: 400 squared, an
/// RMS level of 400 on the 16-bit scale.
pub const SILENCE_THRESHOLD_MEAN_SQUARE: u64 = 160000;

/// Silence that ends an utterance: 800 ms at 16 kHz.
pub const SILENCE_DURATION_SAMPLES: usize = 12800;

/// Shortest audio handed to the model: 500 ms.
pub const MIN_AUDIO_SAMPLES: usize = 8000;

/// Audio after which the buffer is transcribed even without a pause: 15 s.
pub const MAX_AUDIO_SAMPLES: usize = 240000;

/// The sum of the squared samples.
pub open spec fn sum_squares(s: Seq<i16>) -> int
    decreases s.len(),
{
    if s.len() == 0 {
        0
    } else {
        sum_squares(s.drop_last()) + s.last() * s.last()
    }
}

/// Whether a chunk's RMS level exceeds 400, that is, whether its mean square
/// exceeds [`SILENCE_THRESHOLD_MEAN_SQUARE`].
pub open spec fn is_loud(s: Seq<i16>) -> bool {
    sum_squares(s) > SILENCE_THRESHOLD_MEAN_SQUARE * s.len()
}

proof fn lemma_square_bound(x: i16)
    ensures
        0 <= x * x <= 1073741824,
{
    assert(0 <= x * x <= 1073741824) by (nonlinear_arith)
        requires
            -32768 <= x <= 32767,
    ;
}

/// The sum of the squared samples, exactly.
pub fn sum_of_squares(samples: &[i16]) -> (res: u128)
    ensures
        res == sum_squares(samples@),
{
    let n = samples.len();
    let mut acc: u128 = 0;
    let mut i: usize = 0;
    while i < n
        invariant
            n == samples@.len(),
            i <= n,
            acc == sum_squares(samples@.take(i as int)),
            acc <= i * 1073741824,
        decreases n - i,
    {
        let x = samples[i];
        proof {
            lemma_square_bound(x);
            assert(samples@.take(i + 1).drop_last() =~= samples@.take(i as int));
        }
        let sq = (x as i64) * (x as i64);
        acc = acc + (sq as u128);
        i = i + 1;
    }
    assert(samples@.take(n as int) =~= samples@);
    acc
}

/// Law: the sum of squares of no samples is 0, of one sample its square,
/// and of two stretches of audio one after the other the sum of theirs.
pub proof fn lemma_sum_squares_adds(a: Seq<i16>, b: Seq<i16>)
    ensures
        sum_squares(Seq::<i16>::empty()) == 0,
        forall|x: i16| #[trigger] sum_squares(seq![x]) == x * x,
        sum_squares(a + b) == sum_squares(a) + sum_squares(b),
    decreases b.len(),
{
    assert forall|x: i16| #[trigger] sum_squares(seq![x]) == x * x by {
        let one = seq![x];
        assert(one.len() == 1);
        assert(one.drop_last() =~= Seq::<i16>::empty());
        assert(one.last() == x);
        assert(sum_squares(one) == sum_squares(one.drop_last()) + one.last() * one.last());
    }
    if b.len() == 0 {
        assert(a + b =~= a);
    } else {
        lemma_sum_squares_adds(a, b.drop_last());
        assert((a + b).drop_last() =~= a + b.drop_last());
        assert((a + b).last() == b.last());
    }
}

/// Law: a chunk counts as speech exactly when its mean square exceeds 400
/// squared, that is, when its RMS level is above 400: a chunk whose samples
/// all lie within 400 of zero never does, and a chunk whose samples all lie
/// farther out always does.
pub proof fn lemma_loudness(s: Seq<i16>)
    ensures
        is_loud(s) <==> sum_squares(s) > 400 * 400 * s.len(),
        (forall|i: int| 0 <= i < s.len() ==> -400 <= #[trigger] s[i] <= 400) ==> !is_loud(s),
        s.len() > 0 && (forall|i: int| 0 <= i < s.len() ==> #[trigger] s[i] > 400 || s[i] < -400)
            ==> is_loud(s),
{
    lemma_sum_squares_bounds(s);
}

proof fn lemma_sum_squares_bounds(s: Seq<i16>)
    ensures
        (forall|i: int| 0 <= i < s.len() ==> -400 <= #[trigger] s[i] <= 400) ==> sum_squares(s)
            <= 160000 * s.len(),
        (forall|i: int| 0 <= i < s.len() ==> #[trigger] s[i] > 400 || s[i] < -400) ==> sum_squares(
            s,
        ) >= 160001 * s.len(),
    decreases s.len(),
{
    if s.len() > 0 {
        let t = s.drop_last();
        lemma_sum_squares_bounds(t);
        let x = s.last();
        if forall|i: int| 0 <= i < s.len() ==> -400 <= #[trigger] s[i] <= 400 {
            assert forall|i: int| 0 <= i < t.len() implies -400 <= #[trigger] t[i] <= 400 by {
                assert(t[i] == s[i]);
            }
            assert(-400 <= s[s.len() - 1] <= 400);
            assert(x * x <= 160000) by (nonlinear_arith)
                requires
                    -400 <= x <= 400,
            ;
        }
        if forall|i: int| 0 <= i < s.len() ==> #[trigger] s[i] > 400 || s[i] < -400 {
            assert forall|i: int| 0 <= i < t.len() implies #[trigger] t[i] > 400 || t[i] < -400 by {
                assert(t[i] == s[i]);
            }
            assert(s[s.len() - 1] > 400 || s[s.len() - 1] < -400);
            assert(x * x >= 160001) by (nonlinear_arith)
                requires
                    x > 400 || x < -400,
            ;
        }
    }
}

/// Whether a chunk counts as speech (its RMS level is above 400).
pub fn chunk_is_loud(samples: &[i16]) -> (res: bool)
    ensures
        res == is_loud(samples@),
        res == (sum_squares(samples@) > 400 * 400 * samples@.len()),
{
    let sum = sum_of_squares(samples);
    sum > (SILENCE_THRESHOLD_MEAN_SQUARE as u128) * (samples.len() as u128)
}

/// The state of the segmenter, as plain values.
pub struct SegmenterState {
    /// Audio received since the last segment.
    pub buffer: Seq<i16>,
    /// Samples of silence since the last loud chunk.
    pub silence: nat,
    /// Whether speech was heard since the last segment.
    pub has_speech: bool,
}

/// The state after a reset.
pub open spec fn empty_state() -> SegmenterState {
    SegmenterState { buffer: Seq::empty(), silence: 0, has_speech: false }
}

/// What feeding `samples` does: the next state, and the audio to transcribe
/// if an utterance is complete (speech followed by 800 ms of silence and at
/// least 500 ms buffered, or 15 s buffered with speech in it). The segment
/// leaves out the trailing silence, but is never shorter than 500 ms. Once
/// 15 s are buffered without any speech, that silence is dropped, so the
/// buffer never holds 15 s or more after a chunk.
pub open spec fn feed_step(st: SegmenterState, samples: Seq<i16>) -> (
    SegmenterState,
    Option<Seq<i16>>,
) {
    let loud = is_loud(samples);
    let has_speech = st.has_speech || loud;
    let silence: nat = if loud {
        0
    } else {
        st.silence + samples.len()
    };
    let buffer = st.buffer + samples;
    let should_transcribe = if has_speech && silence >= SILENCE_DURATION_SAMPLES {
        buffer.len() >= MIN_AUDIO_SAMPLES
    } else {
        buffer.len() >= MAX_AUDIO_SAMPLES
    };
    if should_transcribe && has_speech {
        let speech_end: int = if buffer.len() >= silence {
            buffer.len() - silence
        } else {
            0
        };
        let floor: int = if MIN_AUDIO_SAMPLES <= buffer.len() {
            MIN_AUDIO_SAMPLES as int
        } else {
            buffer.len() as int
        };
        let end = if speech_end >= floor {
            speech_end
        } else {
            floor
        };
        (empty_state(), Some(buffer.take(end)))
    } else if should_transcribe {
        (empty_state(), None)
    } else {
        (SegmenterState { buffer, silence, has_speech }, None)
    }
}

/// What flushing does: the buffered audio if it holds speech and at least
/// 500 ms; the state is reset either way.
pub open spec fn flush_step(st: SegmenterState) -> Option<Seq<i16>> {
    if st.has_speech && st.buffer.len() >= MIN_AUDIO_SAMPLES {
        Some(st.buffer)
    } else {
        None
    }
}

/// Law: at the end of the stream everything buffered is transcribed,
/// whatever silence it ends with, as long as speech was heard and at least
/// 500 ms are buffered; otherwise nothing is.
pub proof fn lemma_flush_keeps_everything(st: SegmenterState)
    ensures
        st.has_speech && st.buffer.len() >= 8000 ==> flush_step(st) == Some(st.buffer),
        !st.has_speech || st.buffer.len() < 8000 ==> flush_step(st) is None,
{
}

/// The view of an optional audio buffer.
pub open spec fn opt_audio(v: Option<Vec<i16>>) -> Option<Seq<i16>> {
    match v {
        Some(a) => Some(a@),
        None => None,
    }
}

/// Law: silence alone never produces an utterance: while no speech has been
/// heard, a quiet chunk leaves nothing to transcribe, however long the
/// silence already is.
pub proof fn lemma_silence_is_never_transcribed(st: SegmenterState, samples: Seq<i16>)
    requires
        !st.has_speech,
        !is_loud(samples),
    ensures
        feed_step(st, samples).1 is None,
        !feed_step(st, samples).0.has_speech,
{
}

/// Law: an utterance handed to the model is at least 500 ms long, is the
/// start of the audio buffered so far, and comes only after speech was heard.
pub proof fn lemma_segment_shape(st: SegmenterState, samples: Seq<i16>)
    requires
        st.silence <= st.buffer.len(),
    ensures
        feed_step(st, samples).1 matches Some(seg) ==> {
            &&& MIN_AUDIO_SAMPLES <= seg.len() <= st.buffer.len() + samples.len()
            &&& seg == (st.buffer + samples).take(seg.len() as int)
            &&& st.has_speech || is_loud(samples)
            &&& feed_step(st, samples).0 == empty_state()
        },
{
}

/// Law: after every chunk less than 15 s of audio is buffered, whatever was
/// buffered before and however long the silence is.
pub proof fn lemma_buffer_bounded(st: SegmenterState, samples: Seq<i16>)
    ensures
        feed_step(st, samples).0.buffer.len() < MAX_AUDIO_SAMPLES,
        feed_step(st, samples).0.silence <= feed_step(st, samples).0.buffer.len() || st.silence
            > st.buffer.len(),
{
}

/// Silence-based chunking of the 16 kHz audio stream into utterances.
#[derive(Debug)]
pub struct SpeechSegmenter {
    audio_buffer: Vec<i16>,
    silence_counter: usize,
    has_speech: bool,
}

impl View for SpeechSegmenter {
    type V = SegmenterState;

    closed spec fn view(&self) -> SegmenterState {
        SegmenterState {
            buffer: self.audio_buffer@,
            silence: self.silence_counter as nat,
            has_speech: self.has_speech,
        }
    }
}

impl SpeechSegmenter {
    /// The segmenter's invariant: the silence counted never exceeds the
    /// audio buffered, and less than 15 s is buffered.
    pub open spec fn wf(&self) -> bool {
        &&& self@.silence <= self@.buffer.len()
        &&& self@.buffer.len() < MAX_AUDIO_SAMPLES
    }

    /// An empty segmenter.
    pub fn new() -> (res: Self)
        ensures
            res.wf(),
            res@ == empty_state(),
    {
        SpeechSegmenter { audio_buffer: Vec::new(), silence_counter: 0, has_speech: false }
    }

    /// Number of samples buffered.
    pub fn buffered_samples(&self) -> (res: usize)
        ensures
            res == self@.buffer.len(),
    {
        self.audio_buffer.len()
    }

    /// Feeds a chunk; returns the audio of a completed utterance, if any.
    pub fn feed(&mut self, samples: &[i16]) -> (res: Option<Vec<i16>>)
        requires
            old(self).wf(),
            old(self)@.buffer.len() + samples@.len() <= usize::MAX,
        ensures
            final(self).wf(),
            (final(self)@, opt_audio(res)) == feed_step(old(self)@, samples@),
            res is Some ==> old(self)@.has_speech || is_loud(samples@),
            res matches Some(seg) ==> MIN_AUDIO_SAMPLES <= seg@.len() <= old(self)@.buffer.len()
                + samples@.len() && seg@ == (old(self)@.buffer + samples@).take(seg@.len() as int),
            // speech is buffered and never ends an utterance before 15 s
            is_loud(samples@) && old(self)@.buffer.len() + samples@.len() < 240000 ==> {
                &&& res is None
                &&& final(self)@.buffer == old(self)@.buffer + samples@
                &&& final(self)@.silence == 0
                &&& final(self)@.has_speech
            },
            // silence before any speech is never transcribed
            !is_loud(samples@) && !old(self)@.has_speech ==> res is None
                && !final(self)@.has_speech,
            // a pause shorter than 800 ms after speech is only buffered
            !is_loud(samples@) && old(self)@.has_speech && old(self)@.silence + samples@.len()
                < 12800 && old(self)@.buffer.len() + samples@.len() < 240000 ==> {
                &&& res is None
                &&& final(self)@.buffer == old(self)@.buffer + samples@
                &&& final(self)@.silence == old(self)@.silence + samples@.len()
                &&& final(self)@.has_speech
            },
            // 800 ms of silence after speech ends the utterance, without the
            // trailing silence but never shorter than 500 ms
            !is_loud(samples@) && old(self)@.has_speech && old(self)@.silence + samples@.len()
                >= 12800 && old(self)@.buffer.len() + samples@.len() >= 8000 ==> ({
                let all = old(self)@.buffer + samples@;
                let spoken = all.len() - (old(self)@.silence + samples@.len());
                &&& res matches Some(seg) && seg@ == all.take(
                    if spoken >= 8000 {
                        spoken
                    } else {
                        8000
                    },
                )
                &&& final(self)@.buffer.len() == 0
                &&& !final(self)@.has_speech
            }),
    {
        let ghost st = self@;
        let loud = chunk_is_loud(samples);
        let n = samples.len();
        let mut i: usize = 0;
        while i < n
            invariant
                n == samples@.len(),
                i <= n,
                self.audio_buffer@ == st.buffer + samples@.take(i as int),
                self.silence_counter == st.silence,
                self.has_speech == st.has_speech,
                st.buffer.len() + n <= usize::MAX,
            decreases n - i,
        {
            self.audio_buffer.push(samples[i]);
            assert(samples@.take(i + 1) =~= samples@.take(i as int).push(samples@[i as int]));
            i = i + 1;
        }
        assert(samples@.take(n as int) =~= samples@);
        if loud {
            self.has_speech = true;
            self.silence_counter = 0;
        } else {
            self.silence_counter = self.silence_counter + n;
        }
        let len = self.audio_buffer.len();
        let should_transcribe = if self.has_speech && self.silence_counter
            >= SILENCE_DURATION_SAMPLES {
            len >= MIN_AUDIO_SAMPLES
        } else {
            len >= MAX_AUDIO_SAMPLES
        };
        if should_transcribe && self.has_speech {
            let speech_end = len - self.silence_counter;
            let floor = if MIN_AUDIO_SAMPLES <= len {
                MIN_AUDIO_SAMPLES
            } else {
                len
            };
            let end = if speech_end >= floor {
                speech_end
            } else {
                floor
            };
            let mut segment: Vec<i16> = Vec::new();
            std::mem::swap(&mut segment, &mut self.audio_buffer);
            segment.truncate(end);
            self.has_speech = false;
            self.silence_counter = 0;
            assert(segment@ =~= (st.buffer + samples@).take(end as int));
            Some(segment)
        } else if should_transcribe {
            self.has_speech = false;
            self.silence_counter = 0;
            self.audio_buffer = Vec::new();
            None
        } else {
            None
        }
    }

    /// Takes what remains at the end of the stream; resets the segmenter.
    pub fn flush(&mut self) -> (res: Option<Vec<i16>>)
        ensures
            final(self).wf(),
            final(self)@ == empty_state(),
            opt_audio(res) == flush_step(old(self)@),
            old(self)@.has_speech && old(self)@.buffer.len() >= 8000 ==> (res matches Some(a)
                && a@ == old(self)@.buffer),
            !old(self)@.has_speech || old(self)@.buffer.len() < 8000 ==> res is None,
    {
        let mut audio: Vec<i16> = Vec::new();
        std::mem::swap(&mut audio, &mut self.audio_buffer);
        let keep = self.has_speech && audio.len() >= MIN_AUDIO_SAMPLES;
        self.has_speech = false;
        self.silence_counter = 0;
        if keep {
            Some(audio)
        } else {
            None
        }
    }

    /// Drops the buffered audio, as a change of language does.
    pub fn reset(&mut self)
        ensures
            final(self).wf(),
            final(self)@ == empty_state(),
    {
        self.audio_buffer = Vec::new();
        self.has_speech = false;
        self.silence_counter = 0;
    }
}

/// Whether a trimmed segment of model output is kept: it is not empty and
/// not one of the artifacts the model produces on silence.
pub open spec fn keep_segment(t: Seq<char>) -> bool {
    &&& t.len() > 0
    &&& t != "[BLANK_AUDIO]"@
    &&& t != "(Music)"@
    &&& !has_prefix(t, "[Music"@)
}

/// The kept segments, each trimmed and followed by a space.
pub open spec fn joined_segments(segments: Seq<Seq<char>>) -> Seq<char>
    decreases segments.len(),
{
    if segments.len() == 0 {
        Seq::empty()
    } else {
        let prev = joined_segments(segments.drop_last());
        let t = trim(segments.last());
        if keep_segment(t) {
            prev + t + seq![' ']
        } else {
            prev
        }
    }
}

/// Whether a trimmed segment is real speech rather than nothing or one of
/// the artifacts Whisper produces on silence.
pub open spec fn is_spoken(t: Seq<char>) -> bool {
    t.len() > 0 && t != "[BLANK_AUDIO]"@ && t != "(Music)"@ && !(t.len() >= 6 && t.take(6)
        == "[Music"@)
}

/// Law: each further segment adds its trimmed text and a space when it is
/// spoken text, and nothing when it is empty or a silence artifact.
pub proof fn lemma_join_step(segments: Seq<Seq<char>>, s: Seq<char>)
    ensures
        joined_segments(segments.push(s)) == (if is_spoken(trim(s)) {
            joined_segments(segments) + trim(s) + seq![' ']
        } else {
            joined_segments(segments)
        }),
{
    assert(segments.push(s).drop_last() =~= segments);
    let t = trim(s);
    if t.len() >= 6 {
        assert(has_prefix(t, "[Music"@) <==> t.take(6) == "[Music"@) by {
            reveal_strlit("[Music");
            assert(t.subrange(0, 6) =~= t.take(6));
        }
    } else {
        reveal_strlit("[Music");
    }
}

/// Law: the transcript of a single segment is that segment trimmed when it
/// is spoken text, and empty when it is nothing or a silence artifact.
pub proof fn lemma_join_single(s: Seq<char>)
    ensures
        is_spoken(trim(s)) ==> trim(joined_segments(seq![s])) == trim(s),
        !is_spoken(trim(s)) ==> joined_segments(seq![s]).len() == 0,
{
    lemma_join_step(Seq::empty(), s);
    assert(Seq::<Seq<char>>::empty().push(s) =~= seq![s]);
    let t = trim(s);
    if is_spoken(t) {
        lemma_trim_shape(s);
        let u = Seq::<char>::empty() + t + seq![' '];
        assert(u =~= t + seq![' ']);
        assert(u[0] == t[0]);
        assert(trim_start(u) == u);
        assert(u.drop_last() =~= t);
        assert(is_whitespace(u.last()));
        assert(trim_end(u) == trim_end(t));
    }
}

/// The views of a list of strings.
pub open spec fn string_views(v: Seq<String>) -> Seq<Seq<char>> {
    v.map_values(|s: String| s@)
}

/// Whether a trimmed segment is kept (see [`keep_segment`]).
fn segment_is_kept(t: &str) -> (res: bool)
    ensures
        res == keep_segment(t@),
{
    t.unicode_len() > 0 && !str_equals(t, "[BLANK_AUDIO]") && !str_equals(t, "(Music)")
        && !starts_with(t, "[Music")
}

/// The transcript of the model's segments: the kept segments, trimmed and
/// joined by single spaces.
pub fn join_segments(segments: &Vec<String>) -> (res: String)
    ensures
        res@ == trim(joined_segments(string_views(segments@))),
{
    let ghost views = string_views(segments@);
    let mut text = String::new();
    let n = segments.len();
    let mut i: usize = 0;
    while i < n
        invariant
            n == segments@.len(),
            views == string_views(segments@),
            i <= n,
            text@ == joined_segments(views.take(i as int)),
        decreases n - i,
    {
        assert(views.take(i + 1).drop_last() =~= views.take(i as int));
        assert(views.take(i + 1).last() == segments@[i as int]@);
        proof {
            reveal_strlit(" ");
        }
        let t = trim_str(segments[i].as_str());
        if segment_is_kept(t) {
            text.append(t);
            text.append(" ");
        }
        i = i + 1;
    }
    assert(views.take(n as int) =~= views);
    String::from_str(trim_str(text.as_str()))
}

/// The event a transcription gives while streaming: the text as a final
/// transcription, nothing for empty text, an error event for a failure.
pub fn transcription_event(result: Result<String, String>) -> (res: Option<AsrEvent>)
    ensures
        match result {
            Ok(text) => if text@.len() > 0 {
                res matches Some(AsrEvent::Final { text: t }) && t == text
            } else {
                res is None
            },
            Err(e) => res matches Some(AsrEvent::Error { message }) && message@
                == "Transcription error: "@ + e@,
        },
{
    match result {
        Ok(text) => if text.as_str().unicode_len() > 0 {
            Some(AsrEvent::Final { text })
        } else {
            None
        },
        Err(e) => Some(error_event("Transcription error: ", e.as_str())),
    }
}

/// The event a transcription gives when the stream is flushed: failures are
/// dropped silently.
pub fn flush_transcription_event(result: Result<String, String>) -> (res: Option<AsrEvent>)
    ensures
        match result {
            Ok(text) => if text@.len() > 0 {
                res matches Some(AsrEvent::Final { text: t }) && t == text
            } else {
                res is None
            },
            Err(_) => res is None,
        },
{
    match result {
        Ok(text) => if text.as_str().unicode_len() > 0 {
            Some(AsrEvent::Final { text })
        } else {
            None
        },
        Err(_) => None,
    }
}

/// The language handed to the model: none for "auto", which lets Whisper
/// detect the language itself.
pub fn whisper_language(language: &str) -> (res: Option<&str>)
    ensures
        language@ == "auto"@ ==> res is None,
        language@ != "auto"@ ==> (res matches Some(l) && l@ == language@),
{
    if str_equals(language, "auto") {
        None
    } else {
        Some(language)
    }
}

/// The file name of a model: `ggml-<size>.bin`.
pub fn model_file_name(model_size: &str) -> (res: String)
    ensures
        res@ == "ggml-"@ + model_size@ + ".bin"@,
{
    let mut name = String::from_str("ggml-");
    name.append(model_size);
    name.append(".bin");
    name
}

/// Where a model of the given size can be downloaded.
pub open spec fn model_url(model_size: Seq<char>) -> Seq<char> {
    if model_size == "large-v3-turbo"@ {
        "https://huggingface.co/ggerganov/whisper.cpp/resolve/main/ggml-large-v3-turbo.bin"@
    } else if model_size == "large-v3-turbo-q5_0"@ {
        "https://huggingface.co/ggerganov/whisper.cpp/resolve/main/ggml-large-v3-turbo-q5_0.bin"@
    } else if model_size == "large-v3"@ {
        "https://huggingface.co/ggerganov/whisper.cpp/resolve/main/ggml-large-v3.bin"@
    } else if model_size == "medium"@ {
        "https://huggingface.co/ggerganov/whisper.cpp/resolve/main/ggml-medium.bin"@
    } else if model_size == "small"@ {
        "https://huggingface.co/ggerganov/whisper.cpp/resolve/main/ggml-small.bin"@
    } else if model_size == "base"@ {
        "https://huggingface.co/ggerganov/whisper.cpp/resolve/main/ggml-base.bin"@
    } else {
        "https://huggingface.co/ggerganov/whisper.cpp/tree/main"@
    }
}

/// Returns the Hugging Face download URL for a given model size.
pub fn model_download_url(model_size: &str) -> (res: &'static str)
    ensures
        res@ == model_url(model_size@),
{
    if str_equals(model_size, "large-v3-turbo") {
        "https://huggingface.co/ggerganov/whisper.cpp/resolve/main/ggml-large-v3-turbo.bin"
    } else if str_equals(model_size, "large-v3-turbo-q5_0") {
        "https://huggingface.co/ggerganov/whisper.cpp/resolve/main/ggml-large-v3-turbo-q5_0.bin"
    } else if str_equals(model_size, "large-v3") {
        "https://huggingface.co/ggerganov/whisper.cpp/resolve/main/ggml-large-v3.bin"
    } else if str_equals(model_size, "medium") {
        "https://huggingface.co/ggerganov/whisper.cpp/resolve/main/ggml-medium.bin"
    } else if str_equals(model_size, "small") {
        "https://huggingface.co/ggerganov/whisper.cpp/resolve/main/ggml-small.bin"
    } else if str_equals(model_size, "base") {
        "https://huggingface.co/ggerganov/whisper.cpp/resolve/main/ggml-base.bin"
    } else {
        "https://huggingface.co/ggerganov/whisper.cpp/tree/main"
    }
}

} // verus!
