//! Conversion of captured audio to the 16 kHz mono stream the recognizers
//! expect: decimation and fixed-size chunking.
use vstd::prelude::*;

verus! {

/// The sample rate of the stream handed to the recognizers.
pub const TARGET_RATE: u32 = 16000;

/// Samples in one chunk sent downstream: 100 ms at 16 kHz.
pub const CHUNK_SAMPLES: usize = 1600;

/// The frame of the source that output sample `k` of the 16 kHz stream is
/// taken from: the last frame that starts at or before `k / 16000` seconds.
pub open spec fn source_frame(k: int, source_rate: u32) -> int {
    (k * source_rate) / (TARGET_RATE as int)
}

proof fn lemma_frame_in_range(k: int, rate: int, frames: int)
    requires
        0 <= k,
        rate > 0,
        k * rate < frames * 16000,
    ensures
        0 <= (k * rate) / 16000 < frames,
{
    assert(0 <= (k * rate) / 16000 < frames) by (nonlinear_arith)
        requires
            0 <= k,
            rate > 0,
            k * rate < frames * 16000,
    ;
}

proof fn lemma_index_in_range(f: int, frames: int, channels: int, len: int)
    requires
        0 <= f < frames,
        channels > 0,
        frames == len / channels,
        0 <= len,
    ensures
        0 <= f * channels,
        f * channels + channels <= len,
{
    assert(0 <= f * channels && f * channels + channels <= frames * channels) by (nonlinear_arith)
        requires
            0 <= f < frames,
            channels > 0,
    ;
    assert(frames * channels <= len) by (nonlinear_arith)
        requires
            frames == len / channels,
            channels > 0,
            0 <= len,
    ;
}

proof fn lemma_step(k: int, rate: int, limit: int)
    requires
        0 <= k,
        0 < rate,
        k * rate < limit,
    ensures
        (k + 1) * rate == k * rate + rate,
        (k + 1) * rate < limit + rate,
        k <= k * rate,
{
    assert((k + 1) * rate == k * rate + rate) by (nonlinear_arith);
    assert(k <= k * rate) by (nonlinear_arith)
        requires
            0 <= k,
            0 < rate,
    ;
}

/// Simple fast downsample for cases where quality isn't critical: the 16 kHz
/// mono stream that takes, for each 1/16000 s, the first channel of the last
/// whole source frame at or before that time (see [`source_frame`]). A
/// source without samples per second or without channels is passed on as it
/// is.
pub fn downsample_simple(input: &[i16], source_rate: u32, channels: u16) -> (res: Vec<i16>)
    ensures
        source_rate == 0 || channels == 0 ==> res@ == input@,
        source_rate > 0 && channels > 0 ==> ({
            let frames = input@.len() as int / channels as int;
            &&& res@.len() * source_rate >= frames * TARGET_RATE
            &&& res@.len() > 0 ==> (res@.len() - 1) * source_rate < frames * TARGET_RATE
            &&& forall|k: int|
                0 <= k < res@.len() ==> #[trigger] res@[k] == input@[source_frame(k, source_rate)
                    * channels]
        }),
{
    let mut out: Vec<i16> = Vec::new();
    if source_rate == 0 || channels == 0 {
        let mut i: usize = 0;
        while i < input.len()
            invariant
                i <= input@.len(),
                out@ == input@.take(i as int),
            decreases input@.len() - i,
        {
            out.push(input[i]);
            i = i + 1;
            assert(out@ =~= input@.take(i as int));
        }
        assert(input@.take(input@.len() as int) =~= input@);
        return out;
    }
    let ch = channels as usize;
    let len = input.len();
    let frames = len / ch;
    let ghost iframes = input@.len() as int / channels as int;
    assert(frames as int == iframes);
    let limit: u128 = (frames as u128) * (TARGET_RATE as u128);
    let rate = source_rate as u128;
    let mut k: u128 = 0;
    assert(0 * rate == 0) by (nonlinear_arith);
    while k * rate < limit
        invariant
            ch == channels,
            channels > 0,
            rate == source_rate,
            rate > 0,
            frames == iframes,
            iframes == input@.len() as int / channels as int,
            input@.len() <= usize::MAX,
            limit == iframes * 16000,
            limit <= 0xffff_ffff_ffff_ffff * 16000,
            out@.len() == k,
            k * rate < limit + rate,
            k > 0 ==> (k - 1) * rate < limit,
            forall|j: int|
                0 <= j < out@.len() ==> #[trigger] out@[j] == input@[source_frame(j, source_rate)
                    * channels],
        decreases limit + rate - k * rate,
    {
        proof {
            lemma_frame_in_range(k as int, rate as int, iframes);
            lemma_step(k as int, rate as int, limit as int);
        }
        let q: u128 = k * rate / 16000;
        assert(q == (k as int * rate as int) / 16000);
        assert(q < frames);
        let f = q as usize;
        proof {
            lemma_index_in_range(f as int, iframes, ch as int, input@.len() as int);
        }
        let idx = f * ch;
        let ghost before = out@;
        out.push(input[idx]);
        assert(out@[k as int] == input@[source_frame(k as int, source_rate) * channels]);
        assert forall|j: int| 0 <= j < out@.len() implies #[trigger] out@[j] == input@[source_frame(
            j,
            source_rate,
        ) * channels] by {
            if j < k {
                assert(out@[j] == before[j]);
            }
        }
        k = k + 1;
    }
    out
}

/// Splits off every whole 100 ms chunk at the front of `accumulated`, in
/// order; what remains is shorter than a chunk.
pub fn drain_chunks(accumulated: &mut Vec<i16>) -> (res: Vec<Vec<i16>>)
    ensures
        res@.len() * CHUNK_SAMPLES + final(accumulated)@.len() == old(accumulated)@.len(),
        final(accumulated)@.len() < CHUNK_SAMPLES,
        final(accumulated)@ == old(accumulated)@.skip(res@.len() * CHUNK_SAMPLES),
        forall|c: int|
            0 <= c < res@.len() ==> #[trigger] res@[c]@ == old(accumulated)@.subrange(
                c * CHUNK_SAMPLES,
                c * CHUNK_SAMPLES + CHUNK_SAMPLES,
            ),
{
    let ghost orig = accumulated@;
    let mut chunks: Vec<Vec<i16>> = Vec::new();
    assert(orig.skip(0) =~= orig);
    while accumulated.len() >= CHUNK_SAMPLES
        invariant
            chunks@.len() * CHUNK_SAMPLES + accumulated@.len() == orig.len(),
            accumulated@ == orig.skip(chunks@.len() * CHUNK_SAMPLES),
            forall|c: int|
                0 <= c < chunks@.len() ==> #[trigger] chunks@[c]@ == orig.subrange(
                    c * CHUNK_SAMPLES,
                    c * CHUNK_SAMPLES + CHUNK_SAMPLES,
                ),
        decreases accumulated@.len(),
    {
        let ghost c = chunks@.len();
        let mut chunk: Vec<i16> = Vec::new();
        std::mem::swap(&mut chunk, accumulated);
        let rest = chunk.split_off(CHUNK_SAMPLES);
        *accumulated = rest;
        assert(chunk@ =~= orig.subrange(c * CHUNK_SAMPLES, c * CHUNK_SAMPLES + CHUNK_SAMPLES));
        assert(accumulated@ =~= orig.skip((c + 1) * CHUNK_SAMPLES));
        chunks.push(chunk);
    }
    chunks
}

/// The number of 16 kHz samples that stand for a silent capture buffer of
/// `num_frames` frames at `native_rate`.
pub fn silent_frame_samples(num_frames: u32, native_rate: u32) -> (res: u64)
    requires
        native_rate > 0,
    ensures
        res == (num_frames as int * 16000) / (native_rate as int),
{
    (num_frames as u64 * 16000) / (native_rate as u64)
}

} // verus!
