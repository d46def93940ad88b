//! Captured audio on its way to 16 kHz mono: what formats are understood, how
//! frames are mixed down, and how a buffer is cut up for resampling and put
//! together again.

use crate::text::{joined, same_text};
use vstd::prelude::*;
use vstd::slice::slice_subrange;

verus! {

/// The sample rate that transcription expects.
pub const WHISPER_SAMPLE_RATE: u32 = 16_000;

/// Samples that the resampler takes at a time.
pub const CHUNK: usize = 1024;

/// The number that a sample of full scale stands for.
pub const FULL_SCALE: i32 = 32_768;

/// Why audio could not be resampled.
#[derive(Debug)]
pub enum ResampleError {
    Construction(String),
    Process(String),
}

/// Why audio could not be captured.
#[derive(Debug)]
pub enum CaptureError {
    NoInputDevice,
    Config(String),
    UnsupportedFormat(String),
    StreamBuild(String),
    StreamPlay(String),
    ThreadDied,
    Resample(ResampleError),
}

/// What is said of a resampling error.
pub open spec fn resample_message(e: ResampleError) -> Seq<char> {
    match e {
        ResampleError::Construction(why) => "failed to construct the resampler: "@ + why@,
        ResampleError::Process(why) => "resampling failed: "@ + why@,
    }
}

/// What is said of a capture error.
pub open spec fn capture_message(e: CaptureError) -> Seq<char> {
    match e {
        CaptureError::NoInputDevice =>
            "no default input device (is a microphone connected and permitted?)"@,
        CaptureError::Config(why) => "failed to query the input configuration: "@ + why@,
        CaptureError::UnsupportedFormat(format) => "unsupported input sample format: "@ + format@,
        CaptureError::StreamBuild(why) => "failed to open the input stream: "@ + why@,
        CaptureError::StreamPlay(why) => "failed to start the input stream: "@ + why@,
        CaptureError::ThreadDied => "the capture thread terminated unexpectedly"@,
        CaptureError::Resample(e) => resample_message(e),
    }
}

impl ResampleError {
    /// The error in words.
    pub fn message(&self) -> (s: String)
        ensures
            s@ == resample_message(*self),
    {
        match self {
            ResampleError::Construction(why) => joined(
                "failed to construct the resampler: ",
                why.as_str(),
            ),
            ResampleError::Process(why) => joined("resampling failed: ", why.as_str()),
        }
    }
}

impl CaptureError {
    /// The error in words.
    pub fn message(&self) -> (s: String)
        ensures
            s@ == capture_message(*self),
    {
        match self {
            CaptureError::NoInputDevice =>
                "no default input device (is a microphone connected and permitted?)".to_owned(),
            CaptureError::Config(why) => joined(
                "failed to query the input configuration: ",
                why.as_str(),
            ),
            CaptureError::UnsupportedFormat(format) => joined(
                "unsupported input sample format: ",
                format.as_str(),
            ),
            CaptureError::StreamBuild(why) => joined(
                "failed to open the input stream: ",
                why.as_str(),
            ),
            CaptureError::StreamPlay(why) => joined(
                "failed to start the input stream: ",
                why.as_str(),
            ),
            CaptureError::ThreadDied => "the capture thread terminated unexpectedly".to_owned(),
            CaptureError::Resample(e) => e.message(),
        }
    }
}

/// A sample format that is understood.
#[derive(Debug, Clone, Copy, PartialEq, Eq, Structural)]
pub enum SampleKind {
    F32,
    I16,
    U16,
}

/// The sample format with a given name, if it is understood.
pub open spec fn kind_of(format: Seq<char>) -> Option<SampleKind> {
    if format == "f32"@ {
        Some(SampleKind::F32)
    } else if format == "i16"@ {
        Some(SampleKind::I16)
    } else if format == "u16"@ {
        Some(SampleKind::U16)
    } else {
        None
    }
}

/// The sample format with a given name.
pub fn sample_kind(format: &str) -> (r: Result<SampleKind, CaptureError>)
    ensures
        match r {
            Ok(kind) => kind_of(format@) == Some(kind),
            Err(CaptureError::UnsupportedFormat(f)) => kind_of(format@) is None && f@ == format@,
            Err(_) => false,
        },
{
    if same_text(format, "f32") {
        Ok(SampleKind::F32)
    } else if same_text(format, "i16") {
        Ok(SampleKind::I16)
    } else if same_text(format, "u16") {
        Ok(SampleKind::U16)
    } else {
        Err(CaptureError::UnsupportedFormat(format.to_owned()))
    }
}

/// An unsigned sample as a number around 0, in parts of [`FULL_SCALE`].
pub fn centred(sample: u16) -> (n: i32)
    ensures
        n == sample - FULL_SCALE,
        -FULL_SCALE <= n < FULL_SCALE,
{
    sample as i32 - FULL_SCALE
}

/// The channels to count with: at least one.
pub open spec fn channel_count(channels: u16) -> int {
    if channels == 0 {
        1
    } else {
        channels as int
    }
}

/// How many frames `len` interleaved samples make.
pub fn frame_count(len: usize, channels: u16) -> (n: usize)
    ensures
        n == len as int / channel_count(channels),
{
    let per: usize = if channels == 0 {
        1
    } else {
        channels as usize
    };
    len / per
}

/// The samples of frame `i`.
pub open spec fn frame<T>(interleaved: Seq<T>, channels: int, i: int) -> Seq<T> {
    interleaved.subrange(i * channels, (i + 1) * channels)
}

proof fn lemma_frame_fits(len: int, channels: int, i: int)
    by (nonlinear_arith)
    requires
        channels > 0,
        0 <= i < len / channels,
    ensures
        0 <= i * channels,
        i * channels <= (i + 1) * channels <= len,
        (i + 1) * channels == i * channels + channels,
{
}

/// Whether `mean` can make `m` of the samples of a frame.
pub open spec fn is_mean<T, F: Fn(&[T]) -> T>(mean: F, samples: Seq<T>, m: T) -> bool {
    exists|f: &[T]| f@ == samples && #[trigger] call_ensures(mean, (f,), m)
}

/// Downmixes interleaved frames to mono: `mean` averages a frame. Samples that
/// make no whole frame at the end are dropped, and a single channel is kept as
/// it is.
pub fn downmix_to_mono<T: Copy, F: Fn(&[T]) -> T>(
    interleaved: &[T],
    channels: u16,
    mean: F,
) -> (mono: Vec<T>)
    requires
        forall|f: &[T]| f@.len() == channels ==> call_requires(mean, (f,)),
    ensures
        channels <= 1 ==> mono@ == interleaved@,
        channels > 1 ==> mono@.len() == interleaved@.len() as int / channels as int,
        channels > 1 ==> forall|i: int|
            0 <= i < mono@.len() ==> is_mean(
                mean,
                frame(interleaved@, channels as int, i),
                #[trigger] mono@[i],
            ),
{
    let mut mono: Vec<T> = Vec::new();
    if channels <= 1 {
        let mut i: usize = 0;
        while i < interleaved.len()
            invariant
                i <= interleaved@.len(),
                mono@ == interleaved@.take(i as int),
            decreases interleaved@.len() - i,
        {
            mono.push(interleaved[i]);
            i = i + 1;
            assert(mono@ == interleaved@.take(i as int));
        }
        assert(interleaved@.take(i as int) == interleaved@);
        return mono;
    }
    let per: usize = channels as usize;
    let len: usize = interleaved.len();
    let frames: usize = len / per;
    let mut i: usize = 0;
    let mut at: usize = 0;
    while i < frames
        invariant
            i <= frames,
            per == channels,
            per > 1,
            len == interleaved@.len(),
            frames == interleaved@.len() as int / per as int,
            at == i * per,
            mono@.len() == i,
            forall|f: &[T]| f@.len() == channels ==> call_requires(mean, (f,)),
            forall|k: int|
                0 <= k < i ==> is_mean(
                    mean,
                    frame(interleaved@, channels as int, k),
                    #[trigger] mono@[k],
                ),
        decreases frames - i,
    {
        proof {
            lemma_frame_fits(interleaved@.len() as int, per as int, i as int);
        }
        let ghost before = mono@;
        let samples: &[T] = slice_subrange(interleaved, at, at + per);
        let sample: T = mean(samples);
        mono.push(sample);
        assert(samples@ == frame(interleaved@, channels as int, i as int));
        assert(call_ensures(mean, (samples,), sample));
        assert(is_mean(mean, frame(interleaved@, channels as int, i as int), sample));
        assert forall|k: int| 0 <= k < i + 1 implies is_mean(
            mean,
            frame(interleaved@, channels as int, k),
            #[trigger] mono@[k],
        ) by {
            if k < i {
                assert(mono@[k] == before[k]);
            }
        }
        i = i + 1;
        at = at + per;
    }
    mono
}

/// Whether a buffer has to be resampled at all.
pub fn needs_resampling(len: usize, input_rate: u32) -> (r: bool)
    ensures
        r == (input_rate != WHISPER_SAMPLE_RATE && len > 0),
{
    input_rate != WHISPER_SAMPLE_RATE && len > 0
}

/// What the resampler is given, as a range of the samples.
#[derive(Debug, Clone, Copy, PartialEq, Eq, Structural)]
pub enum ResampleStep {
    /// A full chunk.
    Full { from: usize, to: usize },
    /// The rest, shorter than a chunk.
    Partial { from: usize, to: usize },
    /// Nothing more: what is still buffered inside the filter comes out.
    Flush,
}

/// The first `n` full chunks.
pub open spec fn full_chunks(n: nat) -> Seq<ResampleStep> {
    Seq::new(
        n,
        |k: int|
            ResampleStep::Full { from: (k * CHUNK) as usize, to: ((k + 1) * CHUNK) as usize },
    )
}

/// How `len` samples are given to the resampler: in full chunks, then the
/// rest, and a flush at the end.
pub open spec fn resample_steps(len: nat) -> Seq<ResampleStep> {
    let n = (len / CHUNK as nat) as nat;
    let rest = if len % CHUNK as nat == 0 {
        Seq::empty()
    } else {
        seq![ResampleStep::Partial { from: (n * CHUNK) as usize, to: len as usize }]
    };
    (full_chunks(n) + rest).push(ResampleStep::Flush)
}

/// Cuts `len` samples up for the resampler.
pub fn resample_plan(len: usize) -> (steps: Vec<ResampleStep>)
    ensures
        steps@ == resample_steps(len as nat),
{
    let mut steps: Vec<ResampleStep> = Vec::new();
    let mut from: usize = 0;
    let ghost mut n: nat = 0;
    while len - from >= CHUNK
        invariant
            from <= len,
            from == n * CHUNK,
            steps@ == full_chunks(n),
        decreases len - from,
    {
        steps.push(ResampleStep::Full { from, to: from + CHUNK });
        from = from + CHUNK;
        proof {
            n = n + 1;
            assert(steps@ == full_chunks(n));
        }
    }
    assert(n == len as nat / CHUNK as nat && len as nat % CHUNK as nat == len - from) by {
        assert(len == n * CHUNK + (len - from));
        assert(0 <= len - from < CHUNK);
    }
    if from < len {
        steps.push(ResampleStep::Partial { from, to: len });
    }
    steps.push(ResampleStep::Flush);
    steps
}

/// What the steps feed to the resampler, one behind the other.
pub open spec fn fed<T>(samples: Seq<T>, steps: Seq<ResampleStep>) -> Seq<T>
    decreases steps.len(),
{
    if steps.len() == 0 {
        Seq::empty()
    } else {
        fed(samples, steps.drop_last()) + match steps.last() {
            ResampleStep::Full { from, to } => samples.subrange(from as int, to as int),
            ResampleStep::Partial { from, to } => samples.subrange(from as int, to as int),
            ResampleStep::Flush => Seq::empty(),
        }
    }
}

proof fn lemma_full_chunks_feed<T>(samples: Seq<T>, n: nat)
    requires
        n * CHUNK <= samples.len(),
        samples.len() <= usize::MAX,
    ensures
        fed(samples, full_chunks(n)) == samples.take((n * CHUNK) as int),
    decreases n,
{
    if n > 0 {
        let k = (n - 1) as nat;
        lemma_full_chunks_feed(samples, k);
        assert(full_chunks(n).drop_last() == full_chunks(k));
        assert(full_chunks(n).last() == (ResampleStep::Full {
            from: (k * CHUNK) as usize,
            to: (n * CHUNK) as usize,
        }));
        assert(samples.take((k * CHUNK) as int) + samples.subrange(
            (k * CHUNK) as int,
            (n * CHUNK) as int,
        ) == samples.take((n * CHUNK) as int));
    } else {
        assert(full_chunks(0) == Seq::<ResampleStep>::empty());
        assert(samples.take(0) == Seq::<T>::empty());
    }
}

/// Every sample is given to the resampler once and in order, so that no buffer
/// loses its tail.
pub proof fn law_resampling_takes_every_sample<T>(samples: Seq<T>)
    requires
        samples.len() <= usize::MAX,
    ensures
        fed(samples, resample_steps(samples.len())) == samples,
{
    let len = samples.len();
    let n = (len / CHUNK as nat) as nat;
    assert(n * CHUNK <= len && len == n * CHUNK + len % CHUNK as nat);
    lemma_full_chunks_feed(samples, n);
    let steps = resample_steps(len);
    let body = steps.drop_last();
    assert(steps.last() == ResampleStep::Flush);
    if len % CHUNK as nat == 0 {
        assert(body == full_chunks(n));
    } else {
        let rest = ResampleStep::Partial { from: (n * CHUNK) as usize, to: len as usize };
        assert(body == full_chunks(n).push(rest));
        assert(body.drop_last() == full_chunks(n));
        assert(samples.take((n * CHUNK) as int) + samples.subrange((n * CHUNK) as int, len as int)
            == samples);
    }
    assert(fed(samples, body) == samples);
    assert(fed(samples, steps) == samples + Seq::<T>::empty());
}

/// `out` without the first `delay` samples and no longer than `expected`.
pub open spec fn trimmed_to<T>(out: Seq<T>, delay: nat, expected: nat) -> Seq<T> {
    let start = if delay < out.len() {
        delay as int
    } else {
        out.len() as int
    };
    let rest = out.skip(start);
    if expected < rest.len() {
        rest.take(expected as int)
    } else {
        rest
    }
}

/// The filter introduces a fixed leading delay, and the final flush emits up
/// to a chunk of trailing silence: takes off the former and cuts to the
/// expected length, so that the output lasts as long as the input.
pub fn trim_resampled<T: Copy>(out: &Vec<T>, delay: usize, expected: usize) -> (r: Vec<T>)
    ensures
        r@ == trimmed_to(out@, delay as nat, expected as nat),
{
    let start: usize = if delay < out.len() {
        delay
    } else {
        out.len()
    };
    let end: usize = if expected < out.len() - start {
        start + expected
    } else {
        out.len()
    };
    let mut r: Vec<T> = Vec::new();
    let mut i: usize = start;
    while i < end
        invariant
            start <= i <= end <= out@.len(),
            r@ == out@.subrange(start as int, i as int),
        decreases end - i,
    {
        r.push(out[i]);
        i = i + 1;
        assert(r@ == out@.subrange(start as int, i as int));
    }
    assert(r@ == trimmed_to(out@, delay as nat, expected as nat));
    r
}

/// How a recording is written to disk.
#[derive(Debug, Clone, Copy, PartialEq, Eq, Structural)]
pub struct WavFormat {
    pub channels: u16,
    pub sample_rate: u32,
    pub bits_per_sample: u16,
}

/// Recordings are kept as 16 kHz mono with 16 bits to a sample.
pub fn wav_format() -> (f: WavFormat)
    ensures
        f == (WavFormat {
            channels: 1,
            sample_rate: WHISPER_SAMPLE_RATE,
            bits_per_sample: 16,
        }),
{
    WavFormat { channels: 1, sample_rate: WHISPER_SAMPLE_RATE, bits_per_sample: 16 }
}

/// The resampler is given chunks of 1024 samples, then what is left over, which
/// is less, and is flushed once, at the end.
pub proof fn law_resampling_goes_by_chunks(len: nat, k: int)
    requires
        len <= usize::MAX,
        0 <= k < resample_steps(len).len(),
    ensures
        match resample_steps(len)[k] {
            ResampleStep::Full { from, to } => {
                &&& from == 1024 * k
                &&& to == from + 1024
                &&& to <= len
                &&& k + 1 < resample_steps(len).len()
            },
            ResampleStep::Partial { from, to } => {
                &&& from == 1024 * k
                &&& from < to < from + 1024
                &&& to == len
                &&& k + 2 == resample_steps(len).len()
            },
            ResampleStep::Flush => k + 1 == resample_steps(len).len(),
        },
{
    let n = (len / CHUNK as nat) as nat;
    assert(n * 1024 <= len && len == n * 1024 + len % 1024);
    let steps = resample_steps(len);
    if k < n {
        assert(steps[k] == full_chunks(n)[k]);
        assert((k + 1) * 1024 <= n * 1024);
    }
}

/// What comes out of the resampler loses the delay at its start, keeps what
/// follows as it is, and is cut to the length that is expected.
pub proof fn law_delay_is_taken_off<T>(out: Seq<T>, delay: nat, expected: nat)
    ensures
        ({
            let r = trimmed_to(out, delay, expected);
            let left = if delay < out.len() {
                out.len() - delay
            } else {
                0
            };
            &&& r.len() == if expected < left {
                expected as int
            } else {
                left
            }
            &&& forall|i: int| 0 <= i < r.len() ==> #[trigger] r[i] == out[delay + i]
        }),
{
}

/// A frame is one sample of each channel, and frame follows frame.
pub proof fn law_frames_follow_each_other<T>(interleaved: Seq<T>, channels: int, i: int, j: int)
    requires
        channels > 0,
        0 <= i,
        (i + 1) * channels <= interleaved.len(),
        0 <= j < channels,
    ensures
        frame(interleaved, channels, i).len() == channels,
        frame(interleaved, channels, i)[j] == interleaved[i * channels + j],
{
    assert((i + 1) * channels == i * channels + channels) by (nonlinear_arith);
    assert(0 <= i * channels) by (nonlinear_arith)
        requires
            0 <= i,
            channels > 0,
    ;
}

/// Three sample formats are understood, by their names, and no other.
pub proof fn law_formats_go_by_their_names(format: Seq<char>)
    ensures
        kind_of(seq!['f', '3', '2']) == Some(SampleKind::F32),
        kind_of(seq!['i', '1', '6']) == Some(SampleKind::I16),
        kind_of(seq!['u', '1', '6']) == Some(SampleKind::U16),
        kind_of(format) is Some ==> format == seq!['f', '3', '2'] || format == seq!['i', '1', '6']
            || format == seq!['u', '1', '6'],
{
    reveal_strlit("f32");
    reveal_strlit("i16");
    reveal_strlit("u16");
    assert("f32"@ =~= seq!['f', '3', '2']);
    assert("i16"@ =~= seq!['i', '1', '6']);
    assert("u16"@ =~= seq!['u', '1', '6']);
    assert("f32"@[0] == 'f' && "i16"@[0] == 'i' && "u16"@[0] == 'u');
}

/// Every error tells why it came.
pub proof fn law_errors_tell_why(why: String)
    ensures
        capture_message(CaptureError::Config(why)) == "failed to query the input configuration: "@
            + why@,
        capture_message(CaptureError::UnsupportedFormat(why))
            == "unsupported input sample format: "@ + why@,
        capture_message(CaptureError::StreamBuild(why)) == "failed to open the input stream: "@
            + why@,
        capture_message(CaptureError::StreamPlay(why)) == "failed to start the input stream: "@
            + why@,
        capture_message(CaptureError::Resample(ResampleError::Construction(why)))
            == "failed to construct the resampler: "@ + why@,
        capture_message(CaptureError::Resample(ResampleError::Process(why)))
            == "resampling failed: "@ + why@,
{
}

/// Transcription takes 16000 samples to a second, and there is at least one
/// channel to count with.
pub proof fn law_rate_and_channels(channels: u16)
    ensures
        WHISPER_SAMPLE_RATE == 16_000,
        channel_count(channels) >= 1,
        channels > 0 ==> channel_count(channels) == channels,
{
}

/// What a frame is mixed down to is what averaging its samples gives.
pub proof fn law_mean_is_that_of_the_frame<T, F: Fn(&[T]) -> T>(mean: F, samples: Seq<T>, m: T)
    requires
        is_mean(mean, samples, m),
    ensures
        exists|f: &[T]| f@ == samples && #[trigger] call_ensures(mean, (f,), m),
{
}

} // verus!
