//! Around a transcription: only speech is decoded, and what comes out of it is
//! cleaned.
//!
//! Whisper never sees non-speech audio, so silence cannot produce hallucinated
//! text and long pauses are not decoded at all. Callers hand in 16 kHz mono
//! PCM.

use crate::text::{joined, text_of, to_chars, trim_within, trimmed};
use vstd::prelude::*;

verus! {

/// Samples in a hundredth of a second at 16 kHz.
pub const SAMPLES_PER_CS: usize = 160;

/// Samples of the following audio that a segment gets: 0.1 s.
pub const OVERLAP_SAMPLES: usize = 1600;

/// Samples of silence between segments: 0.1 s.
pub const GAP_SAMPLES: usize = 1600;

/// Why a recording could not be transcribed.
#[derive(Debug)]
pub enum TranscriptionError {
    ContextInit(String),
    VadInit(String),
    VadRun(String),
    StateInit(String),
    Run(String),
}

/// What is said of an error.
pub open spec fn message_of(e: TranscriptionError) -> Seq<char> {
    match e {
        TranscriptionError::ContextInit(why) => "failed to initialize the whisper context: "@
            + why@,
        TranscriptionError::VadInit(why) => "failed to initialize the VAD context: "@ + why@,
        TranscriptionError::VadRun(why) => "VAD segment detection failed: "@ + why@,
        TranscriptionError::StateInit(why) => "failed to create a decoding state: "@ + why@,
        TranscriptionError::Run(why) => "whisper_full failed: "@ + why@,
    }
}

impl TranscriptionError {
    /// The error in words.
    pub fn message(&self) -> (s: String)
        ensures
            s@ == message_of(*self),
    {
        match self {
            TranscriptionError::ContextInit(why) => joined(
                "failed to initialize the whisper context: ",
                why.as_str(),
            ),
            TranscriptionError::VadInit(why) => joined(
                "failed to initialize the VAD context: ",
                why.as_str(),
            ),
            TranscriptionError::VadRun(why) => joined(
                "VAD segment detection failed: ",
                why.as_str(),
            ),
            TranscriptionError::StateInit(why) => joined(
                "failed to create a decoding state: ",
                why.as_str(),
            ),
            TranscriptionError::Run(why) => joined("whisper_full failed: ", why.as_str()),
        }
    }
}

/// The segments among `marks` that have both ends.
pub open spec fn whole_segments(marks: Seq<(Option<i64>, Option<i64>)>) -> Seq<(i64, i64)>
    decreases marks.len(),
{
    if marks.len() == 0 {
        Seq::empty()
    } else {
        match marks.last() {
            (Some(start), Some(end)) => whole_segments(marks.drop_last()).push((start, end)),
            _ => whole_segments(marks.drop_last()),
        }
    }
}

/// Speech segments as (start, end) pairs in hundredths of a second, out of the
/// timestamps that were detected. One without a start or an end is left out.
pub fn detect_speech(marks: &Vec<(Option<i64>, Option<i64>)>) -> (segments: Vec<(i64, i64)>)
    ensures
        segments@ == whole_segments(marks@),
{
    let mut segments: Vec<(i64, i64)> = Vec::new();
    let mut i: usize = 0;
    assert(marks@.take(0) == Seq::<(Option<i64>, Option<i64>)>::empty());
    while i < marks.len()
        invariant
            i <= marks@.len(),
            segments@ == whole_segments(marks@.take(i as int)),
        decreases marks@.len() - i,
    {
        assert(marks@.take(i + 1).drop_last() == marks@.take(i as int));
        if let (Some(start), Some(end)) = marks[i] {
            segments.push((start, end));
        }
        i = i + 1;
    }
    assert(marks@.take(i as int) == marks@);
    segments
}

/// The sample at a time, within the `len` samples there are.
pub open spec fn sample_at(cs: i64, len: nat) -> int {
    if cs <= 0 {
        0
    } else if cs * SAMPLES_PER_CS < len {
        cs * SAMPLES_PER_CS
    } else {
        len as int
    }
}

/// Where a segment ends among `len` samples. All but the last one get some of
/// the following audio.
pub open spec fn segment_end(cs: i64, is_last: bool, len: nat) -> int {
    let end = sample_at(cs, len);
    if is_last {
        end
    } else if end + OVERLAP_SAMPLES < len {
        end + OVERLAP_SAMPLES
    } else {
        len as int
    }
}

/// `n` samples of silence.
pub open spec fn quiet<T>(silence: T, n: nat) -> Seq<T> {
    Seq::new(n, |k: int| silence)
}

/// What is kept for one segment.
pub open spec fn segment_samples<T>(
    samples: Seq<T>,
    segment: (i64, i64),
    is_last: bool,
    silence: T,
) -> Seq<T> {
    let start = sample_at(segment.0, samples.len());
    let end = segment_end(segment.1, is_last, samples.len());
    if end <= start {
        Seq::empty()
    } else if is_last {
        samples.subrange(start, end)
    } else {
        samples.subrange(start, end) + quiet(silence, GAP_SAMPLES as nat)
    }
}

/// What is kept for the first `n` segments.
pub open spec fn stitched_up_to<T>(
    samples: Seq<T>,
    segments: Seq<(i64, i64)>,
    silence: T,
    n: int,
) -> Seq<T>
    decreases n,
{
    if n <= 0 {
        Seq::empty()
    } else {
        stitched_up_to(samples, segments, silence, n - 1) + segment_samples(
            samples,
            segments[n - 1],
            n == segments.len(),
            silence,
        )
    }
}

/// The speech of a recording.
pub open spec fn stitched<T>(samples: Seq<T>, segments: Seq<(i64, i64)>, silence: T) -> Seq<T> {
    stitched_up_to(samples, segments, silence, segments.len() as int)
}

fn index_of(cs: i64, len: usize) -> (i: usize)
    ensures
        i == sample_at(cs, len as nat),
{
    if cs <= 0 {
        return 0;
    }
    let at: u128 = (cs as u128) * 160;
    if at < len as u128 {
        at as usize
    } else {
        len
    }
}

/// Keeps only speech: each segment (already padded by the detection) gets 0.1s
/// of the following audio as overlap, and segments are separated by 0.1s of
/// silence so the decoder still sees natural pauses between phrases.
pub fn speech_only_samples<T: Copy>(
    samples: &[T],
    segments: &Vec<(i64, i64)>,
    silence: T,
) -> (result: Vec<T>)
    ensures
        result@ == stitched(samples@, segments@, silence),
{
    let mut result: Vec<T> = Vec::new();
    let mut index: usize = 0;
    let len: usize = samples.len();
    while index < segments.len()
        invariant
            index <= segments@.len(),
            len == samples@.len(),
            result@ == stitched_up_to(samples@, segments@, silence, index as int),
        decreases segments@.len() - index,
    {
        let ghost before = result@;
        let is_last: bool = index == segments.len() - 1;
        let start: usize = index_of(segments[index].0, len);
        let mut end: usize = index_of(segments[index].1, len);
        if !is_last {
            end = if len - end > OVERLAP_SAMPLES {
                end + OVERLAP_SAMPLES
            } else {
                len
            };
        }
        assert(end == segment_end(segments@[index as int].1, is_last, samples@.len()));
        if start < end {
            let mut i: usize = start;
            while i < end
                invariant
                    start <= i <= end <= len,
                    len == samples@.len(),
                    result@ == before + samples@.subrange(start as int, i as int),
                decreases end - i,
            {
                result.push(samples[i]);
                i = i + 1;
                assert(result@ == before + samples@.subrange(start as int, i as int));
            }
            if !is_last {
                let mut k: usize = 0;
                let ghost speech = before + samples@.subrange(start as int, end as int);
                assert(result@ == speech + quiet(silence, 0));
                while k < GAP_SAMPLES
                    invariant
                        k <= GAP_SAMPLES,
                        result@ == speech + quiet(silence, k as nat),
                    decreases GAP_SAMPLES - k,
                {
                    result.push(silence);
                    k = k + 1;
                    assert(result@ == speech + quiet(silence, k as nat));
                }
            }
        }
        assert(result@ == before + segment_samples(
            samples@,
            segments@[index as int],
            is_last,
            silence,
        ));
        index = index + 1;
    }
    result
}

/// What is decoded of a recording: its speech, or nothing where there is none.
pub fn speech_gate<T: Copy>(
    samples: &[T],
    marks: &Vec<(Option<i64>, Option<i64>)>,
    silence: T,
) -> (r: Option<Vec<T>>)
    ensures
        match r {
            Some(speech) => whole_segments(marks@).len() > 0 && speech@ == stitched(
                samples@,
                whole_segments(marks@),
                silence,
            ),
            None => whole_segments(marks@).len() == 0,
        },
{
    let segments: Vec<(i64, i64)> = detect_speech(marks);
    if segments.len() == 0 {
        return None;
    }
    Some(speech_only_samples(samples, &segments, silence))
}

/// Whether `tag` stands at `i` in `t`.
pub open spec fn stands_at(t: Seq<char>, i: int, tag: Seq<char>) -> bool {
    0 <= i && i + tag.len() <= t.len() && t.subrange(i, i + tag.len()) == tag
}

/// `t` from `i` on without any occurrence of `tag`, found from left to right.
pub open spec fn without_from(t: Seq<char>, i: int, tag: Seq<char>) -> Seq<char>
    decreases t.len() - i,
{
    if 0 <= i < t.len() {
        if tag.len() > 0 && stands_at(t, i, tag) {
            without_from(t, i + tag.len(), tag)
        } else {
            seq![t[i]] + without_from(t, i + 1, tag)
        }
    } else {
        Seq::empty()
    }
}

/// `t` without any occurrence of `tag`.
pub open spec fn without(t: Seq<char>, tag: Seq<char>) -> Seq<char> {
    without_from(t, 0, tag)
}

/// A transcription without the tags for what is not speech.
pub open spec fn cleaned(t: Seq<char>) -> Seq<char> {
    trimmed(without(without(t, "[MUSIC]"@), "[BLANK_AUDIO]"@))
}

fn has_tag(v: &Vec<char>, i: usize, tag: &Vec<char>) -> (r: bool)
    requires
        i <= v@.len(),
    ensures
        r == stands_at(v@, i as int, tag@),
{
    let len: usize = v.len();
    if tag.len() > len - i {
        return false;
    }
    let mut k: usize = 0;
    while k < tag.len()
        invariant
            k <= tag@.len(),
            len == v@.len(),
            i + tag@.len() <= len,
            forall|j: int| 0 <= j < k ==> v@[i + j] == tag@[j],
        decreases tag@.len() - k,
    {
        if v[i + k] != tag[k] {
            assert(v@.subrange(i as int, i + tag@.len())[k as int] != tag@[k as int]);
            return false;
        }
        k = k + 1;
    }
    assert(v@.subrange(i as int, i + tag@.len()) == tag@);
    true
}

fn strip(v: &Vec<char>, tag: &str) -> (r: Vec<char>)
    ensures
        r@ == without(v@, tag@),
{
    let tag: Vec<char> = to_chars(tag);
    let mut r: Vec<char> = Vec::new();
    let mut i: usize = 0;
    while i < v.len()
        invariant
            i <= v@.len(),
            r@ + without_from(v@, i as int, tag@) == without(v@, tag@),
        decreases v@.len() - i,
    {
        let ghost before = r@;
        if tag.len() > 0 && has_tag(v, i, &tag) {
            i = i + tag.len();
        } else {
            r.push(v[i]);
            assert(before + (seq![v@[i as int]] + without_from(v@, i + 1, tag@)) == r@
                + without_from(v@, i + 1, tag@));
            i = i + 1;
        }
    }
    assert(r@ + without_from(v@, i as int, tag@) == r@);
    r
}

/// Strips whisper's non-speech tags and trims.
pub fn clean_text(text: &str) -> (r: String)
    ensures
        r@ == cleaned(text@),
{
    let v: Vec<char> = to_chars(text);
    let music: Vec<char> = strip(&v, "[MUSIC]");
    let blank: Vec<char> = strip(&music, "[BLANK_AUDIO]");
    assert(blank@.subrange(0, blank@.len() as int) == blank@);
    let (from, to): (usize, usize) = trim_within(&blank, 0, blank.len());
    text_of(&blank, from, to)
}

/// The segments that could be read, each followed by a line break.
pub open spec fn lines_of(segments: Seq<Option<String>>) -> Seq<char>
    decreases segments.len(),
{
    if segments.len() == 0 {
        Seq::empty()
    } else {
        match segments.last() {
            Some(text) => lines_of(segments.drop_last()) + text@ + seq!['\n'],
            None => lines_of(segments.drop_last()),
        }
    }
}

/// The text of a transcription out of the texts of its segments. One that
/// could not be read is left out.
pub fn transcript(segments: &Vec<Option<String>>) -> (r: String)
    ensures
        r@ == cleaned(lines_of(segments@)),
{
    let mut text: String = String::new();
    let mut i: usize = 0;
    assert(segments@.take(0) == Seq::<Option<String>>::empty());
    while i < segments.len()
        invariant
            i <= segments@.len(),
            text@ == lines_of(segments@.take(i as int)),
        decreases segments@.len() - i,
    {
        assert(segments@.take(i + 1).drop_last() == segments@.take(i as int));
        if let Some(segment) = &segments[i] {
            text.append(segment.as_str());
            text.push('\n');
            assert(text@ == lines_of(segments@.take(i + 1)));
        }
        i = i + 1;
    }
    assert(segments@.take(i as int) == segments@);
    clean_text(text.as_str())
}

/// `n` brought into the range from 2 to 8.
pub open spec fn thread_count(n: i32) -> int {
    if n < 2 {
        2
    } else if n > 8 {
        8
    } else {
        n as int
    }
}

/// How many threads to decode with, when the machine has so many, or does not
/// say: from 2 to 8, and 4 if in doubt.
pub fn available_threads(parallelism: Option<usize>) -> (n: i32)
    ensures
        n == thread_count(
            match parallelism {
                Some(p) => p as i32,
                None => 4,
            },
        ),
{
    let n: i32 = match parallelism {
        Some(p) => #[verifier::truncate] (p as i32),
        None => 4,
    };
    if n < 2 {
        2
    } else if n > 8 {
        8
    } else {
        n
    }
}

/// Whether sample `j` belongs to segment `k`, with its overlap.
pub open spec fn is_in_segment(segments: Seq<(i64, i64)>, len: nat, k: int, j: int) -> bool {
    &&& 0 <= k < segments.len()
    &&& sample_at(segments[k].0, len) <= j < segment_end(
        segments[k].1,
        k == segments.len() - 1,
        len,
    )
}

/// Whether `x` is silence or a sample of a segment.
pub open spec fn is_speech<T>(
    samples: Seq<T>,
    segments: Seq<(i64, i64)>,
    silence: T,
    x: T,
) -> bool {
    x == silence || exists|k: int, j: int|
        #[trigger] is_in_segment(segments, samples.len(), k, j) && samples[j] == x
}

proof fn lemma_speech<T>(samples: Seq<T>, segments: Seq<(i64, i64)>, silence: T, n: int)
    requires
        0 <= n <= segments.len(),
    ensures
        forall|p: int|
            0 <= p < stitched_up_to(samples, segments, silence, n).len() ==> is_speech(
                samples,
                segments,
                silence,
                #[trigger] stitched_up_to(samples, segments, silence, n)[p],
            ),
    decreases n,
{
    if n > 0 {
        lemma_speech(samples, segments, silence, n - 1);
        let before = stitched_up_to(samples, segments, silence, n - 1);
        let is_last = n == segments.len();
        let piece = segment_samples(samples, segments[n - 1], is_last, silence);
        let all = stitched_up_to(samples, segments, silence, n);
        let start = sample_at(segments[n - 1].0, samples.len());
        let end = segment_end(segments[n - 1].1, is_last, samples.len());
        assert forall|p: int| 0 <= p < all.len() implies is_speech(
            samples,
            segments,
            silence,
            #[trigger] all[p],
        ) by {
            if p < before.len() {
                assert(all[p] == before[p]);
            } else {
                let q = p - before.len();
                assert(all[p] == piece[q]);
                if q < end - start {
                    assert(is_in_segment(segments, samples.len(), n - 1, start + q));
                    assert(samples[start + q] == all[p]);
                }
            }
        }
    }
}

/// Nothing but speech is decoded: every sample that is kept is one of a
/// segment and its overlap, or silence between two of them.
pub proof fn law_only_speech_is_decoded<T>(
    samples: Seq<T>,
    segments: Seq<(i64, i64)>,
    silence: T,
    p: int,
)
    requires
        0 <= p < stitched(samples, segments, silence).len(),
    ensures
        is_speech(samples, segments, silence, stitched(samples, segments, silence)[p]),
{
    lemma_speech(samples, segments, silence, segments.len() as int);
}

/// A single segment is kept as it is, without overlap and without silence, and
/// within the samples there are.
pub proof fn law_single_segment_is_not_padded<T>(samples: Seq<T>, segment: (i64, i64), silence: T)
    ensures
        ({
            let start = sample_at(segment.0, samples.len());
            let end = sample_at(segment.1, samples.len());
            stitched(samples, seq![segment], silence) == if start < end {
                samples.subrange(start, end)
            } else {
                Seq::empty()
            }
        }),
{
    let segments = seq![segment];
    assert(stitched_up_to(samples, segments, silence, 0) == Seq::<T>::empty());
    assert(stitched_up_to(samples, segments, silence, 1) == segment_samples(
        samples,
        segment,
        true,
        silence,
    ));
}

/// Without speech nothing is decoded.
pub proof fn law_silence_is_not_decoded<T>(samples: Seq<T>, silence: T)
    ensures
        stitched(samples, Seq::<(i64, i64)>::empty(), silence) == Seq::<T>::empty(),
{
}

/// Where a time falls among `len` samples, at 160 samples to a hundredth of a
/// second: not before the first and not behind the last.
pub open spec fn falls_at(cs: i64, len: int) -> int {
    if cs * 160 < 0 {
        0
    } else if cs * 160 > len {
        len
    } else {
        cs * 160
    }
}

/// How many samples segment `k` has among `len`, with the 0.1 s behind it that
/// all but the last get.
pub open spec fn speech_len(segments: Seq<(i64, i64)>, len: int, k: int) -> int {
    let end = falls_at(segments[k].1, len) + if k + 1 < segments.len() {
        1600int
    } else {
        0int
    };
    let heard = if end < len {
        end
    } else {
        len
    } - falls_at(segments[k].0, len);
    if heard > 0 {
        heard
    } else {
        0
    }
}

/// Where segment `k` stands in what is kept: behind all segments before it,
/// each with the 0.1 s of silence that follows it.
pub open spec fn place_of(segments: Seq<(i64, i64)>, len: int, k: int) -> int
    decreases k,
{
    if k <= 0 {
        0
    } else {
        place_of(segments, len, k - 1) + speech_len(segments, len, k - 1) + if speech_len(
            segments,
            len,
            k - 1,
        ) > 0 && k < segments.len() {
            1600int
        } else {
            0int
        }
    }
}

proof fn lemma_places<T>(samples: Seq<T>, segments: Seq<(i64, i64)>, silence: T, n: int)
    requires
        0 <= n <= segments.len(),
    ensures
        stitched_up_to(samples, segments, silence, n).len() == place_of(
            segments,
            samples.len() as int,
            n,
        ),
        forall|k: int|
            0 <= k <= n ==> 0 <= #[trigger] place_of(segments, samples.len() as int, k) <= place_of(
                segments,
                samples.len() as int,
                n,
            ),
        forall|k: int, j: int|
            0 <= k < n && 0 <= j < speech_len(segments, samples.len() as int, k)
                ==> #[trigger] stitched_up_to(samples, segments, silence, n)[place_of(
                segments,
                samples.len() as int,
                k,
            ) + j] == samples[falls_at(segments[k].0, samples.len() as int) + j],
        forall|k: int, j: int|
            0 <= k < n && k + 1 < segments.len() && speech_len(segments, samples.len() as int, k) > 0
                && 0 <= j < 1600 ==> #[trigger] stitched_up_to(
                samples,
                segments,
                silence,
                n,
            )[place_of(segments, samples.len() as int, k) + speech_len(
                segments,
                samples.len() as int,
                k,
            ) + j] == silence,
    decreases n,
{
    let len = samples.len() as int;
    if n > 0 {
        lemma_places(samples, segments, silence, n - 1);
        let before = stitched_up_to(samples, segments, silence, n - 1);
        let all = stitched_up_to(samples, segments, silence, n);
        let is_last = n == segments.len();
        let piece = segment_samples(samples, segments[n - 1], is_last, silence);
        let start = falls_at(segments[n - 1].0, len);
        assert(sample_at(segments[n - 1].0, samples.len()) == start);
        assert(sample_at(segments[n - 1].1, samples.len()) == falls_at(segments[n - 1].1, len));
        let end = segment_end(segments[n - 1].1, is_last, samples.len());
        let heard = speech_len(segments, len, n - 1);
        assert(heard == if start < end {
            end - start
        } else {
            0
        });
        assert(all == before + piece);
        assert(piece.len() == heard + if heard > 0 && !is_last {
            1600int
        } else {
            0int
        });
        assert forall|k: int, j: int| 0 <= k < n && 0 <= j < speech_len(segments, len, k) implies
            #[trigger] all[place_of(segments, len, k) + j] == samples[falls_at(segments[k].0, len)
            + j] by {
            if k < n - 1 {
                assert(place_of(segments, len, k + 1) <= place_of(segments, len, n - 1));
                assert(all[place_of(segments, len, k) + j] == before[place_of(segments, len, k)
                    + j]);
            } else {
                assert(all[place_of(segments, len, k) + j] == piece[j]);
                assert(piece[j] == samples.subrange(start, end)[j]);
            }
        }
        assert forall|k: int, j: int|
            0 <= k < n && k + 1 < segments.len() && speech_len(segments, len, k) > 0 && 0 <= j
                < 1600 implies #[trigger] all[place_of(segments, len, k) + speech_len(
            segments,
            len,
            k,
        ) + j] == silence by {
            let at = place_of(segments, len, k) + speech_len(segments, len, k) + j;
            if k < n - 1 {
                assert(place_of(segments, len, k + 1) <= place_of(segments, len, n - 1));
                assert(all[at] == before[at]);
            } else {
                assert(all[at] == piece[heard + j]);
            }
        }
    }
}

/// Every segment is kept: its samples, from its start to its end and the 0.1 s
/// behind it unless it is the last, stand one behind the other in what is
/// decoded, in the order of the segments. Between two segments there are 0.1 s
/// of silence, and there is nothing else.
pub proof fn law_every_segment_is_kept<T>(
    samples: Seq<T>,
    segments: Seq<(i64, i64)>,
    silence: T,
    k: int,
)
    requires
        0 <= k < segments.len(),
    ensures
        ({
            let speech = stitched(samples, segments, silence);
            let len = samples.len() as int;
            let at = place_of(segments, len, k);
            let heard = speech_len(segments, len, k);
            let start = falls_at(segments[k].0, len);
            &&& speech.len() == place_of(segments, len, segments.len() as int)
            &&& 0 <= at <= at + heard <= speech.len()
            &&& heard > 0 ==> speech.subrange(at, at + heard) == samples.subrange(
                start,
                start + heard,
            )
            &&& heard > 0 && k + 1 < segments.len() ==> at + heard + 1600 == place_of(
                segments,
                len,
                k + 1,
            ) && speech.subrange(at + heard, at + heard + 1600) == Seq::new(
                1600,
                |j: int| silence,
            )
        }),
{
    let n = segments.len() as int;
    let len = samples.len() as int;
    lemma_places(samples, segments, silence, n);
    let speech = stitched(samples, segments, silence);
    let at = place_of(segments, len, k);
    let heard = speech_len(segments, len, k);
    let start = falls_at(segments[k].0, len);
    assert(place_of(segments, len, k + 1) <= place_of(segments, len, n));
    if heard > 0 {
        assert forall|j: int| 0 <= j < heard implies #[trigger] speech.subrange(at, at + heard)[j]
            == samples.subrange(start, start + heard)[j] by {
            assert(stitched_up_to(samples, segments, silence, n)[place_of(segments, len, k) + j]
                == samples[start + j]);
        }
        assert(speech.subrange(at, at + heard) =~= samples.subrange(start, start + heard));
        if k + 1 < segments.len() {
            assert forall|j: int| 0 <= j < 1600 implies #[trigger] speech.subrange(
                at + heard,
                at + heard + 1600,
            )[j] == silence by {
                assert(stitched_up_to(samples, segments, silence, n)[place_of(segments, len, k)
                    + speech_len(segments, len, k) + j] == silence);
            }
            assert(speech.subrange(at + heard, at + heard + 1600) =~= Seq::new(
                1600,
                |j: int| silence,
            ));
        }
    }
}

/// The segments are the marks that have both ends, in their order: none is left
/// out and none is made up.
pub proof fn law_whole_marks_are_segments(marks: Seq<(Option<i64>, Option<i64>)>) -> (at: Seq<int>)
    ensures
        at.len() == whole_segments(marks).len(),
        forall|i: int|
            0 <= i < at.len() ==> 0 <= #[trigger] at[i] < marks.len() && marks[at[i]] == (
                Some(whole_segments(marks)[i].0),
                Some(whole_segments(marks)[i].1),
            ),
        forall|i: int, j: int| 0 <= i < j < at.len() ==> #[trigger] at[i] < #[trigger] at[j],
        forall|k: int|
            0 <= k < marks.len() && (#[trigger] marks[k]).0 is Some && marks[k].1 is Some
                ==> at.contains(k),
    decreases marks.len(),
{
    if marks.len() == 0 {
        Seq::empty()
    } else {
        let less = marks.drop_last();
        let before = law_whole_marks_are_segments(less);
        let n = marks.len() - 1;
        let at = if marks[n].0 is Some && marks[n].1 is Some {
            before.push(n)
        } else {
            before
        };
        assert forall|k: int|
            0 <= k < marks.len() && (#[trigger] marks[k]).0 is Some && marks[k].1 is Some implies
            at.contains(k) by {
            if k < n {
                assert(less[k] == marks[k]);
                let i = choose|i: int| 0 <= i < before.len() && before[i] == k;
                assert(at[i] == k);
            } else {
                assert(at[before.len() as int] == k);
            }
        }
        at
    }
}

proof fn lemma_without_start(t: Seq<char>, i: int, j: int, tag: Seq<char>)
    requires
        0 <= i <= j <= t.len(),
        tag.len() > 0,
        forall|k: int| i <= k < j && k + tag.len() <= t.len() ==> #[trigger] t.subrange(
            k,
            k + tag.len(),
        ) != tag,
    ensures
        without_from(t, i, tag) == t.subrange(i, j) + without_from(t, j, tag),
    decreases j - i,
{
    if i < j {
        lemma_without_start(t, i + 1, j, tag);
        if i + tag.len() <= t.len() {
            assert(t.subrange(i, i + tag.len()) != tag);
        }
        assert(t.subrange(i, j) =~= seq![t[i]] + t.subrange(i + 1, j));
        assert(seq![t[i]] + (t.subrange(i + 1, j) + without_from(t, j, tag)) =~= t.subrange(i, j)
            + without_from(t, j, tag));
    } else {
        assert(t.subrange(i, j) + without_from(t, j, tag) =~= without_from(t, j, tag));
    }
}

proof fn lemma_without_shift(t: Seq<char>, i: int, tag: Seq<char>)
    requires
        0 <= i <= t.len(),
        tag.len() > 0,
    ensures
        without_from(t, i, tag) == without(t.skip(i), tag),
    decreases t.len() - i,
{
    lemma_without_shift_from(t, i, 0, tag);
}

proof fn lemma_without_shift_from(t: Seq<char>, i: int, j: int, tag: Seq<char>)
    requires
        0 <= i,
        0 <= j,
        i + j <= t.len(),
        tag.len() > 0,
    ensures
        without_from(t, i + j, tag) == without_from(t.skip(i), j, tag),
    decreases t.len() - i - j,
{
    let u = t.skip(i);
    if j < u.len() {
        assert(u[j] == t[i + j]);
        if i + j + tag.len() <= t.len() {
            assert(u.subrange(j, j + tag.len()) =~= t.subrange(i + j, i + j + tag.len()));
        }
        if stands_at(u, j, tag) {
            lemma_without_shift_from(t, i, (j + tag.len()) as int, tag);
        } else {
            lemma_without_shift_from(t, i, j + 1, tag);
        }
    }
}

/// Taking a tag out goes from left to right: a text without the tag stays as it
/// is, and one that holds it loses its first occurrence and then those behind.
pub proof fn law_tags_are_taken_out_from_the_left(t: Seq<char>, tag: Seq<char>, i: int)
    requires
        tag.len() > 0,
        0 <= i <= t.len(),
        forall|k: int| 0 <= k < i && k + tag.len() <= t.len() ==> #[trigger] t.subrange(
            k,
            k + tag.len(),
        ) != tag,
    ensures
        i == t.len() ==> without(t, tag) == t,
        i + tag.len() <= t.len() && t.subrange(i, i + tag.len()) == tag ==> without(t, tag)
            == t.take(i) + without(t.skip(i + tag.len()), tag),
{
    lemma_without_start(t, 0, i, tag);
    assert(t.subrange(0, i) =~= t.take(i));
    if i == t.len() {
        assert(t.take(i) + Seq::<char>::empty() =~= t);
    } else if i + tag.len() <= t.len() && t.subrange(i, i + tag.len()) == tag {
        assert(stands_at(t, i, tag));
        lemma_without_shift(t, (i + tag.len()) as int, tag);
    }
}

/// A transcription that holds neither tag is only trimmed.
pub proof fn law_plain_text_is_only_trimmed(t: Seq<char>)
    requires
        forall|k: int| 0 <= k && k + 7 <= t.len() ==> #[trigger] t.subrange(k, k + 7) != "[MUSIC]"@,
        forall|k: int|
            0 <= k && k + 13 <= t.len() ==> #[trigger] t.subrange(k, k + 13) != "[BLANK_AUDIO]"@,
    ensures
        cleaned(t) == trimmed(t),
{
    reveal_strlit("[MUSIC]");
    reveal_strlit("[BLANK_AUDIO]");
    assert("[MUSIC]"@.len() == 7);
    assert("[BLANK_AUDIO]"@.len() == 13);
    law_tags_are_taken_out_from_the_left(t, "[MUSIC]"@, t.len() as int);
    law_tags_are_taken_out_from_the_left(t, "[BLANK_AUDIO]"@, t.len() as int);
}

proof fn lemma_without_behind(a: Seq<char>, b: Seq<char>, tag: Seq<char>)
    requires
        tag.len() > 0,
        forall|k: int| 0 <= k < a.len() ==> #[trigger] a[k] != tag[0],
    ensures
        without(a + b, tag) == a + without(b, tag),
{
    let t = a + b;
    let n = a.len() as int;
    assert forall|k: int| 0 <= k < n && k + tag.len() <= t.len() implies #[trigger] t.subrange(
        k,
        k + tag.len(),
    ) != tag by {
        assert(t.subrange(k, k + tag.len())[0] == a[k]);
    }
    lemma_without_start(t, 0, n, tag);
    lemma_without_shift(t, n, tag);
    assert(t.subrange(0, n) =~= a);
    assert(t.skip(n) =~= b);
}

/// A tag for what is not speech leaves no trace: a transcription reads the same
/// with it and without it, wherever it stands behind text without brackets.
pub proof fn law_tags_leave_no_trace(a: Seq<char>, b: Seq<char>)
    requires
        forall|k: int| 0 <= k < a.len() ==> #[trigger] a[k] != '[',
    ensures
        cleaned(a + "[MUSIC]"@ + b) == cleaned(a + b),
        cleaned(a + "[BLANK_AUDIO]"@ + b) == cleaned(a + b),
{
    reveal_strlit("[MUSIC]");
    reveal_strlit("[BLANK_AUDIO]");
    let music = "[MUSIC]"@;
    let blank = "[BLANK_AUDIO]"@;
    assert(music[0] == '[' && blank[0] == '[' && music[1] == 'M' && blank[1] == 'B');
    assert(music.len() == 7 && blank.len() == 13);
    lemma_without_behind(a, b, music);
    lemma_without_behind(a, without(b, music), blank);
    // A tag of the first kind.
    let m = music + b;
    assert(a + music + b =~= a + m);
    lemma_without_behind(a, m, music);
    assert(m.subrange(0, 7) =~= music);
    law_tags_are_taken_out_from_the_left(m, music, 0);
    assert(m.take(0) + without(m.skip(7), music) =~= without(b, music)) by {
        assert(m.skip(7) =~= b);
    }
    // One of the second kind is left alone by the first pass.
    let v = blank + b;
    assert(a + blank + b =~= a + v);
    lemma_without_behind(a, v, music);
    assert forall|k: int| 0 <= k < 13 && k + 7 <= v.len() implies #[trigger] v.subrange(k, k + 7)
        != music by {
        assert(v.subrange(k, k + 7)[0] == blank[k]);
        if k == 0 {
            assert(v.subrange(k, k + 7)[1] == blank[1]);
        }
    }
    lemma_without_start(v, 0, 13, music);
    lemma_without_shift(v, 13, music);
    assert(v.subrange(0, 13) =~= blank);
    assert(v.skip(13) =~= b);
    let w = blank + without(b, music);
    lemma_without_behind(a, w, blank);
    assert(w.subrange(0, 13) =~= blank);
    law_tags_are_taken_out_from_the_left(w, blank, 0);
    assert(w.skip(13) =~= without(b, music));
    assert(w.take(0) + without(w.skip(13), blank) =~= without(without(b, music), blank));
}

/// The text of a transcription is that of its segments in order, each on a line
/// of its own. One that could not be read takes no line.
pub proof fn law_segments_are_lines(a: Seq<Option<String>>, b: Seq<Option<String>>, t: String)
    ensures
        lines_of(a + b) == lines_of(a) + lines_of(b),
        lines_of(seq![Some(t)]) == t@ + seq!['\n'],
        lines_of(seq![None::<String>]) == Seq::<char>::empty(),
        lines_of(Seq::<Option<String>>::empty()) == Seq::<char>::empty(),
    decreases b.len(),
{
    reveal_with_fuel(lines_of, 2);
    let some = seq![Some(t)];
    let none = seq![None::<String>];
    assert(some.drop_last() == Seq::<Option<String>>::empty());
    assert(none.drop_last() == Seq::<Option<String>>::empty());
    assert(some.last() == Some(t) && none.last() == None::<String>);
    assert(Seq::<char>::empty() + t@ + seq!['\n'] =~= t@ + seq!['\n']);
    if b.len() > 0 {
        law_segments_are_lines(a, b.drop_last(), t);
        assert((a + b).drop_last() =~= a + b.drop_last());
        assert((a + b).last() == b.last());
        assert(lines_of(a + b) =~= lines_of(a) + lines_of(b));
    } else {
        assert(a + b =~= a);
        assert(lines_of(a) + lines_of(b) =~= lines_of(a));
    }
}

/// Decoding takes as many threads as there are, but no fewer than 2 and no more
/// than 8.
pub proof fn law_threads_are_from_two_to_eight(n: i32)
    ensures
        2 <= thread_count(n) <= 8,
        2 <= n <= 8 ==> thread_count(n) == n,
        n < 2 ==> thread_count(n) == 2,
        n > 8 ==> thread_count(n) == 8,
{
}

/// Every error tells why it came.
pub proof fn law_errors_tell_why(why: String)
    ensures
        message_of(TranscriptionError::ContextInit(why))
            == "failed to initialize the whisper context: "@ + why@,
        message_of(TranscriptionError::VadInit(why)) == "failed to initialize the VAD context: "@
            + why@,
        message_of(TranscriptionError::VadRun(why)) == "VAD segment detection failed: "@ + why@,
        message_of(TranscriptionError::StateInit(why)) == "failed to create a decoding state: "@
            + why@,
        message_of(TranscriptionError::Run(why)) == "whisper_full failed: "@ + why@,
{
}

proof fn lemma_rest_of_segments<T>(
    samples: Seq<T>,
    first: (i64, i64),
    rest: Seq<(i64, i64)>,
    silence: T,
    n: int,
)
    requires
        0 <= n <= rest.len(),
        rest.len() > 0,
    ensures
        stitched_up_to(samples, seq![first] + rest, silence, n + 1) == segment_samples(
            samples,
            first,
            false,
            silence,
        ) + stitched_up_to(samples, rest, silence, n),
    decreases n,
{
    let all = seq![first] + rest;
    assert(all[0] == first);
    let head = segment_samples(samples, first, false, silence);
    if n > 0 {
        lemma_rest_of_segments(samples, first, rest, silence, n - 1);
        assert(all[n] == rest[n - 1]);
        assert(stitched_up_to(samples, all, silence, n + 1) =~= head + stitched_up_to(
            samples,
            rest,
            silence,
            n,
        ));
    } else {
        assert(stitched_up_to(samples, all, silence, 0) =~= Seq::<T>::empty());
        assert(stitched_up_to(samples, all, silence, 1) =~= head + stitched_up_to(
            samples,
            rest,
            silence,
            0,
        ));
    }
}

/// What is decoded of several segments is the first of them, with the 0.1 s
/// behind it and 0.1 s of silence, and then what is decoded of the others. A
/// first segment that holds no sample is passed over.
pub proof fn law_first_segment_and_then_the_others<T>(
    samples: Seq<T>,
    first: (i64, i64),
    rest: Seq<(i64, i64)>,
    silence: T,
)
    requires
        rest.len() > 0,
    ensures
        ({
            let len = samples.len() as int;
            let start = if first.0 * 160 < 0 {
                0
            } else if first.0 * 160 < len {
                first.0 * 160
            } else {
                len
            };
            let end = if first.1 <= 0 && 1600 < len {
                1600
            } else if first.1 > 0 && first.1 * 160 + 1600 < len {
                first.1 * 160 + 1600
            } else {
                len
            };
            let all = stitched(samples, seq![first] + rest, silence);
            &&& start < end ==> all == samples.subrange(start, end) + Seq::new(
                1600,
                |k: int| silence,
            ) + stitched(samples, rest, silence)
            &&& end <= start ==> all == stitched(samples, rest, silence)
        }),
{
    lemma_rest_of_segments(samples, first, rest, silence, rest.len() as int);
    let all = stitched(samples, seq![first] + rest, silence);
    let piece = segment_samples(samples, first, false, silence);
    let others = stitched(samples, rest, silence);
    assert((seq![first] + rest).len() == rest.len() + 1);
    assert(all == piece + others);
    assert(Seq::<T>::empty() + others =~= others);
    assert(quiet(silence, 1600) =~= Seq::new(1600, |k: int| silence));
}

/// What is decoded of a single segment is what lies between its ends, within
/// the samples there are, at 160 samples to a hundredth of a second.
pub proof fn law_single_segment_is_what_lies_between<T>(
    samples: Seq<T>,
    segment: (i64, i64),
    silence: T,
)
    ensures
        ({
            let speech = stitched(samples, seq![segment], silence);
            let len = samples.len() as int;
            let is_inside = 0 <= segment.0 && segment.0 < segment.1 && segment.1 * 160 <= len;
            &&& is_inside ==> speech == samples.subrange(segment.0 * 160, segment.1 * 160)
            &&& segment.1 <= segment.0 || segment.1 <= 0 || segment.0 * 160 >= len
                ==> speech.len() == 0
            &&& segment.0 <= 0 && segment.1 * 160 >= len && segment.1 > 0 ==> speech == samples
            &&& 0 <= segment.0 && segment.0 * 160 < len && segment.1 * 160 >= len && segment.0
                < segment.1 ==> speech == samples.skip(segment.0 * 160)
            &&& segment.0 <= 0 && 0 < segment.1 * 160 <= len ==> speech == samples.take(
                segment.1 * 160,
            )
        }),
{
    law_single_segment_is_not_padded(samples, segment, silence);
    let speech = stitched(samples, seq![segment], silence);
    let len = samples.len() as int;
    if segment.0 <= 0 && segment.1 * 160 >= len && segment.1 > 0 {
        assert(speech =~= samples);
    }
    if 0 <= segment.0 && segment.0 * 160 < len && segment.1 * 160 >= len && segment.0 < segment.1 {
        assert(speech =~= samples.skip(segment.0 * 160));
    }
    if segment.0 <= 0 && 0 < segment.1 * 160 <= len {
        assert(speech =~= samples.take(segment.1 * 160));
    }
}

} // verus!
