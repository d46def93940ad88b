use italiansuperwhisper::speech::{
    available_threads, clean_text, detect_speech, speech_gate, speech_only_samples, transcript,
    TranscriptionError,
};

#[test]
fn clean_text_strips_tags_and_trims() {
    assert_eq!(clean_text(" [MUSIC] ciao [BLANK_AUDIO]\n"), "ciao");
    assert_eq!(clean_text("[BLANK_AUDIO]"), "");
}

#[test]
fn tags_are_stripped_once_from_left_to_right() {
    assert_eq!(clean_text("[MU[MUSIC]SIC]"), "[MUSIC]");
    assert_eq!(clean_text("[BLANK[MUSIC]_AUDIO]a"), "a");
    assert_eq!(clean_text("[music] [MUSIC"), "[music] [MUSIC");
}

#[test]
fn speech_only_keeps_single_segment_without_padding() {
    let samples: Vec<f32> = (0..16000).map(|i| i as f32).collect();
    // 0.2s-0.5s => samples 3200..8000; single (= last) segment gets no
    // trailing overlap and no gap.
    let out = speech_only_samples(&samples, &vec![(20, 50)], 0.0);
    assert_eq!(out, samples[3200..8000]);
}

#[test]
fn speech_only_adds_overlap_and_gap_between_segments() {
    let samples: Vec<f32> = vec![1.0; 32000]; // 2s of "speech"
    let out = speech_only_samples(&samples, &vec![(0, 50), (100, 150)], 0.0);
    // First segment: 0..8000 plus 1600 overlap; then a 1600 gap of silence;
    // second (last) segment: 16000..24000 with no padding.
    assert_eq!(out.len(), 8000 + 1600 + 1600 + 8000);
    assert!(out[9600..11200].iter().all(|&s| s == 0.0));
}

#[test]
fn speech_only_clamps_out_of_range_segments() {
    let samples = vec![1.0f32; 1600]; // 0.1s
    // End far past the buffer, start negative: both clamp; inverted segment
    // contributes nothing.
    assert_eq!(speech_only_samples(&samples, &vec![(-10, 500)], 0.0).len(), 1600);
    assert!(speech_only_samples(&samples, &vec![(50, 20)], 0.0).is_empty());
    assert_eq!(speech_only_samples(&samples, &vec![(0, i64::MAX)], 0.0).len(), 1600);
}

#[test]
fn a_skipped_segment_leaves_no_gap() {
    let samples = vec![1.0f32; 3200];
    // The first segment starts behind the samples there are.
    let out = speech_only_samples(&samples, &vec![(30, 20), (0, 10)], 0.0);
    assert_eq!(out, vec![1.0f32; 1600]);
}

#[test]
fn silence_is_not_decoded() {
    let samples = vec![1.0f32; 3200];
    assert!(speech_gate(&samples, &vec![], 0.0).is_none());
    assert!(speech_gate(&samples, &vec![(None, Some(3)), (Some(1), None)], 0.0).is_none());
    assert_eq!(
        detect_speech(&vec![(Some(1), Some(2)), (None, Some(3)), (Some(4), Some(5))]),
        [(1, 2), (4, 5)]
    );
    assert_eq!(
        speech_gate(&samples, &vec![(Some(0), Some(10))], 0.0).unwrap().len(),
        1600
    );
}

#[test]
fn segments_are_put_on_lines_of_their_own() {
    let segments = vec![Some(" Ciao".to_string()), None, Some(" mondo[MUSIC] ".to_string())];
    assert_eq!(transcript(&segments), "Ciao\n mondo");
    assert_eq!(transcript(&vec![]), "");
}

#[test]
fn threads_are_kept_in_range() {
    assert_eq!(available_threads(Some(1)), 2);
    assert_eq!(available_threads(Some(6)), 6);
    assert_eq!(available_threads(Some(64)), 8);
    assert_eq!(available_threads(None), 4);
}

#[test]
fn transcription_errors_are_said_in_words() {
    let why = || "x".to_string();
    assert_eq!(
        TranscriptionError::ContextInit(why()).message(),
        "failed to initialize the whisper context: x"
    );
    assert_eq!(
        TranscriptionError::VadInit(why()).message(),
        "failed to initialize the VAD context: x"
    );
    assert_eq!(TranscriptionError::VadRun(why()).message(), "VAD segment detection failed: x");
    assert_eq!(
        TranscriptionError::StateInit(why()).message(),
        "failed to create a decoding state: x"
    );
    assert_eq!(TranscriptionError::Run(why()).message(), "whisper_full failed: x");
}
