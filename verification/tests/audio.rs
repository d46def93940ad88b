use italiansuperwhisper::audio::{
    centred, downmix_to_mono, frame_count, needs_resampling, resample_plan, sample_kind,
    trim_resampled, wav_format, CaptureError, ResampleError, ResampleStep, SampleKind, CHUNK,
    WHISPER_SAMPLE_RATE,
};
use rubato::{
    Resampler, SincFixedIn, SincInterpolationParameters, SincInterpolationType, WindowFunction,
};

fn mean(frame: &[f32]) -> f32 {
    frame.iter().sum::<f32>() / frame.len() as f32
}

#[test]
fn downmix_averages_stereo_frames() {
    let interleaved = [1.0, 0.0, 0.5, 0.5, -1.0, 1.0];
    assert_eq!(downmix_to_mono(&interleaved, 2, mean), vec![0.5, 0.5, 0.0]);
}

#[test]
fn downmix_passes_mono_through() {
    let mono = [0.1, 0.2, 0.3];
    assert_eq!(downmix_to_mono(&mono, 1, mean), mono.to_vec());
}

#[test]
fn downmix_drops_a_broken_frame_and_knows_no_channels() {
    assert_eq!(downmix_to_mono(&[1.0, 3.0, 5.0], 2, mean), vec![2.0]);
    assert_eq!(downmix_to_mono(&[1.0, 3.0], 0, mean), vec![1.0, 3.0]);
    assert_eq!(frame_count(7, 2), 3);
    assert_eq!(frame_count(7, 0), 7);
}

/// Resamples as the application does: by the plan, through the filter, and cut
/// to length.
fn resample(samples: &[f32], input_rate: u32) -> Vec<f32> {
    if !needs_resampling(samples.len(), input_rate) {
        return samples.to_vec();
    }
    let ratio = WHISPER_SAMPLE_RATE as f64 / input_rate as f64;
    let params = SincInterpolationParameters {
        sinc_len: 128,
        f_cutoff: 0.95,
        interpolation: SincInterpolationType::Linear,
        oversampling_factor: 128,
        window: WindowFunction::BlackmanHarris2,
    };
    let mut resampler = SincFixedIn::<f32>::new(ratio, 1.0, params, CHUNK, 1).unwrap();
    let delay = resampler.output_delay();
    let expected = (samples.len() as f64 * ratio).round() as usize;
    let mut out = Vec::new();
    for step in resample_plan(samples.len()) {
        let processed = match step {
            ResampleStep::Full { from, to } => {
                resampler.process(&[&samples[from..to]], None).unwrap()
            }
            ResampleStep::Partial { from, to } => {
                resampler.process_partial(Some(&[&samples[from..to]]), None).unwrap()
            }
            ResampleStep::Flush => resampler.process_partial::<&[f32]>(None, None).unwrap(),
        };
        out.extend_from_slice(&processed[0]);
    }
    trim_resampled(&out, delay, expected)
}

#[test]
fn resample_48k_produces_expected_length_and_preserves_tone() {
    // 1s of a 440Hz sine at 48kHz should come out as ~1s at 16kHz with the
    // tone intact (rough energy check, not a spectral assertion).
    let input: Vec<f32> = (0..48_000)
        .map(|i| (2.0 * std::f32::consts::PI * 440.0 * i as f32 / 48_000.0).sin())
        .collect();
    let out = resample(&input, 48_000);
    assert_eq!(out.len(), 16_000);
    let rms = (out.iter().map(|s| s * s).sum::<f32>() / out.len() as f32).sqrt();
    assert!(rms > 0.5, "sine energy lost in resampling (rms={rms})");
}

#[test]
fn resample_non_integer_ratio_44100() {
    let input = vec![0.25f32; 44_100];
    let out = resample(&input, 44_100);
    assert_eq!(out.len(), 16_000);
}

#[test]
fn resample_short_buffer_smaller_than_one_chunk() {
    let input = vec![0.5f32; 300];
    let out = resample(&input, 48_000);
    assert!(!out.is_empty());
}

#[test]
fn resample_at_target_rate_is_identity() {
    let input = vec![0.1f32, 0.2, 0.3];
    assert_eq!(resample(&input, 16_000), input);
    assert!(resample(&[], 48_000).is_empty());
}

#[test]
fn the_plan_takes_every_sample_once() {
    assert_eq!(resample_plan(0), [ResampleStep::Flush]);
    assert_eq!(
        resample_plan(2 * CHUNK),
        [
            ResampleStep::Full { from: 0, to: 1024 },
            ResampleStep::Full { from: 1024, to: 2048 },
            ResampleStep::Flush,
        ]
    );
    assert_eq!(
        resample_plan(CHUNK + 1),
        [
            ResampleStep::Full { from: 0, to: 1024 },
            ResampleStep::Partial { from: 1024, to: 1025 },
            ResampleStep::Flush,
        ]
    );
}

#[test]
fn resampled_audio_is_cut_at_both_ends() {
    let out = vec![1, 2, 3, 4, 5];
    assert_eq!(trim_resampled(&out, 1, 3), [2, 3, 4]);
    assert_eq!(trim_resampled(&out, 4, 3), [5]);
    assert!(trim_resampled(&out, 9, 3).is_empty());
}

#[test]
fn sample_formats_are_told_apart() {
    assert_eq!(sample_kind("f32").unwrap(), SampleKind::F32);
    assert_eq!(sample_kind("i16").unwrap(), SampleKind::I16);
    assert_eq!(sample_kind("u16").unwrap(), SampleKind::U16);
    assert_eq!(
        sample_kind("f64").unwrap_err().message(),
        "unsupported input sample format: f64"
    );
    assert_eq!(centred(0), -32_768);
    assert_eq!(centred(65_535), 32_767);
    let wav = wav_format();
    assert_eq!((wav.channels, wav.sample_rate, wav.bits_per_sample), (1, 16_000, 16));
}

#[test]
fn capture_errors_are_said_in_words() {
    assert_eq!(
        CaptureError::NoInputDevice.message(),
        "no default input device (is a microphone connected and permitted?)"
    );
    assert_eq!(
        CaptureError::Config("x".to_string()).message(),
        "failed to query the input configuration: x"
    );
    assert_eq!(
        CaptureError::StreamBuild("x".to_string()).message(),
        "failed to open the input stream: x"
    );
    assert_eq!(
        CaptureError::StreamPlay("x".to_string()).message(),
        "failed to start the input stream: x"
    );
    assert_eq!(
        CaptureError::ThreadDied.message(),
        "the capture thread terminated unexpectedly"
    );
    assert_eq!(
        CaptureError::Resample(ResampleError::Construction("x".to_string())).message(),
        "failed to construct the resampler: x"
    );
    assert_eq!(
        ResampleError::Process("x".to_string()).message(),
        "resampling failed: x"
    );
}
