use waywallen::pcm_window::{
    PcmWindowAssembler, AUDIO_CHANNELS, AUDIO_SAMPLE_COUNT, AUDIO_SAMPLE_RATE_HZ,
    AUDIO_WINDOW_FRAMES,
};

fn input(frames: usize) -> Vec<f32> {
    (0..frames)
        .flat_map(|frame| [frame as f32, -(frame as f32)])
        .collect()
}

/// Non-finite samples become silence before they reach the assembler.
fn finite(samples: &[f32]) -> Vec<f32> {
    samples
        .iter()
        .map(|sample| if sample.is_finite() { *sample } else { 0.0 })
        .collect()
}

#[test]
fn publishes_only_complete_fresh_windows() {
    let mut assembler = PcmWindowAssembler::<f32>::default();
    assembler.ingest_interleaved(3, &finite(&input(AUDIO_WINDOW_FRAMES - 1)));
    assert!(assembler.snapshot(10).is_none());
    assembler.ingest_interleaved(3, &finite(&[f32::NAN, f32::INFINITY]));
    let window = assembler.snapshot(11).unwrap();
    assert_eq!(window.sequence, 1);
    assert_eq!(window.end_sample_frame, AUDIO_WINDOW_FRAMES as u64);
    assert_eq!(window.samples[AUDIO_SAMPLE_COUNT - 2], 0.0);
    assert_eq!(window.samples[AUDIO_SAMPLE_COUNT - 1], 0.0);
    assert!(assembler.snapshot(12).is_none());
}

#[test]
fn chunking_does_not_change_the_window() {
    let samples = input(AUDIO_WINDOW_FRAMES + 17);
    let mut whole = PcmWindowAssembler::<f32>::default();
    whole.ingest_interleaved(1, &samples);
    let whole = whole.snapshot(1).unwrap();

    let mut chunked = PcmWindowAssembler::<f32>::default();
    for chunk in samples.chunks(74) {
        chunked.ingest_interleaved(1, chunk);
    }
    let chunked = chunked.snapshot(1).unwrap();
    assert_eq!(whole.samples, chunked.samples);
    assert_eq!(whole.end_sample_frame, chunked.end_sample_frame);
}

#[test]
fn generation_change_cannot_mix_samples() {
    let mut assembler = PcmWindowAssembler::<f32>::default();
    assembler.ingest_interleaved(1, &input(AUDIO_WINDOW_FRAMES - 1));
    assembler.ingest_interleaved(2, &vec![1.0; AUDIO_SAMPLE_COUNT]);
    let window = assembler.snapshot(1).unwrap();
    assert_eq!(window.generation, 2);
    assert_eq!(window.sequence, 1);
    assert!(window.samples.iter().all(|sample| *sample == 1.0));
}

#[test]
fn window_holds_the_latest_frames_oldest_first() {
    let mut assembler = PcmWindowAssembler::new(0u32);
    let samples: Vec<u32> = (0..(2 * AUDIO_WINDOW_FRAMES as u32 + 6)).collect();
    assembler.ingest_interleaved(5, &samples);
    let window = assembler.snapshot(99).unwrap();
    assert_eq!(window.samples.len(), AUDIO_SAMPLE_COUNT);
    assert_eq!(window.samples[0], 6);
    assert_eq!(window.samples[1], 7);
    assert_eq!(*window.samples.last().unwrap(), 2 * AUDIO_WINDOW_FRAMES as u32 + 5);
    assert_eq!(window.captured_at_ns, 99);
    assert_eq!(window.end_sample_frame, AUDIO_WINDOW_FRAMES as u64 + 3);
    assert_eq!(window.sample_rate_hz, AUDIO_SAMPLE_RATE_HZ);
    assert_eq!(window.channels, AUDIO_CHANNELS);
    assert_eq!(window.frames, AUDIO_WINDOW_FRAMES as u32);
}

#[test]
fn trailing_odd_sample_is_not_a_frame() {
    let mut assembler = PcmWindowAssembler::new(0u32);
    let mut samples: Vec<u32> = vec![7; AUDIO_SAMPLE_COUNT];
    samples.push(1);
    assembler.ingest_interleaved(1, &samples);
    let window = assembler.snapshot(0).unwrap();
    assert_eq!(window.end_sample_frame, AUDIO_WINDOW_FRAMES as u64);
    assert!(window.samples.iter().all(|s| *s == 7));
}

#[test]
fn discard_waits_for_a_full_window_of_new_frames() {
    let mut assembler = PcmWindowAssembler::new(0u32);
    assembler.ingest_interleaved(1, &vec![3; AUDIO_SAMPLE_COUNT]);
    assembler.discard();
    assert!(assembler.snapshot(1).is_none());
    assembler.ingest_interleaved(1, &vec![4; AUDIO_SAMPLE_COUNT - 2]);
    assert!(assembler.snapshot(2).is_none());
    assembler.ingest_interleaved(1, &[4, 4]);
    let window = assembler.snapshot(3).unwrap();
    assert_eq!(window.sequence, 1);
    assert_eq!(window.end_sample_frame, 2 * AUDIO_WINDOW_FRAMES as u64);
    assert!(window.samples.iter().all(|s| *s == 4));
}
