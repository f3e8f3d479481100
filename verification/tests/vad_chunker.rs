use transcribe::vad::{VadChunker, MAX_CHUNK_SAMPLES, MIN_SILENCE_SAMPLES, WINDOW_SIZE};

fn loud(window: &[i32]) -> bool {
    window.iter().any(|&s| s != 0)
}

#[test]
fn timing_constants() {
    assert_eq!(WINDOW_SIZE, 1600);
    assert_eq!(MIN_SILENCE_SAMPLES, 32_000);
    assert_eq!(MAX_CHUNK_SAMPLES, 960_000);
}

#[test]
fn new_chunker_is_empty() {
    let mut c: VadChunker<i32> = VadChunker::new();
    assert_eq!(c.buffered_len(), 0);
    assert_eq!(c.silence_samples(), 0);
    assert_eq!(c.flush(), None);
}

#[test]
fn silence_alone_never_cuts() {
    let mut c: VadChunker<i32> = VadChunker::new();
    let out = c.feed(vec![0; 40_000], loud);
    assert_eq!(out, None);
    assert_eq!(c.buffered_len(), 40_000);
    assert_eq!(c.silence_samples(), 25 * 1600);
}

#[test]
fn silence_after_speech_closes_chunk() {
    let mut c: VadChunker<i32> = VadChunker::new();
    assert_eq!(c.feed(vec![1; 16_000], loud), None);
    assert_eq!(c.silence_samples(), 0);
    let out = c.feed(vec![0; 32_000], loud);
    assert_eq!(out, Some(vec![1; 16_000]));
    assert_eq!(c.buffered_len(), 0);
    assert_eq!(c.silence_samples(), 0);
    assert_eq!(c.flush(), None);
}

#[test]
fn short_silence_keeps_buffering() {
    let mut c: VadChunker<i32> = VadChunker::new();
    assert_eq!(c.feed(vec![1; 16_000], loud), None);
    assert_eq!(c.feed(vec![0; 16_000], loud), None);
    assert_eq!(c.silence_samples(), 16_000);
    let mut expected = vec![1; 16_000];
    expected.extend(vec![0; 16_000]);
    assert_eq!(c.flush(), Some(expected));
    assert_eq!(c.flush(), None);
}

#[test]
fn long_speech_is_cut_at_max_chunk() {
    let mut c: VadChunker<i32> = VadChunker::new();
    let samples: Vec<i32> = (0..960_001).map(|i| if i % 2 == 0 { 1 } else { 2 }).collect();
    let out = c.feed(samples.clone(), loud).expect("a full buffer gives a chunk");
    assert_eq!(out.len(), MAX_CHUNK_SAMPLES);
    assert_eq!(&out[..], &samples[..960_000]);
    assert_eq!(c.buffered_len(), 1);
    assert_eq!(c.silence_samples(), 0);
    assert_eq!(c.flush(), Some(vec![samples[960_000]]));
}

#[test]
fn last_window_before_new_samples_is_judged_again() {
    let mut c: VadChunker<i32> = VadChunker::new();
    assert_eq!(c.feed(vec![0; 2_000], loud), None);
    assert_eq!(c.silence_samples(), 1_600);
    // An empty feed looks again at the window [400, 2000).
    assert_eq!(c.feed(Vec::new(), loud), None);
    assert_eq!(c.silence_samples(), 3_200);
    assert_eq!(c.buffered_len(), 2_000);
}

#[test]
fn samples_are_kept_in_order_until_flush() {
    let mut c: VadChunker<i32> = VadChunker::new();
    let a: Vec<i32> = (1..=1000).collect();
    let b: Vec<i32> = (1001..=2500).collect();
    assert_eq!(c.feed(a.clone(), loud), None);
    assert_eq!(c.feed(b.clone(), loud), None);
    let mut all = a;
    all.extend(b);
    assert_eq!(c.flush(), Some(all));
}

#[test]
fn speech_resets_silence_counter() {
    let mut c: VadChunker<i32> = VadChunker::new();
    assert_eq!(c.feed(vec![0; 8_000], loud), None);
    assert_eq!(c.silence_samples(), 8_000);
    let mut speech = vec![0; 1_600];
    speech.extend(vec![5; 1_600]);
    assert_eq!(c.feed(speech, loud), None);
    assert_eq!(c.silence_samples(), 0);
}

#[test]
fn float_energy_test_drives_chunks() {
    fn rms(s: &[f32]) -> f32 {
        if s.is_empty() {
            return 0.0;
        }
        (s.iter().map(|x| x * x).sum::<f32>() / s.len() as f32).sqrt()
    }
    let mut c: VadChunker<f32> = VadChunker::new();
    assert_eq!(c.feed(vec![0.5; 3_200], |w: &[f32]| rms(w) > 0.01), None);
    let out = c.feed(vec![0.001; 32_000], |w: &[f32]| rms(w) > 0.01);
    assert_eq!(out, Some(vec![0.5; 3_200]));
}

#[test]
fn flushed_chunker_behaves_like_new() {
    let mut used: VadChunker<i32> = VadChunker::new();
    assert_eq!(used.feed(vec![0; 5_000], loud), None);
    assert_eq!(used.flush(), Some(vec![0; 5_000]));
    assert_eq!(used.buffered_len(), 0);
    assert_eq!(used.silence_samples(), 0);
    let mut fresh: VadChunker<i32> = VadChunker::new();
    let mut input = vec![1; 16_000];
    input.extend(vec![0; 40_000]);
    assert_eq!(used.feed(input.clone(), loud), fresh.feed(input, loud));
    assert_eq!(used.silence_samples(), fresh.silence_samples());
    assert_eq!(used.buffered_len(), fresh.buffered_len());
}

#[test]
fn quiet_input_is_only_cut_at_sixty_seconds() {
    let mut c: VadChunker<i32> = VadChunker::new();
    let mut chunks = Vec::new();
    for _ in 0..40 {
        if let Some(ch) = c.feed(vec![0; 32_000], loud) {
            chunks.push(ch);
        }
    }
    assert_eq!(chunks.len(), 1);
    assert_eq!(chunks[0].len(), MAX_CHUNK_SAMPLES);
    assert_eq!(c.buffered_len(), 40 * 32_000 - MAX_CHUNK_SAMPLES);
}

#[test]
fn continuous_speech_keeps_every_sample() {
    let mut c: VadChunker<i32> = VadChunker::new();
    let mut fed = Vec::new();
    let mut out = Vec::new();
    for i in 0..70 {
        let batch: Vec<i32> = (0..32_000).map(|k| 1 + (i * 32_000 + k) % 7).collect();
        fed.extend(batch.iter().copied());
        if let Some(ch) = c.feed(batch, loud) {
            assert_eq!(ch.len(), MAX_CHUNK_SAMPLES);
            out.extend(ch);
        }
        assert!(c.buffered_len() < MAX_CHUNK_SAMPLES);
    }
    if let Some(rest) = c.flush() {
        out.extend(rest);
    }
    assert_eq!(out, fed);
}
