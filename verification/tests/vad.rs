use kotoma::msg::DraftState;
use kotoma::time::Timestamp;
use kotoma::transcribe::Segment;
use kotoma::vad::{Segmenter, VadRunner, DRAFT_EVERY, FRAME_MS, FRAME_SAMPLES};

fn at(ms: i64) -> Timestamp {
    let nanos = (ms % 1000) as u32 * 1_000_000;
    Timestamp::new(1_700_000_000 + ms / 1000, nanos, 3600).unwrap()
}

/// Runs the segmenter over `script.len()` frames of audio with the given per-frame
/// speech script and returns the flushed segments.
fn run_segmenter(runner: &VadRunner, script: Vec<bool>, paused: bool) -> Vec<Segment<f32>> {
    let mut segmenter: Segmenter<f32> = runner.segmenter();
    let mut out = Vec::new();
    segmenter.push_chunk(&vec![0.1f32; FRAME_SAMPLES * script.len()]);
    if paused {
        segmenter.pause();
    }
    let mut i = 0;
    while let Some(frame) = segmenter.next_frame() {
        let step = segmenter.step(&frame, script[i], at(i as i64 * FRAME_MS as i64));
        out.extend(step.segment);
        i += 1;
    }
    assert_eq!(i, if paused { 0 } else { script.len() });
    out
}

/// min_speech = 3 frames, silence flush = 2 frames, max segment = 10 frames.
fn test_runner() -> VadRunner {
    VadRunner::new(2, 3 * FRAME_MS, 2 * FRAME_MS, 10 * FRAME_MS)
}

#[test]
fn short_burst_below_min_speech_is_discarded() {
    let mut script = vec![true, true]; // 2 < 3 min_speech frames
    script.extend([false; 4]);
    let segs = run_segmenter(&test_runner(), script, false);
    assert!(segs.is_empty());
}

#[test]
fn speech_then_silence_flushes_one_segment() {
    let mut script = vec![true; 5];
    script.extend([false; 4]);
    let segs = run_segmenter(&test_runner(), script, false);
    assert_eq!(segs.len(), 1);
    assert_eq!(segs[0].speech_ms, 5 * FRAME_MS);
    // Segment includes the trailing silence frames buffered before flush.
    assert_eq!(segs[0].samples.len(), 7 * FRAME_SAMPLES);
}

#[test]
fn long_speech_is_force_flushed_at_max_segment() {
    // 12 frames of continuous speech with a 10-frame cap: force flush at
    // 10, and the 2-frame tail (below min_speech) never flushes.
    let segs = run_segmenter(&test_runner(), vec![true; 12], false);
    assert_eq!(segs.len(), 1);
    assert_eq!(segs[0].speech_ms, 10 * FRAME_MS);
    assert_eq!(segs[0].samples.len(), 10 * FRAME_SAMPLES);
}

#[test]
fn two_utterances_produce_two_segments() {
    let mut script = vec![true; 4];
    script.extend([false; 3]);
    script.extend([true; 4]);
    script.extend([false; 3]);
    let segs = run_segmenter(&test_runner(), script, false);
    assert_eq!(segs.len(), 2);
    assert!(segs[1].id > segs[0].id);
}

#[test]
fn paused_discards_everything() {
    let segs = run_segmenter(&test_runner(), vec![true; 12], true);
    assert!(segs.is_empty());
}

#[test]
fn pause_forgets_the_segment_in_progress() {
    let mut s: Segmenter<u8> = test_runner().segmenter();
    let frame = vec![1u8; FRAME_SAMPLES];
    for i in 0..5 {
        assert!(s.step(&frame, true, at(i * 30)).segment.is_none());
    }
    s.push_chunk(&vec![2u8; FRAME_SAMPLES]);
    assert_eq!(s.pause(), DraftState::default());
    assert!(s.next_frame().is_none());
    for i in 5..12 {
        assert!(s.step(&frame, false, at(i * 30)).segment.is_none());
    }
}

#[test]
fn short_pauses_do_not_stretch_a_segment() {
    // A cap of 3 frames, and a silence limit of 2.
    let runner = VadRunner::new(2, FRAME_MS, 2 * FRAME_MS, 3 * FRAME_MS);
    let segs = run_segmenter(&runner, vec![true, false, true, false, true, false, false], false);
    assert_eq!(segs.len(), 2);
    assert_eq!(segs[0].samples.len(), 3 * FRAME_SAMPLES);
    assert_eq!(segs[0].speech_ms, 2 * FRAME_MS);
    assert_eq!(segs[1].samples.len(), 3 * FRAME_SAMPLES);
    assert_eq!(segs[1].speech_ms, FRAME_MS);
}

#[test]
fn the_cut_into_chunks_does_not_matter() {
    let samples: Vec<usize> = (0..FRAME_SAMPLES * 14 + 7).collect();
    let script = [
        false, true, true, true, true, false, false, false, true, true, true, false, false, false,
    ];
    let mut runs = Vec::new();
    for chunk in [1, 7, 480, 500, 5000, 100_000] {
        let mut s: Segmenter<usize> = test_runner().segmenter();
        let mut segs = Vec::new();
        let mut i = 0;
        for part in samples.chunks(chunk) {
            s.push_chunk(&part.to_vec());
            while let Some(frame) = s.next_frame() {
                segs.extend(s.step(&frame, script[i], at(i as i64 * chunk as i64)).segment);
                i += 1;
            }
        }
        let seen: Vec<(u64, Vec<usize>, u32)> =
            segs.into_iter().map(|s| (s.id, s.samples, s.speech_ms)).collect();
        runs.push(seen);
    }
    assert_eq!(runs[0].len(), 2);
    assert!(runs.iter().all(|r| r == &runs[0]));
}

#[test]
fn silence_alone_gives_nothing() {
    let segs = run_segmenter(&test_runner(), vec![false; 50], false);
    assert!(segs.is_empty());
}

#[test]
fn segments_hold_the_audio_they_cover() {
    let mut s: Segmenter<usize> = test_runner().segmenter();
    let mut segs = Vec::new();
    for i in 0..12usize {
        let speech = (3..8).contains(&i);
        let step = s.step(&vec![i; FRAME_SAMPLES], speech, at(i as i64 * 30));
        segs.extend(step.segment);
    }
    assert_eq!(segs.len(), 1);
    assert_eq!(segs[0].samples[0], 3);
    assert_eq!(segs[0].samples[segs[0].samples.len() - 1], 9);
    assert_eq!(segs[0].started_at.millis_until(&at(90)), 0);
}

#[test]
fn frames_are_whole() {
    let mut s: Segmenter<u8> = test_runner().segmenter();
    s.push_chunk(&vec![1u8; FRAME_SAMPLES - 1]);
    assert!(s.next_frame().is_none());
    s.push_chunk(&vec![2u8; 2]);
    let f = s.next_frame().unwrap();
    assert_eq!(f.len(), FRAME_SAMPLES);
    assert_eq!(f[FRAME_SAMPLES - 1], 2);
    assert!(s.next_frame().is_none());
}

#[test]
fn drafts_come_while_a_segment_grows() {
    let runner = VadRunner::new(2, 3 * FRAME_MS, 5 * FRAME_MS, 100 * FRAME_MS);
    let mut s: Segmenter<u8> = runner.segmenter();
    let frame = vec![0u8; FRAME_SAMPLES];
    let mut drafts = Vec::new();
    for i in 0..(2 * DRAFT_EVERY as i64) {
        let step = s.step(&frame, true, at(i * 30));
        drafts.extend(step.progress);
        assert!(step.reset.is_none());
    }
    assert!(!drafts.is_empty());
    assert!(drafts.iter().all(|d| d.active));
    let last = drafts[drafts.len() - 1];
    assert_eq!(last.speech_ms % FRAME_MS, 0);
    assert!(last.speech_ms > 0);
    assert_eq!(last.elapsed_ms + FRAME_MS, last.speech_ms);
}

#[test]
fn the_end_of_a_segment_resets_the_draft() {
    let mut s: Segmenter<u8> = test_runner().segmenter();
    let frame = vec![0u8; FRAME_SAMPLES];
    for i in 0..4 {
        s.step(&frame, true, at(i * 30));
    }
    assert!(s.step(&frame, false, at(120)).reset.is_none());
    let end = s.step(&frame, false, at(150));
    assert_eq!(end.reset, Some(DraftState::default()));
    assert!(end.segment.is_some());
}

#[test]
fn detector_hears_no_speech_in_silence() {
    let runner = VadRunner::new(3, 3 * FRAME_MS, 2 * FRAME_MS, 10 * FRAME_MS);
    let mut session = runner.session::<f32>();
    let frame = vec![0.0f32; FRAME_SAMPLES];
    let pcm = vec![0i16; FRAME_SAMPLES];
    for i in 0..40 {
        let step = session.hear(&frame, &pcm, at(i * 30));
        assert!(step.segment.is_none());
        assert!(step.progress.is_none());
    }
}

#[test]
fn detector_refuses_frames_of_another_length() {
    let mut d = VadRunner::new(0, 90, 60, 300).detector();
    assert!(!d.is_speech(&vec![1000i16; 7]));
}

#[test]
fn detector_hears_loud_sound() {
    // A strong, rough tone counts as voice in the most permissive mode.
    let mut d = VadRunner::new(0, 90, 60, 300).detector();
    let mut heard = false;
    let mut seed: u32 = 1;
    for k in 0..40u32 {
        let mut frame = Vec::new();
        for i in 0..FRAME_SAMPLES as u32 {
            let n = k * FRAME_SAMPLES as u32 + i;
            seed = seed.wrapping_mul(1_664_525).wrapping_add(1_013_904_223);
            let saw = (n % 100) as i32 * 200 - 10_000;
            frame.push((saw + (seed >> 20) as i32) as i16);
        }
        heard = d.is_speech(&frame) || heard;
    }
    assert!(heard);
}

#[test]
fn all_whole_frames_are_taken() {
    let mut s: Segmenter<usize> = test_runner().segmenter();
    assert!(s.take_frames().is_empty());
    s.push_chunk(&(0..100).collect());
    assert!(s.take_frames().is_empty());
    s.push_chunk(&(100..3 * FRAME_SAMPLES + 5).collect());
    let frames = s.take_frames();
    assert_eq!(frames.len(), 3);
    for (i, frame) in frames.iter().enumerate() {
        let expected: Vec<usize> = (FRAME_SAMPLES * i..FRAME_SAMPLES * (i + 1)).collect();
        assert_eq!(frame, &expected);
    }
    assert!(s.take_frames().is_empty());
    s.push_chunk(&(3 * FRAME_SAMPLES + 5..4 * FRAME_SAMPLES).collect());
    let frames = s.take_frames();
    assert_eq!(frames.len(), 1);
    assert_eq!(frames[0][0], 3 * FRAME_SAMPLES);
}

#[test]
fn chunks_give_the_segments_of_their_frames() {
    let samples: Vec<usize> = (0..FRAME_SAMPLES * 12 + 3).collect();
    let script = [
        true, true, true, false, true, false, false, false, true, true, true, true,
    ];
    let mut one_by_one: Segmenter<usize> = test_runner().segmenter();
    let mut expected = Vec::new();
    for (i, frame) in samples.chunks_exact(FRAME_SAMPLES).enumerate() {
        let step = one_by_one.step(&frame.to_vec(), script[i], at(i as i64 * 30));
        expected.extend(step.segment.map(|s| (s.id, s.samples, s.speech_ms)));
    }
    let mut s: Segmenter<usize> = test_runner().segmenter();
    let mut segs = Vec::new();
    let mut i = 0;
    for part in samples.chunks(1000) {
        s.push_chunk(&part.to_vec());
        for frame in s.take_frames() {
            let step = s.step(&frame, script[i], at(i as i64 * 30));
            segs.extend(step.segment.map(|s| (s.id, s.samples, s.speech_ms)));
            i += 1;
        }
    }
    assert_eq!(i, 12);
    assert_eq!(expected.len(), 1);
    assert_eq!(segs, expected);
}

#[test]
fn speech_is_counted_or_dropped_with_its_burst() {
    // Four frames of speech with a short pause among them, then a burst of two frames
    // that a pause ends, then speech that goes on.
    let script = vec![
        true, true, false, true, true, false, false, true, true, false, false, true, true, true,
    ];
    let segs = run_segmenter(&test_runner(), script, false);
    assert_eq!(segs.len(), 1);
    assert_eq!(segs[0].speech_ms, 4 * FRAME_MS);
    assert_eq!(segs[0].samples.len(), 7 * FRAME_SAMPLES);
}
