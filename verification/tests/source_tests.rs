use allomere::controller::CustomSourceController;
use allomere::source::{CustomSource, PcmData, SeekError};
use allomere::timing::{
    duration_of_frames, frames_round, frames_trunc, samples_trunc, time_add, TimePos,
};

fn ramp_pcm(frames: u32, channels: u16, sample_rate: u32) -> PcmData {
    let n = frames as usize * channels as usize;
    let mut samples: Vec<i16> = Vec::new();
    for i in 0..n {
        samples.push(i as i16);
    }
    PcmData::new(samples, channels, sample_rate)
}

#[test]
fn frames_round_exact_value() {
    // 2.5 s at 4 Hz rounds to 10 frames.
    let t = TimePos::new(2, 500_000_000);
    assert_eq!(frames_round(&t, 4), 10);
    // 2.4999… s at 4 Hz rounds down to 10 as well (9.9999996 rounds to 10).
    let t2 = TimePos::new(2, 499_999_999);
    assert_eq!(frames_round(&t2, 4), 10);
    // Half-up: 0.125 s at 4 Hz is exactly 0.5 frames, rounded to 1.
    let t3 = TimePos::new(0, 125_000_000);
    assert_eq!(frames_round(&t3, 4), 1);
}

#[test]
fn frames_trunc_exact_value() {
    let t = TimePos::new(2, 999_999_999);
    assert_eq!(frames_trunc(&t, 4), 11);
    assert_eq!(samples_trunc(&t, 4, 2), 23);
}

#[test]
fn duration_roundtrip_is_exact() {
    // A 44100 Hz stream of 123457 frames reports a truncated duration whose
    // rounded frame conversion recovers the frame count exactly.
    let d = duration_of_frames(123_457, 44_100);
    assert_eq!(frames_round(&d, 44_100), 123_457);
}

#[test]
fn time_add_carries_and_overflows() {
    let a = TimePos::new(1, 600_000_000);
    let b = TimePos::new(2, 700_000_000);
    let c = time_add(&a, &b).unwrap();
    assert_eq!(c.secs, 4);
    assert_eq!(c.nanos, 300_000_000);
    let big = TimePos::new(0x2_0000_0000, 0);
    assert!(time_add(&big, &b).is_none());
}

#[test]
fn controller_set_and_clear() {
    let mut c = CustomSourceController::new();
    assert_eq!(c.loop_start, None);
    c.set_loop(10, 20);
    assert_eq!(c.loop_start, Some(true));
    assert_eq!(c.loop_start_frame, Some(10));
    assert_eq!(c.loop_end_frame, Some(20));
    c.clear_loop();
    assert_eq!(c.loop_start, Some(false));
    // The window frames are kept as metadata.
    assert_eq!(c.loop_start_frame, Some(10));
    c.set_loop_with_count(5, 9, 3);
    assert_eq!(c.loop_start, Some(true));
    assert_eq!(c.loop_count, Some(3));
}

#[test]
fn total_frames_is_rounded_duration() {
    // 10 frames of stereo at 4 Hz: duration 2.5 s, round(2.5 * 4) == 10.
    let pcm = ramp_pcm(10, 2, 4);
    let src = CustomSource::new(pcm);
    let d = src.total_duration();
    assert_eq!(d.secs, 2);
    assert_eq!(d.nanos, 500_000_000);
    assert_eq!(frames_round(&d, 4), 10);
}

#[test]
fn loop_round_trip_mono() {
    // A mono source producing its sample index as value, loop [10, 20):
    // after the sample that completes frame 19 the next value is frame 10,
    // indefinitely.
    let pcm = ramp_pcm(40, 1, 8);
    let mut src = CustomSource::new(pcm);
    src.controller.set_loop(10, 20);
    let mut got: Vec<i16> = Vec::new();
    for _ in 0..40 {
        got.push(src.next().unwrap());
    }
    let mut expect: Vec<i16> = Vec::new();
    for v in 0..20 {
        expect.push(v);
    }
    for _ in 0..2 {
        for v in 10..20 {
            expect.push(v);
        }
    }
    assert_eq!(got, expect);
}

#[test]
fn disabling_loop_stops_back_jump() {
    let pcm = ramp_pcm(40, 1, 8);
    let mut src = CustomSource::new(pcm);
    src.controller.set_loop(10, 20);
    for _ in 0..25 {
        src.next().unwrap();
    }
    // Mid-window: disabling acts on the next boundary, not retroactively.
    src.controller.clear_loop();
    let mut got: Vec<i16> = Vec::new();
    for _ in 0..10 {
        got.push(src.next().unwrap());
    }
    // 25 samples played: 0..19 then 10..14; playback continues 15, 16, …
    assert_eq!(got, vec![15, 16, 17, 18, 19, 20, 21, 22, 23, 24]);
}

#[test]
fn loop_applies_per_channel_frames() {
    // Stereo, loop [2, 4): the counter completes frame 3 after 8 samples,
    // then the next delivered sample is the first channel slot of frame 2.
    let pcm = ramp_pcm(10, 2, 8);
    let mut src = CustomSource::new(pcm);
    src.controller.set_loop(2, 4);
    let mut got: Vec<i16> = Vec::new();
    for _ in 0..12 {
        got.push(src.next().unwrap());
    }
    assert_eq!(got, vec![0, 1, 2, 3, 4, 5, 6, 7, 4, 5, 6, 7]);
}

#[test]
fn seek_is_idempotent() {
    let t = TimePos::new(1, 250_000_000);
    let pcm_a = ramp_pcm(40, 1, 8);
    let mut one = CustomSource::new(pcm_a);
    one.try_seek(&t).unwrap();
    let pcm_b = ramp_pcm(40, 1, 8);
    let mut twice = CustomSource::new(pcm_b);
    twice.try_seek(&t).unwrap();
    twice.try_seek(&t).unwrap();
    for _ in 0..30 {
        assert_eq!(one.next(), twice.next());
    }
}

#[test]
fn seek_positions_exactly() {
    // 1.25 s at 8 Hz mono: frame 10, counter 10, next value 10.
    let pcm = ramp_pcm(40, 1, 8);
    let mut src = CustomSource::new(pcm);
    src.try_seek(&TimePos::new(1, 250_000_000)).unwrap();
    assert_eq!(src.next(), Some(10));
}

#[test]
fn seek_past_end_fails_and_leaves_position() {
    let pcm = ramp_pcm(8, 1, 4);
    let mut src = CustomSource::new(pcm);
    assert_eq!(src.next(), Some(0));
    let r = src.try_seek(&TimePos::new(100, 0));
    assert_eq!(r, Err(SeekError::PastEnd));
    // Position unchanged: playback continues where it was.
    assert_eq!(src.next(), Some(1));
}

#[test]
fn exhausted_source_returns_none_without_loop() {
    let pcm = ramp_pcm(3, 1, 4);
    let mut src = CustomSource::new(pcm);
    assert_eq!(src.next(), Some(0));
    assert_eq!(src.next(), Some(1));
    assert_eq!(src.next(), Some(2));
    assert_eq!(src.next(), None);
    assert_eq!(src.next(), None);
}
