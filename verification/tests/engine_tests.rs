use allomere::app_state::{
    add_track, clear_clip_loop, get_audio_data, get_clip, open_file, set_clip_loop,
    set_clip_loop_frames, set_default_state, try_seek, GLOBAL_APP_STATE_MACRO,
};
use allomere::audio_data::{AssetCache, IdAllocator, Sound};
use allomere::beat_index::BEAT_INDEX_DIMS;
use allomere::clip::Clip;
use allomere::engine::{
    mix_next_sample, on_audio_callback, set_default_state as engine_default_state,
    toggle_playback,
};
use allomere::source::PcmData;
use allomere::timing::TimePos;
use allomere::track::Track;

fn counting_pcm(frames: u32, channels: u16, sample_rate: u32) -> PcmData {
    let n = frames as usize * channels as usize;
    let mut samples: Vec<i16> = Vec::new();
    for i in 0..n {
        samples.push(1 + i as i16);
    }
    PcmData::new(samples, channels, sample_rate)
}

fn make_clip(path: &str, cache: &mut AssetCache, ids: &mut IdAllocator, frames: u32) -> Clip {
    let sound = Sound::new(counting_pcm(frames, 1, 8));
    let (clip, _) = Clip::new(String::from(path), String::from(path), sound, cache, ids);
    clip
}

fn spaced_feature(first: i64) -> Vec<i64> {
    let mut v = vec![0i64; BEAT_INDEX_DIMS];
    v[0] = first;
    v
}

#[test]
fn scheduling_uses_engine_clock_for_empty_track() {
    // Track with zero clips, engine has played 500 frames: the new clip's
    // advisory start is max(0, 500) = 500.
    let mut cache = AssetCache::new();
    let mut ids = IdAllocator::new();
    let mut track = Track::new(String::from("Track 1"));
    let clip = make_clip("one.wav", &mut cache, &mut ids, 16);
    track.add_clip(clip, 500);
    assert_eq!(track.clips[0].start_at, Some(500));
}

#[test]
fn scheduling_prefers_track_frames_when_larger() {
    let mut cache = AssetCache::new();
    let mut ids = IdAllocator::new();
    let mut track = Track::new(String::from("Track 1"));
    let first = make_clip("a.wav", &mut cache, &mut ids, 1000);
    track.add_clip(first, 0);
    // The first clip now carries an explicit start, so the second keeps
    // its own (absent) one.
    let second = make_clip("b.wav", &mut cache, &mut ids, 16);
    track.add_clip(second, 500);
    assert_eq!(track.clips[0].start_at, Some(0));
    assert_eq!(track.clips[1].start_at, None);
    // On a track whose queued clips carry no explicit start, the track's
    // total frames win when they exceed the engine clock.
    let mut t2 = Track::new(String::from("Track 2"));
    let c1 = make_clip("c.wav", &mut cache, &mut ids, 1000);
    t2.clips.push(c1);
    let c2 = make_clip("d.wav", &mut cache, &mut ids, 16);
    t2.add_clip(c2, 500);
    assert_eq!(t2.clips[0].start_at, None);
    assert_eq!(t2.clips[1].start_at, Some(1000));
}

#[test]
fn track_total_frames_sums_clips() {
    let mut cache = AssetCache::new();
    let mut ids = IdAllocator::new();
    let mut track = Track::new(String::from("T"));
    assert_eq!(track.total_frames(), Some(0));
    track.add_clip(make_clip("e.wav", &mut cache, &mut ids, 12), 0);
    track.add_clip(make_clip("f.wav", &mut cache, &mut ids, 30), 0);
    assert_eq!(track.total_frames(), Some(42));
}

#[test]
fn auto_loop_seeding_spans_beat_zero_to_second_ranked() {
    // Beats [0, 100, 250, 400]; features make beat 0's nearest non-self
    // neighbour beat 2, so the seeded loop is [0, 250).
    let mut cache = AssetCache::new();
    let mut ids = IdAllocator::new();
    let mut track = Track::new(String::from("T"));
    let clip = make_clip("seed.wav", &mut cache, &mut ids, 500);
    track.add_clip(clip, 0);
    let i = cache.find(&String::from("seed.wav")).unwrap();
    let feats = vec![
        spaced_feature(0),
        spaced_feature(100),
        spaced_feature(1),
        spaced_feature(50),
    ];
    cache.complete_analysis(i, vec![0, 100, 250, 400], feats).unwrap();
    let seeded = track.populate_beat_index(0, &cache).unwrap();
    assert!(seeded);
    let ctl = &track.clips[0].audio.source.controller;
    assert_eq!(ctl.loop_start, Some(true));
    assert_eq!(ctl.loop_start_frame, Some(0));
    assert_eq!(ctl.loop_end_frame, Some(250));
    assert_eq!(track.beat_index.len(), 4);
}

#[test]
fn mixer_empty_queue_contributes_silence() {
    let mut cache = AssetCache::new();
    let mut ids = IdAllocator::new();
    let silent = Track::new(String::from("silent"));
    let mut playing = Track::new(String::from("playing"));
    playing.add_clip(make_clip("g.wav", &mut cache, &mut ids, 8), 0);
    let mut both: Vec<Track> = vec![silent, playing];
    // The empty-queue track adds 0 to every mixed sample.
    assert_eq!(mix_next_sample(&mut both), 1);
    assert_eq!(mix_next_sample(&mut both), 2);
    // A lone playing track produces the same output without it.
    let mut alone_track = Track::new(String::from("alone"));
    alone_track.add_clip(make_clip("g2.wav", &mut cache, &mut ids, 8), 0);
    let mut alone: Vec<Track> = vec![alone_track];
    assert_eq!(mix_next_sample(&mut alone), 1);
    assert_eq!(mix_next_sample(&mut alone), 2);
}

#[test]
fn mixer_sums_concurrent_tracks() {
    let mut cache = AssetCache::new();
    let mut ids = IdAllocator::new();
    let mut a = Track::new(String::from("a"));
    a.add_clip(make_clip("h.wav", &mut cache, &mut ids, 8), 0);
    let mut b = Track::new(String::from("b"));
    b.add_clip(make_clip("i.wav", &mut cache, &mut ids, 8), 0);
    let mut tracks: Vec<Track> = vec![a, b];
    assert_eq!(mix_next_sample(&mut tracks), 2);
    assert_eq!(mix_next_sample(&mut tracks), 4);
}

#[test]
fn queue_plays_clips_back_to_back() {
    let mut cache = AssetCache::new();
    let mut ids = IdAllocator::new();
    let mut track = Track::new(String::from("q"));
    track.add_clip(make_clip("j.wav", &mut cache, &mut ids, 2), 0);
    track.add_clip(make_clip("k.wav", &mut cache, &mut ids, 2), 0);
    assert_eq!(track.queue_next(), Some(1));
    assert_eq!(track.queue_next(), Some(2));
    // The first clip is exhausted: the second follows with no gap.
    assert_eq!(track.queue_next(), Some(1));
    assert_eq!(track.queue_next(), Some(2));
    assert_eq!(track.queue_next(), None);
}

#[test]
fn callback_advances_clock_and_mixes() {
    let mut state = engine_default_state(2, 8);
    let mut cache = AssetCache::new();
    let mut ids = IdAllocator::new();
    let mut track = Track::new(String::from("cb"));
    let sound = Sound::new(counting_pcm(4, 2, 8));
    let (clip, _) = Clip::new(
        String::from("cb.wav"),
        String::from("cb"),
        sound,
        &mut cache,
        &mut ids,
    );
    track.add_clip(clip, 0);
    let mut tracks: Vec<Track> = vec![track];
    let buf = on_audio_callback(&mut state, &mut tracks, 10);
    // 8 decoded samples, then silence fills the rest of the buffer.
    assert_eq!(buf, vec![1, 2, 3, 4, 5, 6, 7, 8, 0, 0]);
    assert_eq!(state.total_frames, 5);
}

#[test]
fn playback_state_toggles() {
    let mut state = engine_default_state(2, 44_100);
    assert!(state.is_paused);
    state.play();
    assert!(!state.is_paused);
    state.pause();
    assert!(state.is_paused);
    toggle_playback(&mut state);
    assert!(!state.is_paused);
    toggle_playback(&mut state);
    assert!(state.is_paused);
}

#[test]
fn open_file_appends_to_last_track() {
    let mut g = set_default_state();
    let mut cache = AssetCache::new();
    let mut ids = IdAllocator::new();
    let playback = engine_default_state(1, 8);
    // No track: nothing is created.
    let sound0 = Sound::new(counting_pcm(4, 1, 8));
    let none = open_file(
        &mut g,
        &mut cache,
        &mut ids,
        &playback,
        String::from("l.wav"),
        String::from("l"),
        sound0,
    );
    assert!(none.is_none());
    assert_eq!(cache.assets.len(), 0);
    add_track(&mut g, String::from("Track 1"));
    add_track(&mut g, String::from("Track 2"));
    let sound = Sound::new(counting_pcm(4, 1, 8));
    let (clip_id, started) = open_file(
        &mut g,
        &mut cache,
        &mut ids,
        &playback,
        String::from("l.wav"),
        String::from("l"),
        sound,
    )
    .unwrap();
    assert_eq!(clip_id, 1);
    assert!(started);
    assert_eq!(g.tracks[0].clips.len(), 0);
    assert_eq!(g.tracks[1].clips.len(), 1);
    assert_eq!(g.tracks[1].clips[0].name, String::from("l"));
    assert_eq!(g.tracks[1].clips[0].start_at, Some(0));
    assert_eq!(g.tracks[1].clips[0].total_frames(), 4);
}

#[test]
fn clip_lookup_and_loop_controls() {
    let mut g = set_default_state();
    let mut cache = AssetCache::new();
    let mut ids = IdAllocator::new();
    let playback = engine_default_state(1, 8);
    add_track(&mut g, String::from("Track 1"));
    let sound = Sound::new(counting_pcm(64, 1, 8));
    let (clip_id, _) = open_file(
        &mut g,
        &mut cache,
        &mut ids,
        &playback,
        String::from("m.wav"),
        String::from("m"),
        sound,
    )
    .unwrap();
    assert!(get_clip(&g, clip_id).is_some());
    assert!(get_clip(&g, clip_id + 7).is_none());
    // Loop controls act on the clip found by id; a missing id is absent.
    assert_eq!(set_clip_loop_frames(&mut g, clip_id, 4, 9), Some(()));
    let ctl = &g.tracks[0].clips[0].audio.source.controller;
    assert_eq!(ctl.loop_start_frame, Some(4));
    assert_eq!(ctl.loop_end_frame, Some(9));
    // An inverted window is rejected, never stored.
    assert_eq!(set_clip_loop_frames(&mut g, clip_id, 9, 4), None);
    assert_eq!(set_clip_loop_frames(&mut g, clip_id + 7, 4, 9), None);
    // Time-based loop setting converts at the clip's sample rate.
    assert_eq!(
        set_clip_loop(&mut g, clip_id, &TimePos::new(1, 0), &TimePos::new(2, 500_000_000)),
        Some(())
    );
    let ctl = &g.tracks[0].clips[0].audio.source.controller;
    assert_eq!(ctl.loop_start_frame, Some(8));
    assert_eq!(ctl.loop_end_frame, Some(20));
    // An inverted time window is rejected the same way.
    assert_eq!(
        set_clip_loop(&mut g, clip_id, &TimePos::new(2, 0), &TimePos::new(1, 0)),
        None
    );
    assert_eq!(clear_clip_loop(&mut g, clip_id), Some(()));
    assert_eq!(g.tracks[0].clips[0].audio.source.controller.loop_start, Some(false));
    assert_eq!(clear_clip_loop(&mut g, clip_id + 7), None);
}

#[test]
fn try_seek_seeks_tracks_and_resets_clock() {
    let mut g = set_default_state();
    let mut cache = AssetCache::new();
    let mut ids = IdAllocator::new();
    let mut playback = engine_default_state(1, 8);
    add_track(&mut g, String::from("Track 1"));
    let sound = Sound::new(counting_pcm(64, 1, 8));
    open_file(
        &mut g,
        &mut cache,
        &mut ids,
        &playback,
        String::from("n.wav"),
        String::from("n"),
        sound,
    )
    .unwrap();
    let r = try_seek(&mut g, &mut playback, &TimePos::new(2, 0));
    assert_eq!(r, Ok(()));
    assert_eq!(playback.total_frames, 16);
    // The next sample comes from the sought position: frame 16, value 17.
    assert_eq!(g.tracks[0].queue_next(), Some(17));
    // A target past every clip fails and leaves the clock alone.
    let far = try_seek(&mut g, &mut playback, &TimePos::new(100, 0));
    assert!(far.is_err());
    assert_eq!(playback.total_frames, 16);
}

#[test]
fn transition_query_needs_ready_analysis() {
    let mut g = set_default_state();
    let mut cache = AssetCache::new();
    let mut ids = IdAllocator::new();
    let playback = engine_default_state(1, 8);
    add_track(&mut g, String::from("Track 1"));
    let sound = Sound::new(counting_pcm(500, 1, 8));
    let (clip_id, _) = open_file(
        &mut g,
        &mut cache,
        &mut ids,
        &playback,
        String::from("o.wav"),
        String::from("o"),
        sound,
    )
    .unwrap();
    // Before analysis: nothing to rank.
    let early = allomere::app_state::get_clip_preferred_transition_beats(
        &g, &cache, clip_id, 0, 3,
    );
    assert!(early.is_none());
    let i = cache.find(&String::from("o.wav")).unwrap();
    let feats = vec![
        spaced_feature(0),
        spaced_feature(100),
        spaced_feature(1),
        spaced_feature(50),
    ];
    cache.complete_analysis(i, vec![0, 100, 250, 400], feats).unwrap();
    g.tracks[0].populate_beat_index(0, &cache).unwrap();
    let ranked = allomere::app_state::get_clip_preferred_transition_beats(
        &g, &cache, clip_id, 0, 3,
    )
    .unwrap();
    // Nearest to beat 0: itself at distance 0, then beat 2, then beat 3.
    assert_eq!(ranked, vec![(0, 0), (2, 1), (3, 2500)]);
    // A missing clip id is absent, not an error.
    let missing = allomere::app_state::get_clip_preferred_transition_beats(
        &g, &cache, clip_id + 9, 0, 3,
    );
    assert!(missing.is_none());
}

#[test]
fn audio_data_snapshot_lookup() {
    let mut cache = AssetCache::new();
    let sound = Sound::new(counting_pcm(4, 1, 8));
    cache.acquire(String::from("p.wav"), sound);
    assert!(get_audio_data(&cache, &String::from("p.wav")).is_some());
    assert!(get_audio_data(&cache, &String::from("q.wav")).is_none());
}

#[test]
fn state_key_wire_values_round_trip() {
    assert_eq!(GLOBAL_APP_STATE_MACRO::from(0).into(), 0);
    assert_eq!(GLOBAL_APP_STATE_MACRO::from(1).into(), 1);
}
