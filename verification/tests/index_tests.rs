use allomere::audio_data::{
    extract_beat_window, AnalysisError, AnalysisState, AssetCache, AudioData, IdAllocator, Sound,
};
use allomere::beat_index::{BeatIndex, IndexError, BEAT_INDEX_DIMS};
use allomere::clip::{Clip, TransitionError};
use allomere::source::PcmData;
use allomere::track::{SeedError, Track};

fn feature(dims: usize, first: i64) -> Vec<i64> {
    let mut v = vec![0i64; dims];
    v[0] = first;
    v
}

fn flat_pcm(frames: u32, channels: u16, sample_rate: u32) -> PcmData {
    let n = frames as usize * channels as usize;
    PcmData::new(vec![7i16; n], channels, sample_rate)
}

#[test]
fn search_is_deterministic_across_add_order() {
    let entries: Vec<(u64, i64)> = vec![(0, 0), (1, 5), (2, 9), (3, 2)];
    let mut a = BeatIndex::new(4, 10);
    for (k, x) in entries.iter() {
        a.add(*k, feature(4, *x)).unwrap();
    }
    let mut b = BeatIndex::new(4, 10);
    for (k, x) in entries.iter().rev() {
        b.add(*k, feature(4, *x)).unwrap();
    }
    let q = feature(4, 1);
    let ra = a.search(&q, 3).unwrap();
    let rb = b.search(&q, 3).unwrap();
    assert_eq!(ra, rb);
    // Distances to 1: key 0 -> 1, key 3 -> 1, key 1 -> 16, key 2 -> 64.
    // The tie between keys 0 and 3 breaks toward the smaller key.
    assert_eq!(ra, vec![(0, 1), (3, 1), (1, 16)]);
}

#[test]
fn search_ranks_ascending_with_key_tiebreak() {
    let mut idx = BeatIndex::new(2, 10);
    idx.add(4, vec![2, 0]).unwrap();
    idx.add(1, vec![4, 0]).unwrap();
    idx.add(3, vec![0, 0]).unwrap();
    let r = idx.search(&vec![3, 0], 10).unwrap();
    // Distances: key 4 -> 1, key 1 -> 1, key 3 -> 9; ties by key ascending.
    assert_eq!(r, vec![(1, 1), (4, 1), (3, 9)]);
}

#[test]
fn add_rejects_dimension_mismatch() {
    let mut idx = BeatIndex::new(4, 10);
    assert_eq!(idx.add(0, vec![1, 2]), Err(IndexError::DimensionMismatch));
    assert_eq!(idx.len(), 0);
}

#[test]
fn add_rejects_when_capacity_exhausted() {
    let mut idx = BeatIndex::new(2, 1);
    idx.add(0, vec![1, 2]).unwrap();
    assert_eq!(idx.add(1, vec![3, 4]), Err(IndexError::CapacityExhausted));
    // Re-adding an existing key replaces in place and needs no room.
    assert_eq!(idx.add(0, vec![5, 6]), Ok(()));
    assert_eq!(idx.len(), 1);
}

#[test]
fn search_rejects_empty_index_and_bad_query() {
    let idx = BeatIndex::new(2, 10);
    assert_eq!(idx.search(&vec![1, 2], 3), Err(IndexError::EmptyIndex));
    let mut idx2 = BeatIndex::new(2, 10);
    idx2.add(0, vec![1, 2]).unwrap();
    assert_eq!(idx2.search(&vec![1], 3), Err(IndexError::DimensionMismatch));
}

#[test]
fn analysis_runs_once_per_path() {
    let mut cache = AssetCache::new();
    let mut ids = IdAllocator::new();
    let sound1 = Sound::new(flat_pcm(16, 1, 8));
    let (clip1, started1) = Clip::new(
        String::from("song.flac"),
        String::from("song"),
        sound1,
        &mut cache,
        &mut ids,
    );
    let sound2 = Sound::new(flat_pcm(16, 1, 8));
    let (clip2, started2) = Clip::new(
        String::from("song.flac"),
        String::from("song"),
        sound2,
        &mut cache,
        &mut ids,
    );
    assert!(started1);
    assert!(!started2);
    assert_eq!(cache.assets.len(), 1);
    assert_eq!(clip1.id, 1);
    assert_eq!(clip2.id, 2);
    assert_eq!(clip1.path, clip2.path);
}

#[test]
fn analysis_lifecycle_and_rejections() {
    let mut cache = AssetCache::new();
    let sound = Sound::new(flat_pcm(16, 1, 8));
    let i = cache.acquire(String::from("a.wav"), sound);
    // Completion before the job starts is rejected.
    let early = cache.complete_analysis(i, vec![0, 4], vec![
        feature(BEAT_INDEX_DIMS, 1),
        feature(BEAT_INDEX_DIMS, 2),
    ]);
    assert_eq!(early, Err(AnalysisError::NotProcessing));
    assert!(cache.begin_analysis(i));
    // A second reference starts nothing while the job runs.
    assert!(!cache.begin_analysis(i));
    // Non-ascending beat frames are rejected.
    let bad_beats = cache.complete_analysis(i, vec![4, 4], vec![
        feature(BEAT_INDEX_DIMS, 1),
        feature(BEAT_INDEX_DIMS, 2),
    ]);
    assert_eq!(bad_beats, Err(AnalysisError::MalformedBeats));
    // A feature vector of the wrong dimensionality is rejected.
    let bad_feats = cache.complete_analysis(i, vec![0, 4], vec![feature(3, 1), feature(3, 2)]);
    assert_eq!(bad_feats, Err(AnalysisError::MalformedFeatures));
    // One vector per beat is required.
    let missing = cache.complete_analysis(i, vec![0, 4], vec![feature(BEAT_INDEX_DIMS, 1)]);
    assert_eq!(missing, Err(AnalysisError::MalformedFeatures));
    // A well-formed result reaches Ready.
    let ok = cache.complete_analysis(i, vec![0, 4], vec![
        feature(BEAT_INDEX_DIMS, 1),
        feature(BEAT_INDEX_DIMS, 2),
    ]);
    assert_eq!(ok, Ok(()));
    match &cache.assets[i].analysis {
        AnalysisState::Ready { beat_frames, beat_features } => {
            assert_eq!(beat_frames, &vec![0, 4]);
            assert_eq!(beat_features.len(), 2);
        },
        _ => panic!("analysis should be ready"),
    }
    // A second completion is rejected: the transition happens exactly once.
    let again = cache.complete_analysis(i, vec![0, 4], vec![
        feature(BEAT_INDEX_DIMS, 1),
        feature(BEAT_INDEX_DIMS, 2),
    ]);
    assert_eq!(again, Err(AnalysisError::NotProcessing));
}

#[test]
fn out_of_range_feature_component_is_rejected() {
    let mut cache = AssetCache::new();
    let sound = Sound::new(flat_pcm(16, 1, 8));
    let i = cache.acquire(String::from("b.wav"), sound);
    cache.begin_analysis(i);
    let r = cache.complete_analysis(i, vec![0], vec![feature(BEAT_INDEX_DIMS, 0x20_0000)]);
    assert_eq!(r, Err(AnalysisError::MalformedFeatures));
}

#[test]
fn cached_asset_is_shared_not_duplicated() {
    let mut cache = AssetCache::new();
    let s1 = Sound::new(flat_pcm(4, 1, 8));
    let s2 = Sound::new(flat_pcm(4, 1, 8));
    let i1 = cache.acquire(String::from("x.mp3"), s1);
    let i2 = cache.acquire(String::from("x.mp3"), s2);
    assert_eq!(i1, i2);
    assert_eq!(cache.assets.len(), 1);
}

#[test]
fn audio_data_starts_unanalyzed() {
    let a = AudioData::new(String::from("y.mp3"), Sound::new(flat_pcm(4, 1, 8)));
    assert!(matches!(a.analysis, AnalysisState::Unanalyzed));
    assert_eq!(a.path, String::from("y.mp3"));
}

#[test]
fn beat_window_zero_pads_before_stream_start() {
    // Rate 4, beat at frame 2: one second before the beat starts at -2, so
    // two zeros pad the front; the window wants 2 * 4 + 1 = 9 samples.
    let mut samples: Vec<i16> = Vec::new();
    for i in 0..16 {
        samples.push(10 + i as i16);
    }
    let pcm = PcmData::new(samples, 1, 4);
    let w = extract_beat_window(&pcm, 2);
    assert_eq!(w, vec![0, 0, 10, 11, 12, 13, 14, 15, 16]);
}

#[test]
fn beat_window_seeks_to_one_second_before_beat() {
    let mut samples: Vec<i16> = Vec::new();
    for i in 0..16 {
        samples.push(10 + i as i16);
    }
    let pcm = PcmData::new(samples, 1, 4);
    // Beat at frame 8: seek to frame 4, take 9 samples.
    let w = extract_beat_window(&pcm, 8);
    assert_eq!(w, vec![14, 15, 16, 17, 18, 19, 20, 21, 22]);
    // Beat near the end: the stream runs out first.
    let w2 = extract_beat_window(&pcm, 14);
    assert_eq!(w2, vec![20, 21, 22, 23, 24, 25]);
}

#[test]
fn populate_reports_why_it_cannot_run() {
    let mut cache = AssetCache::new();
    let mut ids = IdAllocator::new();
    let mut track = Track::new(String::from("T"));
    let sound = Sound::new(flat_pcm(64, 1, 8));
    let (clip, _) = Clip::new(
        String::from("r.wav"),
        String::from("r"),
        sound,
        &mut cache,
        &mut ids,
    );
    track.add_clip(clip, 0);
    // An empty cache knows nothing of the clip's path.
    let stranger = AssetCache::new();
    assert_eq!(track.populate_beat_index(0, &stranger), Err(SeedError::UnknownAsset));
    // The job must wait for the completion signal: analysis not ready yet.
    assert_eq!(track.populate_beat_index(0, &cache), Err(SeedError::NotReady));
    let i = cache.find(&String::from("r.wav")).unwrap();
    let feats = vec![
        feature(BEAT_INDEX_DIMS, 0),
        feature(BEAT_INDEX_DIMS, 3),
        feature(BEAT_INDEX_DIMS, 1),
    ];
    cache.complete_analysis(i, vec![0, 8, 16], feats).unwrap();
    // An index without room for one entry per beat refuses the job whole.
    track.beat_index = allomere::beat_index::BeatIndex::new(BEAT_INDEX_DIMS, 2);
    assert_eq!(track.populate_beat_index(0, &cache), Err(SeedError::IndexFull));
    assert_eq!(track.beat_index.len(), 0);
    // With room, the job populates and seeds.
    track.beat_index = allomere::beat_index::BeatIndex::new(BEAT_INDEX_DIMS, 16);
    assert_eq!(track.populate_beat_index(0, &cache), Ok(true));
    assert_eq!(track.clips[0].audio.source.controller.loop_end_frame, Some(16));
}

#[test]
fn transition_query_reports_why_it_failed() {
    let mut cache = AssetCache::new();
    let mut ids = IdAllocator::new();
    let sound = Sound::new(flat_pcm(64, 1, 8));
    let (clip, _) = Clip::new(
        String::from("s.wav"),
        String::from("s"),
        sound,
        &mut cache,
        &mut ids,
    );
    let idx = BeatIndex::new(BEAT_INDEX_DIMS, 16);
    let stranger = AssetCache::new();
    assert_eq!(
        clip.get_preferred_transition_beats(&stranger, &idx, 0, 3),
        Err(TransitionError::UnknownAsset)
    );
    assert_eq!(
        clip.get_preferred_transition_beats(&cache, &idx, 0, 3),
        Err(TransitionError::NotReady)
    );
    let i = cache.find(&String::from("s.wav")).unwrap();
    let feats = vec![feature(BEAT_INDEX_DIMS, 0), feature(BEAT_INDEX_DIMS, 3)];
    cache.complete_analysis(i, vec![0, 8], feats).unwrap();
    assert_eq!(
        clip.get_preferred_transition_beats(&cache, &idx, 5, 3),
        Err(TransitionError::UnknownBeat)
    );
    // Ready, beat known, but the index has nothing to rank yet.
    assert_eq!(
        clip.get_preferred_transition_beats(&cache, &idx, 0, 3),
        Err(TransitionError::Index(IndexError::EmptyIndex))
    );
}
