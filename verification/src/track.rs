//! Tracks: a sequential playback queue of clips, the per-track beat vector
//! index, and clip scheduling.
//!
//! The queue is the track's clips in order: appended clips play one after
//! another with no gaps, and the queue's output is what a track contributes
//! to the mixer. The scheduled start frame computed on append is advisory
//! metadata for consumers; it never inserts silence.

use vstd::prelude::*;

use crate::audio_data::AssetCache;
use crate::beat_index::{BeatIndex, BEAT_INDEX_CAPACITY, BEAT_INDEX_DIMS};
use crate::clip::{Audio, Clip};
use crate::source::SeekError;
use crate::timing::{time_add, spec_duration_of_frames, TimePos, MAX_TIME_SECS, NANOS_PER_SEC};

verus! {

/// The total frame count of a sequence of clips.
pub open spec fn spec_clips_frames(clips: Seq<Clip>) -> int
    decreases clips.len(),
{
    if clips.len() == 0 {
        0
    } else {
        spec_clips_frames(clips.drop_last()) + clips.last().audio.source.pcm.spec_total_frames()
    }
}

/// The total reported duration of a sequence of clips, in nanoseconds.
pub open spec fn spec_clips_duration_nanos(clips: Seq<Clip>) -> int
    decreases clips.len(),
{
    if clips.len() == 0 {
        0
    } else {
        spec_clips_duration_nanos(clips.drop_last()) + spec_duration_of_frames(
            clips.last().audio.source.pcm.spec_total_frames() as u64,
            clips.last().audio.source.pcm.sample_rate,
        ).as_nanos()
    }
}

/// Clip frame totals are non-negative, so every prefix sum is at most the
/// whole sum.
pub proof fn lemma_clips_frames_prefix(clips: Seq<Clip>, i: int)
    requires
        0 <= i <= clips.len(),
        forall|j: int| 0 <= j < clips.len() ==> (#[trigger] clips[j]).wf(),
    ensures
        0 <= spec_clips_frames(clips.take(i)) <= spec_clips_frames(clips),
    decreases clips.len() - i,
{
    if i == clips.len() {
        assert(clips.take(i) =~= clips);
        lemma_clips_frames_nonneg(clips);
    } else {
        lemma_clips_frames_prefix(clips, i + 1);
        assert(forall|j: int| 0 <= j < i ==> (#[trigger] clips.take(i)[j]) == clips[j]);
        lemma_clips_frames_nonneg(clips.take(i));
        assert(clips.take(i + 1).drop_last() =~= clips.take(i));
        assert(clips.take(i + 1).last() == clips[i]);
        vstd::arithmetic::div_mod::lemma_div_pos_is_pos(
            clips[i].audio.source.pcm.samples.len() as int,
            clips[i].audio.source.pcm.channels as int,
        );
    }
}

proof fn lemma_clips_frames_nonneg(clips: Seq<Clip>)
    requires
        forall|j: int| 0 <= j < clips.len() ==> (#[trigger] clips[j]).wf(),
    ensures
        0 <= spec_clips_frames(clips),
    decreases clips.len(),
{
    if clips.len() > 0 {
        assert(forall|j: int|
            0 <= j < clips.len() - 1 ==> (#[trigger] clips.drop_last()[j]) == clips[j]);
        lemma_clips_frames_nonneg(clips.drop_last());
        vstd::arithmetic::div_mod::lemma_div_pos_is_pos(
            clips.last().audio.source.pcm.samples.len() as int,
            clips.last().audio.source.pcm.channels as int,
        );
    }
}

/// Clip durations are non-negative, so every prefix sum is at most the
/// whole sum.
pub proof fn lemma_clips_duration_prefix(clips: Seq<Clip>, i: int)
    requires
        0 <= i <= clips.len(),
    ensures
        0 <= spec_clips_duration_nanos(clips.take(i)) <= spec_clips_duration_nanos(clips),
    decreases clips.len() - i,
{
    if i == clips.len() {
        assert(clips.take(i) =~= clips);
        lemma_clips_duration_nonneg(clips);
    } else {
        lemma_clips_duration_prefix(clips, i + 1);
        lemma_clips_duration_nonneg(clips.take(i));
        assert(clips.take(i + 1).drop_last() =~= clips.take(i));
        assert(clips.take(i + 1).last() == clips[i]);
    }
}

proof fn lemma_clips_duration_nonneg(clips: Seq<Clip>)
    ensures
        0 <= spec_clips_duration_nanos(clips),
    decreases clips.len(),
{
    if clips.len() > 0 {
        lemma_clips_duration_nonneg(clips.drop_last());
    }
}

/// One step of the sequential queue: the clip at `current` is asked for its
/// next sample; an exhausted clip hands over to the following one, with no
/// gap. Returns the clips, the queue position, and the delivered sample.
pub open spec fn queue_step(clips: Seq<Clip>, current: int) -> (Seq<Clip>, int, Option<i16>)
    recommends
        0 <= current <= clips.len(),
    decreases clips.len() - current,
{
    if current < 0 || current >= clips.len() {
        (clips, current, None)
    } else {
        let c = clips[current];
        let stepped = c.audio.source.next_spec();
        let clips2 = clips.update(current, Clip { audio: Audio { source: stepped.0 }, ..c });
        if stepped.1 is Some {
            (clips2, current, stepped.1)
        } else {
            queue_step(clips2, current + 1)
        }
    }
}

/// Why the index-population job could not run; the track is then left
/// unchanged.
#[derive(Clone, Copy, Debug, PartialEq, Eq, Structural)]
pub enum SeedError {
    /// The clip's path is not in the asset cache.
    UnknownAsset,
    /// The asset's analysis has not reached `Ready`: the job must wait for
    /// the completion signal before reading beat features.
    NotReady,
    /// The index lacks room for one entry per beat.
    IndexFull,
}

/// A track: its name, the ordered clips forming the sequential playback
/// queue, the queue position, and the track's beat vector index.
#[derive(Debug)]
pub struct Track {
    pub name: String,
    pub clips: Vec<Clip>,
    pub current: usize,
    pub beat_index: BeatIndex,
}

impl Track {
    pub open spec fn wf(self) -> bool {
        &&& forall|i: int| 0 <= i < self.clips.len() ==> (#[trigger] self.clips[i]).wf()
        &&& self.beat_index.wf()
        &&& self.beat_index.dims == BEAT_INDEX_DIMS
        &&& self.current <= self.clips.len()
    }

    /// A clip in the track already carries an explicit scheduled start.
    pub open spec fn has_scheduled_clip(self) -> bool {
        exists|i: int| 0 <= i < self.clips.len() && (#[trigger] self.clips[i]).start_at is Some
    }

    /// A fresh track: an idle queue and an empty beat vector index of the
    /// fixed dimensionality, reserved to its initial capacity.
    pub fn new(name: String) -> (r: Track)
        ensures
            r.wf(),
            r.name == name,
            r.clips.len() == 0,
            r.current == 0,
            r.beat_index.dims == BEAT_INDEX_DIMS,
            r.beat_index.capacity == BEAT_INDEX_CAPACITY,
            r.beat_index.entries.len() == 0,
    {
        Track {
            name,
            clips: Vec::new(),
            current: 0,
            beat_index: BeatIndex::new(BEAT_INDEX_DIMS, BEAT_INDEX_CAPACITY),
        }
    }

    fn any_scheduled(&self) -> (r: bool)
        ensures
            r == self.has_scheduled_clip(),
    {
        let n = self.clips.len();
        let mut i: usize = 0;
        while i < n
            invariant
                i <= n,
                n == self.clips.len(),
                forall|j: int| 0 <= j < i ==> (#[trigger] self.clips[j]).start_at is None,
            decreases n - i,
        {
            let sched = match self.clips[i].start_at {
                Some(_) => true,
                None => false,
            };
            if sched {
                return true;
            }
            i = i + 1;
        }
        false
    }

    /// The sum of all clips' total frame counts; `None` when the sum leaves
    /// `u64` range.
    pub fn total_frames(&self) -> (r: Option<u64>)
        requires
            self.wf(),
        ensures
            match r {
                Some(t) => t == spec_clips_frames(self.clips@),
                None => spec_clips_frames(self.clips@) > u64::MAX,
            },
    {
        let n = self.clips.len();
        let mut acc: u64 = 0;
        let mut i: usize = 0;
        proof {
            assert(self.clips@.take(0) =~= Seq::<Clip>::empty());
        }
        while i < n
            invariant
                i <= n,
                n == self.clips.len(),
                self.wf(),
                acc == spec_clips_frames(self.clips@.take(i as int)),
            decreases n - i,
        {
            let cf = self.clips[i].total_frames();
            proof {
                assert(self.clips@.take(i + 1).drop_last() =~= self.clips@.take(i as int));
                assert(self.clips@.take(i + 1).last() == self.clips@[i as int]);
            }
            acc = match acc.checked_add(cf) {
                Some(a) => a,
                None => {
                    proof {
                        lemma_clips_frames_prefix(self.clips@, i + 1);
                    }
                    return None;
                },
            };
            i = i + 1;
        }
        proof {
            assert(self.clips@.take(n as int) =~= self.clips@);
        }
        Some(acc)
    }

    /// The sum of all clips' reported durations; `None` when the sum leaves
    /// the well-formed time range.
    pub fn total_duration(&self) -> (r: Option<TimePos>)
        requires
            self.wf(),
        ensures
            match r {
                Some(d) => d.wf() && d.as_nanos() == spec_clips_duration_nanos(self.clips@),
                None => spec_clips_duration_nanos(self.clips@) > MAX_TIME_SECS * NANOS_PER_SEC + (
                NANOS_PER_SEC - 1),
            },
    {
        let n = self.clips.len();
        let mut acc = TimePos::zero();
        let mut i: usize = 0;
        proof {
            assert(self.clips@.take(0) =~= Seq::<Clip>::empty());
        }
        while i < n
            invariant
                i <= n,
                n == self.clips.len(),
                self.wf(),
                acc.wf(),
                acc.as_nanos() == spec_clips_duration_nanos(self.clips@.take(i as int)),
            decreases n - i,
        {
            let d = self.clips[i].audio.source.total_duration();
            proof {
                assert(self.clips@.take(i + 1).drop_last() =~= self.clips@.take(i as int));
                assert(self.clips@.take(i + 1).last() == self.clips@[i as int]);
            }
            acc = match time_add(&acc, &d) {
                Some(a) => a,
                None => {
                    proof {
                        lemma_clips_duration_prefix(self.clips@, i + 1);
                    }
                    return None;
                },
            };
            i = i + 1;
        }
        proof {
            assert(self.clips@.take(n as int) =~= self.clips@);
        }
        Some(acc)
    }

    /// Appends a clip to the sequential queue, so it plays immediately after
    /// whatever is already queued. Scheduling policy: when no queued clip
    /// carries an explicit start, the new clip's advisory start frame is the
    /// larger of the track's own total frames and the engine's frames played
    /// so far; it is metadata only and inserts no silence.
    pub fn add_clip(&mut self, clip: Clip, engine_total_frames: u64)
        requires
            old(self).wf(),
            clip.wf(),
        ensures
            final(self).wf(),
            final(self).name == old(self).name,
            final(self).current == old(self).current,
            final(self).beat_index == old(self).beat_index,
            ({
                let tf = spec_clips_frames(old(self).clips@);
                let scheduled_start: Option<u64> = if old(self).has_scheduled_clip() {
                    clip.start_at
                } else if tf <= u64::MAX {
                    if tf > engine_total_frames {
                        Some(tf as u64)
                    } else {
                        Some(engine_total_frames)
                    }
                } else {
                    clip.start_at
                };
                final(self).clips@ == old(self).clips@.push(
                    Clip { start_at: scheduled_start, ..clip },
                )
            }),
    {
        let mut clip = clip;
        if !self.any_scheduled() {
            match self.total_frames() {
                Some(tf) => {
                    if tf > engine_total_frames {
                        clip.start_at = Some(tf);
                    } else {
                        clip.start_at = Some(engine_total_frames);
                    }
                },
                None => {},
            }
        }
        self.clips.push(clip);
    }

    /// Delegates a seek to the queue: it applies to whichever clip is
    /// currently playing; an idle queue has nothing to seek and succeeds.
    pub fn try_seek(&mut self, pos: &TimePos) -> (r: Result<(), SeekError>)
        requires
            old(self).wf(),
            pos.wf(),
        ensures
            final(self).wf(),
            final(self).name == old(self).name,
            final(self).current == old(self).current,
            final(self).beat_index == old(self).beat_index,
            if old(self).current < old(self).clips.len() {
                let c = old(self).clips[old(self).current as int];
                &&& (r is Ok <==> c.audio.source.seekable(*pos))
                &&& r is Ok ==> final(self).clips@ == old(self).clips@.update(
                    old(self).current as int,
                    Clip { audio: Audio { source: c.audio.source.seek_spec(*pos) }, ..c },
                )
                &&& r is Err ==> final(self).clips@ == old(self).clips@
            } else {
                r is Ok && final(self).clips@ == old(self).clips@
            },
    {
        if self.current < self.clips.len() {
            let idx = self.current;
            let c = &mut self.clips[idx];
            c.try_seek(pos)
        } else {
            Ok(())
        }
    }

    /// The background job run once a clip's asset reaches `Ready`: adds
    /// each beat feature vector to the track's index keyed by beat ordinal,
    /// asks the index for the nearest neighbours of beat 0, and — auto-loop
    /// seeding — sets the clip's loop to span from the frame of beat 0 to
    /// the frame of the second-ranked neighbour (the first-ranked is
    /// typically the queried point itself). Returns whether the loop was
    /// seeded: the clip is left untouched when fewer than two entries rank,
    /// or when the second-ranked key names no later beat.
    pub fn populate_beat_index(&mut self, clip_index: usize, cache: &AssetCache) -> (r: Result<
        bool,
        SeedError,
    >)
        requires
            old(self).wf(),
            cache.wf(),
            clip_index < old(self).clips.len(),
        ensures
            final(self).wf(),
            final(self).name == old(self).name,
            final(self).current == old(self).current,
            final(self).beat_index.dims == old(self).beat_index.dims,
            final(self).beat_index.capacity == old(self).beat_index.capacity,
            ({
                let path = old(self).clips[clip_index as int].path@;
                let ai = cache.asset_index(path);
                let st = cache.assets[ai].analysis;
                match r {
                    Ok(seeded) => {
                        let frames = st.beat_frames_spec();
                        let feats = st.beat_features_spec();
                        let n = feats.len() as int;
                        &&& cache.has_path(path)
                        &&& st is Ready
                        &&& n <= old(self).beat_index.capacity - old(self).beat_index.entries.len()
                        &&& forall|i: int|
                            0 <= i < n ==> final(self).beat_index.stores(
                                i as u64,
                                (#[trigger] feats[i])@,
                            )
                        &&& forall|k: u64, v: Seq<i64>|
                            #![trigger old(self).beat_index.stores(k, v)]
                            old(self).beat_index.stores(k, v) && k >= n ==> final(self).beat_index.stores(k, v)
                        &&& forall|k: u64|
                            #[trigger] final(self).beat_index.has_key(k) ==> old(self).beat_index.has_key(k) || k < n
                        &&& ({
                            let picks = BeatIndex::ranked(
                                final(self).beat_index.scored(feats[0]@).to_set(),
                                if 5 <= final(self).beat_index.entries.len() {
                                    5nat
                                } else {
                                    final(self).beat_index.entries.len() as nat
                                },
                            );
                            let usable = n > 0 && picks.len() >= 2 && 0 < picks[1].0
                                < frames.len();
                            &&& (seeded <==> usable)
                            &&& seeded ==> ({
                                let c = old(self).clips[clip_index as int];
                                final(self).clips@ == old(self).clips@.update(
                                    clip_index as int,
                                    Clip {
                                        audio: Audio {
                                            source: crate::source::CustomSource {
                                                controller:
                                                    crate::controller::CustomSourceController {
                                                    loop_start: Some(true),
                                                    loop_start_frame: Some(frames[0]),
                                                    loop_end_frame: Some(
                                                        frames[picks[1].0 as int],
                                                    ),
                                                    ..c.audio.source.controller
                                                },
                                                ..c.audio.source
                                            },
                                        },
                                        ..c
                                    },
                                )
                            })
                            &&& !seeded ==> final(self).clips@ == old(self).clips@
                        })
                    },
                    Err(SeedError::UnknownAsset) => !cache.has_path(path) && final(self).clips@
                        == old(self).clips@ && final(self).beat_index == old(self).beat_index,
                    Err(SeedError::NotReady) => cache.has_path(path) && !(st is Ready) && final(self).clips@ == old(self).clips@ && final(self).beat_index == old(self).beat_index,
                    Err(SeedError::IndexFull) => cache.has_path(path) && st is Ready
                        && st.beat_features_spec().len() > old(self).beat_index.capacity - old(self).beat_index.entries.len() && final(self).clips@ == old(self).clips@ && final(self).beat_index == old(self).beat_index,
                }
            }),
    {
        let found = cache.find(&self.clips[clip_index].path);
        let ai = match found {
            Some(a) => a,
            None => {
                return Err(SeedError::UnknownAsset);
            },
        };
        proof {
            let w = cache.asset_index(self.clips[clip_index as int].path@);
            if w != ai as int {
                assert(cache.assets[w].path@ != cache.assets[ai as int].path@);
            }
        }
        let asset = &cache.assets[ai];
        let (frames, feats) = match &asset.analysis {
            crate::audio_data::AnalysisState::Ready { beat_frames, beat_features } => (
                beat_frames,
                beat_features,
            ),
            _ => {
                return Err(SeedError::NotReady);
            },
        };
        let n = feats.len();
        if n > self.beat_index.capacity - self.beat_index.len() {
            return Err(SeedError::IndexFull);
        }
        let ghost pre_index = self.beat_index;
        let mut i: usize = 0;
        while i < n
            invariant
                i <= n,
                cache.wf(),
                ai < cache.assets.len(),
                *asset == cache.assets[ai as int],
                asset.analysis is Ready,
                *frames == asset.analysis->Ready_beat_frames,
                *feats == asset.analysis->Ready_beat_features,
                n == feats.len(),
                self.wf(),
                self.name == old(self).name,
                self.current == old(self).current,
                self.clips@ == old(self).clips@,
                self.beat_index.dims == pre_index.dims,
                self.beat_index.capacity == pre_index.capacity,
                self.beat_index.dims == BEAT_INDEX_DIMS,
                self.beat_index.entries.len() <= pre_index.entries.len() + i,
                pre_index.entries.len() + n <= pre_index.capacity,
                forall|j: int|
                    0 <= j < i ==> self.beat_index.stores(j as u64, (#[trigger] feats@[j])@),
                forall|k: u64, v: Seq<i64>|
                    #![trigger pre_index.stores(k, v)]
                    pre_index.stores(k, v) && k >= n ==> self.beat_index.stores(k, v),
                forall|k: u64|
                    #[trigger] self.beat_index.has_key(k) ==> pre_index.has_key(k) || k < i,
            decreases n - i,
        {
            let f = feats[i].clone();
            proof {
                assert(f@ =~= feats@[i as int]@);
                assert(cache.assets[ai as int].wf());
                assert(crate::audio_data::features_match(
                    feats@,
                    asset.analysis.beat_frames_spec().len() as int,
                ));
            }
            let ghost before = self.beat_index;
            let added = self.beat_index.add(i as u64, f);
            proof {
                match added {
                    Ok(()) => {},
                    Err(e) => {
                        if e == crate::beat_index::IndexError::CapacityExhausted {
                            assert(before.entries.len() < before.capacity);
                        }
                        assert(false);
                    },
                }
                if before.has_key(i as u64) {
                    let w = choose|w: int|
                        0 <= w < before.entries.len() && (#[trigger] before.entries[w]).0
                            == i as u64 && self.beat_index.entries@ == before.entries@.update(
                            w,
                            (i as u64, f),
                        );
                    assert forall|j: int|
                        0 <= j < i + 1 implies self.beat_index.stores(
                        j as u64,
                        (#[trigger] feats@[j])@,
                    ) by {
                        if j < i {
                            let wj = choose|wj: int|
                                0 <= wj < before.entries.len() && (#[trigger] before.entries[wj]).0
                                    == j as u64 && before.entries[wj].1@ == feats@[j]@;
                            assert(self.beat_index.entries[wj].0 == j as u64);
                        } else {
                            assert(self.beat_index.entries[w].0 == i as u64);
                        }
                    }
                    assert forall|k: u64, v: Seq<i64>|
                        pre_index.stores(k, v) && k >= n implies self.beat_index.stores(k, v) by {
                        assert(before.stores(k, v));
                        let wk = choose|wk: int|
                            0 <= wk < before.entries.len() && (#[trigger] before.entries[wk]).0 == k
                                && before.entries[wk].1@ == v;
                        assert(self.beat_index.entries[wk].0 == k);
                    }
                    assert forall|k: u64| #[trigger]
                        self.beat_index.has_key(k) implies pre_index.has_key(k) || k < i + 1 by {
                        let wk = choose|wk: int|
                            0 <= wk < self.beat_index.entries.len() && (
                            #[trigger] self.beat_index.entries[wk]).0 == k;
                        if wk != w {
                            assert(before.entries[wk].0 == k);
                            assert(before.has_key(k));
                        }
                    }
                } else {
                    assert(self.beat_index.entries@ == before.entries@.push((i as u64, f)));
                    assert forall|j: int|
                        0 <= j < i + 1 implies self.beat_index.stores(
                        j as u64,
                        (#[trigger] feats@[j])@,
                    ) by {
                        if j < i {
                            let wj = choose|wj: int|
                                0 <= wj < before.entries.len() && (#[trigger] before.entries[wj]).0
                                    == j as u64 && before.entries[wj].1@ == feats@[j]@;
                            assert(self.beat_index.entries[wj].0 == j as u64);
                        } else {
                            assert(self.beat_index.entries[before.entries.len() as int].0
                                == i as u64);
                        }
                    }
                    assert forall|k: u64, v: Seq<i64>|
                        pre_index.stores(k, v) && k >= n implies self.beat_index.stores(k, v) by {
                        assert(before.stores(k, v));
                        let wk = choose|wk: int|
                            0 <= wk < before.entries.len() && (#[trigger] before.entries[wk]).0 == k
                                && before.entries[wk].1@ == v;
                        assert(self.beat_index.entries[wk].0 == k);
                    }
                    assert forall|k: u64| #[trigger]
                        self.beat_index.has_key(k) implies pre_index.has_key(k) || k < i + 1 by {
                        let wk = choose|wk: int|
                            0 <= wk < self.beat_index.entries.len() && (
                            #[trigger] self.beat_index.entries[wk]).0 == k;
                        if wk < before.entries.len() {
                            assert(before.entries[wk].0 == k);
                            assert(before.has_key(k));
                        }
                    }
                }
            }
            i = i + 1;
        }
        if n == 0 {
            return Ok(false);
        }
        let q = &feats[0];
        proof {
            assert(self.beat_index.stores(0u64, feats@[0]@));
            let w0 = choose|w0: int|
                0 <= w0 < self.beat_index.entries.len() && (
                #[trigger] self.beat_index.entries[w0]).0 == 0u64 && self.beat_index.entries[w0].1@
                == feats@[0]@;
            assert(self.beat_index.entries.len() > 0);
        }
        let results = match self.beat_index.search(q, 5) {
            Ok(rs) => rs,
            Err(_) => {
                proof {
                    assert(false);
                }
                return Ok(false);
            },
        };
        if results.len() < 2 {
            return Ok(false);
        }
        let key2 = results[1].0;
        if key2 == 0 {
            return Ok(false);
        }
        if key2 >= frames.len() as u64 {
            return Ok(false);
        }
        proof {
            assert(crate::audio_data::frames_ascending(frames@));
            crate::audio_data::lemma_frames_ascending_lt(frames@, 0, key2 as int);
        }
        let loop_start_frame = frames[0];
        let loop_end_frame = frames[key2 as usize];
        let c = &mut self.clips[clip_index];
        c.set_loop_frames(loop_start_frame, loop_end_frame);
        Ok(true)
    }

    /// Pulls the next sample from the sequential queue: the current clip's
    /// source, handing over to the next clip without a gap when one is
    /// exhausted. Returns `None` exactly when every remaining clip is
    /// exhausted — the queue is then empty and contributes silence.
    pub fn queue_next(&mut self) -> (r: Option<i16>)
        requires
            old(self).wf(),
        ensures
            final(self).wf(),
            final(self).name == old(self).name,
            final(self).beat_index == old(self).beat_index,
            (final(self).clips@, final(self).current as int, r) == queue_step(
                old(self).clips@,
                old(self).current as int,
            ),
    {
        while self.current < self.clips.len()
            invariant
                self.wf(),
                self.name == old(self).name,
                self.beat_index == old(self).beat_index,
                queue_step(self.clips@, self.current as int) == queue_step(
                    old(self).clips@,
                    old(self).current as int,
                ),
            decreases self.clips.len() - self.current,
        {
            let idx = self.current;
            let c = &mut self.clips[idx];
            let s = c.audio.source.next();
            match s {
                Some(v) => {
                    return Some(v);
                },
                None => {
                    self.current = idx + 1;
                },
            }
        }
        None
    }
}

} // verus!
