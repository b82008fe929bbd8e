//! Clips: a loopable source bound to an asset, loop controls, and
//! transition queries.

use vstd::prelude::*;

use crate::audio_data::{AnalysisState, AssetCache, AudioData, IdAllocator, Sound};
use crate::beat_index::{BeatIndex, IndexError};
use crate::controller::CustomSourceController;
use crate::source::{same_stream, CustomSource, SeekError};
use crate::timing::{
    frames_round, frames_trunc_capped, spec_duration_of_frames, spec_frames_round,
    spec_frames_trunc, TimePos,
};

verus! {

/// A clip's playable audio: the loop-capable source over a fresh decode
/// stream of the shared asset.
#[derive(Debug)]
pub struct Audio {
    pub source: CustomSource,
}

impl Audio {
    pub open spec fn wf(self) -> bool {
        self.source.wf()
    }

    /// The total frame count of the underlying stream, derived exactly as
    /// `round(total_duration_seconds * sample_rate)`; it equals the number
    /// of decoded frames and is independent of playback position, loop
    /// state, and analysis state.
    pub fn total_frames(&self) -> (r: u64)
        requires
            self.wf(),
        ensures
            r == spec_frames_round(
                spec_duration_of_frames(
                    self.source.pcm.spec_total_frames() as u64,
                    self.source.pcm.sample_rate,
                ),
                self.source.pcm.sample_rate,
            ),
            r == self.source.pcm.spec_total_frames(),
    {
        let d = self.source.total_duration();
        proof {
            crate::timing::lemma_duration_of_frames_roundtrip(
                self.source.pcm.spec_total_frames() as u64,
                self.source.pcm.sample_rate,
            );
        }
        frames_round(&d, self.source.sample_rate())
    }
}

/// A clip's total frame count depends only on the decoded stream it was
/// created over: two clips over the same stream agree, and nothing a clip
/// or its asset later does — seeking, looping, analysis reaching `Ready` —
/// changes it.
pub proof fn lemma_total_frames_stable(a: Audio, b: Audio)
    requires
        a.wf(),
        b.wf(),
        same_stream(a.source.pcm, b.source.pcm),
    ensures
        a.source.pcm.spec_total_frames() == b.source.pcm.spec_total_frames(),
        a.source.pcm.sample_rate == b.source.pcm.sample_rate,
{
}

/// Why a transition query returned nothing.
#[derive(Clone, Copy, Debug, PartialEq, Eq, Structural)]
pub enum TransitionError {
    /// The clip's path is not in the asset cache.
    UnknownAsset,
    /// The asset's analysis has not reached `Ready`.
    NotReady,
    /// The queried beat ordinal is outside the detected beats.
    UnknownBeat,
    /// The index rejected the search.
    Index(IndexError),
}

/// One clip: a path into the asset cache, a display name, an optional
/// scheduled start frame, a process-unique id, and its playable audio.
#[derive(Debug)]
pub struct Clip {
    pub path: String,
    pub name: String,
    pub audio: Audio,
    pub start_at: Option<u64>,
    pub id: usize,
}

impl Clip {
    pub open spec fn wf(self) -> bool {
        self.audio.wf()
    }

    /// Creates a clip for `path`: resolves the shared asset — creating it
    /// from `sound` on first reference — binds a fresh decode stream over
    /// the asset's audio, assigns a process-unique id, and asks to start the
    /// analysis job. The returned flag says whether a job was started:
    /// `true` only for the reference that found the asset unanalyzed, so the
    /// same path never runs analysis twice.
    pub fn new(
        path: String,
        name: String,
        sound: Sound,
        cache: &mut AssetCache,
        ids: &mut IdAllocator,
    ) -> (r: (Clip, bool))
        requires
            old(cache).wf(),
            sound.pcm.wf(),
            old(ids).next < usize::MAX,
        ensures
            final(cache).wf(),
            final(cache).has_path(path@),
            r.0.wf(),
            r.0.path == path,
            r.0.name == name,
            r.0.start_at is None,
            r.0.id == old(ids).next,
            final(ids).next == old(ids).next + 1,
            r.0.audio.source.pos == 0,
            r.0.audio.source.current_sample == 0,
            r.0.audio.source.controller == CustomSourceController::new_spec(),
            exists|mid: AssetCache, idx: usize|
                {
                    &&& #[trigger] AssetCache::acquire_post(*old(cache), mid, path, sound, idx)
                    &&& AssetCache::begin_post(mid, *final(cache), idx as int, r.1)
                    &&& idx < final(cache).assets.len()
                    &&& final(cache).assets[idx as int].path@ == path@
                    &&& same_stream(
                        r.0.audio.source.pcm,
                        final(cache).assets[idx as int].sound.pcm,
                    )
                },
            !old(cache).has_path(path@) ==> r.1 == true,
            forall|i: int|
                0 <= i < old(cache).assets.len() && (#[trigger] old(cache).assets[i].path)@
                    == path@ && !(old(cache).assets[i].analysis is Unanalyzed) ==> r.1 == false,
    {
        let idx = cache.acquire(path.clone(), sound);
        let ghost mid_cache = *cache;
        let started = cache.begin_analysis(idx);
        let a = &cache.assets[idx];
        let pcm = a.sound.decoder();
        let source = CustomSource::new(pcm);
        let id = ids.fresh_id();
        proof {
            if !old(cache).has_path(path@) {
                assert(mid_cache.assets[idx as int].analysis is Unanalyzed);
            }
            if old(cache).has_path(path@) {
                assert(mid_cache.assets@ == old(cache).assets@);
                assert forall|i: int|
                    0 <= i < old(cache).assets.len() && (#[trigger] old(
                        cache,
                    ).assets[i].path)@ == path@ && !(old(
                        cache,
                    ).assets[i].analysis is Unanalyzed) implies started == false by {
                    if i != idx as int {
                        assert(mid_cache.assets[i].path@ != mid_cache.assets[idx as int].path@);
                    }
                }
            }
        }
        (Clip { path, name, audio: Audio { source }, start_at: None, id }, started)
    }

    /// Delegates to the source's seek: succeeds exactly when the target
    /// frame is within the stream; the position is unchanged on failure.
    pub fn try_seek(&mut self, pos: &TimePos) -> (r: Result<(), SeekError>)
        requires
            old(self).wf(),
            pos.wf(),
        ensures
            final(self).wf(),
            final(self).path == old(self).path,
            final(self).name == old(self).name,
            final(self).start_at == old(self).start_at,
            final(self).id == old(self).id,
            r is Ok <==> old(self).audio.source.seekable(*pos),
            r is Ok ==> final(self).audio.source == old(self).audio.source.seek_spec(*pos),
            r is Err ==> final(self).audio.source == old(self).audio.source,
    {
        self.audio.source.try_seek(pos)
    }

    /// Enables the loop over the frame window `[start_frame, end_frame)`,
    /// effective on the next sample boundary.
    pub fn set_loop_frames(&mut self, start_frame: u32, end_frame: u32)
        requires
            old(self).wf(),
            start_frame < end_frame,
        ensures
            final(self).wf(),
            *final(self) == (Clip {
                audio: Audio {
                    source: CustomSource {
                        controller: CustomSourceController {
                            loop_start: Some(true),
                            loop_start_frame: Some(start_frame),
                            loop_end_frame: Some(end_frame),
                            ..old(self).audio.source.controller
                        },
                        ..old(self).audio.source
                    },
                },
                ..*old(self)
            }),
    {
        self.audio.source.controller.set_loop(start_frame, end_frame);
    }

    /// Converts the time window to frames (truncating, as the counter
    /// recomputation does) and enables the loop when the window is
    /// non-empty and within `u32` frame range; returns whether it was set.
    pub fn set_loop(&mut self, start_pos: &TimePos, end_pos: &TimePos) -> (r: bool)
        requires
            old(self).wf(),
            start_pos.wf(),
            end_pos.wf(),
        ensures
            final(self).wf(),
            ({
                let sf = spec_frames_trunc(*start_pos, old(self).audio.source.pcm.sample_rate);
                let ef = spec_frames_trunc(*end_pos, old(self).audio.source.pcm.sample_rate);
                &&& (r <==> sf < ef && ef <= u32::MAX)
                &&& r ==> *final(self) == (Clip {
                    audio: Audio {
                        source: CustomSource {
                            controller: CustomSourceController {
                                loop_start: Some(true),
                                loop_start_frame: Some(sf as u32),
                                loop_end_frame: Some(ef as u32),
                                ..old(self).audio.source.controller
                            },
                            ..old(self).audio.source
                        },
                    },
                    ..*old(self)
                })
                &&& !r ==> *final(self) == *old(self)
            }),
    {
        let rate = self.audio.source.sample_rate();
        let sf = frames_trunc_capped(start_pos, rate);
        let ef = frames_trunc_capped(end_pos, rate);
        if sf < ef && ef <= u32::MAX as u64 {
            self.set_loop_frames(sf as u32, ef as u32);
            true
        } else {
            false
        }
    }

    /// Stops looping on the next sample boundary; the stored window frames
    /// are kept as metadata.
    pub fn clear_loop(&mut self)
        requires
            old(self).wf(),
        ensures
            final(self).wf(),
            *final(self) == (Clip {
                audio: Audio {
                    source: CustomSource {
                        controller: CustomSourceController {
                            loop_start: Some(false),
                            ..old(self).audio.source.controller
                        },
                        ..old(self).audio.source
                    },
                },
                ..*old(self)
            }),
            !final(self).audio.source.controller.loop_active(),
    {
        self.audio.source.controller.clear_loop();
    }

    /// The clip's total frame count: `round(total_duration_seconds *
    /// sample_rate)` of its stream.
    pub fn total_frames(&self) -> (r: u64)
        requires
            self.wf(),
        ensures
            r == spec_frames_round(
                spec_duration_of_frames(
                    self.audio.source.pcm.spec_total_frames() as u64,
                    self.audio.source.pcm.sample_rate,
                ),
                self.audio.source.pcm.sample_rate,
            ),
            r == self.audio.source.pcm.spec_total_frames(),
    {
        self.audio.total_frames()
    }

    /// Ranks transition candidates for the given beat of this clip: looks
    /// up the clip's feature vector for `beat` in the shared asset cache
    /// and asks the supplied index for the `count` nearest entries,
    /// ascending by distance, ties broken by smaller key. Requires the
    /// asset's analysis to be `Ready`; fails otherwise.
    pub fn get_preferred_transition_beats(
        &self,
        cache: &AssetCache,
        index: &BeatIndex,
        beat: usize,
        count: usize,
    ) -> (r: Result<Vec<(u64, u64)>, TransitionError>)
        requires
            cache.wf(),
            index.wf(),
        ensures
            ({
                let i = cache.asset_index(self.path@);
                let st = cache.assets[i].analysis;
                match r {
                    Ok(res) => {
                        &&& cache.has_path(self.path@)
                        &&& st is Ready
                        &&& beat < st.beat_features_spec().len()
                        &&& ({
                            let q = st.beat_features_spec()[beat as int]@;
                            &&& q.len() == index.dims
                            &&& index.entries.len() > 0
                            &&& res@.len() == if count <= index.entries.len() {
                                count as int
                            } else {
                                index.entries.len() as int
                            }
                            &&& res@ == BeatIndex::ranked(
                                index.scored(q).to_set(),
                                res@.len() as nat,
                            )
                            &&& forall|a: int, b: int|
                                #![trigger res@[a], res@[b]]
                                0 <= a < b < res@.len() ==> crate::beat_index::rank_lt(
                                    res@[a],
                                    res@[b],
                                )
                            &&& forall|a: int|
                                0 <= a < res@.len() ==> index.scored(q).contains(
                                    #[trigger] res@[a],
                                )
                        })
                    },
                    Err(TransitionError::UnknownAsset) => !cache.has_path(self.path@),
                    Err(TransitionError::NotReady) => cache.has_path(self.path@) && !(st is Ready),
                    Err(TransitionError::UnknownBeat) => cache.has_path(self.path@) && st is Ready
                        && beat >= st.beat_features_spec().len(),
                    Err(TransitionError::Index(e)) => {
                        let q = st.beat_features_spec()[beat as int]@;
                        &&& cache.has_path(self.path@)
                        &&& st is Ready
                        &&& beat < st.beat_features_spec().len()
                        &&& (e == IndexError::DimensionMismatch <==> q.len() != index.dims)
                        &&& (e == IndexError::EmptyIndex <==> q.len() == index.dims
                            && index.entries.len() == 0)
                        &&& e != IndexError::CapacityExhausted
                    },
                }
            }),
    {
        let found = cache.find(&self.path);
        let i = match found {
            Some(i) => i,
            None => {
                return Err(TransitionError::UnknownAsset);
            },
        };
        proof {
            let w = cache.asset_index(self.path@);
            if w != i as int {
                assert(cache.assets[w].path@ != cache.assets[i as int].path@);
            }
        }
        let a = &cache.assets[i];
        let features = match &a.analysis {
            AnalysisState::Ready { beat_frames: _, beat_features } => beat_features,
            _ => {
                return Err(TransitionError::NotReady);
            },
        };
        if beat >= features.len() {
            return Err(TransitionError::UnknownBeat);
        }
        let q = &features[beat];
        match index.search(q, count) {
            Ok(res) => Ok(res),
            Err(e) => Err(TransitionError::Index(e)),
        }
    }
}

} // verus!
