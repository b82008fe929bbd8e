//! Shared audio assets and their analysis lifecycle.
//!
//! An asset is keyed by its file path and holds one decoded audio stream
//! plus the state of its beat analysis. The cache hands every reference to
//! the same path the same asset, so analysis work is performed once per
//! path: an analysis job is started only by the reference that finds the
//! asset still unanalyzed.

use vstd::prelude::*;

use crate::beat_index::{features_bounded, BEAT_INDEX_DIMS};
use crate::source::{same_stream, PcmData};

verus! {

/// The analysis lifecycle of one asset. It moves `Unanalyzed` →
/// `Processing` → `Ready` exactly once; the beat frames and the per-beat
/// feature vectors appear together when analysis completes.
#[derive(Debug)]
pub enum AnalysisState {
    Unanalyzed,
    Processing,
    Ready { beat_frames: Vec<u32>, beat_features: Vec<Vec<i64>> },
}

/// Why a completed analysis was rejected; the asset then stays out of
/// `Ready` and dependent loop seeding and transition queries stay
/// unavailable.
#[derive(Clone, Copy, Debug, PartialEq, Eq, Structural)]
pub enum AnalysisError {
    /// Completion for an asset whose analysis was never started, or was
    /// already recorded.
    NotProcessing,
    /// The reported beat frames are not strictly ascending.
    MalformedBeats,
    /// The features are not one bounded fixed-dimension vector per beat.
    MalformedFeatures,
}

/// Beat frame indices as detected: strictly ascending.
pub open spec fn frames_ascending(s: Seq<u32>) -> bool {
    forall|i: int| 0 <= i < s.len() - 1 ==> #[trigger] s[i] < s[i + 1]
}

/// One feature vector per beat, each of the index dimensionality with
/// bounded components.
pub open spec fn features_match(fs: Seq<Vec<i64>>, beats: int) -> bool {
    &&& fs.len() == beats
    &&& forall|j: int|
        0 <= j < fs.len() ==> (#[trigger] fs[j]).len() == BEAT_INDEX_DIMS && features_bounded(
            fs[j]@,
        )
}

impl AnalysisState {
    pub open spec fn wf(self) -> bool {
        match self {
            AnalysisState::Ready { beat_frames, beat_features } => {
                &&& frames_ascending(beat_frames@)
                &&& features_match(beat_features@, beat_frames@.len() as int)
            },
            _ => true,
        }
    }

    pub open spec fn is_ready(self) -> bool {
        self is Ready
    }

    /// The detected beat frames; meaningful once `Ready`.
    pub open spec fn beat_frames_spec(self) -> Seq<u32>
        recommends
            self is Ready,
    {
        self->Ready_beat_frames@
    }

    /// The per-beat feature vectors; meaningful once `Ready`.
    pub open spec fn beat_features_spec(self) -> Seq<Vec<i64>>
        recommends
            self is Ready,
    {
        self->Ready_beat_features@
    }
}

/// The shared decoded audio of one asset. Every clip referencing the asset
/// decodes from this same data; `decoder` hands out a fresh stream over it.
#[derive(Debug)]
pub struct Sound {
    pub pcm: PcmData,
}

impl Sound {
    pub fn new(pcm: PcmData) -> (r: Sound)
        requires
            pcm.wf(),
        ensures
            r == (Sound { pcm }),
    {
        Sound { pcm }
    }

    /// A fresh decode stream over the shared data.
    pub fn decoder(&self) -> (r: PcmData)
        requires
            self.pcm.wf(),
        ensures
            same_stream(r, self.pcm),
            r.wf(),
    {
        self.pcm.clone()
    }
}

/// One cached audio asset: its path, its shared decoded audio, and its
/// analysis state.
#[derive(Debug)]
pub struct AudioData {
    pub path: String,
    pub sound: Sound,
    pub analysis: AnalysisState,
}

impl AudioData {
    pub open spec fn wf(self) -> bool {
        &&& self.sound.pcm.wf()
        &&& self.analysis.wf()
    }

    pub fn new(path: String, sound: Sound) -> (r: AudioData)
        requires
            sound.pcm.wf(),
        ensures
            r == (AudioData { path, sound, analysis: AnalysisState::Unanalyzed }),
            r.wf(),
    {
        AudioData { path, sound, analysis: AnalysisState::Unanalyzed }
    }
}

/// The process-wide asset cache: one asset per path, never evicted. Shared
/// state is modelled as an explicitly constructed service handed to clip
/// and track constructors.
#[derive(Debug)]
pub struct AssetCache {
    pub assets: Vec<AudioData>,
}

impl AssetCache {
    /// Paths are unique: a given file path maps to exactly one asset.
    pub open spec fn wf(self) -> bool {
        &&& forall|i: int| 0 <= i < self.assets.len() ==> (#[trigger] self.assets[i]).wf()
        &&& forall|i: int, j: int|
            #![trigger self.assets[i].path, self.assets[j].path]
            0 <= i < j < self.assets.len() ==> self.assets[i].path@ != self.assets[j].path@
    }

    pub open spec fn has_path(self, path: Seq<char>) -> bool {
        exists|i: int| 0 <= i < self.assets.len() && (#[trigger] self.assets[i].path)@ == path
    }

    /// The position of the asset for `path`; meaningful when `has_path`
    /// holds, and then unique by path uniqueness.
    pub open spec fn asset_index(self, path: Seq<char>) -> int {
        choose|i: int| 0 <= i < self.assets.len() && (#[trigger] self.assets[i].path)@ == path
    }

    pub fn new() -> (r: AssetCache)
        ensures
            r.wf(),
            r.assets.len() == 0,
    {
        AssetCache { assets: Vec::new() }
    }

    /// The position of the asset for `path`, if one is cached.
    pub fn find(&self, path: &String) -> (r: Option<usize>)
        ensures
            match r {
                Some(i) => i < self.assets.len() && self.assets[i as int].path@ == path@,
                None => !self.has_path(path@),
            },
    {
        let n = self.assets.len();
        let mut i: usize = 0;
        while i < n
            invariant
                i <= n,
                n == self.assets.len(),
                forall|j: int| 0 <= j < i ==> (#[trigger] self.assets[j].path)@ != path@,
            decreases n - i,
        {
            if self.assets[i].path == *path {
                return Some(i);
            }
            i = i + 1;
        }
        None
    }

    /// What referencing `path` leaves behind: the existing asset's position
    /// with the cache untouched, or the cache grown by exactly one fresh
    /// unanalyzed asset. Together with path uniqueness this pins both the
    /// resulting cache and the returned position.
    pub open spec fn acquire_post(
        pre: AssetCache,
        post: AssetCache,
        path: String,
        sound: Sound,
        r: usize,
    ) -> bool {
        &&& r < post.assets.len()
        &&& post.assets[r as int].path@ == path@
        &&& if pre.has_path(path@) {
            post.assets@ == pre.assets@
        } else {
            post.assets@ == pre.assets@.push(
                AudioData { path, sound, analysis: AnalysisState::Unanalyzed },
            ) && r == pre.assets.len()
        }
    }

    /// References `path`, creating the asset from `sound` on first
    /// reference. Returns the asset's position; the same path always yields
    /// the same position.
    pub fn acquire(&mut self, path: String, sound: Sound) -> (r: usize)
        requires
            old(self).wf(),
            sound.pcm.wf(),
        ensures
            final(self).wf(),
            AssetCache::acquire_post(*old(self), *final(self), path, sound, r),
            final(self).has_path(path@),
    {
        let found = self.find(&path);
        match found {
            Some(i) => {
                proof {
                    let w = choose|w: int|
                        0 <= w < self.assets.len() && (#[trigger] self.assets[w].path)@ == path@;
                    if w != i as int {
                        assert(self.assets[w].path@ != self.assets[i as int].path@);
                    }
                }
                i
            },
            None => {
                let n = self.assets.len();
                let asset = AudioData::new(path, sound);
                self.assets.push(asset);
                proof {
                    assert forall|j: int, l: int|
                        #![trigger self.assets[j].path, self.assets[l].path]
                        0 <= j < l < self.assets.len() implies self.assets[j].path@
                        != self.assets[l].path@ by {
                        if l < n {
                            assert(old(self).assets[j].path@ != old(self).assets[l].path@);
                        } else {
                            assert(!old(self).has_path(self.assets[l as int].path@));
                        }
                    }
                }
                n
            },
        }
    }

    /// What asking to start analysis at position `i` leaves behind: only an
    /// unanalyzed asset starts a job and moves to `Processing`; any other
    /// state starts none and changes nothing.
    pub open spec fn begin_post(pre: AssetCache, post: AssetCache, i: int, started: bool) -> bool {
        &&& (started <==> pre.assets[i].analysis is Unanalyzed)
        &&& if started {
            post.assets@ == pre.assets@.update(
                i,
                AudioData { analysis: AnalysisState::Processing, ..pre.assets[i] },
            )
        } else {
            post.assets@ == pre.assets@
        }
    }

    /// Starts the analysis job for the asset at `i` if nothing has analyzed
    /// it yet. Returns whether a job was started: at most one reference ever
    /// sees `true` for a given asset.
    pub fn begin_analysis(&mut self, i: usize) -> (started: bool)
        requires
            old(self).wf(),
            i < old(self).assets.len(),
        ensures
            final(self).wf(),
            AssetCache::begin_post(*old(self), *final(self), i as int, started),
            final(self).assets.len() == old(self).assets.len(),
            final(self).assets[i as int].path == old(self).assets[i as int].path,
            final(self).assets[i as int].sound == old(self).assets[i as int].sound,
    {
        let a = &mut self.assets[i];
        let started = match a.analysis {
            AnalysisState::Unanalyzed => {
                a.analysis = AnalysisState::Processing;
                true
            },
            _ => false,
        };
        proof {
            if !started {
                assert(self.assets@ =~= old(self).assets@);
            }
        }
        started
    }

    /// Records a finished analysis for the asset at `i`. Succeeds exactly
    /// when the asset was mid-analysis, the beat frames are strictly
    /// ascending, and the features are one bounded fixed-dimension vector
    /// per beat; the asset then reaches `Ready`. On failure the cache is
    /// unchanged and the asset stays out of `Ready`.
    pub fn complete_analysis(
        &mut self,
        i: usize,
        beat_frames: Vec<u32>,
        beat_features: Vec<Vec<i64>>,
    ) -> (r: Result<(), AnalysisError>)
        requires
            old(self).wf(),
            i < old(self).assets.len(),
        ensures
            final(self).wf(),
            final(self).assets.len() == old(self).assets.len(),
            match r {
                Ok(()) => {
                    &&& old(self).assets[i as int].analysis is Processing
                    &&& frames_ascending(beat_frames@)
                    &&& features_match(beat_features@, beat_frames@.len() as int)
                    &&& final(self).assets@ == old(self).assets@.update(
                        i as int,
                        AudioData {
                            analysis: AnalysisState::Ready { beat_frames, beat_features },
                            ..old(self).assets[i as int]
                        },
                    )
                },
                Err(e) => {
                    &&& final(self).assets@ == old(self).assets@
                    &&& (e == AnalysisError::NotProcessing <==> !(old(
                        self,
                    ).assets[i as int].analysis is Processing))
                    &&& (e == AnalysisError::MalformedBeats <==> old(
                        self,
                    ).assets[i as int].analysis is Processing && !frames_ascending(beat_frames@))
                    &&& (e == AnalysisError::MalformedFeatures <==> old(
                        self,
                    ).assets[i as int].analysis is Processing && frames_ascending(beat_frames@)
                        && !features_match(beat_features@, beat_frames@.len() as int))
                },
            },
    {
        let processing = match self.assets[i].analysis {
            AnalysisState::Processing => true,
            _ => false,
        };
        if !processing {
            return Err(AnalysisError::NotProcessing);
        }
        if !frames_are_ascending(&beat_frames) {
            return Err(AnalysisError::MalformedBeats);
        }
        if !features_do_match(&beat_features, beat_frames.len()) {
            return Err(AnalysisError::MalformedFeatures);
        }
        let a = &mut self.assets[i];
        a.analysis = AnalysisState::Ready { beat_frames, beat_features };
        Ok(())
    }

    /// The cached asset for `path`, if any: the UI-facing snapshot lookup.
    pub fn get(&self, path: &String) -> (r: Option<&AudioData>)
        ensures
            match r {
                Some(a) => self.has_path(path@) && exists|i: int|
                    0 <= i < self.assets.len() && self.assets[i] == *a && (
                    #[trigger] self.assets[i].path)@ == path@,
                None => !self.has_path(path@),
            },
    {
        let found = self.find(path);
        match found {
            Some(i) => Some(&self.assets[i]),
            None => None,
        }
    }
}

/// The sample window handed to the Beat Analyzer for one beat: one second
/// of samples before the beat frame — zero-padded where the stream starts
/// later — then samples until the window holds `2 * sample_rate + 1`, read
/// from a fresh seek to frame `max(0, beat_frame - sample_rate)`; shorter
/// only when the stream ends first.
pub open spec fn spec_beat_window(pcm: PcmData, beat: u32) -> Seq<i16> {
    let rate = pcm.sample_rate as int;
    let ch = pcm.channels as int;
    let len = pcm.samples.len() as int;
    let target = 2 * rate + 1;
    let pad = if beat < rate {
        rate - beat
    } else {
        0
    };
    let seek_to = if beat < rate {
        0
    } else {
        (beat - rate) * ch
    };
    let from = if seek_to <= len {
        seek_to
    } else {
        len
    };
    let want = target - pad;
    let avail = len - from;
    let body = if want <= avail {
        want
    } else {
        avail
    };
    Seq::new(pad as nat, |k: int| 0i16) + pcm.samples@.subrange(from, from + body)
}

/// Builds the analyzer input window for one beat of a decoded stream.
pub fn extract_beat_window(pcm: &PcmData, beat: u32) -> (r: Vec<i16>)
    requires
        pcm.wf(),
    ensures
        r@ == spec_beat_window(*pcm, beat),
{
    let rate = pcm.sample_rate;
    let ch = pcm.channels as u64;
    let len = pcm.samples.len() as u64;
    let target: u64 = 2 * (rate as u64) + 1;
    let pad: u64 = if beat < rate {
        (rate - beat) as u64
    } else {
        0
    };
    let mut out: Vec<i16> = Vec::new();
    let mut i: u64 = 0;
    proof {
        assert(out@ =~= Seq::new(0nat, |k: int| 0i16));
    }
    while i < pad
        invariant
            i <= pad,
            out@ == Seq::new(i as nat, |k: int| 0i16),
        decreases pad - i,
    {
        out.push(0i16);
        proof {
            assert(out@ =~= Seq::new((i + 1) as nat, |k: int| 0i16));
        }
        i = i + 1;
    }
    let seek_to: u64 = if beat < rate {
        0
    } else {
        proof {
            assert(((beat - rate) as int) * (ch as int) <= (u32::MAX as int) * (u16::MAX as int))
                by (nonlinear_arith)
                requires
                    0 <= (beat - rate) as int <= u32::MAX,
                    0 <= ch <= u16::MAX,
            ;
        }
        ((beat - rate) as u64) * ch
    };
    let from: u64 = if seek_to <= len {
        seek_to
    } else {
        len
    };
    let want: u64 = target - pad;
    let avail: u64 = len - from;
    let body: u64 = if want <= avail {
        want
    } else {
        avail
    };
    let mut j: u64 = 0;
    proof {
        assert(out@ =~= Seq::new(pad as nat, |k: int| 0i16) + pcm.samples@.subrange(
            from as int,
            from as int,
        ));
    }
    while j < body
        invariant
            j <= body,
            pad + body <= u64::MAX,
            from + body <= pcm.samples.len(),
            out@ == Seq::new(pad as nat, |k: int| 0i16) + pcm.samples@.subrange(
                from as int,
                from as int + j,
            ),
        decreases body - j,
    {
        out.push(pcm.samples[(from + j) as usize]);
        proof {
            assert(out@ =~= Seq::new(pad as nat, |k: int| 0i16) + pcm.samples@.subrange(
                from as int,
                from as int + j + 1,
            ));
        }
        j = j + 1;
    }
    out
}

/// Analysis deduplication: two references to the same path — the cache
/// steps both clip constructions take, in order — share one asset and start
/// exactly one analysis job. The first reference creates the asset and
/// starts the job; the second finds the cached asset at the same position,
/// adds nothing, and starts nothing. Both therefore observe the same beat
/// frames and features once the one job records `Ready`.
pub proof fn lemma_analysis_dedup(
    c0: AssetCache,
    c1: AssetCache,
    c2: AssetCache,
    c3: AssetCache,
    c4: AssetCache,
    path1: String,
    path2: String,
    s1: Sound,
    s2: Sound,
    i1: usize,
    started1: bool,
    i2: usize,
    started2: bool,
)
    requires
        c0.wf(),
        c2.wf(),
        !c0.has_path(path1@),
        path1@ == path2@,
        AssetCache::acquire_post(c0, c1, path1, s1, i1),
        AssetCache::begin_post(c1, c2, i1 as int, started1),
        AssetCache::acquire_post(c2, c3, path2, s2, i2),
        AssetCache::begin_post(c3, c4, i2 as int, started2),
    ensures
        started1 == true,
        started2 == false,
        i2 == i1,
        c3.assets@ == c2.assets@,
        c4.assets@ == c3.assets@,
{
    assert(i1 == c0.assets.len());
    assert(c1.assets[i1 as int].analysis is Unanalyzed);
    assert(started1);
    assert(c2.assets[i1 as int].analysis is Processing);
    assert(c2.assets[i1 as int].path@ == path2@);
    assert(c2.has_path(path2@));
    assert(c3.assets@ == c2.assets@);
    if i2 != i1 {
        assert(c2.assets[i2 as int].path@ != c2.assets[i1 as int].path@);
        assert(false);
    }
    assert(!started2);
}

/// In a strictly ascending sequence, any later element is strictly larger.
pub proof fn lemma_frames_ascending_lt(s: Seq<u32>, i: int, j: int)
    requires
        frames_ascending(s),
        0 <= i < j < s.len(),
    ensures
        s[i] < s[j],
    decreases j - i,
{
    if j == i + 1 {
        assert(s[i] < s[i + 1]);
    } else {
        lemma_frames_ascending_lt(s, i, j - 1);
        assert(s[j - 1] < s[j - 1 + 1]);
    }
}

/// Runtime check for `frames_ascending`.
fn frames_are_ascending(frames: &Vec<u32>) -> (r: bool)
    ensures
        r == frames_ascending(frames@),
{
    let n = frames.len();
    let mut j: usize = 1;
    while j < n
        invariant
            1 <= j,
            n == frames.len(),
            forall|l: int| 0 <= l < j - 1 ==> #[trigger] frames@[l] < frames@[l + 1],
        decreases n - j,
    {
        if frames[j - 1] >= frames[j] {
            proof {
                assert(!(frames@[j as int - 1] < frames@[j as int]));
            }
            return false;
        }
        j = j + 1;
    }
    true
}

/// Runtime check for `features_bounded`.
fn vector_bounded(f: &Vec<i64>) -> (r: bool)
    ensures
        r == features_bounded(f@),
{
    let n = f.len();
    let mut l: usize = 0;
    while l < n
        invariant
            l <= n,
            n == f.len(),
            forall|w: int|
                0 <= w < l ==> -crate::beat_index::FEATURE_LIMIT <= #[trigger] f@[w]
                    <= crate::beat_index::FEATURE_LIMIT,
        decreases n - l,
    {
        let v = f[l];
        if v < -crate::beat_index::FEATURE_LIMIT || v > crate::beat_index::FEATURE_LIMIT {
            proof {
                assert(!(-crate::beat_index::FEATURE_LIMIT <= f@[l as int]
                    <= crate::beat_index::FEATURE_LIMIT));
            }
            return false;
        }
        l = l + 1;
    }
    true
}

/// Runtime check for `features_match`.
fn features_do_match(fs: &Vec<Vec<i64>>, beats: usize) -> (r: bool)
    ensures
        r == features_match(fs@, beats as int),
{
    if fs.len() != beats {
        return false;
    }
    let n = fs.len();
    let mut j: usize = 0;
    while j < n
        invariant
            j <= n,
            n == fs.len(),
            n == beats,
            forall|l: int|
                0 <= l < j ==> (#[trigger] fs@[l]).len() == BEAT_INDEX_DIMS && features_bounded(
                    fs@[l]@,
                ),
        decreases n - j,
    {
        let f = &fs[j];
        if f.len() != BEAT_INDEX_DIMS {
            proof {
                assert((fs@[j as int]).len() != BEAT_INDEX_DIMS);
            }
            return false;
        }
        if !vector_bounded(f) {
            proof {
                assert(!features_bounded(fs@[j as int]@));
            }
            return false;
        }
        j = j + 1;
    }
    true
}

/// Process-unique id allocation, modelled as an injected service rather
/// than ambient static state. Ids are handed out strictly increasing,
/// starting at 1.
#[derive(Clone, Copy, Debug, PartialEq, Eq, Structural)]
pub struct IdAllocator {
    pub next: usize,
}

impl IdAllocator {
    pub fn new() -> (r: IdAllocator)
        ensures
            r.next == 1,
    {
        IdAllocator { next: 1 }
    }

    /// Hands out the next id: no two calls ever return the same value.
    pub fn fresh_id(&mut self) -> (r: usize)
        requires
            old(self).next < usize::MAX,
        ensures
            r == old(self).next,
            final(self).next == old(self).next + 1,
    {
        let id = self.next;
        self.next = self.next + 1;
        id
    }
}

} // verus!
