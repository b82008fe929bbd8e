//! The application-level state and the control surface: the registered
//! tracks, clip lookup by id, and the commands the control thread issues.
//!
//! Lookups scan tracks linearly and act on the first clip carrying the
//! requested id; an id that matches nothing yields an absent result rather
//! than an error, since acting on a clip that vanished between the UI
//! action and engine processing is an expected race.

use vstd::prelude::*;

use crate::audio_data::{AssetCache, AudioData, IdAllocator, Sound};
use crate::beat_index::BeatIndex;
use crate::clip::{Audio, Clip};
use crate::controller::CustomSourceController;
use crate::engine::{PlaybackState, MAX_TRACKS};
use crate::source::{CustomSource, SeekError};
use crate::timing::{spec_frames_trunc, TimePos, NANOS_PER_SEC};
use crate::track::{spec_clips_frames, Track};

verus! {

/// A state-sync message to the UI shell: a key and a serialized snapshot.
#[derive(Clone, Debug, PartialEq, Eq)]
pub struct Payload {
    pub key: String,
    pub value: String,
}

/// The payload of a file-open action.
#[derive(Clone, Debug, PartialEq, Eq)]
pub struct OpenFilePayload {
    pub path: String,
}

/// Keys of the UI-synchronized portions of the application state.
#[allow(non_camel_case_types)]
#[derive(Clone, Copy, Debug, PartialEq, Eq, Structural)]
pub enum GLOBAL_APP_STATE_MACRO {
    TRACKS,
    CHECK,
}

impl GLOBAL_APP_STATE_MACRO {
    /// The key for a wire value; only the listed values name keys.
    pub fn from(item: u32) -> (r: GLOBAL_APP_STATE_MACRO)
        requires
            item < 2,
        ensures
            r is TRACKS <==> item == 0,
            r is CHECK <==> item == 1,
    {
        if item == 0 {
            GLOBAL_APP_STATE_MACRO::TRACKS
        } else {
            GLOBAL_APP_STATE_MACRO::CHECK
        }
    }

    /// The wire value of a key.
    pub fn into(self) -> (r: u32)
        ensures
            r == match self {
                GLOBAL_APP_STATE_MACRO::TRACKS => 0u32,
                GLOBAL_APP_STATE_MACRO::CHECK => 1u32,
            },
    {
        match self {
            GLOBAL_APP_STATE_MACRO::TRACKS => 0,
            GLOBAL_APP_STATE_MACRO::CHECK => 1,
        }
    }
}

/// The application state: the registered tracks. Registering a track with
/// the mixer is a one-time event at creation — a track contributes to the
/// mix exactly as long as it stands here.
#[derive(Debug)]
pub struct GlobalAppState {
    pub tracks: Vec<Track>,
}

impl GlobalAppState {
    pub open spec fn wf(self) -> bool {
        &&& forall|t: int| 0 <= t < self.tracks.len() ==> (#[trigger] self.tracks[t]).wf()
        &&& self.tracks.len() <= MAX_TRACKS
    }
}

/// The application state before any track is registered.
pub fn set_default_state() -> (r: GlobalAppState)
    ensures
        r.wf(),
        r.tracks.len() == 0,
{
    GlobalAppState { tracks: Vec::new() }
}

/// Creates a track and registers its queue output with the mixer.
pub fn add_track(g: &mut GlobalAppState, name: String)
    requires
        old(g).wf(),
        old(g).tracks.len() < MAX_TRACKS,
    ensures
        final(g).wf(),
        final(g).tracks.len() == old(g).tracks.len() + 1,
        forall|t: int| 0 <= t < old(g).tracks.len() ==> final(g).tracks[t] == old(g).tracks[t],
        ({
            let t = final(g).tracks[old(g).tracks.len() as int];
            &&& t.name == name
            &&& t.clips.len() == 0
            &&& t.current == 0
            &&& t.beat_index.dims == crate::beat_index::BEAT_INDEX_DIMS
            &&& t.beat_index.capacity == crate::beat_index::BEAT_INDEX_CAPACITY
            &&& t.beat_index.entries.len() == 0
        }),
{
    let track = Track::new(name);
    g.tracks.push(track);
}

/// The clip at track `t`, position `i`, carries `id`.
pub open spec fn clip_id_at(g: GlobalAppState, t: int, i: int, id: usize) -> bool {
    &&& 0 <= t < g.tracks.len()
    &&& 0 <= i < g.tracks[t].clips.len()
    &&& g.tracks[t].clips[i].id == id
}

/// Some registered clip carries `id`.
pub open spec fn has_clip_id(g: GlobalAppState, id: usize) -> bool {
    exists|t: int, i: int| #[trigger] clip_id_at(g, t, i, id)
}

/// `(t, i)` is the first clip carrying `id` in scan order: by track, then
/// by position within the track.
pub open spec fn first_clip_match(g: GlobalAppState, id: usize, t: int, i: int) -> bool {
    &&& clip_id_at(g, t, i, id)
    &&& forall|u: int, v: int| #[trigger] clip_id_at(g, u, v, id) ==> t < u || (t == u && i <= v)
}

/// Finds the first clip carrying `id`, scanning tracks in order.
fn find_clip(g: &GlobalAppState, id: usize) -> (r: Option<(usize, usize)>)
    ensures
        match r {
            Some(ti) => first_clip_match(*g, id, ti.0 as int, ti.1 as int),
            None => !has_clip_id(*g, id),
        },
{
    let nt = g.tracks.len();
    let mut t: usize = 0;
    while t < nt
        invariant
            t <= nt,
            nt == g.tracks.len(),
            forall|u: int, v: int| #[trigger] clip_id_at(*g, u, v, id) ==> u >= t,
        decreases nt - t,
    {
        let track = &g.tracks[t];
        let nc = track.clips.len();
        let mut i: usize = 0;
        while i < nc
            invariant
                i <= nc,
                t < nt,
                nt == g.tracks.len(),
                nc == g.tracks[t as int].clips.len(),
                *track == g.tracks[t as int],
                forall|u: int, v: int| #[trigger] clip_id_at(*g, u, v, id) ==> u >= t,
                forall|v: int| 0 <= v < i ==> !clip_id_at(*g, t as int, v, id),
            decreases nc - i,
        {
            if track.clips[i].id == id {
                proof {
                    assert(clip_id_at(*g, t as int, i as int, id));
                }
                return Some((t, i));
            }
            proof {
                assert(!clip_id_at(*g, t as int, i as int, id));
            }
            i = i + 1;
        }
        proof {
            assert forall|u: int, v: int| #[trigger] clip_id_at(*g, u, v, id) implies u >= t
                + 1 by {
            }
        }
        t = t + 1;
    }
    proof {
        if has_clip_id(*g, id) {
            let (u, v) = choose|u: int, v: int| #[trigger] clip_id_at(*g, u, v, id);
            assert(false);
        }
    }
    None
}

/// A read-only view of the first clip carrying `id`: clone-on-read derived
/// info is the caller's concern, never mutation.
pub fn get_clip<'a>(g: &'a GlobalAppState, id: usize) -> (r: Option<&'a Clip>)
    ensures
        match r {
            Some(c) => exists|t: int, i: int|
                #[trigger] first_clip_match(*g, id, t, i) && *c == g.tracks[t].clips[i],
            None => !has_clip_id(*g, id),
        },
{
    match find_clip(g, id) {
        Some((t, i)) => Some(&g.tracks[t].clips[i]),
        None => None,
    }
}

/// Enables the loop of the first clip carrying `id` over the given frame
/// window. Absent when no clip carries the id or the window is empty or
/// inverted — such a window is rejected, never stored.
pub fn set_clip_loop_frames(g: &mut GlobalAppState, id: usize, start_frame: u32, end_frame: u32)
    -> (r: Option<()>)
    requires
        old(g).wf(),
    ensures
        final(g).wf(),
        r is Some <==> start_frame < end_frame && has_clip_id(*old(g), id),
        final(g).tracks.len() == old(g).tracks.len(),
        match r {
            Some(()) => exists|t: int, i: int|
                {
                    &&& #[trigger] first_clip_match(*old(g), id, t, i)
                    &&& forall|u: int|
                        0 <= u < old(g).tracks.len() && u != t ==> final(g).tracks[u] == old(
                            g,
                        ).tracks[u]
                    &&& final(g).tracks[t].name == old(g).tracks[t].name
                    &&& final(g).tracks[t].current == old(g).tracks[t].current
                    &&& final(g).tracks[t].beat_index == old(g).tracks[t].beat_index
                    &&& ({
                        let c = old(g).tracks[t].clips[i];
                        final(g).tracks[t].clips@ == old(g).tracks[t].clips@.update(
                            i,
                            Clip {
                                audio: Audio {
                                    source: CustomSource {
                                        controller: CustomSourceController {
                                            loop_start: Some(true),
                                            loop_start_frame: Some(start_frame),
                                            loop_end_frame: Some(end_frame),
                                            ..c.audio.source.controller
                                        },
                                        ..c.audio.source
                                    },
                                },
                                ..c
                            },
                        )
                    })
                },
            None => final(g).tracks@ == old(g).tracks@,
        },
{
    if start_frame >= end_frame {
        return None;
    }
    match find_clip(g, id) {
        Some((t, i)) => {
            let track = &mut g.tracks[t];
            let c = &mut track.clips[i];
            c.set_loop_frames(start_frame, end_frame);
            Some(())
        },
        None => None,
    }
}

/// Enables the loop of the first clip carrying `id` over a time window,
/// converted to frames at the clip's sample rate. Absent when no clip
/// carries the id or the converted window is rejected.
pub fn set_clip_loop(g: &mut GlobalAppState, id: usize, start_pos: &TimePos, end_pos: &TimePos)
    -> (r: Option<()>)
    requires
        old(g).wf(),
        start_pos.wf(),
        end_pos.wf(),
    ensures
        final(g).wf(),
        final(g).tracks.len() == old(g).tracks.len(),
        !has_clip_id(*old(g), id) ==> r is None && final(g).tracks@ == old(g).tracks@,
        (r is Some <==> exists|t: int, i: int|
            #[trigger] first_clip_match(*old(g), id, t, i) && ({
                let rate = old(g).tracks[t].clips[i].audio.source.pcm.sample_rate;
                spec_frames_trunc(*start_pos, rate) < spec_frames_trunc(*end_pos, rate)
                    <= u32::MAX
            })),
        match r {
            Some(()) => exists|t: int, i: int|
                {
                    &&& #[trigger] first_clip_match(*old(g), id, t, i)
                    &&& ({
                        let c = old(g).tracks[t].clips[i];
                        let rate = c.audio.source.pcm.sample_rate;
                        let sf = spec_frames_trunc(*start_pos, rate);
                        let ef = spec_frames_trunc(*end_pos, rate);
                        &&& sf < ef <= u32::MAX
                        &&& forall|u: int|
                            0 <= u < old(g).tracks.len() && u != t ==> final(g).tracks[u] == old(
                                g,
                            ).tracks[u]
                        &&& final(g).tracks[t].name == old(g).tracks[t].name
                        &&& final(g).tracks[t].current == old(g).tracks[t].current
                        &&& final(g).tracks[t].beat_index == old(g).tracks[t].beat_index
                        &&& final(g).tracks[t].clips@ == old(g).tracks[t].clips@.update(
                            i,
                            Clip {
                                audio: Audio {
                                    source: CustomSource {
                                        controller: CustomSourceController {
                                            loop_start: Some(true),
                                            loop_start_frame: Some(sf as u32),
                                            loop_end_frame: Some(ef as u32),
                                            ..c.audio.source.controller
                                        },
                                        ..c.audio.source
                                    },
                                },
                                ..c
                            },
                        )
                    })
                },
            None => final(g).tracks@ == old(g).tracks@,
        },
{
    match find_clip(g, id) {
        Some((t, i)) => {
            proof {
                assert forall|t2: int, i2: int| #[trigger]
                    first_clip_match(*g, id, t2, i2) implies t2 == t as int && i2
                    == i as int by {
                    lemma_first_clip_match_unique(*g, id, t as int, i as int, t2, i2);
                }
            }
            let rate = g.tracks[t].clips[i].audio.source.sample_rate();
            let sf = crate::timing::frames_trunc_capped(start_pos, rate);
            let ef = crate::timing::frames_trunc_capped(end_pos, rate);
            if sf < ef && ef <= u32::MAX as u64 {
                let track = &mut g.tracks[t];
                let c = &mut track.clips[i];
                c.set_loop_frames(sf as u32, ef as u32);
                Some(())
            } else {
                None
            }
        },
        None => None,
    }
}

/// Stops the loop of the first clip carrying `id` on its next sample
/// boundary. Absent when no clip carries the id.
pub fn clear_clip_loop(g: &mut GlobalAppState, id: usize) -> (r: Option<()>)
    requires
        old(g).wf(),
    ensures
        final(g).wf(),
        r is Some <==> has_clip_id(*old(g), id),
        final(g).tracks.len() == old(g).tracks.len(),
        match r {
            Some(()) => exists|t: int, i: int|
                {
                    &&& #[trigger] first_clip_match(*old(g), id, t, i)
                    &&& forall|u: int|
                        0 <= u < old(g).tracks.len() && u != t ==> final(g).tracks[u] == old(
                            g,
                        ).tracks[u]
                    &&& final(g).tracks[t].name == old(g).tracks[t].name
                    &&& final(g).tracks[t].current == old(g).tracks[t].current
                    &&& final(g).tracks[t].beat_index == old(g).tracks[t].beat_index
                    &&& ({
                        let c = old(g).tracks[t].clips[i];
                        final(g).tracks[t].clips@ == old(g).tracks[t].clips@.update(
                            i,
                            Clip {
                                audio: Audio {
                                    source: CustomSource {
                                        controller: CustomSourceController {
                                            loop_start: Some(false),
                                            ..c.audio.source.controller
                                        },
                                        ..c.audio.source
                                    },
                                },
                                ..c
                            },
                        )
                    })
                },
            None => final(g).tracks@ == old(g).tracks@,
        },
{
    match find_clip(g, id) {
        Some((t, i)) => {
            let track = &mut g.tracks[t];
            let c = &mut track.clips[i];
            c.clear_loop();
            Some(())
        },
        None => None,
    }
}

/// The cached analysis snapshot for `path`, if the asset exists.
pub fn get_audio_data<'a>(cache: &'a AssetCache, path: &String) -> (r: Option<&'a AudioData>)
    ensures
        match r {
            Some(a) => cache.has_path(path@) && exists|i: int|
                0 <= i < cache.assets.len() && cache.assets[i] == *a && (
                #[trigger] cache.assets[i].path)@ == path@,
            None => !cache.has_path(path@),
        },
{
    cache.get(path)
}

/// Ranks transition candidates for the first clip carrying `id`: the
/// clip's feature vector for `beat` is looked up in the shared cache and
/// the owning track's beat index is queried for the `count` nearest
/// entries. Absent when no clip carries the id or the query cannot run.
pub fn get_clip_preferred_transition_beats(
    g: &GlobalAppState,
    cache: &AssetCache,
    id: usize,
    beat: usize,
    count: usize,
) -> (r: Option<Vec<(u64, u64)>>)
    requires
        g.wf(),
        cache.wf(),
    ensures
        (r is Some <==> exists|t: int, i: int|
            #[trigger] first_clip_match(*g, id, t, i) && transition_query_answerable(
                *g,
                *cache,
                t,
                i,
                beat,
            )),
        match r {
            Some(res) => exists|t: int, i: int|
                {
                    &&& #[trigger] first_clip_match(*g, id, t, i)
                    &&& ({
                        let c = g.tracks[t].clips[i];
                        let st = cache.assets[cache.asset_index(c.path@)].analysis;
                        let q = st.beat_features_spec()[beat as int]@;
                        let idx = g.tracks[t].beat_index;
                        &&& transition_query_answerable(*g, *cache, t, i, beat)
                        &&& res@.len() == if count <= idx.entries.len() {
                            count as int
                        } else {
                            idx.entries.len() as int
                        }
                        &&& res@ == BeatIndex::ranked(idx.scored(q).to_set(), res@.len() as nat)
                    })
                },
            None => true,
        },
{
    match find_clip(g, id) {
        Some((t, i)) => {
            let track = &g.tracks[t];
            let c = &track.clips[i];
            let answer = c.get_preferred_transition_beats(cache, &track.beat_index, beat, count);
            proof {
                assert forall|t2: int, i2: int| #[trigger]
                    first_clip_match(*g, id, t2, i2) implies t2 == t as int && i2
                    == i as int by {
                    lemma_first_clip_match_unique(*g, id, t as int, i as int, t2, i2);
                }
            }
            match answer {
                Ok(res) => Some(res),
                Err(_) => None,
            }
        },
        None => None,
    }
}

/// At most one clip position is the first match for an id.
proof fn lemma_first_clip_match_unique(
    g: GlobalAppState,
    id: usize,
    t1: int,
    i1: int,
    t2: int,
    i2: int,
)
    requires
        first_clip_match(g, id, t1, i1),
        first_clip_match(g, id, t2, i2),
    ensures
        t1 == t2,
        i1 == i2,
{
    assert(clip_id_at(g, t1, i1, id));
    assert(clip_id_at(g, t2, i2, id));
}

/// The transition query for the clip at `(t, i)` has an answer: the clip's
/// asset is cached and ready, the queried beat exists, and the track's
/// index has at least one entry to rank.
pub open spec fn transition_query_answerable(
    g: GlobalAppState,
    cache: AssetCache,
    t: int,
    i: int,
    beat: usize,
) -> bool {
    let c = g.tracks[t].clips[i];
    let st = cache.assets[cache.asset_index(c.path@)].analysis;
    &&& cache.has_path(c.path@)
    &&& st is Ready
    &&& beat < st.beat_features_spec().len()
    &&& g.tracks[t].beat_index.entries.len() > 0
}

/// Opens a file into the most recently added track: creates the clip —
/// sharing the cached asset for `path` and starting its analysis job only
/// if the asset is unanalyzed — and appends it to that track's queue under
/// the scheduling policy. Absent when no track exists; nothing is created
/// then.
pub fn open_file(
    g: &mut GlobalAppState,
    cache: &mut AssetCache,
    ids: &mut IdAllocator,
    playback: &PlaybackState,
    path: String,
    name: String,
    sound: Sound,
) -> (r: Option<(usize, bool)>)
    requires
        old(g).wf(),
        old(cache).wf(),
        sound.pcm.wf(),
        old(ids).next < usize::MAX,
    ensures
        final(g).wf(),
        final(cache).wf(),
        r is Some <==> old(g).tracks.len() > 0,
        match r {
            Some(created) => {
                let last = old(g).tracks.len() - 1;
                let pre_track = old(g).tracks[last];
                &&& created.0 == old(ids).next
                &&& final(ids).next == old(ids).next + 1
                &&& final(cache).has_path(path@)
                &&& (!old(cache).has_path(path@) ==> created.1 == true)
                &&& final(g).tracks.len() == old(g).tracks.len()
                &&& forall|u: int| 0 <= u < last ==> final(g).tracks[u] == old(g).tracks[u]
                &&& final(g).tracks[last].name == pre_track.name
                &&& final(g).tracks[last].current == pre_track.current
                &&& final(g).tracks[last].beat_index == pre_track.beat_index
                &&& final(g).tracks[last].clips.len() == pre_track.clips.len() + 1
                &&& ({
                    let appended = final(g).tracks[last].clips[pre_track.clips.len() as int];
                    let tf = spec_clips_frames(pre_track.clips@);
                    &&& forall|v: int|
                        0 <= v < pre_track.clips.len() ==> final(g).tracks[last].clips[v]
                            == pre_track.clips[v]
                    &&& appended.path == path
                    &&& appended.name == name
                    &&& appended.id == old(ids).next
                    &&& appended.audio.source.pos == 0
                    &&& appended.audio.source.current_sample == 0
                    &&& appended.audio.source.controller == CustomSourceController::new_spec()
                    &&& appended.start_at == if pre_track.has_scheduled_clip() {
                        Option::<u64>::None
                    } else if tf <= u64::MAX {
                        if tf > playback.total_frames {
                            Some(tf as u64)
                        } else {
                            Some(playback.total_frames)
                        }
                    } else {
                        Option::<u64>::None
                    }
                })
            },
            None => final(g).tracks@ == old(g).tracks@ && final(cache).assets@ == old(
                cache,
            ).assets@ && final(ids).next == old(ids).next,
        },
{
    if g.tracks.len() == 0 {
        return None;
    }
    let last = g.tracks.len() - 1;
    let created = Clip::new(path, name, sound, cache, ids);
    let clip_id = created.0.id;
    let started = created.1;
    let track = &mut g.tracks[last];
    track.add_clip(created.0, playback.total_frames);
    Some((clip_id, started))
}

/// What a successful seek leaves of one track: the currently playing clip
/// moved to the target position, everything else untouched.
pub open spec fn track_seeked(pre: Track, post: Track, pos: TimePos) -> bool {
    &&& post.name == pre.name
    &&& post.current == pre.current
    &&& post.beat_index == pre.beat_index
    &&& if pre.current < pre.clips.len() {
        let c = pre.clips[pre.current as int];
        post.clips@ == pre.clips@.update(
            pre.current as int,
            Clip { audio: Audio { source: c.audio.source.seek_spec(pos) }, ..c },
        )
    } else {
        post.clips@ == pre.clips@
    }
}

/// A track accepts a seek when its currently playing clip can reach the
/// target; an idle queue accepts every seek.
pub open spec fn track_seekable(t: Track, pos: TimePos) -> bool {
    t.current < t.clips.len() ==> t.clips[t.current as int].audio.source.seekable(pos)
}

/// A track left exactly as it was.
pub open spec fn track_unchanged(pre: Track, post: Track) -> bool {
    &&& post.name == pre.name
    &&& post.current == pre.current
    &&& post.beat_index == pre.beat_index
    &&& post.clips@ == pre.clips@
}

/// Seeks every track to the given position and, when all succeed, resets
/// the global frame clock to `floor(seconds * rate)` (saturating). On the
/// first track that cannot seek, the command stops: that track and the
/// following are untouched and the clock keeps its value.
pub fn try_seek(
    g: &mut GlobalAppState,
    playback: &mut PlaybackState,
    pos: &TimePos,
) -> (r: Result<(), SeekError>)
    requires
        old(g).wf(),
        old(playback).wf(),
        pos.wf(),
    ensures
        final(g).wf(),
        final(playback).wf(),
        final(g).tracks.len() == old(g).tracks.len(),
        final(playback).is_paused == old(playback).is_paused,
        final(playback).channels == old(playback).channels,
        final(playback).sample_rate == old(playback).sample_rate,
        match r {
            Ok(()) => {
                &&& forall|j: int|
                    0 <= j < old(g).tracks.len() ==> track_seekable(
                        #[trigger] old(g).tracks[j],
                        *pos,
                    ) && track_seeked(old(g).tracks[j], final(g).tracks[j], *pos)
                &&& ({
                    let target = spec_frames_trunc(*pos, old(playback).sample_rate);
                    if target <= u64::MAX {
                        final(playback).total_frames == target
                    } else {
                        final(playback).total_frames == u64::MAX
                    }
                })
            },
            Err(e) => {
                &&& exists|j: int|
                    {
                        &&& 0 <= j < old(g).tracks.len()
                        &&& !track_seekable(#[trigger] old(g).tracks[j], *pos)
                        &&& forall|l: int|
                            0 <= l < j ==> track_seekable(#[trigger] old(g).tracks[l], *pos)
                                && track_seeked(old(g).tracks[l], final(g).tracks[l], *pos)
                        &&& forall|l: int|
                            j <= l < old(g).tracks.len() ==> track_unchanged(
                                #[trigger] old(g).tracks[l],
                                final(g).tracks[l],
                            )
                    }
                &&& final(playback).total_frames == old(playback).total_frames
            },
        },
{
    let nt = g.tracks.len();
    let mut j: usize = 0;
    while j < nt
        invariant
            j <= nt,
            nt == g.tracks.len(),
            nt == old(g).tracks.len(),
            playback.wf(),
            playback.is_paused == old(playback).is_paused,
            playback.channels == old(playback).channels,
            playback.sample_rate == old(playback).sample_rate,
            playback.total_frames == old(playback).total_frames,
            g.wf(),
            pos.wf(),
            forall|l: int|
                0 <= l < j ==> track_seekable(#[trigger] old(g).tracks[l], *pos) && track_seeked(
                    old(g).tracks[l],
                    g.tracks[l],
                    *pos,
                ),
            forall|l: int| j <= l < nt ==> g.tracks[l] == old(g).tracks[l],
        decreases nt - j,
    {
        let track = &mut g.tracks[j];
        match track.try_seek(pos) {
            Ok(()) => {},
            Err(e) => {
                proof {
                    assert(track_unchanged(old(g).tracks[j as int], g.tracks[j as int]));
                }
                return Err(e);
            },
        }
        j = j + 1;
    }
    let tn: u64 = pos.secs * NANOS_PER_SEC + (pos.nanos as u64);
    proof {
        assert(pos.secs * NANOS_PER_SEC <= crate::timing::MAX_TIME_SECS * NANOS_PER_SEC)
            by (nonlinear_arith)
            requires
                pos.secs <= crate::timing::MAX_TIME_SECS,
        ;
    }
    proof {
        assert((tn as int) * (playback.sample_rate as int) <= (u64::MAX as int) * (
        u32::MAX as int)) by (nonlinear_arith)
            requires
                0 <= tn <= u64::MAX,
                0 <= playback.sample_rate <= u32::MAX,
        ;
    }
    let prod: u128 = (tn as u128) * (playback.sample_rate as u128);
    let target: u128 = prod / (NANOS_PER_SEC as u128);
    if target > u64::MAX as u128 {
        playback.total_frames = u64::MAX;
    } else {
        playback.total_frames = target as u64;
    }
    Ok(())
}

} // verus!
