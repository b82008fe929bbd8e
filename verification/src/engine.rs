//! The playback engine: global playback state and the mixing pipeline.
//!
//! The mixer sums one sample from every registered track's sequential
//! queue, substituting silence for a track whose queue has nothing to give,
//! and the real-time callback advances the global frame clock by one frame
//! per channel-full of delivered samples. Each track evolves only by its
//! own queue step: tracks never influence one another's output.

use vstd::prelude::*;

use crate::clip::Clip;
use crate::track::{queue_step, Track};

verus! {

/// Largest number of registered tracks the mixer accepts; keeps every mixed
/// sum comfortably inside `i64`.
pub const MAX_TRACKS: usize = 0x4000_0000;

/// The global playback state: the pause flag and the monotonic frame clock,
/// together with the output configuration the engine was opened with.
#[derive(Clone, Copy, Debug, PartialEq, Eq, Structural)]
pub struct PlaybackState {
    pub is_paused: bool,
    pub total_frames: u64,
    pub channels: u16,
    pub sample_rate: u32,
}

impl PlaybackState {
    pub open spec fn wf(self) -> bool {
        1 <= self.channels
    }

    /// Starts the output stream; the pause flag alone changes.
    pub fn play(&mut self)
        ensures
            *final(self) == (PlaybackState { is_paused: false, ..*old(self) }),
    {
        self.is_paused = false;
    }

    /// Stops the output stream; the pause flag alone changes.
    pub fn pause(&mut self)
        ensures
            *final(self) == (PlaybackState { is_paused: true, ..*old(self) }),
    {
        self.is_paused = true;
    }
}

/// The engine state for a freshly opened output device: paused, with the
/// frame clock at zero, at the device's native channel count and rate.
pub fn set_default_state(channels: u16, sample_rate: u32) -> (r: PlaybackState)
    requires
        1 <= channels,
    ensures
        r == (PlaybackState { is_paused: true, total_frames: 0, channels, sample_rate }),
        r.wf(),
{
    PlaybackState { is_paused: true, total_frames: 0, channels, sample_rate }
}

/// Toggles playback: play when paused, pause when playing.
pub fn toggle_playback(state: &mut PlaybackState)
    ensures
        *final(state) == (PlaybackState { is_paused: !old(state).is_paused, ..*old(state) }),
{
    if state.is_paused {
        state.play()
    } else {
        state.pause()
    }
}

/// The abstract queue state of one track: its clips and queue position.
pub open spec fn queue_state_of(t: Track) -> (Seq<Clip>, int) {
    (t.clips@, t.current as int)
}

/// The abstract queue states of all registered tracks.
pub open spec fn queue_states(tracks: Seq<Track>) -> Seq<(Seq<Clip>, int)> {
    tracks.map_values(|t: Track| queue_state_of(t))
}

/// What one queue contributes to a mixed sample: its next sample, or 0 —
/// silence — when it has nothing to give.
pub open spec fn state_contribution(s: (Seq<Clip>, int)) -> int {
    match queue_step(s.0, s.1).2 {
        Some(v) => v as int,
        None => 0,
    }
}

/// One queue state after its step.
pub open spec fn state_step(s: (Seq<Clip>, int)) -> (Seq<Clip>, int) {
    (queue_step(s.0, s.1).0, queue_step(s.0, s.1).1)
}

/// All queue states after one mixed sample: each steps by itself alone.
pub open spec fn states_step(ss: Seq<(Seq<Clip>, int)>) -> Seq<(Seq<Clip>, int)> {
    ss.map_values(|s: (Seq<Clip>, int)| state_step(s))
}

/// All queue states after `n` mixed samples.
pub open spec fn states_after(ss: Seq<(Seq<Clip>, int)>, n: nat) -> Seq<(Seq<Clip>, int)>
    decreases n,
{
    if n == 0 {
        ss
    } else {
        states_after(states_step(ss), (n - 1) as nat)
    }
}

/// The mixed sample over a set of queue states: the sum of every queue's
/// contribution.
pub open spec fn states_sum(ss: Seq<(Seq<Clip>, int)>) -> int
    decreases ss.len(),
{
    if ss.len() == 0 {
        0
    } else {
        states_sum(ss.drop_last()) + state_contribution(ss.last())
    }
}

/// Stepping first and then waiting `n` samples is waiting `n + 1` samples.
pub proof fn lemma_states_after_snoc(ss: Seq<(Seq<Clip>, int)>, n: nat)
    ensures
        states_after(ss, n + 1) == states_step(states_after(ss, n)),
    decreases n,
{
    assert(states_after(ss, n + 1) == states_after(states_step(ss), n));
    if n > 0 {
        lemma_states_after_snoc(states_step(ss), (n - 1) as nat);
        assert(states_after(ss, n) == states_after(states_step(ss), (n - 1) as nat));
    }
}

/// Every contribution is one `i16` sample or silence, so a sum over a
/// prefix is bounded by the number of queues.
pub proof fn lemma_states_sum_bound(ss: Seq<(Seq<Clip>, int)>)
    ensures
        -0x8000 * ss.len() <= states_sum(ss) <= 0x8000 * ss.len(),
    decreases ss.len(),
{
    if ss.len() > 0 {
        lemma_states_sum_bound(ss.drop_last());
    }
}

/// Mixer silence fallback: a registered track whose queue is exhausted —
/// in particular one with no clips at all — contributes exactly 0 to the
/// mixed sample, and its state does not change.
pub proof fn lemma_silent_track(t: Track)
    requires
        t.current >= t.clips.len(),
    ensures
        state_contribution(queue_state_of(t)) == 0,
        state_step(queue_state_of(t)) == queue_state_of(t),
{
}

/// Removing a silent queue from the mix does not alter the mixed sample:
/// the remaining tracks' joint output is independent of it.
pub proof fn lemma_mix_drop_silent(ss: Seq<(Seq<Clip>, int)>, i: int)
    requires
        0 <= i < ss.len(),
        state_contribution(ss[i]) == 0,
    ensures
        states_sum(ss.remove(i)) == states_sum(ss),
    decreases ss.len(),
{
    if i == ss.len() - 1 {
        assert(ss.remove(i) =~= ss.drop_last());
    } else {
        assert(ss.remove(i).drop_last() =~= ss.drop_last().remove(i));
        assert(ss.remove(i).last() == ss.last());
        lemma_mix_drop_silent(ss.drop_last(), i);
    }
}

/// Pulls one mixed sample: every registered track's queue is asked for its
/// next sample, silence standing in where a queue is exhausted, and the
/// contributions are summed. Each track steps by its own queue alone.
pub fn mix_next_sample(tracks: &mut Vec<Track>) -> (r: i64)
    requires
        forall|j: int| 0 <= j < old(tracks).len() ==> (#[trigger] old(tracks)[j]).wf(),
        old(tracks).len() <= MAX_TRACKS,
    ensures
        forall|j: int| 0 <= j < final(tracks).len() ==> (#[trigger] final(tracks)[j]).wf(),
        final(tracks).len() == old(tracks).len(),
        queue_states(final(tracks)@) == states_step(queue_states(old(tracks)@)),
        forall|j: int|
            0 <= j < final(tracks).len() ==> (#[trigger] final(tracks)[j]).name
                == old(tracks)[j].name && final(tracks)[j].beat_index == old(
                tracks,
            )[j].beat_index,
        r == states_sum(queue_states(old(tracks)@)),
{
    let n = tracks.len();
    let mut sum: i64 = 0;
    let mut i: usize = 0;
    let ghost init = queue_states(old(tracks)@);
    proof {
        assert(init.take(0) =~= Seq::<(Seq<Clip>, int)>::empty());
    }
    while i < n
        invariant
            i <= n,
            n == tracks.len(),
            n <= MAX_TRACKS,
            init == queue_states(old(tracks)@),
            init.len() == n,
            forall|j: int| 0 <= j < n ==> (#[trigger] tracks[j]).wf(),
            forall|j: int|
                0 <= j < n ==> (#[trigger] tracks[j]).name == old(tracks)[j].name
                    && tracks[j].beat_index == old(tracks)[j].beat_index,
            forall|j: int|
                i <= j < n ==> (#[trigger] tracks[j]).clips@ == old(tracks)[j].clips@
                    && tracks[j].current == old(tracks)[j].current,
            forall|j: int|
                0 <= j < i ==> queue_state_of(#[trigger] tracks[j]) == state_step(init[j]),
            sum == states_sum(init.take(i as int)),
        decreases n - i,
    {
        let t = &mut tracks[i];
        let s = t.queue_next();
        let v: i64 = match s {
            Some(x) => x as i64,
            None => 0,
        };
        proof {
            assert(init.take(i + 1).drop_last() =~= init.take(i as int));
            assert(init.take(i + 1).last() == init[i as int]);
            lemma_states_sum_bound(init.take(i as int));
            assert(init[i as int] == queue_state_of(old(tracks)[i as int]));
            assert(v == state_contribution(init[i as int]));
        }
        sum = sum + v;
        i = i + 1;
    }
    proof {
        assert(init.take(n as int) =~= init);
        assert(queue_states(tracks@) =~= states_step(init));
    }
    sum
}

/// Advances the global frame clock as the real-time callback does after
/// delivering a buffer: one frame per channel-full of samples. The clock is
/// monotonic; it saturates rather than wraps.
pub fn advance_clock(state: &mut PlaybackState, buffer_len: usize)
    requires
        old(state).wf(),
    ensures
        final(state).wf(),
        final(state).is_paused == old(state).is_paused,
        final(state).channels == old(state).channels,
        final(state).sample_rate == old(state).sample_rate,
        ({
            let delta = (buffer_len as int) / (old(state).channels as int);
            if old(state).total_frames + delta <= u64::MAX {
                final(state).total_frames == old(state).total_frames + delta
            } else {
                final(state).total_frames == u64::MAX
            }
        }),
{
    let delta = (buffer_len as u64) / (state.channels as u64);
    state.total_frames = match state.total_frames.checked_add(delta) {
        Some(t) => t,
        None => u64::MAX,
    };
}

/// Fills one output buffer as the real-time callback does: each slot takes
/// the next mixed sample — tracks with nothing to give contribute silence —
/// and the clock then advances by `buffer_len / channels` frames.
pub fn on_audio_callback(state: &mut PlaybackState, tracks: &mut Vec<Track>, buffer_len: usize)
    -> (r: Vec<i64>)
    requires
        old(state).wf(),
        forall|j: int| 0 <= j < old(tracks).len() ==> (#[trigger] old(tracks)[j]).wf(),
        old(tracks).len() <= MAX_TRACKS,
    ensures
        final(state).wf(),
        r.len() == buffer_len,
        forall|k: int|
            0 <= k < buffer_len ==> r[k] == states_sum(
                states_after(queue_states(old(tracks)@), k as nat),
            ),
        queue_states(final(tracks)@) == states_after(
            queue_states(old(tracks)@),
            buffer_len as nat,
        ),
        forall|j: int| 0 <= j < final(tracks).len() ==> (#[trigger] final(tracks)[j]).wf(),
        final(tracks).len() == old(tracks).len(),
        final(state).is_paused == old(state).is_paused,
        final(state).channels == old(state).channels,
        ({
            let delta = (buffer_len as int) / (old(state).channels as int);
            if old(state).total_frames + delta <= u64::MAX {
                final(state).total_frames == old(state).total_frames + delta
            } else {
                final(state).total_frames == u64::MAX
            }
        }),
{
    let ghost init = queue_states(old(tracks)@);
    let mut out: Vec<i64> = Vec::new();
    let mut k: usize = 0;
    while k < buffer_len
        invariant
            k <= buffer_len,
            out.len() == k,
            tracks.len() == old(tracks).len(),
            tracks.len() <= MAX_TRACKS,
            init == queue_states(old(tracks)@),
            forall|j: int| 0 <= j < tracks.len() ==> (#[trigger] tracks[j]).wf(),
            queue_states(tracks@) == states_after(init, k as nat),
            forall|l: int|
                0 <= l < k ==> out[l] == states_sum(states_after(init, l as nat)),
        decreases buffer_len - k,
    {
        let v = mix_next_sample(tracks);
        proof {
            lemma_states_after_snoc(init, k as nat);
        }
        out.push(v);
        k = k + 1;
    }
    advance_clock(state, buffer_len);
    out
}

} // verus!
