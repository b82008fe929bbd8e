//! The loop-capable streaming source.
//!
//! `PcmData` models one decoded audio stream as plain values: interleaved
//! samples at a fixed channel count and sample rate. `CustomSource` wraps one
//! such stream together with a running sample counter and loop-control state,
//! and splices the loop window into the emitted sample sequence with O(1)
//! work per sample.

use vstd::prelude::*;

use crate::controller::CustomSourceController;
use crate::timing::{
    duration_of_frames, frames_trunc, lemma_duration_of_frames_roundtrip, spec_duration_of_frames,
    spec_frames_round, spec_frames_trunc, spec_samples_trunc, TimePos, MAX_SAMPLE_RATE,
    NANOS_PER_SEC,
};

verus! {

/// A seek whose target lies beyond the underlying stream is reported to the
/// caller; the playback position is left unchanged.
#[derive(Clone, Copy, Debug, PartialEq, Eq, Structural)]
pub enum SeekError {
    PastEnd,
}

/// Upper bound on every value the sample counter is reset to (a frame index
/// below `u32::MAX` times a channel count below `u16::MAX`). Between resets
/// the counter gains at most one per decoded sample, so it always stays
/// within this bound of the decode position.
pub const COUNTER_RESET_BOUND: u64 = 0x1_0000_0000_0000;

/// One decoded audio stream: interleaved samples, channel count, sample
/// rate. Fresh streams over the same asset are modelled by cloning.
#[derive(Debug)]
pub struct PcmData {
    pub samples: Vec<i16>,
    pub channels: u16,
    pub sample_rate: u32,
}

impl PcmData {
    /// Samples come in whole interleaved frames; the frame count fits `u32`
    /// (loop boundaries and beat positions are `u32` frame indices) and the
    /// rate is capped so duration reporting is exactly invertible.
    pub open spec fn wf(self) -> bool {
        &&& 1 <= self.channels
        &&& 1 <= self.sample_rate <= MAX_SAMPLE_RATE
        &&& (self.samples.len() as int) % (self.channels as int) == 0
        &&& (self.samples.len() as int) / (self.channels as int) <= u32::MAX
        &&& self.samples.len() < COUNTER_RESET_BOUND
    }

    /// The number of whole frames in the stream.
    pub open spec fn spec_total_frames(self) -> int {
        (self.samples.len() as int) / (self.channels as int)
    }

    pub fn new(samples: Vec<i16>, channels: u16, sample_rate: u32) -> (r: PcmData)
        requires
            1 <= channels,
            1 <= sample_rate <= MAX_SAMPLE_RATE,
            (samples.len() as int) % (channels as int) == 0,
            (samples.len() as int) / (channels as int) <= u32::MAX,
        ensures
            r == (PcmData { samples, channels, sample_rate }),
            r.wf(),
    {
        proof {
            vstd::arithmetic::div_mod::lemma_fundamental_div_mod(
                samples.len() as int,
                channels as int,
            );
            assert((channels as int) * ((samples.len() as int) / (channels as int)) < (
            COUNTER_RESET_BOUND as int)) by (nonlinear_arith)
                requires
                    0 <= (samples.len() as int) / (channels as int) <= u32::MAX,
                    0 <= channels <= u16::MAX,
            ;
        }
        PcmData { samples, channels, sample_rate }
    }

    pub fn total_frames(&self) -> (r: u64)
        requires
            self.wf(),
        ensures
            r == self.spec_total_frames(),
    {
        (self.samples.len() / (self.channels as usize)) as u64
    }

    /// The duration the stream reports: whole seconds plus a truncated
    /// nanosecond remainder, exactly as many frames as the stream holds.
    pub fn total_duration(&self) -> (r: TimePos)
        requires
            self.wf(),
        ensures
            r == spec_duration_of_frames(self.spec_total_frames() as u64, self.sample_rate),
            r.wf(),
            spec_frames_round(r, self.sample_rate) == self.spec_total_frames(),
    {
        let frames = self.total_frames();
        proof {
            lemma_duration_of_frames_roundtrip(frames, self.sample_rate);
        }
        duration_of_frames(frames, self.sample_rate)
    }
}

/// Two streams over the same decoded data: equal samples, channel count and
/// sample rate.
pub open spec fn same_stream(a: PcmData, b: PcmData) -> bool {
    &&& a.samples@ == b.samples@
    &&& a.channels == b.channels
    &&& a.sample_rate == b.sample_rate
}

impl Clone for PcmData {
    /// A fresh decode stream over the same decoded data.
    fn clone(&self) -> (r: Self)
        ensures
            same_stream(r, *self),
            self.wf() ==> r.wf(),
    {
        let samples = self.samples.clone();
        proof {
            assert(samples@ =~= self.samples@);
        }
        PcmData { samples, channels: self.channels, sample_rate: self.sample_rate }
    }
}

/// A loop-capable source: one decode stream, the decode position, a running
/// sample counter, and the loop controller.
#[derive(Debug)]
pub struct CustomSource {
    pub pcm: PcmData,
    /// Index of the next sample the decode stream will deliver.
    pub pos: u64,
    /// Running sample counter; loop detection keys off it. It only ever
    /// increases except on an explicit seek or a loop-back, which set it to
    /// a computed absolute value.
    pub current_sample: u64,
    pub controller: CustomSourceController,
}

impl CustomSource {
    pub open spec fn wf(self) -> bool {
        &&& self.pcm.wf()
        &&& self.controller.wf()
        &&& self.pos <= self.pcm.samples.len()
        &&& self.current_sample <= COUNTER_RESET_BOUND + self.pos
    }

    pub fn new(pcm: PcmData) -> (r: CustomSource)
        requires
            pcm.wf(),
        ensures
            r == (CustomSource {
                pcm,
                pos: 0,
                current_sample: 0,
                controller: CustomSourceController::new_spec(),
            }),
            r.wf(),
    {
        CustomSource { pcm, pos: 0, current_sample: 0, controller: CustomSourceController::new() }
    }

    pub fn channels(&self) -> (r: u16)
        ensures
            r == self.pcm.channels,
    {
        self.pcm.channels
    }

    pub fn sample_rate(&self) -> (r: u32)
        ensures
            r == self.pcm.sample_rate,
    {
        self.pcm.sample_rate
    }

    /// The number of samples left before the decode stream is exhausted
    /// (ignoring looping).
    pub fn current_frame_len(&self) -> (r: Option<usize>)
        requires
            self.wf(),
        ensures
            r == Some((self.pcm.samples.len() - self.pos) as usize),
    {
        Some(self.pcm.samples.len() - (self.pos as usize))
    }

    pub fn total_duration(&self) -> (r: TimePos)
        requires
            self.wf(),
        ensures
            r == spec_duration_of_frames(
                self.pcm.spec_total_frames() as u64,
                self.pcm.sample_rate,
            ),
            r.wf(),
    {
        self.pcm.total_duration()
    }

    /// The loop-back test: the counter has just completed the last channel
    /// slot of the frame before `end_frame`, i.e. it equals
    /// `end_frame * channels` delivered samples.
    pub open spec fn loop_fires(self) -> bool {
        &&& self.controller.loop_active()
        &&& self.current_sample == (self.controller.end_frame_spec() as int) * (
        self.pcm.channels as int)
    }

    /// The decode position after the loop-back seek: the first sample of the
    /// loop's start frame, or unchanged when the stream cannot seek there.
    pub open spec fn loop_target_pos(self) -> u64 {
        if self.controller.start_frame_spec() <= self.pcm.spec_total_frames() {
            ((self.controller.start_frame_spec() as int) * (self.pcm.channels as int)) as u64
        } else {
            self.pos
        }
    }

    /// The state after the loop-back splice, before the next sample is
    /// delivered.
    pub open spec fn spliced(self) -> CustomSource {
        if self.loop_fires() {
            CustomSource {
                pos: self.loop_target_pos(),
                current_sample: ((self.controller.start_frame_spec() as int) * (
                self.pcm.channels as int)) as u64,
                ..self
            }
        } else {
            self
        }
    }

    /// One step of the source: the state after the call and the delivered
    /// sample. The loop-back splice is applied first; then the next decoded
    /// sample, if any, is delivered and both positions advance by one.
    pub open spec fn next_spec(self) -> (CustomSource, Option<i16>) {
        let mid = self.spliced();
        if mid.pos < mid.pcm.samples.len() {
            (
                CustomSource {
                    pos: (mid.pos + 1) as u64,
                    current_sample: (mid.current_sample + 1) as u64,
                    ..mid
                },
                Some(mid.pcm.samples[mid.pos as int]),
            )
        } else {
            (mid, None)
        }
    }

    /// Delivers the next sample, splicing the loop window in when the
    /// counter has just completed a full output frame exactly at the loop's
    /// end frame. Returns `None` only when the decode stream is exhausted
    /// and no loop-back occurred.
    pub fn next(&mut self) -> (r: Option<i16>)
        requires
            old(self).wf(),
        ensures
            (*final(self), r) == old(self).next_spec(),
            final(self).wf(),
    {
        let looping = match self.controller.loop_start {
            Some(true) => true,
            _ => false,
        };
        if looping {
            let ls = self.controller.loop_start_frame.unwrap();
            let le = self.controller.loop_end_frame.unwrap();
            let ch = self.pcm.channels as u64;
            proof {
                assert((le as int) * (ch as int) < COUNTER_RESET_BOUND) by (nonlinear_arith)
                    requires
                        le <= u32::MAX,
                        ch <= u16::MAX,
                ;
                assert((ls as int) * (ch as int) < COUNTER_RESET_BOUND) by (nonlinear_arith)
                    requires
                        ls <= u32::MAX,
                        ch <= u16::MAX,
                ;
            }
            if self.current_sample == (le as u64) * ch {
                let target = ls as u64;
                if target <= self.pcm.total_frames() {
                    proof {
                        assert((target as int) * (ch as int) <= self.pcm.samples.len()) by (
                        nonlinear_arith)
                            requires
                                target <= (self.pcm.samples.len() as int) / (ch as int),
                                (self.pcm.samples.len() as int) % (ch as int) == 0,
                                1 <= ch,
                        ;
                    }
                    self.pos = target * ch;
                }
                self.current_sample = (ls as u64) * ch;
            }
        }
        if (self.pos as usize) < self.pcm.samples.len() {
            let s = self.pcm.samples[self.pos as usize];
            self.pos = self.pos + 1;
            self.current_sample = self.current_sample + 1;
            Some(s)
        } else {
            None
        }
    }

    /// The state after a successful seek to `t`: the counter is recomputed
    /// as `floor(seconds * rate * channels)` and the decode stream moves to
    /// the first sample of frame `floor(seconds * rate)`.
    pub open spec fn seek_spec(self, t: TimePos) -> CustomSource {
        CustomSource {
            pos: (spec_frames_trunc(t, self.pcm.sample_rate) * (self.pcm.channels as int)) as u64,
            current_sample: spec_samples_trunc(
                t,
                self.pcm.sample_rate,
                self.pcm.channels,
            ) as u64,
            ..self
        }
    }

    /// Whether the decode stream can seek to `t`: the target frame must not
    /// lie past the end of the stream.
    pub open spec fn seekable(self, t: TimePos) -> bool {
        spec_frames_trunc(t, self.pcm.sample_rate) <= self.pcm.spec_total_frames()
    }

    /// Seeks to the given position. Succeeds exactly when the target frame
    /// is within the stream; on failure the state is unchanged.
    pub fn try_seek(&mut self, t: &TimePos) -> (r: Result<(), SeekError>)
        requires
            old(self).wf(),
            t.wf(),
        ensures
            final(self).wf(),
            r is Ok <==> old(self).seekable(*t),
            r is Ok ==> *final(self) == old(self).seek_spec(*t),
            r is Err ==> *final(self) == *old(self),
    {
        let ghost rate = self.pcm.sample_rate;
        let ghost ch = self.pcm.channels;
        proof {
            assert(t.as_nanos() * rate >= 0) by (nonlinear_arith)
                requires
                    t.as_nanos() >= 0,
                    rate >= 0,
            ;
            vstd::arithmetic::div_mod::lemma_div_pos_is_pos(
                t.as_nanos() * rate,
                NANOS_PER_SEC as int,
            );
            assert(t.as_nanos() <= (crate::timing::MAX_TIME_SECS + 1) * NANOS_PER_SEC);
            assert(t.as_nanos() * rate <= ((crate::timing::MAX_TIME_SECS + 1) * NANOS_PER_SEC) * (
            MAX_SAMPLE_RATE as int)) by (nonlinear_arith)
                requires
                    0 <= t.as_nanos() <= (crate::timing::MAX_TIME_SECS + 1) * NANOS_PER_SEC,
                    0 <= rate <= MAX_SAMPLE_RATE,
            ;
            vstd::arithmetic::div_mod::lemma_div_is_ordered(
                t.as_nanos() * rate,
                ((crate::timing::MAX_TIME_SECS + 1) * NANOS_PER_SEC) * (MAX_SAMPLE_RATE as int),
                NANOS_PER_SEC as int,
            );
        }
        let frame = frames_trunc(t, self.pcm.sample_rate);
        if frame > self.pcm.total_frames() {
            return Err(SeekError::PastEnd);
        }
        proof {
            lemma_samples_trunc_bound(*t, rate, ch, frame as int);
        }
        let samples = crate::timing::samples_trunc(t, self.pcm.sample_rate, self.pcm.channels);
        proof {
            assert((frame as int) * (ch as int) <= self.pcm.samples.len()) by (nonlinear_arith)
                requires
                    frame <= (self.pcm.samples.len() as int) / (ch as int),
                    (self.pcm.samples.len() as int) % (ch as int) == 0,
                    1 <= ch,
            ;
        }
        self.pos = frame * (self.pcm.channels as u64);
        self.current_sample = samples;
        Ok(())
    }
}

impl CustomSource {
    /// The samples delivered by the next `n` calls of `next`.
    pub open spec fn play(self, n: nat) -> Seq<Option<i16>>
        decreases n,
    {
        if n == 0 {
            Seq::empty()
        } else {
            seq![self.next_spec().1] + self.next_spec().0.play((n - 1) as nat)
        }
    }
}

/// The trace of `n` calls holds exactly `n` delivered results.
pub proof fn lemma_play_len(s: CustomSource, n: nat)
    ensures
        s.play(n).len() == n,
    decreases n,
{
    if n > 0 {
        lemma_play_len(s.next_spec().0, (n - 1) as nat);
    }
}

/// Without an active loop the source never jumps back: each call simply
/// delivers the next decoded sample until the stream is exhausted. In
/// particular, disabling the loop stops the back-jump at once: it acts on
/// the very next call, never retroactively.
pub proof fn lemma_next_no_loop(s: CustomSource)
    requires
        s.wf(),
        !s.controller.loop_active(),
    ensures
        s.pos < s.pcm.samples.len() ==> s.next_spec() == (
            CustomSource {
                pos: (s.pos + 1) as u64,
                current_sample: (s.current_sample + 1) as u64,
                ..s
            },
            Some(s.pcm.samples[s.pos as int]),
        ),
        s.pos >= s.pcm.samples.len() ==> s.next_spec() == (s, Option::<i16>::None),
{
}

/// Loop correctness for a mono source: once the playback position sits
/// inside an active loop window `[start, end)` that lies within the stream,
/// the delivered samples repeat the window indefinitely. The sample `i`
/// calls ahead is the one at `start + ((pos - start + i) % (end - start))`:
/// playing past the end frame yields the sample at the start frame next,
/// round trip after round trip.
pub proof fn lemma_loop_round_trip(s: CustomSource, n: nat, i: nat)
    requires
        s.wf(),
        s.pcm.channels == 1,
        s.controller.loop_active(),
        s.controller.end_frame_spec() <= s.pcm.spec_total_frames(),
        s.current_sample == s.pos,
        s.controller.start_frame_spec() <= s.pos <= s.controller.end_frame_spec(),
        i < n,
    ensures
        ({
            let ls = s.controller.start_frame_spec() as int;
            let p = s.controller.end_frame_spec() - ls;
            s.play(n)[i as int] == Some(s.pcm.samples[ls + ((s.pos - ls + i) % p)])
        }),
    decreases i,
{
    let ls = s.controller.start_frame_spec() as int;
    let le = s.controller.end_frame_spec() as int;
    let p = le - ls;
    let o = s.pos - ls;
    let len = s.pcm.samples.len() as int;
    assert(s.pcm.spec_total_frames() == len) by {
        vstd::arithmetic::div_mod::lemma_div_by_self(1);
        assert((len as int) / 1int == len) by (nonlinear_arith);
    }
    let stepped = s.next_spec();
    // The delivered sample of this call.
    if o == p {
        // The counter has just completed the frame before the end frame:
        // the source loops back and delivers the sample at the start frame.
        assert(s.loop_fires());
        assert(s.spliced().pos == ls);
        assert(stepped.1 == Some(s.pcm.samples[ls]));
        assert(o % p == 0) by {
            vstd::arithmetic::div_mod::lemma_mod_self_0(p);
        }
    } else {
        assert(!s.loop_fires());
        assert(stepped.1 == Some(s.pcm.samples[s.pos as int]));
        assert(o % p == o) by {
            vstd::arithmetic::div_mod::lemma_small_mod(o as nat, p as nat);
        }
    }
    if i == 0 {
        assert(s.play(n)[0] == stepped.1);
    } else {
        let s2 = stepped.0;
        assert(s2.pos == ls + (o % p) + 1);
        assert(s2.current_sample == s2.pos);
        assert(0 <= o % p < p) by {
            vstd::arithmetic::div_mod::lemma_mod_bound(o, p);
        }
        assert(s2.controller == s.controller);
        assert(s2.pcm == s.pcm);
        lemma_loop_round_trip(s2, (n - 1) as nat, (i - 1) as nat);
        lemma_play_len(s2, (n - 1) as nat);
        assert(s.play(n) == seq![stepped.1] + s2.play((n - 1) as nat));
        assert(s.play(n)[i as int] == s2.play((n - 1) as nat)[i - 1]);
        // Align the modulus arithmetic of the recursive call with this step.
        let o2 = (o % p) + 1;
        assert(s2.play((n - 1) as nat)[i - 1] == Some(s.pcm.samples[ls + ((o2 + i - 1) % p)]));
        assert((o2 + i - 1) % p == (o + i) % p) by {
            vstd::arithmetic::div_mod::lemma_add_mod_noop(o, i as int, p);
            vstd::arithmetic::div_mod::lemma_add_mod_noop(o % p, i as int, p);
            vstd::arithmetic::div_mod::lemma_mod_twice(o, p);
        }
    }
}

/// Seeking is idempotent: a second seek to the same position leaves the
/// source exactly where the first left it, so the subsequent sample
/// sequence after `seek(t); seek(t)` equals the one after a single
/// `seek(t)`.
pub proof fn lemma_seek_idempotent(s: CustomSource, t: TimePos)
    requires
        s.wf(),
        t.wf(),
        s.seekable(t),
    ensures
        s.seek_spec(t).seekable(t),
        s.seek_spec(t).seek_spec(t) == s.seek_spec(t),
        forall|n: nat| s.seek_spec(t).seek_spec(t).play(n) == s.seek_spec(t).play(n),
{
}

/// When the target frame of a seek is within `u32::MAX`, the recomputed
/// sample counter fits comfortably below the counter reset bound.
proof fn lemma_samples_trunc_bound(t: TimePos, rate: u32, ch: u16, frame: int)
    requires
        t.wf(),
        1 <= ch,
        spec_frames_trunc(t, rate) == frame,
        0 <= frame <= u32::MAX,
    ensures
        0 <= spec_samples_trunc(t, rate, ch) <= (frame + 1) * (ch as int),
        (frame + 1) * (ch as int) < COUNTER_RESET_BOUND,
{
    let nps = NANOS_PER_SEC as int;
    let p = t.as_nanos() * rate;
    assert(t.as_nanos() * rate >= 0) by (nonlinear_arith)
        requires
            t.as_nanos() >= 0,
            rate >= 0,
    ;
    assert(p >= 0);
    vstd::arithmetic::div_mod::lemma_fundamental_div_mod(p, nps);
    vstd::arithmetic::div_mod::lemma_mod_bound(p, nps);
    assert(p < nps * (frame + 1));
    assert(p * ch < (nps * (frame + 1)) * ch) by (nonlinear_arith)
        requires
            0 <= p < nps * (frame + 1),
            1 <= ch,
    ;
    assert((nps * (frame + 1)) * ch == ((frame + 1) * ch) * nps) by (nonlinear_arith);
    assert(p * ch >= 0) by (nonlinear_arith)
        requires
            p >= 0,
            ch >= 0,
    ;
    vstd::arithmetic::div_mod::lemma_multiply_divide_lt(p * ch, (frame + 1) * (ch as int), nps);
    assert(spec_samples_trunc(t, rate, ch) == (p * ch) / nps);
    vstd::arithmetic::div_mod::lemma_div_pos_is_pos(p * ch, nps);
    assert((frame + 1) * (ch as int) < COUNTER_RESET_BOUND) by (nonlinear_arith)
        requires
            frame <= u32::MAX,
            ch <= u16::MAX,
    ;
}

} // verus!
