//! Exact conversions between time positions and frame / sample counts.
//!
//! A playback position is a whole number of seconds plus a nanosecond
//! remainder, like `std::time::Duration`. All conversions to frame and
//! sample counts are defined by exact integer formulas so that seeking and
//! loop splicing stay sample-accurate.

use vstd::prelude::*;

verus! {

/// Nanoseconds in one second.
pub const NANOS_PER_SEC: u64 = 1_000_000_000;

/// Upper bound on the seconds field of a well-formed time position.
pub const MAX_TIME_SECS: u64 = 0x2_0000_0000;

/// Upper bound on a well-formed sample rate. Keeping the rate at or below
/// half a nanosecond's worth of ticks makes duration reporting exactly
/// invertible (see `lemma_duration_of_frames_roundtrip`).
pub const MAX_SAMPLE_RATE: u32 = 500_000_000;

/// A position on the playback time axis: `secs` whole seconds plus
/// `nanos` nanoseconds.
#[derive(Clone, Copy, Debug, PartialEq, Eq, Structural)]
pub struct TimePos {
    pub secs: u64,
    pub nanos: u32,
}

impl TimePos {
    /// A well-formed position carries a sub-second nanosecond remainder and
    /// stays within bounds that keep every conversion below free of overflow.
    pub open spec fn wf(self) -> bool {
        self.nanos < NANOS_PER_SEC && self.secs <= MAX_TIME_SECS
    }

    /// The position as a total number of nanoseconds.
    pub open spec fn as_nanos(self) -> int {
        self.secs * NANOS_PER_SEC + self.nanos
    }

    pub fn new(secs: u64, nanos: u32) -> (r: TimePos)
        requires
            nanos < NANOS_PER_SEC,
            secs <= MAX_TIME_SECS,
        ensures
            r.wf(),
            r.secs == secs,
            r.nanos == nanos,
    {
        TimePos { secs, nanos }
    }

    pub open spec fn zero_spec() -> TimePos {
        TimePos { secs: 0, nanos: 0 }
    }

    pub fn zero() -> (r: TimePos)
        ensures
            r == TimePos::zero_spec(),
            r.wf(),
    {
        TimePos { secs: 0, nanos: 0 }
    }
}

/// The number of whole frames in a position at the given sample rate,
/// rounded to nearest (half away from zero): `round(seconds * rate)`.
pub open spec fn spec_frames_round(t: TimePos, rate: u32) -> int {
    (t.as_nanos() * rate + (NANOS_PER_SEC as int) / 2) / (NANOS_PER_SEC as int)
}

/// The number of whole frames in a position at the given sample rate,
/// truncated: `floor(seconds * rate)`.
pub open spec fn spec_frames_trunc(t: TimePos, rate: u32) -> int {
    (t.as_nanos() * rate) / (NANOS_PER_SEC as int)
}

/// The number of interleaved samples in a position at the given sample rate
/// and channel count, truncated: `floor(seconds * rate * channels)`.
pub open spec fn spec_samples_trunc(t: TimePos, rate: u32, channels: u16) -> int {
    (t.as_nanos() * rate * channels) / (NANOS_PER_SEC as int)
}

/// The exact duration reported for a whole number of frames at a sample
/// rate: whole seconds plus a truncated nanosecond remainder.
pub open spec fn spec_duration_of_frames(frames: u64, rate: u32) -> TimePos
    recommends
        rate >= 1,
{
    TimePos {
        secs: (frames as int / rate as int) as u64,
        nanos: (((frames as int % rate as int) * NANOS_PER_SEC) / (rate as int)) as u32,
    }
}

proof fn lemma_nanos_in_range(t: TimePos)
    requires
        t.wf(),
    ensures
        0 <= t.as_nanos() <= (MAX_TIME_SECS + 1) * NANOS_PER_SEC,
{
    assert(t.secs * NANOS_PER_SEC <= MAX_TIME_SECS * NANOS_PER_SEC) by (nonlinear_arith)
        requires
            t.secs <= MAX_TIME_SECS,
    ;
}

pub fn frames_round(t: &TimePos, rate: u32) -> (r: u64)
    requires
        t.wf(),
        spec_frames_round(*t, rate) <= u64::MAX,
    ensures
        r == spec_frames_round(*t, rate),
{
    proof {
        lemma_nanos_in_range(*t);
    }
    let tn: u64 = t.secs * NANOS_PER_SEC + (t.nanos as u64);
    proof {
        assert((tn as int) * (rate as int) <= ((MAX_TIME_SECS + 1) * NANOS_PER_SEC) * (
        u32::MAX as int)) by (nonlinear_arith)
            requires
                tn <= (MAX_TIME_SECS + 1) * NANOS_PER_SEC,
                rate <= u32::MAX,
        ;
    }
    let prod: u128 = (tn as u128) * (rate as u128) + ((NANOS_PER_SEC / 2) as u128);
    let fr: u128 = prod / (NANOS_PER_SEC as u128);
    fr as u64
}

pub fn frames_trunc(t: &TimePos, rate: u32) -> (r: u64)
    requires
        t.wf(),
        spec_frames_trunc(*t, rate) <= u64::MAX,
    ensures
        r == spec_frames_trunc(*t, rate),
{
    proof {
        lemma_nanos_in_range(*t);
    }
    let tn: u64 = t.secs * NANOS_PER_SEC + (t.nanos as u64);
    proof {
        assert((tn as int) * (rate as int) <= ((MAX_TIME_SECS + 1) * NANOS_PER_SEC) * (
        u32::MAX as int)) by (nonlinear_arith)
            requires
                tn <= (MAX_TIME_SECS + 1) * NANOS_PER_SEC,
                rate <= u32::MAX,
        ;
    }
    let prod: u128 = (tn as u128) * (rate as u128);
    let fr: u128 = prod / (NANOS_PER_SEC as u128);
    fr as u64
}

pub fn samples_trunc(t: &TimePos, rate: u32, channels: u16) -> (r: u64)
    requires
        t.wf(),
        spec_samples_trunc(*t, rate, channels) <= u64::MAX,
    ensures
        r == spec_samples_trunc(*t, rate, channels),
{
    proof {
        lemma_nanos_in_range(*t);
    }
    let tn: u64 = t.secs * NANOS_PER_SEC + (t.nanos as u64);
    proof {
        assert((tn as int) * (rate as int) <= ((MAX_TIME_SECS + 1) * NANOS_PER_SEC) * (
        u32::MAX as int)) by (nonlinear_arith)
            requires
                tn <= (MAX_TIME_SECS + 1) * NANOS_PER_SEC,
                rate <= u32::MAX,
        ;
        assert((tn as int) * (rate as int) * (channels as int) <= ((MAX_TIME_SECS + 1)
            * NANOS_PER_SEC) * (u32::MAX as int) * (u16::MAX as int)) by (nonlinear_arith)
            requires
                0 <= (tn as int) * (rate as int) <= ((MAX_TIME_SECS + 1) * NANOS_PER_SEC) * (
                u32::MAX as int),
                channels <= u16::MAX,
        ;
    }
    let prod: u128 = (tn as u128) * (rate as u128) * (channels as u128);
    let fr: u128 = prod / (NANOS_PER_SEC as u128);
    fr as u64
}

/// Exact addition of two time positions; `None` when the sum leaves the
/// well-formed range.
pub fn time_add(a: &TimePos, b: &TimePos) -> (r: Option<TimePos>)
    requires
        a.wf(),
        b.wf(),
    ensures
        match r {
            Some(c) => c.wf() && c.as_nanos() == a.as_nanos() + b.as_nanos(),
            None => a.as_nanos() + b.as_nanos() > MAX_TIME_SECS * NANOS_PER_SEC + (NANOS_PER_SEC
                - 1),
        },
{
    let mut nanos: u32 = a.nanos + b.nanos;
    let mut carry: u64 = 0;
    if nanos >= 1_000_000_000u32 {
        nanos = nanos - 1_000_000_000u32;
        carry = 1;
    }
    let secs = a.secs + b.secs + carry;
    if secs > MAX_TIME_SECS {
        return None;
    }
    Some(TimePos { secs, nanos })
}

/// Truncated frame conversion for rates within the decode-stream cap; the
/// result always fits `u64` there.
pub fn frames_trunc_capped(t: &TimePos, rate: u32) -> (r: u64)
    requires
        t.wf(),
        1 <= rate <= MAX_SAMPLE_RATE,
    ensures
        r == spec_frames_trunc(*t, rate),
{
    proof {
        lemma_nanos_in_range(*t);
        assert(t.as_nanos() * rate >= 0) by (nonlinear_arith)
            requires
                t.as_nanos() >= 0,
                rate >= 0,
        ;
        vstd::arithmetic::div_mod::lemma_div_pos_is_pos(t.as_nanos() * rate, NANOS_PER_SEC as int);
        assert(t.as_nanos() * rate <= ((MAX_TIME_SECS + 1) * NANOS_PER_SEC) * (
        MAX_SAMPLE_RATE as int)) by (nonlinear_arith)
            requires
                0 <= t.as_nanos() <= (MAX_TIME_SECS + 1) * NANOS_PER_SEC,
                0 <= rate <= MAX_SAMPLE_RATE,
        ;
        vstd::arithmetic::div_mod::lemma_div_is_ordered(
            t.as_nanos() * rate,
            ((MAX_TIME_SECS + 1) * NANOS_PER_SEC) * (MAX_SAMPLE_RATE as int),
            NANOS_PER_SEC as int,
        );
    }
    frames_trunc(t, rate)
}

/// The duration a decode stream reports for `frames` frames at `rate`.
pub fn duration_of_frames(frames: u64, rate: u32) -> (r: TimePos)
    requires
        1 <= rate <= MAX_SAMPLE_RATE,
        frames <= u32::MAX,
    ensures
        r == spec_duration_of_frames(frames, rate),
        r.wf(),
{
    let secs: u64 = frames / (rate as u64);
    let rem: u64 = frames % (rate as u64);
    let nanos: u64 = (rem * NANOS_PER_SEC) / (rate as u64);
    proof {
        assert(rem * NANOS_PER_SEC <= (MAX_SAMPLE_RATE as int) * NANOS_PER_SEC)
            by (nonlinear_arith)
            requires
                rem <= MAX_SAMPLE_RATE,
        ;
        assert((rem * NANOS_PER_SEC) / (rate as int) < NANOS_PER_SEC) by (nonlinear_arith)
            requires
                rem < rate,
                1 <= rate,
        ;
    }
    TimePos { secs, nanos: nanos as u32 }
}

/// Reporting a frame count as a duration and converting that duration back
/// to frames (rounded to nearest) is the identity: the frame count of a clip
/// is exactly `round(total_duration_seconds * sample_rate)`.
pub proof fn lemma_duration_of_frames_roundtrip(frames: u64, rate: u32)
    requires
        1 <= rate <= MAX_SAMPLE_RATE,
        frames <= u32::MAX,
    ensures
        spec_frames_round(spec_duration_of_frames(frames, rate), rate) == frames,
        spec_duration_of_frames(frames, rate).wf(),
{
    let f = frames as int;
    let ra = rate as int;
    let nps = NANOS_PER_SEC as int;
    let s = f / ra;
    let m = f % ra;
    let n = (m * nps) / ra;
    let r = (m * nps) % ra;
    vstd::arithmetic::div_mod::lemma_fundamental_div_mod(f, ra);
    vstd::arithmetic::div_mod::lemma_fundamental_div_mod(m * nps, ra);
    assert(0 <= m < ra) by {
        vstd::arithmetic::div_mod::lemma_mod_bound(f, ra);
    }
    assert(0 <= r < ra) by {
        vstd::arithmetic::div_mod::lemma_mod_bound(m * nps, ra);
    }
    assert(m * nps < ra * nps) by (nonlinear_arith)
        requires
            0 <= m < ra,
            nps > 0,
    ;
    assert(n < nps) by {
        assert(ra * n <= m * nps) by {
            assert(ra * n == m * nps - r);
        }
        assert(ra * n < ra * nps);
        assert(n < nps) by (nonlinear_arith)
            requires
                ra * n < ra * nps,
                ra > 0,
        ;
    }
    assert(0 <= n) by {
        vstd::arithmetic::div_mod::lemma_div_is_ordered(0, m * nps, ra);
        assert(m * nps >= 0) by (nonlinear_arith)
            requires
                m >= 0,
                nps >= 0,
        ;
    }
    let t = spec_duration_of_frames(frames, rate);
    assert(t.secs == s && t.nanos == n);
    assert(0 <= s <= u32::MAX) by {
        vstd::arithmetic::div_mod::lemma_div_nonincreasing(f, ra);
        vstd::arithmetic::div_mod::lemma_div_pos_is_pos(f, ra);
    }
    assert(t.wf());
    // The total nanoseconds of the reported duration.
    let tn = t.as_nanos();
    assert(tn == s * nps + n);
    // tn * ra == f * nps - r, so rounding recovers f exactly because
    // 0 <= r < ra <= nps / 2.
    assert(tn * ra == (s * nps + n) * ra);
    assert((s * nps + n) * ra == s * nps * ra + n * ra) by (nonlinear_arith);
    assert(n * ra == ra * n) by (nonlinear_arith);
    assert(s * nps * ra == s * ra * nps) by (nonlinear_arith);
    assert(s * ra * nps + m * nps == (s * ra + m) * nps) by (nonlinear_arith);
    assert(s * ra == ra * s) by (nonlinear_arith);
    assert(s * ra + m == f);
    assert(tn * ra == f * nps - r);
    assert(spec_frames_round(t, rate) == (f * nps - r + nps / 2) / nps);
    assert(nps / 2 - r >= 0) by {
        assert(ra <= nps / 2);
    }
    assert(nps / 2 - r < nps);
    assert((f * nps + (nps / 2 - r)) / nps == f) by {
        vstd::arithmetic::div_mod::lemma_fundamental_div_mod_converse(
            f * nps + (nps / 2 - r),
            nps,
            f,
            nps / 2 - r,
        );
    }
    assert(f * nps - r + nps / 2 == f * nps + (nps / 2 - r));
}

} // verus!
