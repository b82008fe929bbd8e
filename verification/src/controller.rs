//! Shared loop-control state of a loopable source.
//!
//! The controller is the single-writer loop configuration that a clip's
//! control calls mutate and that the source consults on every sample. A loop
//! becomes active only when it has been started and both boundary frames are
//! present; the setters establish the boundaries atomically, so the source
//! never observes a torn start/end pair.

use vstd::prelude::*;

verus! {

/// Loop-control state: whether looping has been started, an optional repeat
/// count (caller bookkeeping only), and the loop window in frames.
#[derive(Clone, Copy, Debug, PartialEq, Eq, Structural)]
pub struct CustomSourceController {
    pub loop_start: Option<bool>,
    pub loop_count: Option<u16>,
    pub loop_start_frame: Option<u32>,
    pub loop_end_frame: Option<u32>,
}

impl CustomSourceController {
    /// A well-formed controller only reports looping as started when both
    /// boundary frames are present and the window is non-empty.
    pub open spec fn wf(self) -> bool {
        self.loop_start == Some(true) ==> {
            &&& self.loop_start_frame is Some
            &&& self.loop_end_frame is Some
            &&& self.loop_start_frame->0 < self.loop_end_frame->0
        }
    }

    /// Looping is active: started, with both boundaries set.
    pub open spec fn loop_active(self) -> bool {
        self.loop_start == Some(true)
    }

    /// The first frame of the active loop window.
    pub open spec fn start_frame_spec(self) -> u32
        recommends
            self.loop_active(),
            self.wf(),
    {
        self.loop_start_frame->0
    }

    /// One past the last frame of the active loop window.
    pub open spec fn end_frame_spec(self) -> u32
        recommends
            self.loop_active(),
            self.wf(),
    {
        self.loop_end_frame->0
    }

    /// The idle controller a fresh source starts with.
    pub open spec fn new_spec() -> CustomSourceController {
        CustomSourceController {
            loop_start: None,
            loop_count: None,
            loop_start_frame: None,
            loop_end_frame: None,
        }
    }

    pub fn new() -> (r: CustomSourceController)
        ensures
            r == CustomSourceController::new_spec(),
            r.wf(),
            !r.loop_active(),
    {
        CustomSourceController { loop_start: None, loop_count: None, loop_start_frame: None, loop_end_frame: None }
    }

    /// Enables looping over `[start_frame, end_frame)`. The window must be
    /// non-empty: looping over an empty or inverted window is undefined, and
    /// callers reject such a window before delegating here.
    pub fn set_loop(&mut self, start_frame: u32, end_frame: u32)
        requires
            start_frame < end_frame,
        ensures
            *final(self) == (CustomSourceController {
                loop_start: Some(true),
                loop_start_frame: Some(start_frame),
                loop_end_frame: Some(end_frame),
                ..*old(self)
            }),
            final(self).wf(),
            final(self).loop_active(),
    {
        self.loop_start = Some(true);
        self.loop_start_frame = Some(start_frame);
        self.loop_end_frame = Some(end_frame);
    }

    /// Stops looping. The boundary frames are kept as metadata; only the
    /// started flag is lowered.
    pub fn clear_loop(&mut self)
        ensures
            *final(self) == (CustomSourceController { loop_start: Some(false), ..*old(self) }),
            final(self).wf(),
            !final(self).loop_active(),
    {
        self.loop_start = Some(false);
    }

    /// Enables looping over `[start_frame, end_frame)` and records a repeat
    /// count. The count is bookkeeping for the caller: the source itself
    /// loops unconditionally while looping is active.
    pub fn set_loop_with_count(&mut self, start_frame: u32, end_frame: u32, count: u16)
        requires
            start_frame < end_frame,
        ensures
            *final(self) == (CustomSourceController {
                loop_start: Some(true),
                loop_start_frame: Some(start_frame),
                loop_end_frame: Some(end_frame),
                loop_count: Some(count),
            }),
            final(self).wf(),
            final(self).loop_active(),
    {
        self.loop_start = Some(true);
        self.loop_start_frame = Some(start_frame);
        self.loop_end_frame = Some(end_frame);
        self.loop_count = Some(count);
    }
}

} // verus!
