use vstd::prelude::*;

verus! {

/// How many frames the renderer records ahead of the GPU.
pub const MAX_FRAMES_IN_FLIGHT: usize = 2;

/// The frame index after `i`, wrapping around after the last frame.
pub open spec fn next_frame(i: int) -> int {
    (i + 1) % (MAX_FRAMES_IN_FLIGHT as int)
}

/// The frame index after `n` advances from `i`.
pub open spec fn frame_after(i: int, n: nat) -> int
    decreases n,
{
    if n == 0 {
        i
    } else {
        next_frame(frame_after(i, (n - 1) as nat))
    }
}

/// The per-frame objects of the frames in flight, and which of them the
/// current frame uses.
pub struct FramesInFlight<T> {
    current_frame: usize,
    frames: Vec<T>,
}

impl<T> FramesInFlight<T> {
    /// The index of the current frame.
    pub closed spec fn current(&self) -> int {
        self.current_frame as int
    }

    /// The per-frame objects, in frame order.
    pub closed spec fn objects(&self) -> Seq<T> {
        self.frames@
    }

    /// The current frame index is always one of the frames in flight.
    pub closed spec fn wf(&self) -> bool {
        self.current_frame < MAX_FRAMES_IN_FLIGHT
    }

    /// Frames in flight over `frames`, one per frame, starting at the first.
    pub fn new(frames: Vec<T>) -> (r: Self)
        requires
            frames@.len() == MAX_FRAMES_IN_FLIGHT,
        ensures
            r.wf(),
            r.current() == 0,
            r.objects() == frames@,
    {
        FramesInFlight { current_frame: 0, frames }
    }

    /// The index of the current frame.
    pub fn current_frame(&self) -> (r: usize)
        ensures
            r == self.current(),
    {
        self.current_frame
    }

    /// Moves on to the next frame, wrapping around after the last.
    pub fn advance_frame_index(&mut self)
        requires
            old(self).wf(),
        ensures
            final(self).wf(),
            final(self).current() == next_frame(old(self).current()),
            final(self).objects() == old(self).objects(),
    {
        self.current_frame = (self.current_frame + 1) % MAX_FRAMES_IN_FLIGHT;
    }

    /// The objects of the current frame.
    pub fn frame(&self) -> (r: &T)
        requires
            self.current() < self.objects().len(),
        ensures
            *r == self.objects()[self.current()],
    {
        &self.frames[self.current_frame]
    }

    /// Hands back the per-frame objects so that they can be destroyed; no
    /// frame is left.
    pub fn take_frames(&mut self) -> (r: Vec<T>)
        ensures
            r@ == old(self).objects(),
            final(self).objects().len() == 0,
            final(self).current() == old(self).current(),
    {
        let mut frames: Vec<T> = Vec::new();
        std::mem::swap(&mut frames, &mut self.frames);
        frames
    }
}

/// Advancing keeps the frame index among the frames in flight.
pub proof fn law_advance_stays_in_range(i: int, n: nat)
    requires
        0 <= i < MAX_FRAMES_IN_FLIGHT,
    ensures
        0 <= frame_after(i, n) < MAX_FRAMES_IN_FLIGHT,
    decreases n,
{
    if n > 0 {
        law_advance_stays_in_range(i, (n - 1) as nat);
    }
}

/// After as many advances as there are frames in flight, the same frame is
/// current again.
pub proof fn law_advance_cycles(i: int)
    requires
        0 <= i < MAX_FRAMES_IN_FLIGHT,
    ensures
        frame_after(i, MAX_FRAMES_IN_FLIGHT as nat) == i,
{
    assert(frame_after(i, 1) == next_frame(frame_after(i, 0)));
    assert(frame_after(i, 2) == next_frame(frame_after(i, 1)));
}

} // verus!
