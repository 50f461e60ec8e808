use crate::error::VkError;
use vstd::prelude::*;

verus! {

/// How long a resize must have settled before the swapchain is rebuilt.
pub const RESIZE_DEBOUNCE_MS: u64 = 200;

/// The frame-to-frame decisions of the renderer: whether a resize is
/// waiting to settle, whether the swapchain must be rebuilt, the swapchain
/// image of the frame and whether its commands are being recorded.
#[derive(Clone, Copy, Debug, PartialEq, Eq)]
pub struct FrameState {
    pub resize_pending: bool,
    pub recreate_swapchain: bool,
    pub image_index: Option<usize>,
    pub recording: bool,
}

impl FrameState {
    /// No resize, no rebuild, no frame under way.
    pub fn new() -> (r: Self)
        ensures
            !r.resize_pending,
            !r.recreate_swapchain,
            r.image_index is None,
            !r.recording,
    {
        FrameState {
            resize_pending: false,
            recreate_swapchain: false,
            image_index: None,
            recording: false,
        }
    }

    /// The window was resized: the rebuild waits until the size settles.
    pub fn mark_resized(&mut self)
        ensures
            *final(self) == (FrameState { resize_pending: true, ..*old(self) }),
    {
        self.resize_pending = true;
    }

    /// Starts a frame, `resize_elapsed_ms` after the last resize: the image
    /// and command buffer of the previous frame are dropped, and a resize
    /// that has settled asks for a rebuild. Returns whether to acquire a
    /// swapchain image, which is skipped while a rebuild is due.
    pub fn begin_frame(&mut self, resize_elapsed_ms: u64) -> (acquire: bool)
        ensures
            final(self).image_index is None,
            !final(self).recording,
            final(self).resize_pending == old(self).resize_pending,
            final(self).recreate_swapchain == (old(self).recreate_swapchain || (
            old(self).resize_pending && resize_elapsed_ms >= RESIZE_DEBOUNCE_MS)),
            acquire == !final(self).recreate_swapchain,
    {
        self.image_index = None;
        self.recording = false;
        if self.resize_pending && resize_elapsed_ms >= RESIZE_DEBOUNCE_MS {
            self.recreate_swapchain = true;
        }
        !self.recreate_swapchain
    }

    /// Takes in the result of acquiring an image: the image becomes the
    /// frame's; a changed swapchain asks for a rebuild unless a resize is
    /// still settling; another failure is only reported. Returns whether to
    /// begin the render pass.
    pub fn on_acquired(&mut self, result: &Result<usize, VkError>) -> (begin_pass: bool)
        ensures
            final(self).resize_pending == old(self).resize_pending,
            final(self).recording == old(self).recording,
            match result {
                Ok(i) => final(self).image_index == Some(*i) && final(self).recreate_swapchain
                    == old(self).recreate_swapchain,
                Err(VkError::SwapchainChanged) => final(self).image_index == old(
                    self,
                ).image_index && final(self).recreate_swapchain == (old(self).recreate_swapchain
                    || !old(self).resize_pending),
                Err(_) => final(self).image_index == old(self).image_index
                    && final(self).recreate_swapchain == old(self).recreate_swapchain,
            },
            begin_pass == final(self).image_index is Some,
    {
        match result {
            Ok(i) => {
                self.image_index = Some(*i);
            },
            Err(VkError::SwapchainChanged) => {
                if !self.resize_pending {
                    self.recreate_swapchain = true;
                }
            },
            Err(_) => {},
        }
        self.image_index.is_some()
    }

    /// Takes in whether the render pass began: commands are recorded only
    /// then. A render pass is begun only for an acquired image.
    pub fn on_render_pass_begun(&mut self, ok: bool)
        requires
            old(self).image_index is Some,
        ensures
            *final(self) == (FrameState { recording: ok, ..*old(self) }),
    {
        self.recording = ok;
    }

    /// Takes in the result of presenting the frame's image: a changed
    /// swapchain asks for a rebuild unless a resize is still settling, and
    /// the image is released. Returns `false`, leaving the state as it was,
    /// when presenting failed.
    pub fn on_presented(&mut self, result: &Result<bool, VkError>) -> (go_on: bool)
        ensures
            go_on == (result is Ok),
            final(self).resize_pending == old(self).resize_pending,
            final(self).recording == old(self).recording,
            match result {
                Ok(changed) => final(self).image_index is None && final(self).recreate_swapchain
                    == (if old(self).resize_pending {
                    old(self).recreate_swapchain
                } else {
                    *changed
                }),
                Err(_) => *final(self) == *old(self),
            },
    {
        match result {
            Ok(changed) => {
                if !self.resize_pending {
                    self.recreate_swapchain = *changed;
                }
                self.image_index = None;
                true
            },
            Err(_) => false,
        }
    }

    /// Whether to rebuild the swapchain for a window of the given size now:
    /// never for a minimized window, which keeps any pending resize; a
    /// rebuild clears the pending resize.
    pub fn start_recreate(&mut self, width: u32, height: u32) -> (attempt: bool)
        ensures
            attempt == (width != 0 && height != 0),
            attempt ==> *final(self) == (FrameState { resize_pending: false, ..*old(self) }),
            !attempt ==> *final(self) == *old(self),
    {
        if width == 0 || height == 0 {
            return false;
        }
        self.resize_pending = false;
        true
    }

    /// Takes in whether the rebuild succeeded (a skipped rebuild counts as
    /// one): after success no rebuild is due.
    pub fn on_recreated(&mut self, ok: bool)
        ensures
            ok ==> *final(self) == (FrameState { recreate_swapchain: false, ..*old(self) }),
            !ok ==> *final(self) == *old(self),
    {
        if ok {
            self.recreate_swapchain = false;
        }
    }
}

} // verus!
