use crate::error::VkError;
use vstd::prelude::*;

verus! {

/// `VK_FORMAT_B8G8R8A8_SRGB`.
pub const FORMAT_B8G8R8A8_SRGB: i32 = 50;

/// `VK_COLOR_SPACE_SRGB_NONLINEAR_KHR`.
pub const COLOR_SPACE_SRGB_NONLINEAR: i32 = 0;

/// `VK_PRESENT_MODE_MAILBOX_KHR`.
pub const PRESENT_MODE_MAILBOX: i32 = 1;

/// `VK_PRESENT_MODE_FIFO_KHR`, which every surface supports.
pub const PRESENT_MODE_FIFO: i32 = 2;

/// `VK_ERROR_OUT_OF_DATE_KHR`.
pub const ERROR_OUT_OF_DATE: i32 = -1000001004;

/// A pixel format with its colour space.
#[derive(Clone, Copy, Debug, PartialEq, Eq)]
pub struct SurfaceFormat {
    pub format: i32,
    pub color_space: i32,
}

/// A width and a height in pixels.
#[derive(Clone, Copy, Debug, PartialEq, Eq)]
pub struct Extent2D {
    pub width: u32,
    pub height: u32,
}

/// The part of a surface's capabilities that the swapchain set-up reads.
#[derive(Clone, Copy, Debug, PartialEq, Eq)]
pub struct SurfaceCapabilities {
    pub min_image_count: u32,
    /// Zero when there is no upper limit.
    pub max_image_count: u32,
    /// Width `u32::MAX` when the surface size follows the swapchain.
    pub current_extent: Extent2D,
    pub min_image_extent: Extent2D,
    pub max_image_extent: Extent2D,
}

/// What a surface supports on a physical device.
pub struct SwapchainSupport {
    pub capabilities: SurfaceCapabilities,
    pub formats: Vec<SurfaceFormat>,
    pub present_modes: Vec<i32>,
}

/// The format the swapchain prefers: 8-bit BGRA in sRGB.
pub open spec fn preferred_format() -> SurfaceFormat {
    SurfaceFormat { format: FORMAT_B8G8R8A8_SRGB, color_space: COLOR_SPACE_SRGB_NONLINEAR }
}

/// `v` clamped into `min..=max`.
pub open spec fn clamp_spec(v: int, min: int, max: int) -> int {
    if v < min {
        min
    } else if v > max {
        max
    } else {
        v
    }
}

/// `u32::clamp`; it panics when `min > max`, so that is excluded.
pub fn clamp_u32(v: u32, min: u32, max: u32) -> (r: u32)
    requires
        min <= max,
    ensures
        r == clamp_spec(v as int, min as int, max as int),
{
    if v < min {
        min
    } else if v > max {
        max
    } else {
        v
    }
}

impl SwapchainSupport {
    /// One image more than the minimum, capped at the maximum when there is
    /// one.
    pub fn get_optimal_image_count(&self) -> (r: u32)
        requires
            self.capabilities.min_image_count < u32::MAX,
        ensures
            r == if self.capabilities.max_image_count != 0 && self.capabilities.min_image_count + 1
                > self.capabilities.max_image_count {
                self.capabilities.max_image_count as int
            } else {
                self.capabilities.min_image_count + 1
            },
    {
        let mut image_count = self.capabilities.min_image_count + 1;
        if self.capabilities.max_image_count != 0 && image_count
            > self.capabilities.max_image_count {
            image_count = self.capabilities.max_image_count;
        }
        image_count
    }

    /// The swapchain size: the surface's current size, or, when the surface
    /// leaves it to the swapchain, the window size clamped into the allowed
    /// range.
    pub fn get_swapchain_extent(&self, window_width: u32, window_height: u32) -> (r: Extent2D)
        requires
            self.capabilities.current_extent.width == u32::MAX ==> {
                &&& self.capabilities.min_image_extent.width
                    <= self.capabilities.max_image_extent.width
                &&& self.capabilities.min_image_extent.height
                    <= self.capabilities.max_image_extent.height
            },
        ensures
            r == swapchain_extent(self.capabilities, window_width, window_height),
    {
        get_swapchain_extent(window_width, window_height, &self.capabilities)
    }
}

/// The swapchain size for a window of `w` x `h` pixels.
pub open spec fn swapchain_extent(c: SurfaceCapabilities, w: u32, h: u32) -> Extent2D {
    if c.current_extent.width != u32::MAX {
        c.current_extent
    } else {
        Extent2D {
            width: clamp_spec(
                w as int,
                c.min_image_extent.width as int,
                c.max_image_extent.width as int,
            ) as u32,
            height: clamp_spec(
                h as int,
                c.min_image_extent.height as int,
                c.max_image_extent.height as int,
            ) as u32,
        }
    }
}

/// The swapchain size for a window of `window_width` x `window_height`.
pub fn get_swapchain_extent(window_width: u32, window_height: u32, capabilities: &SurfaceCapabilities) -> (r:
    Extent2D)
    requires
        capabilities.current_extent.width == u32::MAX ==> {
            &&& capabilities.min_image_extent.width <= capabilities.max_image_extent.width
            &&& capabilities.min_image_extent.height <= capabilities.max_image_extent.height
        },
    ensures
        r == swapchain_extent(*capabilities, window_width, window_height),
{
    if capabilities.current_extent.width != u32::MAX {
        capabilities.current_extent
    } else {
        Extent2D {
            width: clamp_u32(
                window_width,
                capabilities.min_image_extent.width,
                capabilities.max_image_extent.width,
            ),
            height: clamp_u32(
                window_height,
                capabilities.min_image_extent.height,
                capabilities.max_image_extent.height,
            ),
        }
    }
}

/// The preferred format when the surface offers it, else the first format
/// it offers. The list must not be empty.
pub fn get_swapchain_surface_format(formats: &[SurfaceFormat]) -> (r: SurfaceFormat)
    requires
        formats@.len() > 0,
    ensures
        r == if formats@.contains(preferred_format()) {
            preferred_format()
        } else {
            formats@[0]
        },
{
    let n = formats.len();
    let mut i: usize = 0;
    while i < n
        invariant
            n == formats@.len(),
            i <= n,
            forall|j: int| 0 <= j < i ==> formats@[j] != preferred_format(),
        decreases n - i,
    {
        let f = formats[i];
        if f.format == FORMAT_B8G8R8A8_SRGB && f.color_space == COLOR_SPACE_SRGB_NONLINEAR {
            proof {
                assert(formats@[i as int] == preferred_format());
            }
            return f;
        }
        i = i + 1;
    }
    formats[0]
}

/// Mailbox when the surface offers it, else FIFO.
pub fn find_best_swapchain_present_mode(present_modes: &[i32]) -> (r: i32)
    ensures
        r == if present_modes@.contains(PRESENT_MODE_MAILBOX) {
            PRESENT_MODE_MAILBOX
        } else {
            PRESENT_MODE_FIFO
        },
{
    let n = present_modes.len();
    let mut i: usize = 0;
    while i < n
        invariant
            n == present_modes@.len(),
            i <= n,
            forall|j: int| 0 <= j < i ==> present_modes@[j] != PRESENT_MODE_MAILBOX,
        decreases n - i,
    {
        if present_modes[i] == PRESENT_MODE_MAILBOX {
            return PRESENT_MODE_MAILBOX;
        }
        i = i + 1;
    }
    PRESENT_MODE_FIFO
}

/// How the swapchain images are shared between queue families: exclusively
/// when graphics and presentation use one family, else concurrently between
/// both families (graphics first).
pub fn image_sharing(graphics: u32, present: u32) -> (r: (bool, Vec<u32>))
    ensures
        r.0 == (graphics != present),
        r.1@ == if graphics != present {
            seq![graphics, present]
        } else {
            Seq::<u32>::empty()
        },
{
    let mut queue_family_indices: Vec<u32> = Vec::new();
    if graphics != present {
        queue_family_indices.push(graphics);
        queue_family_indices.push(present);
        proof {
            assert(queue_family_indices@ =~= seq![graphics, present]);
        }
        (true, queue_family_indices)
    } else {
        proof {
            assert(queue_family_indices@ =~= Seq::<u32>::empty());
        }
        (false, queue_family_indices)
    }
}

/// What acquiring the next swapchain image means: a suboptimal or out-of-date
/// swapchain must be recreated; another failure is passed on.
pub fn acquire_outcome(result: Result<(u32, bool), i32>) -> (r: Result<usize, VkError>)
    ensures
        match result {
            Ok((index, suboptimal)) => if suboptimal {
                r matches Err(VkError::SwapchainChanged)
            } else {
                r == Ok::<usize, VkError>(index as usize)
            },
            Err(code) => if code == ERROR_OUT_OF_DATE {
                r matches Err(VkError::SwapchainChanged)
            } else {
                r matches Err(VkError::VkErrorCode(c)) && c == code
            },
        },
{
    match result {
        Ok((image_index, suboptimal)) => {
            if suboptimal {
                Err(VkError::SwapchainChanged)
            } else {
                Ok(image_index as usize)
            }
        },
        Err(code) => {
            if code == ERROR_OUT_OF_DATE {
                Err(VkError::SwapchainChanged)
            } else {
                Err(VkError::VkErrorCode(code))
            }
        },
    }
}

/// What presenting a frame means: a suboptimal (`Ok(true)`) or out-of-date
/// swapchain is reported as changed; another failure is passed on.
pub fn present_outcome(result: Result<bool, i32>) -> (r: Result<bool, VkError>)
    ensures
        match result {
            Ok(suboptimal) => r == Ok::<bool, VkError>(suboptimal),
            Err(code) => if code == ERROR_OUT_OF_DATE {
                r == Ok::<bool, VkError>(true)
            } else {
                r matches Err(VkError::VkErrorCode(c)) && c == code
            },
        },
{
    let changed = match result {
        Ok(s) => s,
        Err(code) => code == ERROR_OUT_OF_DATE,
    };
    if !changed {
        if let Err(e) = result {
            return Err(VkError::VkErrorCode(e));
        }
    }
    Ok(changed)
}

} // verus!
