use crate::swapchain::{clamp_spec, clamp_u32};
use vstd::prelude::*;

verus! {

/// The largest logical window size: 3840 by 2160.
pub const MAX_VIDEO_MODE_WIDTH: u32 = 3840;

/// See `MAX_VIDEO_MODE_WIDTH`.
pub const MAX_VIDEO_MODE_HEIGHT: u32 = 2160;

/// The graphics settings.
#[derive(Clone, Debug)]
pub struct Config {
    pub windowed: bool,
    pub preferred_monitor: Option<String>,
    pub preferred_device: Option<String>,
    /// Logical width.
    pub width: u32,
    /// Logical height.
    pub height: u32,
    pub bit_depth: u16,
    pub refresh_rate: u32,
}

impl Default for Config {
    /// Everything off, zero or absent.
    fn default() -> (r: Self)
        ensures
            !r.windowed,
            r.preferred_monitor is None,
            r.preferred_device is None,
            r.width == 0,
            r.height == 0,
            r.bit_depth == 0,
            r.refresh_rate == 0,
    {
        Config {
            windowed: false,
            preferred_monitor: None,
            preferred_device: None,
            width: 0,
            height: 0,
            bit_depth: 0,
            refresh_rate: 0,
        }
    }
}

/// Settings given on the command line, which take precedence over stored
/// ones.
#[derive(Clone, Copy, Debug, Default)]
pub struct ConfigOverrides {
    pub windowed: Option<bool>,
    pub width: Option<u32>,
    pub height: Option<u32>,
    pub bit_depth: Option<u16>,
    pub refresh_rate: Option<u32>,
}

/// The settings the renderer starts from before stored values are read: an
/// 800 by 600 window, 24-bit colour at 60 Hz.
pub fn default_config() -> (r: Config)
    ensures
        r.windowed,
        r.preferred_monitor is None,
        r.preferred_device is None,
        r.width == 800,
        r.height == 600,
        r.bit_depth == 24,
        r.refresh_rate == 60,
{
    let mut config = Config::default();
    config.windowed = true;
    config.width = 800;
    config.height = 600;
    config.bit_depth = 24;
    config.refresh_rate = 60;
    config
}

/// `o`'s value where there is one, else `v`.
pub open spec fn override_with<T>(v: T, o: Option<T>) -> T {
    match o {
        Some(x) => x,
        None => v,
    }
}

/// Whether the settings lie in the ranges the renderer supports.
pub open spec fn in_supported_ranges(c: Config) -> bool {
    &&& 400 <= c.width <= MAX_VIDEO_MODE_WIDTH
    &&& 200 <= c.height <= MAX_VIDEO_MODE_HEIGHT
    &&& 24 <= c.bit_depth <= 32
    &&& 50 <= c.refresh_rate <= 200
}

/// Applies the command-line settings `args` over `config`, then brings the
/// window size, colour depth and refresh rate into the supported ranges.
pub fn apply_overrides(config: &mut Config, args: &ConfigOverrides)
    ensures
        final(config).windowed == override_with(old(config).windowed, args.windowed),
        final(config).width == clamp_spec(
            override_with(old(config).width, args.width) as int,
            400,
            MAX_VIDEO_MODE_WIDTH as int,
        ),
        final(config).height == clamp_spec(
            override_with(old(config).height, args.height) as int,
            200,
            MAX_VIDEO_MODE_HEIGHT as int,
        ),
        final(config).bit_depth == clamp_spec(
            override_with(old(config).bit_depth, args.bit_depth) as int,
            24,
            32,
        ),
        final(config).refresh_rate == clamp_spec(
            override_with(old(config).refresh_rate, args.refresh_rate) as int,
            50,
            200,
        ),
        final(config).preferred_monitor == old(config).preferred_monitor,
        final(config).preferred_device == old(config).preferred_device,
        in_supported_ranges(*final(config)),
{
    if let Some(windowed) = args.windowed {
        config.windowed = windowed;
    }
    if let Some(width) = args.width {
        config.width = width;
    }
    if let Some(height) = args.height {
        config.height = height;
    }
    if let Some(bit_depth) = args.bit_depth {
        config.bit_depth = bit_depth;
    }
    if let Some(refresh_rate) = args.refresh_rate {
        config.refresh_rate = refresh_rate;
    }
    config.width = clamp_u32(config.width, 400, MAX_VIDEO_MODE_WIDTH);
    config.height = clamp_u32(config.height, 200, MAX_VIDEO_MODE_HEIGHT);
    config.bit_depth = clamp_depth(config.bit_depth);
    config.refresh_rate = clamp_u32(config.refresh_rate, 50, 200);
}

fn clamp_depth(v: u16) -> (r: u16)
    ensures
        r == clamp_spec(v as int, 24, 32),
{
    if v < 24 {
        24
    } else if v > 32 {
        32
    } else {
        v
    }
}

/// Settings already in the supported ranges are left as they are when no
/// command-line setting is given.
pub proof fn law_clamping_keeps_supported_settings(c: Config)
    requires
        in_supported_ranges(c),
    ensures
        clamp_spec(c.width as int, 400, MAX_VIDEO_MODE_WIDTH as int) == c.width,
        clamp_spec(c.height as int, 200, MAX_VIDEO_MODE_HEIGHT as int) == c.height,
        clamp_spec(c.bit_depth as int, 24, 32) == c.bit_depth,
        clamp_spec(c.refresh_rate as int, 50, 200) == c.refresh_rate,
{
}

} // verus!
