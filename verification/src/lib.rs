//! Verified core of a small Vulkan renderer: font-atlas character ranges and
//! glyph packing, text layout, device and swapchain selection rules, memory
//! and image-layout rules, frame bookkeeping, window placement and
//! command-line handling.

pub mod error;
pub mod strings;

pub mod font;
pub mod glyph;
pub mod text;
pub mod text_laws;
pub mod atlas;
pub mod font_atlas;
pub mod canvas;

pub mod vertex;
pub mod device;
pub mod swapchain;
pub mod memory;
pub mod frames;
pub mod renderer;
pub mod diagnostics;

pub mod config;
pub mod window;
pub mod host;
