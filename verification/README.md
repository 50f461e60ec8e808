# rg_vulkan

The decision-making core of a small Vulkan renderer, written in Verus and
verified. Every function in `src/` carries a contract; Verus proves all of
them except those of the few trusted wrappers around the `guillotiere` and
`uuid` crates and single standard-library calls, whose doc comments say what
they claim of the code they call.

- `font`, `font_atlas`, `atlas`: character ranges of a font atlas (merging,
  expansion to characters) and packing of glyph bitmaps into atlas layers.
- `glyph`, `text`, `text_laws`, `canvas`: glyph instances and text layout
  without wrapping, with character wrapping and with word wrapping, with
  their measuring counterparts and the laws that tie the two together.
- `device`, `swapchain`, `memory`, `diagnostics`: physical-device selection,
  device ids and their text form, swapchain settings, memory types, depth
  formats, image layout transitions and staging-buffer layout.
- `frames`, `renderer`, `vertex`: frames in flight, the frame-to-frame
  decisions of the renderer, vertex types and cube batching.
- `config`, `window`, `host`, `strings`: settings, window placement, monitor
  and video-mode choice, the host's command line, and text helpers.

`app/` holds the parts that are not verified: the program's `main`, the
device queries to the Vulkan driver, the error type with its messages, font
rasterization in floating point, vertex layouts read from the compiler, the
monitor and window attributes of the windowing system, and the settings
files. Creating pipelines, recording frames and uploading textures through
the driver are not part of this crate.
