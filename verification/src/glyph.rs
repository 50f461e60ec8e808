use std::collections::HashMap;
use vstd::prelude::*;

verus! {

broadcast use vstd::std_specs::hash::group_hash_axioms;

/// Opaque white, the colour a glyph instance gets unless one is given.
pub const WHITE: u32 = 0xffff_ffff;

/// The integer metrics of a rasterized glyph, as the vertex shader reads
/// them: the pen advance, the drawing offset from the pen position, the
/// pixel size, the texture coordinates scaled to the full `u16` range, and
/// the atlas layer that holds the bitmap.
#[derive(Clone, Copy, Debug, PartialEq, Eq)]
pub struct GlyphMetrics {
    pub advance: i32,
    pub offset_x: i32,
    pub offset_y: i32,
    pub width: u16,
    pub height: u16,
    pub uv_min: [u16; 2],
    pub uv_max: [u16; 2],
    pub layer_index: u32,
}

/// One instance of the glyph quad: screen position, size, colour, texture
/// rectangle and atlas layer.
#[derive(Clone, Copy, Debug, PartialEq, Eq)]
pub struct GlyphInstance {
    pub pos: [i16; 2],
    pub size: [u16; 2],
    pub color: u32,
    pub uv_min: [u16; 2],
    pub uv_max: [u16; 2],
    pub layer_index: u32,
}

/// The instance of glyph `g` drawn with its pen at `(x, y)`, in white. The
/// position is the pen position plus the glyph offset, truncated to `i16`.
pub open spec fn glyph_instance(g: GlyphMetrics, x: i32, y: i32) -> GlyphInstance {
    GlyphInstance {
        pos: [(x + g.offset_x) as i16, (y + g.offset_y) as i16],
        size: [g.width, g.height],
        color: WHITE,
        uv_min: g.uv_min,
        uv_max: g.uv_max,
        layer_index: g.layer_index,
    }
}

impl GlyphMetrics {
    /// The quad instance for this glyph with its pen at `(x, y)`.
    pub fn to_glyph_instance(&self, x: i32, y: i32) -> (r: GlyphInstance)
        ensures
            r == glyph_instance(*self, x, y),
    {
        let gx = (x as i64 + self.offset_x as i64) as i16;
        let gy = (y as i64 + self.offset_y as i64) as i16;
        GlyphInstance {
            pos: [gx, gy],
            size: [self.width, self.height],
            color: WHITE,
            uv_min: self.uv_min,
            uv_max: self.uv_max,
            layer_index: self.layer_index,
        }
    }
}

/// A font of the atlas: its line height in pixels and its glyphs keyed by
/// code point.
pub struct VkFont {
    pub height: u32,
    pub glyphs: HashMap<u32, GlyphMetrics>,
}

/// The glyph that `m` holds for `ch`, if any.
pub open spec fn font_glyph(m: Map<u32, GlyphMetrics>, ch: char) -> Option<GlyphMetrics> {
    if m.contains_key(ch as u32) {
        Some(m[ch as u32])
    } else {
        None
    }
}

impl VkFont {
    /// The glyph of `ch`, if the font has one.
    pub fn get(&self, ch: char) -> (r: Option<GlyphMetrics>)
        ensures
            r == font_glyph(self.glyphs@, ch),
    {
        let key = ch as u32;
        match self.glyphs.get(&key) {
            Some(g) => Some(*g),
            None => None,
        }
    }
}

} // verus!
