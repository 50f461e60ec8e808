use crate::error::VkError;
use crate::glyph::{font_glyph, GlyphInstance, GlyphMetrics, VkFont};
use crate::text::{
    layout_outcome, mode_height, mode_layout, placed, CanvasContext, WrapMode,
};
use vstd::prelude::*;
use vstd::string::StringExecFns;

verus! {

/// The fonts of the atlas, each under its name.
pub struct FontAtlas {
    pub fonts: Vec<(String, VkFont)>,
}

/// Index of the first font named `name`, if any.
pub open spec fn font_index(fonts: Seq<(String, VkFont)>, name: Seq<char>) -> Option<int>
    decreases fonts.len(),
{
    if fonts.len() == 0 {
        None
    } else {
        match font_index(fonts.drop_last(), name) {
            Some(i) => Some(i),
            None => if fonts.last().0@ == name {
                Some(fonts.len() - 1)
            } else {
                None
            },
        }
    }
}

proof fn lemma_font_index_bound(fonts: Seq<(String, VkFont)>, name: Seq<char>)
    ensures
        font_index(fonts, name) matches Some(i) ==> 0 <= i < fonts.len() && fonts[i].0@ == name,
    decreases fonts.len(),
{
    if fonts.len() > 0 {
        lemma_font_index_bound(fonts.drop_last(), name);
    }
}

/// No two fonts of `fonts` share a name, as in a map keyed by name.
pub open spec fn names_unique(fonts: Seq<(String, VkFont)>) -> bool {
    forall|i: int, j: int|
        0 <= i < j < fonts.len() ==> (#[trigger] fonts[i]).0@ != (#[trigger] fonts[j]).0@
}

proof fn lemma_font_index_none(fonts: Seq<(String, VkFont)>, name: Seq<char>)
    requires
        font_index(fonts, name) is None,
    ensures
        forall|j: int| 0 <= j < fonts.len() ==> (#[trigger] fonts[j]).0@ != name,
    decreases fonts.len(),
{
    if fonts.len() > 0 {
        lemma_font_index_none(fonts.drop_last(), name);
        assert forall|j: int| 0 <= j < fonts.len() implies (#[trigger] fonts[j]).0@ != name by {
            if j < fonts.len() - 1 {
                assert(fonts[j] == fonts.drop_last()[j]);
            }
        }
    }
}

impl FontAtlas {
    /// An atlas without fonts.
    pub fn new() -> (r: Self)
        ensures
            r.fonts@.len() == 0,
            names_unique(r.fonts@),
    {
        FontAtlas { fonts: Vec::new() }
    }

    /// Adds `font` under `name`, replacing the font already held under that
    /// name, as a map keyed by name does. Names stay unique.
    pub fn insert(&mut self, name: String, font: VkFont)
        ensures
            match font_index(old(self).fonts@, name@) {
                Some(i) => {
                    &&& final(self).fonts@.len() == old(self).fonts@.len()
                    &&& final(self).fonts@[i].0@ == name@
                    &&& final(self).fonts@[i].1 == font
                    &&& forall|j: int|
                        0 <= j < old(self).fonts@.len() && j != i
                            ==> #[trigger] final(self).fonts@[j] == old(self).fonts@[j]
                },
                None => final(self).fonts@ == old(self).fonts@.push((name, font)),
            },
            names_unique(old(self).fonts@) ==> names_unique(final(self).fonts@),
    {
        proof {
            lemma_font_index_bound(self.fonts@, name@);
        }
        match self.find(&name) {
            Some(i) => {
                let ghost before = self.fonts@;
                self.fonts.set(i, (name, font));
                proof {
                    assert forall|a: int, b: int|
                        names_unique(before) && 0 <= a < b < self.fonts@.len() implies (
                        #[trigger] self.fonts@[a]).0@ != (#[trigger] self.fonts@[b]).0@ by {
                        assert(before[a].0@ != before[b].0@);
                    }
                }
            },
            None => {
                let ghost before = self.fonts@;
                proof {
                    lemma_font_index_none(before, name@);
                }
                self.fonts.push((name, font));
                proof {
                    assert forall|a: int, b: int|
                        names_unique(before) && 0 <= a < b < self.fonts@.len() implies (
                        #[trigger] self.fonts@[a]).0@ != (#[trigger] self.fonts@[b]).0@ by {
                        if b < before.len() {
                            assert(before[a].0@ != before[b].0@);
                        } else {
                            assert(self.fonts@[a] == before[a]);
                        }
                    }
                }
            },
        }
    }

    /// Position of the first font named `name`.
    pub fn find(&self, name: &String) -> (r: Option<usize>)
        ensures
            match r {
                Some(k) => font_index(self.fonts@, name@) == Some(k as int),
                None => font_index(self.fonts@, name@) is None,
            },
    {
        let n = self.fonts.len();
        let mut i: usize = 0;
        while i < n
            invariant
                n == self.fonts@.len(),
                i <= n,
                font_index(self.fonts@.take(i as int), name@) is None,
            decreases n - i,
        {
            proof {
                assert(self.fonts@.take(i as int + 1).drop_last() =~= self.fonts@.take(i as int));
            }
            if self.fonts[i].0 == *name {
                proof {
                    lemma_font_index_prefix(self.fonts@, name@, i as int);
                }
                return Some(i);
            }
            i = i + 1;
        }
        proof {
            assert(self.fonts@.take(n as int) =~= self.fonts@);
        }
        None
    }
}

proof fn lemma_font_index_prefix(fonts: Seq<(String, VkFont)>, name: Seq<char>, i: int)
    requires
        0 <= i < fonts.len(),
        font_index(fonts.take(i), name) is None,
        fonts[i].0@ == name,
    ensures
        font_index(fonts, name) == Some(i),
    decreases fonts.len(),
{
    if i < fonts.len() - 1 {
        assert(fonts.drop_last().take(i) =~= fonts.take(i));
        lemma_font_index_prefix(fonts.drop_last(), name, i);
    } else {
        assert(fonts.drop_last() =~= fonts.take(i));
    }
}

/// Code point of the full-block character used to draw filled rectangles.
pub const FULL_BLOCK: u32 = 0x2588;

/// A canvas that draws text and rectangles with the glyphs of a font atlas.
pub struct UiCanvas {
    pub context: CanvasContext,
    pub atlas: FontAtlas,
}

/// The font that the canvas draws with, if the atlas has it.
pub open spec fn canvas_font(c: UiCanvas) -> Option<VkFont> {
    match font_index(c.atlas.fonts@, c.context.font_id@) {
        Some(i) => Some(c.atlas.fonts@[i].1),
        None => None,
    }
}

/// Only the context setting named by `changed` differs.
pub open spec fn only_setting(a: UiCanvas, b: UiCanvas) -> bool {
    &&& a.atlas == b.atlas
    &&& a.context.glyphs@ == b.context.glyphs@
    &&& a.context.line_lengths@ == b.context.line_lengths@
}

impl UiCanvas {
    /// Draws with the font named `id` from now on.
    pub fn set_font(&mut self, id: String)
        ensures
            only_setting(*old(self), *final(self)),
            final(self).context.font_id@ == id@,
            final(self).context.color == old(self).context.color,
            final(self).context.wrap_mode == old(self).context.wrap_mode,
            final(self).context.line_spacing == old(self).context.line_spacing,
    {
        self.context.font_id = id;
    }

    /// Adds `spacing` pixels between lines from now on.
    pub fn set_line_spacing(&mut self, spacing: usize)
        ensures
            only_setting(*old(self), *final(self)),
            final(self).context.font_id@ == old(self).context.font_id@,
            final(self).context.color == old(self).context.color,
            final(self).context.wrap_mode == old(self).context.wrap_mode,
            final(self).context.line_spacing == spacing,
    {
        self.context.line_spacing = spacing;
    }

    /// Draws in `color` from now on.
    pub fn set_color(&mut self, color: u32)
        ensures
            only_setting(*old(self), *final(self)),
            final(self).context.font_id@ == old(self).context.font_id@,
            final(self).context.color == color,
            final(self).context.wrap_mode == old(self).context.wrap_mode,
            final(self).context.line_spacing == old(self).context.line_spacing,
    {
        self.context.color = color;
    }

    /// Wraps text with `mode` from now on.
    pub fn set_wrap_mode(&mut self, mode: WrapMode)
        ensures
            only_setting(*old(self), *final(self)),
            final(self).context.font_id@ == old(self).context.font_id@,
            final(self).context.color == old(self).context.color,
            final(self).context.wrap_mode == mode,
            final(self).context.line_spacing == old(self).context.line_spacing,
    {
        self.context.wrap_mode = mode;
    }

    /// Lays `text` out with the current font and wrap mode in a box of
    /// `width` pixels at `(x0, y0)`. Without the font nothing happens.
    pub fn draw_text(&mut self, x0: i32, y0: i32, width: u32, text: &str) -> (r: Result<
        (),
        VkError,
    >)
        requires
            canvas_font(*old(self)) matches Some(font) ==> !mode_layout(
                old(self).context.wrap_mode,
                old(self).context.glyphs@,
                old(self).context.color,
                old(self).context.line_spacing,
                font.height,
                font.glyphs@,
                x0 as int,
                y0 as int,
                width,
                text@,
            ).stuck,
        ensures
            final(self).atlas == old(self).atlas,
            match canvas_font(*old(self)) {
                None => r is Ok && final(self).context == old(self).context,
                Some(font) => layout_outcome(
                    old(self).context,
                    final(self).context,
                    mode_layout(
                        old(self).context.wrap_mode,
                        old(self).context.glyphs@,
                        old(self).context.color,
                        old(self).context.line_spacing,
                        font.height,
                        font.glyphs@,
                        x0 as int,
                        y0 as int,
                        width,
                        text@,
                    ),
                    r,
                ),
            },
    {
        proof {
            lemma_font_index_bound(self.atlas.fonts@, self.context.font_id@);
        }
        match self.atlas.find(&self.context.font_id) {
            Some(i) => {
                let mode = self.context.wrap_mode;
                assert(canvas_font(*self) == Some(self.atlas.fonts@[i as int].1));
                mode.layout(&mut self.context, x0, y0, width, &self.atlas.fonts[i].1, text)
            },
            None => Ok(()),
        }
    }

    /// Whether drawing `text` at `(x0, y0)` in a box of `width` pixels with
    /// the current font and wrap mode ends, which `draw_text` requires: only
    /// character wrapping can fail to end, when a character is wider than
    /// the box.
    pub fn text_layout_ends(&self, x0: i32, y0: i32, width: u32, text: &str) -> (r: bool)
        ensures
            r == match canvas_font(*self) {
                None => true,
                Some(font) => !mode_layout(
                    self.context.wrap_mode,
                    self.context.glyphs@,
                    self.context.color,
                    self.context.line_spacing,
                    font.height,
                    font.glyphs@,
                    x0 as int,
                    y0 as int,
                    width,
                    text@,
                ).stuck,
            },
    {
        proof {
            lemma_font_index_bound(self.atlas.fonts@, self.context.font_id@);
        }
        match self.atlas.find(&self.context.font_id) {
            Some(i) => {
                let font = &self.atlas.fonts[i].1;
                assert(canvas_font(*self) == Some(*font));
                proof {
                    crate::text_laws::law_one_glyph_per_character(
                        self.context.wrap_mode,
                        self.context.glyphs@,
                        self.context.color,
                        self.context.line_spacing,
                        font.height,
                        font.glyphs@,
                        x0 as int,
                        y0 as int,
                        width,
                        text@,
                    );
                }
                match self.context.wrap_mode {
                    WrapMode::Character => {
                        proof {
                            crate::text_laws::law_measure_matches_layout(
                                WrapMode::Character,
                                self.context.glyphs@,
                                self.context.color,
                                self.context.line_spacing,
                                font.height,
                                font.glyphs@,
                                x0 as int,
                                y0 as int,
                                width,
                                text@,
                            );
                        }
                        crate::text::char_wrap_ends(&self.context, width, font, text)
                    },
                    _ => true,
                }
            },
            None => true,
        }
    }

    /// The height of `text` laid out with the current font and wrap mode in
    /// a box of `width` pixels, as an unsigned value; zero without the font
    /// or when a character has no glyph.
    pub fn measure_text(&self, width: u32, text: &str) -> (r: u32)
        requires
            canvas_font(*self) matches Some(font) ==> !mode_height(
                self.context.wrap_mode,
                self.context.line_spacing,
                font.height,
                font.glyphs@,
                width,
                text@,
            ).2,
        ensures
            r == match canvas_font(*self) {
                None => 0u32,
                Some(font) => {
                    let (h, missing, _) = mode_height(
                        self.context.wrap_mode,
                        self.context.line_spacing,
                        font.height,
                        font.glyphs@,
                        width,
                        text@,
                    );
                    if missing is None {
                        (h as i32) as u32
                    } else {
                        0u32
                    }
                },
            },
    {
        proof {
            lemma_font_index_bound(self.atlas.fonts@, self.context.font_id@);
        }
        let mut height: i32 = 0;
        match self.atlas.find(&self.context.font_id) {
            Some(i) => {
                let mode = self.context.wrap_mode;
                assert(canvas_font(*self) == Some(self.atlas.fonts@[i as int].1));
                match mode.measure(&self.context, width, &self.atlas.fonts[i].1, text) {
                    Ok(h) => height = h,
                    Err(_) => {},
                }
            },
            None => {},
        }
        height as u32
    }

    /// Draws a filled rectangle in the current colour with the full-block
    /// glyph of the current font, stretched over `width` x `height` pixels
    /// at `(x, y)`. Returns whether the glyph was there to draw with.
    pub fn draw_rect(&mut self, x: i32, y: i32, width: u32, height: u32) -> (r: bool)
        ensures
            final(self).atlas == old(self).atlas,
            same_but_glyphs(old(self).context, final(self).context),
            match canvas_font(*old(self)) {
                Some(font) if font.glyphs@.contains_key(FULL_BLOCK) => {
                    let g = font.glyphs@[FULL_BLOCK];
                    let base = placed(g, 0, 0, old(self).context.color);
                    &&& r
                    &&& final(self).context.glyphs@ == old(self).context.glyphs@.push(
                        GlyphInstance {
                            pos: [x as i16, y as i16],
                            size: [width as u16, height as u16],
                            ..base
                        },
                    )
                },
                _ => !r && final(self).context.glyphs@ == old(self).context.glyphs@,
            },
    {
        proof {
            lemma_font_index_bound(self.atlas.fonts@, self.context.font_id@);
        }
        match self.atlas.find(&self.context.font_id) {
            Some(i) => {
                let block = char_from_code(FULL_BLOCK);
                match self.atlas.fonts[i].1.get(block) {
                    Some(glyph) => {
                        let mut g = glyph.to_glyph_instance(0, 0);
                        g.color = self.context.color;
                        g.pos = [x as i16, y as i16];
                        g.size = [width as u16, height as u16];
                        self.context.glyphs.push(g);
                        true
                    },
                    None => false,
                }
            },
            None => false,
        }
    }
}

/// Everything of the context but the glyph buffer is left as it was.
pub open spec fn same_but_glyphs(a: CanvasContext, b: CanvasContext) -> bool {
    &&& a.font_id@ == b.font_id@
    &&& a.color == b.color
    &&& a.wrap_mode == b.wrap_mode
    &&& a.line_spacing == b.line_spacing
    &&& a.line_lengths@ == b.line_lengths@
}

/// The full-block character.
fn char_from_code(code: u32) -> (c: char)
    requires
        code == FULL_BLOCK,
    ensures
        c as u32 == code,
{
    '\u{2588}'
}

// ---------------------------------------------------------------------------
// Text batch of the UI pipeline
// ---------------------------------------------------------------------------

/// Most glyph instances the UI pipeline draws in one frame.
pub const MAX_GLYPHS_PER_FRAME: usize = 100_000;

/// The glyph batch after drawing `chars` from `pos` on with the pen at
/// `(x, y)`: characters without a glyph are skipped, and drawing stops once
/// the batch holds `MAX_GLYPHS_PER_FRAME` glyphs.
pub open spec fn batch_from(
    m: Map<u32, GlyphMetrics>,
    chars: Seq<char>,
    pos: int,
    x: int,
    y: int,
    color: u32,
    buf: Seq<GlyphInstance>,
) -> Seq<GlyphInstance>
    decreases chars.len() - pos,
{
    if pos < 0 || pos >= chars.len() {
        buf
    } else {
        match font_glyph(m, chars[pos]) {
            None => batch_from(m, chars, pos + 1, x, y, color, buf),
            Some(g) => if buf.len() >= MAX_GLYPHS_PER_FRAME {
                buf
            } else {
                batch_from(
                    m,
                    chars,
                    pos + 1,
                    x + g.advance,
                    y,
                    color,
                    buf.push(placed(g, x, y, color)),
                )
            },
        }
    }
}

/// Name of the font the UI pipeline writes its text with.
pub open spec fn console_font_name() -> Seq<char> {
    "console"@
}

/// Appends the glyphs of `text` in the console font to `batch`, with the
/// top of the text at `(x, y)` (the pen starts one font height lower).
/// Returns whether the atlas has the console font; without it the batch is
/// left as it was.
pub fn draw_console_text(
    batch: &mut Vec<GlyphInstance>,
    atlas: &FontAtlas,
    x: i32,
    y: i32,
    text: &str,
    color: u32,
) -> (found: bool)
    ensures
        match font_index(atlas.fonts@, console_font_name()) {
            None => !found && final(batch)@ == old(batch)@,
            Some(i) => {
                let font = atlas.fonts@[i].1;
                &&& found
                &&& final(batch)@ == batch_from(
                    font.glyphs@,
                    text@,
                    0,
                    x as int,
                    y + (font.height as i32),
                    color,
                    old(batch)@,
                )
            },
        },
{
    let name = String::from_str("console");
    proof {
        lemma_font_index_bound(atlas.fonts@, console_font_name());
    }
    let i = match atlas.find(&name) {
        Some(i) => i,
        None => return false,
    };
    let font = &atlas.fonts[i].1;
    let chars = crate::text::chars_of(text);
    let ghost m = font.glyphs@;
    let n = chars.len();
    let mut pen_x: i128 = x as i128;
    let pen_y: i128 = y as i128 + font.height as i32 as i128;
    let ghost target = batch_from(m, chars@, 0, x as int, pen_y as int, color, batch@);
    let mut pos: usize = 0;
    while pos < n
        invariant
            n == chars@.len(),
            chars@ == text@,
            m == font.glyphs@,
            pos <= n,
            x - pos * 0x8000_0000 <= pen_x <= x + pos * 0x8000_0000,
            batch_from(m, chars@, pos as int, pen_x as int, pen_y as int, color, batch@) == target,
            font_index(atlas.fonts@, console_font_name()) == Some(i as int),
            *font == atlas.fonts@[i as int].1,
            pen_y == y + (font.height as i32),
            target == batch_from(m, text@, 0, x as int, pen_y as int, color, old(batch)@),
        decreases n - pos,
    {
        match font.get(chars[pos]) {
            Some(glyph) => {
                if batch.len() >= MAX_GLYPHS_PER_FRAME {
                    proof {
                        assert(batch_from(m, chars@, pos as int, pen_x as int, pen_y as int, color, batch@) == batch@);
                    }
                    return true;
                }
                let mut g = glyph.to_glyph_instance(pen_x as i32, pen_y as i32);
                g.color = color;
                batch.push(g);
                pen_x = pen_x + glyph.advance as i128;
            },
            None => {},
        }
        pos = pos + 1;
    }
    true
}

} // verus!
