use crate::error::VkError;
use crate::glyph::{glyph_instance, GlyphInstance, GlyphMetrics, VkFont, WHITE};
use crate::strings::push_char;
use vstd::prelude::*;
use vstd::string::StringExecFns;

verus! {

// ---------------------------------------------------------------------------
// Characters and messages of the layout
// ---------------------------------------------------------------------------

/// Whether `c` has the Unicode `White_Space` property.
pub open spec fn is_unicode_whitespace(c: char) -> bool {
    let k = c as u32;
    (0x09 <= k <= 0x0D) || k == 0x20 || k == 0x85 || k == 0xA0 || k == 0x1680 || (0x2000 <= k
        <= 0x200A) || k == 0x2028 || k == 0x2029 || k == 0x202F || k == 0x205F || k == 0x3000
}

/// Whether `c` is whitespace, as `char::is_whitespace` decides it: the
/// code points with the Unicode `White_Space` property.
fn char_is_whitespace(c: char) -> (r: bool)
    ensures
        r == is_unicode_whitespace(c),
{
    let k = c as u32;
    (0x09 <= k && k <= 0x0D) || k == 0x20 || k == 0x85 || k == 0xA0 || k == 0x1680 || (0x2000 <= k
        && k <= 0x200A) || k == 0x2028 || k == 0x2029 || k == 0x202F || k == 0x205F || k == 0x3000
}

/// The message of a layout that met a character without a glyph.
pub open spec fn missing_glyph_text(c: char) -> Seq<char> {
    "No glyph for "@ + seq![c]
}

/// The message of a layout that met `c` without a glyph.
fn missing_glyph_message(c: char) -> (r: String)
    ensures
        r@ == missing_glyph_text(c),
{
    let mut message = String::from_str("No glyph for ");
    push_char(&mut message, c);
    proof {
        reveal_strlit("No glyph for ");
    }
    message
}

/// The characters of `s`, in order.
pub fn chars_of(s: &str) -> (r: Vec<char>)
    ensures
        r@ == s@,
{
    let n = s.unicode_len();
    let mut r: Vec<char> = Vec::with_capacity(n);
    let mut i: usize = 0;
    while i < n
        invariant
            n == s@.len(),
            i <= n,
            r@ == s@.take(i as int),
        decreases n - i,
    {
        r.push(s.get_char(i));
        proof {
            assert(r@ =~= s@.take(i as int + 1));
        }
        i = i + 1;
    }
    proof {
        assert(s@.take(n as int) =~= s@);
    }
    r
}

// ---------------------------------------------------------------------------
// Canvas context
// ---------------------------------------------------------------------------

/// How text that is wider than its box is broken into lines.
#[derive(Clone, Copy, Debug, PartialEq, Eq)]
pub enum WrapMode {
    /// Never break: the text stays on one line.
    NoWrap,
    /// Break before any character that would cross the right margin.
    Character,
    /// Break before the word that would cross the right margin.
    Word,
}

/// The drawing state of a canvas: current font, colour, wrap mode and line
/// spacing, the glyph instances produced so far, and the line lengths of the
/// last laid-out text.
pub struct CanvasContext {
    pub font_id: String,
    pub color: u32,
    pub wrap_mode: WrapMode,
    pub line_spacing: usize,
    pub glyphs: Vec<GlyphInstance>,
    pub line_lengths: Vec<usize>,
}

/// Initial capacity of the glyph buffer of a canvas.
pub const DEFAULT_GLYPH_BUFFER_SIZE: usize = 20_000;

impl CanvasContext {
    /// A context drawing with `font_id`, in white, without wrapping or extra
    /// line spacing, with no glyphs yet.
    pub fn new(font_id: String) -> (r: Self)
        ensures
            r.font_id@ == font_id@,
            r.color == WHITE,
            r.wrap_mode == WrapMode::NoWrap,
            r.line_spacing == 0,
            r.glyphs@.len() == 0,
            r.line_lengths@.len() == 0,
    {
        CanvasContext {
            font_id,
            color: WHITE,
            wrap_mode: WrapMode::NoWrap,
            line_spacing: 0,
            glyphs: Vec::with_capacity(DEFAULT_GLYPH_BUFFER_SIZE),
            line_lengths: Vec::new(),
        }
    }
}

// ---------------------------------------------------------------------------
// Layout model
// ---------------------------------------------------------------------------

/// Code point of `'?'`, the glyph drawn for characters the font lacks.
pub const QUESTION_MARK: u32 = 63;

/// The glyph drawn for `c`: its own, else the font's `'?'`, else none.
pub open spec fn glyph_for(m: Map<u32, GlyphMetrics>, c: char) -> Option<GlyphMetrics> {
    if m.contains_key(c as u32) {
        Some(m[c as u32])
    } else if m.contains_key(QUESTION_MARK) {
        Some(m[QUESTION_MARK])
    } else {
        None
    }
}

/// Glyph `g` drawn with its pen at `(x, y)` in `color`.
pub open spec fn placed(g: GlyphMetrics, x: int, y: int, color: u32) -> GlyphInstance {
    let base = glyph_instance(g, x as i32, y as i32);
    GlyphInstance {
        pos: base.pos,
        size: base.size,
        color,
        uv_min: base.uv_min,
        uv_max: base.uv_max,
        layer_index: base.layer_index,
    }
}

/// The distance between two baselines: font height plus line spacing, in
/// 32-bit arithmetic.
pub open spec fn line_height(font_height: u32, spacing: usize) -> int {
    ((font_height + (spacing as u32)) as i32) as int
}

/// The right margin of a box of `width` pixels starting at `x0`.
pub open spec fn right_margin(x0: int, width: u32) -> int {
    x0 + (width as i32) as int
}

/// What laying out a text produces: the glyph buffer after the call, the
/// line lengths, the first character that had no glyph (the layout stops
/// there), and whether the layout never ends.
pub struct TextRun {
    pub glyphs: Seq<GlyphInstance>,
    pub lines: Seq<usize>,
    pub missing: Option<char>,
    pub stuck: bool,
}

/// Layout on one line, from character `pos` with the pen at `x`.
pub open spec fn no_wrap_from(
    m: Map<u32, GlyphMetrics>,
    chars: Seq<char>,
    pos: int,
    x: int,
    y: int,
    color: u32,
    glyphs: Seq<GlyphInstance>,
) -> (Seq<GlyphInstance>, Option<char>)
    decreases chars.len() - pos,
{
    if pos < 0 || pos >= chars.len() {
        (glyphs, None)
    } else {
        match glyph_for(m, chars[pos]) {
            None => (glyphs, Some(chars[pos])),
            Some(g) => no_wrap_from(
                m,
                chars,
                pos + 1,
                x + g.advance,
                y,
                color,
                glyphs.push(placed(g, x, y, color)),
            ),
        }
    }
}

/// Character-wrapped layout, from character `pos` with the pen at `(x, y)`
/// and `lg` counted for the current line. A character that would cross
/// `right` on a line that already has glyphs closes the line and starts a
/// new one at `x0`, one `lh` lower; the new line then counts two. When the
/// character crosses `right` even at the start of a line, the layout never
/// ends: each attempt closes another line.
pub open spec fn char_wrap_from(
    m: Map<u32, GlyphMetrics>,
    chars: Seq<char>,
    pos: int,
    x: int,
    y: int,
    lg: int,
    x0: int,
    right: int,
    lh: int,
    color: u32,
    glyphs: Seq<GlyphInstance>,
    lines: Seq<usize>,
) -> TextRun
    decreases chars.len() - pos,
{
    if pos < 0 || pos >= chars.len() {
        TextRun {
            glyphs,
            lines: if lg > 0 {
                lines.push(lg as usize)
            } else {
                lines
            },
            missing: None,
            stuck: false,
        }
    } else {
        match glyph_for(m, chars[pos]) {
            None => TextRun { glyphs, lines, missing: Some(chars[pos]), stuck: false },
            Some(g) => if x + g.advance > right && lg > 0 {
                if x0 + g.advance > right {
                    TextRun { glyphs, lines: lines.push(lg as usize), missing: None, stuck: true }
                } else {
                    char_wrap_from(
                        m,
                        chars,
                        pos + 1,
                        x0 + g.advance,
                        y + lh,
                        2,
                        x0,
                        right,
                        lh,
                        color,
                        glyphs.push(placed(g, x0, y + lh, color)),
                        lines.push(lg as usize),
                    )
                }
            } else {
                char_wrap_from(
                    m,
                    chars,
                    pos + 1,
                    x + g.advance,
                    y,
                    lg + 1,
                    x0,
                    right,
                    lh,
                    color,
                    glyphs.push(placed(g, x, y, color)),
                    lines,
                )
            },
        }
    }
}

/// Height of the character-wrapped text: `y` after the last line, the first
/// character without a glyph, and whether measuring never ends.
pub open spec fn char_wrap_height_from(
    m: Map<u32, GlyphMetrics>,
    chars: Seq<char>,
    pos: int,
    x: int,
    y: int,
    lg: int,
    right: int,
    lh: int,
) -> (int, Option<char>, bool)
    decreases chars.len() - pos,
{
    if pos < 0 || pos >= chars.len() {
        (
            if lg > 0 {
                y + lh
            } else {
                y
            },
            None,
            false,
        )
    } else {
        match glyph_for(m, chars[pos]) {
            None => (y, Some(chars[pos]), false),
            Some(g) => if x + g.advance > right && lg > 0 {
                if g.advance > right {
                    (y + lh, None, true)
                } else {
                    char_wrap_height_from(m, chars, pos + 1, g.advance as int, y + lh, 2, right, lh)
                }
            } else {
                char_wrap_height_from(m, chars, pos + 1, x + g.advance, y, lg + 1, right, lh)
            },
        }
    }
}

/// The glyph buffer, line lengths and outcome of laying `text` out on one
/// line starting at `(x0, y0)`.
pub open spec fn no_wrap_layout(
    ctx_glyphs: Seq<GlyphInstance>,
    color: u32,
    m: Map<u32, GlyphMetrics>,
    x0: int,
    y0: int,
    text: Seq<char>,
) -> TextRun {
    let (glyphs, missing) = no_wrap_from(m, text, 0, x0, y0, color, ctx_glyphs);
    TextRun {
        glyphs,
        lines: if missing is None {
            seq![glyphs.len() as usize]
        } else {
            Seq::empty()
        },
        missing,
        stuck: false,
    }
}

/// The character-wrapped layout of `text` in a box of `width` pixels at
/// `(x0, y0)`.
pub open spec fn char_wrap_layout(
    ctx_glyphs: Seq<GlyphInstance>,
    color: u32,
    spacing: usize,
    font_height: u32,
    m: Map<u32, GlyphMetrics>,
    x0: int,
    y0: int,
    width: u32,
    text: Seq<char>,
) -> TextRun {
    char_wrap_from(
        m,
        text,
        0,
        x0,
        y0,
        0,
        x0,
        right_margin(x0, width),
        line_height(font_height, spacing),
        color,
        ctx_glyphs,
        Seq::empty(),
    )
}

/// The height of character-wrapped `text` in a box of `width` pixels.
pub open spec fn char_wrap_height(
    spacing: usize,
    font_height: u32,
    m: Map<u32, GlyphMetrics>,
    width: u32,
    text: Seq<char>,
) -> (int, Option<char>, bool) {
    char_wrap_height_from(
        m,
        text,
        0,
        0,
        0,
        0,
        (width as i32) as int,
        line_height(font_height, spacing),
    )
}


/// The scan state of word-wrapped layout. `pos` is the next character, `x`
/// and `y` the pen; `a` counts the glyphs pushed since the current line
/// started and `b` those pushed between the line start and the start of the
/// current word; `is_ws` tells whether the last character was whitespace;
/// `word_pos` is the character at which the current word starts, and
/// `floor` the character at which the current line restarted.
pub struct WordScan {
    pub pos: int,
    pub x: int,
    pub y: int,
    pub a: int,
    pub b: int,
    pub is_ws: bool,
    pub word_pos: int,
    pub floor: int,
}

/// The scan state before the first character, with the pen at `(x, y)`.
pub open spec fn word_scan_start(x: int, y: int) -> WordScan {
    WordScan { pos: 0, x, y, a: 0, b: 0, is_ws: false, word_pos: 0, floor: 0 }
}

/// The word start after reading `c`: a non-whitespace character after
/// whitespace starts a new word at the current glyph count.
pub open spec fn word_after(s: WordScan, c: char) -> (bool, int, int) {
    if is_unicode_whitespace(c) {
        (true, s.b, s.word_pos)
    } else if s.is_ws {
        (false, s.a, s.pos)
    } else {
        (false, s.b, s.word_pos)
    }
}

/// Word-wrapped layout from scan state `s`. A character that would cross
/// `right` while the line holds a word start beyond its first glyph closes
/// the line before that word: the word's glyphs are taken back and the scan
/// resumes at the word's first character on a new line at `x0`, one `lh`
/// lower. Otherwise the glyph is placed at the pen.
pub open spec fn word_wrap_from(
    m: Map<u32, GlyphMetrics>,
    chars: Seq<char>,
    s: WordScan,
    x0: int,
    right: int,
    lh: int,
    color: u32,
    glyphs: Seq<GlyphInstance>,
    lines: Seq<usize>,
) -> TextRun
    decreases chars.len() - s.floor, chars.len() - s.pos,
{
    if s.pos < 0 || s.pos >= chars.len() || s.floor < 0 {
        TextRun {
            glyphs,
            lines: if s.a > 0 {
                lines.push(s.a as usize)
            } else {
                lines
            },
            missing: None,
            stuck: false,
        }
    } else {
        let c = chars[s.pos];
        match glyph_for(m, c) {
            None => TextRun { glyphs, lines, missing: Some(c), stuck: false },
            Some(g) => {
                let (ws, nb, nwp) = word_after(s, c);
                if s.x + g.advance > right && nb > 0 {
                    if s.floor < nwp <= s.pos {
                        word_wrap_from(
                            m,
                            chars,
                            WordScan {
                                pos: nwp,
                                x: x0,
                                y: s.y + lh,
                                a: s.a - nb,
                                b: 0,
                                is_ws: false,
                                word_pos: nwp,
                                floor: nwp,
                            },
                            x0,
                            right,
                            lh,
                            color,
                            glyphs.subrange(0, glyphs.len() - (s.a - nb)),
                            lines.push(nb as usize),
                        )
                    } else {
                        TextRun { glyphs, lines, missing: None, stuck: true }
                    }
                } else {
                    word_wrap_from(
                        m,
                        chars,
                        WordScan {
                            pos: s.pos + 1,
                            x: s.x + g.advance,
                            y: s.y,
                            a: s.a + 1,
                            b: nb,
                            is_ws: ws,
                            word_pos: nwp,
                            floor: s.floor,
                        },
                        x0,
                        right,
                        lh,
                        color,
                        glyphs.push(placed(g, s.x, s.y, color)),
                        lines,
                    )
                }
            },
        }
    }
}

/// The word-wrapped layout of `text` in a box of `width` pixels at
/// `(x0, y0)`.
pub open spec fn word_wrap_layout(
    ctx_glyphs: Seq<GlyphInstance>,
    color: u32,
    spacing: usize,
    font_height: u32,
    m: Map<u32, GlyphMetrics>,
    x0: int,
    y0: int,
    width: u32,
    text: Seq<char>,
) -> TextRun {
    word_wrap_from(
        m,
        text,
        word_scan_start(x0, y0),
        x0,
        right_margin(x0, width),
        line_height(font_height, spacing),
        color,
        ctx_glyphs,
        Seq::empty(),
    )
}

/// Height of word-wrapped text from scan state `s`: the final `y`, the first
/// character without a glyph, and whether the scan got stuck.
pub open spec fn word_wrap_height_from(
    m: Map<u32, GlyphMetrics>,
    chars: Seq<char>,
    s: WordScan,
    right: int,
    lh: int,
) -> (int, Option<char>, bool)
    decreases chars.len() - s.floor, chars.len() - s.pos,
{
    if s.pos < 0 || s.pos >= chars.len() || s.floor < 0 {
        (
            if s.a > 0 {
                s.y + lh
            } else {
                s.y
            },
            None,
            false,
        )
    } else {
        let c = chars[s.pos];
        match glyph_for(m, c) {
            None => (s.y, Some(c), false),
            Some(g) => {
                let (ws, nb, nwp) = word_after(s, c);
                if s.x + g.advance > right && nb > 0 {
                    if s.floor < nwp <= s.pos {
                        word_wrap_height_from(
                            m,
                            chars,
                            WordScan {
                                pos: nwp,
                                x: 0,
                                y: s.y + lh,
                                a: s.a - nb,
                                b: 0,
                                is_ws: false,
                                word_pos: nwp,
                                floor: nwp,
                            },
                            right,
                            lh,
                        )
                    } else {
                        (s.y, None, true)
                    }
                } else {
                    word_wrap_height_from(
                        m,
                        chars,
                        WordScan {
                            pos: s.pos + 1,
                            x: s.x + g.advance,
                            y: s.y,
                            a: s.a + 1,
                            b: nb,
                            is_ws: ws,
                            word_pos: nwp,
                            floor: s.floor,
                        },
                        right,
                        lh,
                    )
                }
            },
        }
    }
}

/// The height of word-wrapped `text` in a box of `width` pixels.
pub open spec fn word_wrap_height(
    spacing: usize,
    font_height: u32,
    m: Map<u32, GlyphMetrics>,
    width: u32,
    text: Seq<char>,
) -> (int, Option<char>, bool) {
    word_wrap_height_from(
        m,
        text,
        word_scan_start(0, 0),
        (width as i32) as int,
        line_height(font_height, spacing),
    )
}

/// Everything but the glyph buffer and the line lengths is left as it was.
pub open spec fn same_settings(a: CanvasContext, b: CanvasContext) -> bool {
    &&& a.font_id@ == b.font_id@
    &&& a.color == b.color
    &&& a.wrap_mode == b.wrap_mode
    &&& a.line_spacing == b.line_spacing
}

/// The context after a layout: the glyph buffer and line lengths are those
/// of `run`, the rest is unchanged, and the result reports the missing glyph.
pub open spec fn layout_outcome(
    before: CanvasContext,
    after: CanvasContext,
    run: TextRun,
    result: Result<(), VkError>,
) -> bool {
    &&& same_settings(before, after)
    &&& after.glyphs@ == run.glyphs
    &&& after.line_lengths@ == run.lines
    &&& match run.missing {
        None => result is Ok,
        Some(c) => result matches Err(VkError::GenericError(msg)) && msg@ == missing_glyph_text(c),
    }
}

// ---------------------------------------------------------------------------
// Layout
// ---------------------------------------------------------------------------

/// The glyph drawn for `ch`: its own, else the font's `'?'`.
fn glyph_or_question(font: &VkFont, ch: char) -> (r: Option<GlyphMetrics>)
    ensures
        r == glyph_for(font.glyphs@, ch),
{
    match font.get(ch) {
        Some(g) => Some(g),
        None => font.get('?'),
    }
}

/// `g` drawn at the pen position `(x, y)` in `color`.
fn place(g: &GlyphMetrics, x: i128, y: i128, color: u32) -> (r: GlyphInstance)
    ensures
        r == placed(*g, x as int, y as int, color),
{
    let mut inst = g.to_glyph_instance(x as i32, y as i32);
    inst.color = color;
    inst
}

/// Upper bound of the magnitude of a glyph advance or line height.
pub open spec fn step_bound() -> int {
    0x8000_0000
}

/// Lays `text` out on one line starting at `(x0, y0)`, appending a glyph per
/// character, and records the total glyph count as the only line.
pub fn layout_no_wrap(context: &mut CanvasContext, x0: i32, y0: i32, font: &VkFont, text: &str) -> (r:
    Result<(), VkError>)
    ensures
        layout_outcome(
            *old(context),
            *final(context),
            no_wrap_layout(
                old(context).glyphs@,
                old(context).color,
                font.glyphs@,
                x0 as int,
                y0 as int,
                text@,
            ),
            r,
        ),
{
    context.line_lengths.clear();
    let chars = chars_of(text);
    let color = context.color;
    let ghost m = font.glyphs@;
    let ghost start = context.glyphs@;
    let n = chars.len();
    let mut x: i128 = x0 as i128;
    let y: i128 = y0 as i128;
    let mut pos: usize = 0;
    while pos < n
        invariant
            n == chars@.len(),
            chars@ == text@,
            m == font.glyphs@,
            start == old(context).glyphs@,
            pos <= n,
            color == old(context).color,
            same_settings(*old(context), *context),
            context.line_lengths@.len() == 0,
            y == y0,
            x0 - pos * step_bound() <= x <= x0 + pos * step_bound(),
            no_wrap_from(m, chars@, pos as int, x as int, y as int, color, context.glyphs@)
                == no_wrap_from(m, chars@, 0, x0 as int, y0 as int, color, start),
        decreases n - pos,
    {
        let ch = chars[pos];
        match glyph_or_question(font, ch) {
            Some(g) => {
                let inst = place(&g, x, y, color);
                proof {
                    let gl = context.glyphs@;
                    assert(glyph_for(m, chars@[pos as int]) == Some(g));
                    assert(inst == placed(g, x as int, y as int, color));
                    assert(0 <= pos < chars@.len());
                    assert(no_wrap_from(m, chars@, pos as int, x as int, y as int, color, gl)
                        == no_wrap_from(
                        m,
                        chars@,
                        pos + 1,
                        x + g.advance,
                        y as int,
                        color,
                        gl.push(inst),
                    ));
                }
                context.glyphs.push(inst);
                x = x + g.advance as i128;
                pos = pos + 1;
            },
            None => {
                proof {
                    assert(no_wrap_from(m, chars@, pos as int, x as int, y as int, color, context.glyphs@)
                        == (context.glyphs@, Some(ch)));
                    assert(context.line_lengths@ =~= Seq::<usize>::empty());
                }
                let msg = missing_glyph_message(ch);
                return Err(VkError::GenericError(msg));
            },
        }
    }
    proof {
        assert(no_wrap_from(m, chars@, pos as int, x as int, y as int, color, context.glyphs@) == (
        context.glyphs@, None::<char>));
    }
    let total = context.glyphs.len();
    context.line_lengths.push(total);
    proof {
        assert(context.line_lengths@ =~= seq![total]);
    }
    Ok(())
}

/// The height of one line of text: the font height plus the line spacing.
pub fn measure_no_wrap(context: &CanvasContext, font: &VkFont, text: &str) -> (r: Result<
    i32,
    VkError,
>)
    ensures
        r matches Ok(h) && h as int == line_height(font.height, context.line_spacing),
{
    let lh = (font.height as u64 + context.line_spacing as u32 as u64) as i32;
    Ok(lh)
}

/// Lays `text` out in a box of `width` pixels at `(x0, y0)`, breaking before
/// a character that would cross the right margin.
pub fn layout_char_wrap(
    context: &mut CanvasContext,
    x0: i32,
    y0: i32,
    width: u32,
    font: &VkFont,
    text: &str,
) -> (r: Result<(), VkError>)
    requires
        !char_wrap_layout(
            old(context).glyphs@,
            old(context).color,
            old(context).line_spacing,
            font.height,
            font.glyphs@,
            x0 as int,
            y0 as int,
            width,
            text@,
        ).stuck,
    ensures
        layout_outcome(
            *old(context),
            *final(context),
            char_wrap_layout(
                old(context).glyphs@,
                old(context).color,
                old(context).line_spacing,
                font.height,
                font.glyphs@,
                x0 as int,
                y0 as int,
                width,
                text@,
            ),
            r,
        ),
{
    context.line_lengths.clear();
    let chars = chars_of(text);
    let color = context.color;
    let ghost m = font.glyphs@;
    let ghost start = context.glyphs@;
    let lh: i128 = (font.height as u64 + context.line_spacing as u32 as u64) as i32 as i128;
    let right: i128 = x0 as i128 + width as i32 as i128;
    let ghost run = char_wrap_from(
        m,
        chars@,
        0,
        x0 as int,
        y0 as int,
        0,
        x0 as int,
        right as int,
        lh as int,
        color,
        start,
        Seq::empty(),
    );
    let n = chars.len();
    let mut x: i128 = x0 as i128;
    let mut y: i128 = y0 as i128;
    let mut lg: u128 = 0;
    let mut pos: usize = 0;
    proof {
        assert(context.line_lengths@ =~= Seq::<usize>::empty());
    }
    while pos < n
        invariant
            n == chars@.len(),
            chars@ == text@,
            m == font.glyphs@,
            start == old(context).glyphs@,
            pos <= n,
            color == old(context).color,
            same_settings(*old(context), *context),
            lh as int == line_height(font.height, old(context).line_spacing),
            right as int == right_margin(x0 as int, width),
            -step_bound() <= lh < step_bound(),
            x0 - (pos + 1) * step_bound() <= x <= x0 + (pos + 1) * step_bound(),
            y0 - pos * step_bound() <= y <= y0 + pos * step_bound(),
            lg <= pos + 1,
            !run.stuck,
            run == char_wrap_layout(
                old(context).glyphs@,
                old(context).color,
                old(context).line_spacing,
                font.height,
                font.glyphs@,
                x0 as int,
                y0 as int,
                width,
                text@,
            ),
            char_wrap_from(
                m,
                chars@,
                pos as int,
                x as int,
                y as int,
                lg as int,
                x0 as int,
                right as int,
                lh as int,
                color,
                context.glyphs@,
                context.line_lengths@,
            ) == run,
        decreases n - pos,
    {
        let ch = chars[pos];
        match glyph_or_question(font, ch) {
            Some(g) => {
                let adv = g.advance as i128;
                if x + adv > right && lg > 0 {
                    context.line_lengths.push(lg as usize);
                    y = y + lh;
                    let inst = place(&g, x0 as i128, y, color);
                    context.glyphs.push(inst);
                    x = x0 as i128 + adv;
                    lg = 2;
                } else {
                    let inst = place(&g, x, y, color);
                    context.glyphs.push(inst);
                    x = x + adv;
                    lg = lg + 1;
                }
                pos = pos + 1;
            },
            None => {
                proof {
                    assert(run.missing == Some(ch));
                }
                let msg = missing_glyph_message(ch);
                return Err(VkError::GenericError(msg));
            },
        }
    }
    if lg > 0 {
        context.line_lengths.push(lg as usize);
    }
    Ok(())
}

/// Whether character-wrapping `text` in a box of `width` pixels ends: it
/// does not when some character is wider than the box and would be pushed
/// onto a new line again and again. Layout and measuring require this.
pub fn char_wrap_ends(context: &CanvasContext, width: u32, font: &VkFont, text: &str) -> (r: bool)
    ensures
        r == !char_wrap_height(context.line_spacing, font.height, font.glyphs@, width, text@).2,
{
    let chars = chars_of(text);
    let ghost m = font.glyphs@;
    let lh: i128 = (font.height as u64 + context.line_spacing as u32 as u64) as i32 as i128;
    let right: i128 = width as i32 as i128;
    let ghost run = char_wrap_height_from(m, chars@, 0, 0, 0, 0, right as int, lh as int);
    let n = chars.len();
    let mut x: i128 = 0;
    let mut y: i128 = 0;
    let mut lg: u128 = 0;
    let mut pos: usize = 0;
    while pos < n
        invariant
            n == chars@.len(),
            chars@ == text@,
            m == font.glyphs@,
            pos <= n,
            lh as int == line_height(font.height, context.line_spacing),
            right as int == (width as i32) as int,
            -step_bound() <= lh < step_bound(),
            -(pos + 1) * step_bound() <= x <= (pos + 1) * step_bound(),
            -pos * step_bound() <= y <= pos * step_bound(),
            lg <= pos + 1,
            run == char_wrap_height(context.line_spacing, font.height, font.glyphs@, width, text@),
            char_wrap_height_from(
                m,
                chars@,
                pos as int,
                x as int,
                y as int,
                lg as int,
                right as int,
                lh as int,
            ) == run,
        decreases n - pos,
    {
        let ch = chars[pos];
        match glyph_or_question(font, ch) {
            Some(g) => {
                let adv = g.advance as i128;
                if x + adv > right && lg > 0 {
                    if adv > right {
                        return false;
                    }
                    y = y + lh;
                    x = adv;
                    lg = 2;
                } else {
                    x = x + adv;
                    lg = lg + 1;
                }
                pos = pos + 1;
            },
            None => {
                return true;
            },
        }
    }
    true
}

/// The height of `text` wrapped by character in a box of `width` pixels: a
/// line height per line.
pub fn measure_char_wrap(context: &CanvasContext, width: u32, font: &VkFont, text: &str) -> (r:
    Result<i32, VkError>)
    requires
        !char_wrap_height(context.line_spacing, font.height, font.glyphs@, width, text@).2,
    ensures
        ({
            let (h, missing, _) = char_wrap_height(
                context.line_spacing,
                font.height,
                font.glyphs@,
                width,
                text@,
            );
            match missing {
                None => r matches Ok(v) && v == h as i32,
                Some(c) => r matches Err(VkError::GenericError(msg)) && msg@ == missing_glyph_text(
                    c,
                ),
            }
        }),
{
    let chars = chars_of(text);
    let ghost m = font.glyphs@;
    let lh: i128 = (font.height as u64 + context.line_spacing as u32 as u64) as i32 as i128;
    let right: i128 = width as i32 as i128;
    let ghost run = char_wrap_height_from(m, chars@, 0, 0, 0, 0, right as int, lh as int);
    let n = chars.len();
    let mut x: i128 = 0;
    let mut y: i128 = 0;
    let mut lg: u128 = 0;
    let mut pos: usize = 0;
    while pos < n
        invariant
            n == chars@.len(),
            chars@ == text@,
            m == font.glyphs@,
            pos <= n,
            lh as int == line_height(font.height, context.line_spacing),
            right as int == (width as i32) as int,
            -step_bound() <= lh < step_bound(),
            -(pos + 1) * step_bound() <= x <= (pos + 1) * step_bound(),
            -pos * step_bound() <= y <= pos * step_bound(),
            lg <= pos + 1,
            !run.2,
            run == char_wrap_height(context.line_spacing, font.height, font.glyphs@, width, text@),
            char_wrap_height_from(
                m,
                chars@,
                pos as int,
                x as int,
                y as int,
                lg as int,
                right as int,
                lh as int,
            ) == run,
        decreases n - pos,
    {
        let ch = chars[pos];
        match glyph_or_question(font, ch) {
            Some(g) => {
                let adv = g.advance as i128;
                if x + adv > right && lg > 0 {
                    y = y + lh;
                    x = adv;
                    lg = 2;
                } else {
                    x = x + adv;
                    lg = lg + 1;
                }
                pos = pos + 1;
            },
            None => {
                proof {
                    assert(run.1 == Some(ch));
                }
                let msg = missing_glyph_message(ch);
                return Err(VkError::GenericError(msg));
            },
        }
    }
    if lg > 0 {
        y = y + lh;
    }
    Ok(y as i32)
}

/// Lays `text` out in a box of `width` pixels at `(x0, y0)`, moving a word
/// that would cross the right margin to the next line.
pub fn layout_word_wrap(
    context: &mut CanvasContext,
    x0: i32,
    y0: i32,
    width: u32,
    font: &VkFont,
    text: &str,
) -> (r: Result<(), VkError>)
    ensures
        !word_wrap_layout(
            old(context).glyphs@,
            old(context).color,
            old(context).line_spacing,
            font.height,
            font.glyphs@,
            x0 as int,
            y0 as int,
            width,
            text@,
        ).stuck,
        layout_outcome(
            *old(context),
            *final(context),
            word_wrap_layout(
                old(context).glyphs@,
                old(context).color,
                old(context).line_spacing,
                font.height,
                font.glyphs@,
                x0 as int,
                y0 as int,
                width,
                text@,
            ),
            r,
        ),
{
    context.line_lengths.clear();
    let chars = chars_of(text);
    let color = context.color;
    let ghost m = font.glyphs@;
    let ghost start = context.glyphs@;
    let lh: i128 = (font.height as u64 + context.line_spacing as u32 as u64) as i32 as i128;
    let right: i128 = x0 as i128 + width as i32 as i128;
    let ghost run = word_wrap_layout(
        start,
        color,
        context.line_spacing,
        font.height,
        m,
        x0 as int,
        y0 as int,
        width,
        text@,
    );
    let n = chars.len();
    let mut pos: usize = 0;
    let mut x: i128 = x0 as i128;
    let mut y: i128 = y0 as i128;
    let mut a: u128 = 0;
    let mut b: u128 = 0;
    let mut is_ws = false;
    let mut word_pos: usize = 0;
    let ghost mut floor: int = 0;
    proof {
        assert(context.line_lengths@ =~= Seq::<usize>::empty());
    }
    while pos < n
        invariant
            n == chars@.len(),
            chars@ == text@,
            m == font.glyphs@,
            start == old(context).glyphs@,
            color == old(context).color,
            same_settings(*old(context), *context),
            lh as int == line_height(font.height, old(context).line_spacing),
            right as int == right_margin(x0 as int, width),
            -step_bound() <= lh < step_bound(),
            run == word_wrap_layout(
                old(context).glyphs@,
                old(context).color,
                old(context).line_spacing,
                font.height,
                font.glyphs@,
                x0 as int,
                y0 as int,
                width,
                text@,
            ),
            0 <= floor <= pos <= n,
            context.glyphs@.len() == start.len() + pos,
            b <= a <= n + pos - floor,
            b > 0 ==> (a - b == pos - word_pos && floor < word_pos <= pos),
            is_ws ==> pos > floor,
            x0 - (pos - floor) * step_bound() <= x <= x0 + (pos - floor) * step_bound(),
            y0 - floor * step_bound() <= y <= y0 + floor * step_bound(),
            word_wrap_from(
                m,
                chars@,
                WordScan {
                    pos: pos as int,
                    x: x as int,
                    y: y as int,
                    a: a as int,
                    b: b as int,
                    is_ws,
                    word_pos: word_pos as int,
                    floor,
                },
                x0 as int,
                right as int,
                lh as int,
                color,
                context.glyphs@,
                context.line_lengths@,
            ) == run,
        decreases n - floor, n - pos,
    {
        let ch = chars[pos];
        match glyph_or_question(font, ch) {
            Some(g) => {
                let adv = g.advance as i128;
                let ws = char_is_whitespace(ch);
                let mut nb = b;
                let mut nwp = word_pos;
                if ws {
                } else if is_ws {
                    nb = a;
                    nwp = pos;
                }
                if x + adv > right && nb > 0 {
                    let word_glyphs = a - nb;
                    let keep = context.glyphs.len() - word_glyphs as usize;
                    context.glyphs.truncate(keep);
                    context.line_lengths.push(nb as usize);
                    a = a - nb;
                    b = 0;
                    x = x0 as i128;
                    y = y + lh;
                    is_ws = false;
                    word_pos = nwp;
                    pos = nwp;
                    proof {
                        floor = nwp as int;
                    }
                } else {
                    let inst = place(&g, x, y, color);
                    context.glyphs.push(inst);
                    x = x + adv;
                    a = a + 1;
                    b = nb;
                    is_ws = ws;
                    word_pos = nwp;
                    pos = pos + 1;
                }
            },
            None => {
                proof {
                    assert(run.missing == Some(ch));
                }
                let msg = missing_glyph_message(ch);
                return Err(VkError::GenericError(msg));
            },
        }
    }
    if a > 0 {
        context.line_lengths.push(a as usize);
    }
    Ok(())
}

/// The height of `text` wrapped by word in a box of `width` pixels: a line
/// height per line.
pub fn measure_word_wrap(context: &CanvasContext, width: u32, font: &VkFont, text: &str) -> (r:
    Result<i32, VkError>)
    ensures
        ({
            let (h, missing, stuck) = word_wrap_height(
                context.line_spacing,
                font.height,
                font.glyphs@,
                width,
                text@,
            );
            &&& !stuck
            &&& match missing {
                None => r matches Ok(v) && v == h as i32,
                Some(c) => r matches Err(VkError::GenericError(msg)) && msg@ == missing_glyph_text(
                    c,
                ),
            }
        }),
{
    let chars = chars_of(text);
    let ghost m = font.glyphs@;
    let lh: i128 = (font.height as u64 + context.line_spacing as u32 as u64) as i32 as i128;
    let right: i128 = width as i32 as i128;
    let ghost run = word_wrap_height(context.line_spacing, font.height, m, width, text@);
    let n = chars.len();
    let mut pos: usize = 0;
    let mut x: i128 = 0;
    let mut y: i128 = 0;
    let mut a: u128 = 0;
    let mut b: u128 = 0;
    let mut is_ws = false;
    let mut word_pos: usize = 0;
    let ghost mut floor: int = 0;
    while pos < n
        invariant
            n == chars@.len(),
            chars@ == text@,
            m == font.glyphs@,
            lh as int == line_height(font.height, context.line_spacing),
            right as int == (width as i32) as int,
            -step_bound() <= lh < step_bound(),
            run == word_wrap_height(context.line_spacing, font.height, font.glyphs@, width, text@),
            0 <= floor <= pos <= n,
            b <= a <= n + pos - floor,
            b > 0 ==> (a - b == pos - word_pos && floor < word_pos <= pos),
            is_ws ==> pos > floor,
            -(pos - floor) * step_bound() <= x <= (pos - floor) * step_bound(),
            -floor * step_bound() <= y <= floor * step_bound(),
            word_wrap_height_from(
                m,
                chars@,
                WordScan {
                    pos: pos as int,
                    x: x as int,
                    y: y as int,
                    a: a as int,
                    b: b as int,
                    is_ws,
                    word_pos: word_pos as int,
                    floor,
                },
                right as int,
                lh as int,
            ) == run,
        decreases n - floor, n - pos,
    {
        let ch = chars[pos];
        match glyph_or_question(font, ch) {
            Some(g) => {
                let adv = g.advance as i128;
                let ws = char_is_whitespace(ch);
                let mut nb = b;
                let mut nwp = word_pos;
                if ws {
                } else if is_ws {
                    nb = a;
                    nwp = pos;
                }
                if x + adv > right && nb > 0 {
                    a = a - nb;
                    b = 0;
                    x = 0;
                    y = y + lh;
                    is_ws = false;
                    word_pos = nwp;
                    pos = nwp;
                    proof {
                        floor = nwp as int;
                    }
                } else {
                    x = x + adv;
                    a = a + 1;
                    b = nb;
                    is_ws = ws;
                    word_pos = nwp;
                    pos = pos + 1;
                }
            },
            None => {
                proof {
                    assert(run.1 == Some(ch));
                }
                let msg = missing_glyph_message(ch);
                return Err(VkError::GenericError(msg));
            },
        }
    }
    if a > 0 {
        y = y + lh;
    }
    Ok(y as i32)
}

/// The layout that `mode` gives `text` in a box of `width` pixels at
/// `(x0, y0)`.
pub open spec fn mode_layout(
    mode: WrapMode,
    ctx_glyphs: Seq<GlyphInstance>,
    color: u32,
    spacing: usize,
    font_height: u32,
    m: Map<u32, GlyphMetrics>,
    x0: int,
    y0: int,
    width: u32,
    text: Seq<char>,
) -> TextRun {
    match mode {
        WrapMode::NoWrap => no_wrap_layout(ctx_glyphs, color, m, x0, y0, text),
        WrapMode::Character => char_wrap_layout(
            ctx_glyphs,
            color,
            spacing,
            font_height,
            m,
            x0,
            y0,
            width,
            text,
        ),
        WrapMode::Word => word_wrap_layout(
            ctx_glyphs,
            color,
            spacing,
            font_height,
            m,
            x0,
            y0,
            width,
            text,
        ),
    }
}

/// The height that `mode` gives `text` in a box of `width` pixels, the
/// first character without a glyph, and whether measuring never ends. One
/// line of text measures a line height whatever its characters.
pub open spec fn mode_height(
    mode: WrapMode,
    spacing: usize,
    font_height: u32,
    m: Map<u32, GlyphMetrics>,
    width: u32,
    text: Seq<char>,
) -> (int, Option<char>, bool) {
    match mode {
        WrapMode::NoWrap => (line_height(font_height, spacing), None, false),
        WrapMode::Character => char_wrap_height(spacing, font_height, m, width, text),
        WrapMode::Word => word_wrap_height(spacing, font_height, m, width, text),
    }
}

impl WrapMode {
    /// Lays `text` out with this wrap mode in a box of `width` pixels at
    /// `(x, y)`, appending its glyphs to the context.
    pub fn layout(
        &self,
        context: &mut CanvasContext,
        x: i32,
        y: i32,
        width: u32,
        font: &VkFont,
        text: &str,
    ) -> (r: Result<(), VkError>)
        requires
            !mode_layout(
                *self,
                old(context).glyphs@,
                old(context).color,
                old(context).line_spacing,
                font.height,
                font.glyphs@,
                x as int,
                y as int,
                width,
                text@,
            ).stuck,
        ensures
            layout_outcome(
                *old(context),
                *final(context),
                mode_layout(
                    *self,
                    old(context).glyphs@,
                    old(context).color,
                    old(context).line_spacing,
                    font.height,
                    font.glyphs@,
                    x as int,
                    y as int,
                    width,
                    text@,
                ),
                r,
            ),
    {
        match self {
            WrapMode::NoWrap => layout_no_wrap(context, x, y, font, text),
            WrapMode::Character => layout_char_wrap(context, x, y, width, font, text),
            WrapMode::Word => layout_word_wrap(context, x, y, width, font, text),
        }
    }

    /// The height of `text` laid out with this wrap mode in a box of `width`
    /// pixels.
    pub fn measure(&self, context: &CanvasContext, width: u32, font: &VkFont, text: &str) -> (r:
        Result<i32, VkError>)
        requires
            !mode_height(
                *self,
                context.line_spacing,
                font.height,
                font.glyphs@,
                width,
                text@,
            ).2,
        ensures
            ({
                let (h, missing, _) = mode_height(
                    *self,
                    context.line_spacing,
                    font.height,
                    font.glyphs@,
                    width,
                    text@,
                );
                match missing {
                    None => r matches Ok(v) && v == h as i32,
                    Some(c) => r matches Err(VkError::GenericError(msg)) && msg@
                        == missing_glyph_text(c),
                }
            }),
    {
        match self {
            WrapMode::NoWrap => measure_no_wrap(context, font, text),
            WrapMode::Character => measure_char_wrap(context, width, font, text),
            WrapMode::Word => measure_word_wrap(context, width, font, text),
        }
    }
}

} // verus!
