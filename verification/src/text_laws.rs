use crate::glyph::{GlyphInstance, GlyphMetrics};
use crate::text::{
    char_wrap_from, char_wrap_height_from, glyph_for, is_unicode_whitespace, line_height, mode_height, mode_layout,
    no_wrap_from, placed, right_margin, word_after, word_scan_start, word_wrap_from,
    word_wrap_height_from, WordScan, WrapMode,
};
use vstd::prelude::*;

verus! {

proof fn lemma_no_wrap_count(
    m: Map<u32, GlyphMetrics>,
    chars: Seq<char>,
    pos: int,
    x: int,
    y: int,
    color: u32,
    glyphs: Seq<GlyphInstance>,
)
    requires
        0 <= pos <= chars.len(),
    ensures
        no_wrap_from(m, chars, pos, x, y, color, glyphs).1 is None ==> no_wrap_from(
            m,
            chars,
            pos,
            x,
            y,
            color,
            glyphs,
        ).0.len() == glyphs.len() + chars.len() - pos,
    decreases chars.len() - pos,
{
    if pos < chars.len() {
        if let Some(g) = glyph_for(m, chars[pos]) {
            lemma_no_wrap_count(
                m,
                chars,
                pos + 1,
                x + g.advance,
                y,
                color,
                glyphs.push(placed(g, x, y, color)),
            );
        }
    }
}

proof fn lemma_char_wrap_count(
    m: Map<u32, GlyphMetrics>,
    chars: Seq<char>,
    pos: int,
    x: int,
    y: int,
    lg: int,
    x0: int,
    right: int,
    lh: int,
    color: u32,
    glyphs: Seq<GlyphInstance>,
    lines: Seq<usize>,
)
    requires
        0 <= pos <= chars.len(),
    ensures
        ({
            let r = char_wrap_from(m, chars, pos, x, y, lg, x0, right, lh, color, glyphs, lines);
            r.missing is None && !r.stuck ==> r.glyphs.len() == glyphs.len() + chars.len() - pos
        }),
    decreases chars.len() - pos,
{
    if pos < chars.len() {
        if let Some(g) = glyph_for(m, chars[pos]) {
            if x + g.advance > right && lg > 0 {
                if x0 + g.advance <= right {
                    lemma_char_wrap_count(
                        m,
                        chars,
                        pos + 1,
                        x0 + g.advance,
                        y + lh,
                        2,
                        x0,
                        right,
                        lh,
                        color,
                        glyphs.push(placed(g, x0, y + lh, color)),
                        lines.push(lg as usize),
                    );
                }
            } else {
                lemma_char_wrap_count(
                    m,
                    chars,
                    pos + 1,
                    x + g.advance,
                    y,
                    lg + 1,
                    x0,
                    right,
                    lh,
                    color,
                    glyphs.push(placed(g, x, y, color)),
                    lines,
                );
            }
        }
    }
}

proof fn lemma_char_wrap_height(
    m: Map<u32, GlyphMetrics>,
    chars: Seq<char>,
    pos: int,
    x: int,
    y: int,
    yh: int,
    lg: int,
    x0: int,
    right: int,
    lh: int,
    color: u32,
    glyphs: Seq<GlyphInstance>,
    lines: Seq<usize>,
)
    requires
        0 <= pos <= chars.len(),
    ensures
        ({
            let r = char_wrap_from(m, chars, pos, x, y, lg, x0, right, lh, color, glyphs, lines);
            let h = char_wrap_height_from(m, chars, pos, x - x0, yh, lg, right - x0, lh);
            &&& h.1 == r.missing
            &&& h.2 == r.stuck
            &&& (r.missing is None && !r.stuck) ==> h.0 == yh + (r.lines.len() - lines.len()) * lh
        }),
    decreases chars.len() - pos,
{
    let r = char_wrap_from(m, chars, pos, x, y, lg, x0, right, lh, color, glyphs, lines);
    let h = char_wrap_height_from(m, chars, pos, x - x0, yh, lg, right - x0, lh);
    if pos < chars.len() {
        if let Some(g) = glyph_for(m, chars[pos]) {
            if x + g.advance > right && lg > 0 {
                if x0 + g.advance <= right {
                    let lines2 = lines.push(lg as usize);
                    lemma_char_wrap_height(
                        m,
                        chars,
                        pos + 1,
                        x0 + g.advance,
                        y + lh,
                        yh + lh,
                        2,
                        x0,
                        right,
                        lh,
                        color,
                        glyphs.push(placed(g, x0, y + lh, color)),
                        lines2,
                    );
                    assert((x0 + g.advance) - x0 == g.advance as int);
                    let k = r.lines.len() - lines2.len();
                    assert(yh + lh + k * lh == yh + (k + 1) * lh) by (nonlinear_arith);
                }
            } else {
                lemma_char_wrap_height(
                    m,
                    chars,
                    pos + 1,
                    x + g.advance,
                    y,
                    yh,
                    lg + 1,
                    x0,
                    right,
                    lh,
                    color,
                    glyphs.push(placed(g, x, y, color)),
                    lines,
                );
                assert((x + g.advance) - x0 == (x - x0) + g.advance);
            }
        }
    } else {
        if lg > 0 {
            assert(r.lines.len() - lines.len() == 1);
        } else {
            assert(r.lines.len() - lines.len() == 0);
        }
    }
}

/// The invariant of a word-wrap scan that reaches state `s` with `glyphs`
/// from a buffer that held `base` glyphs.
pub open spec fn word_scan_valid(s: WordScan, len: int, base: int, glyphs_len: int) -> bool {
    &&& 0 <= s.floor <= s.pos <= len
    &&& 0 <= base
    &&& glyphs_len == base + s.pos
    &&& 0 <= s.b <= s.a
    &&& s.b > 0 ==> (s.a - s.b == s.pos - s.word_pos && s.floor < s.word_pos <= s.pos)
    &&& s.is_ws ==> s.pos > s.floor
}

proof fn lemma_word_wrap_count(
    m: Map<u32, GlyphMetrics>,
    chars: Seq<char>,
    s: WordScan,
    x0: int,
    right: int,
    lh: int,
    color: u32,
    base: int,
    glyphs: Seq<GlyphInstance>,
    lines: Seq<usize>,
)
    requires
        word_scan_valid(s, chars.len() as int, base, glyphs.len() as int),
    ensures
        ({
            let r = word_wrap_from(m, chars, s, x0, right, lh, color, glyphs, lines);
            &&& !r.stuck
            &&& r.missing is None ==> r.glyphs.len() == base + chars.len()
        }),
    decreases chars.len() - s.floor, chars.len() - s.pos,
{
    if s.pos < chars.len() {
        let c = chars[s.pos];
        if let Some(g) = glyph_for(m, c) {
            let (ws, nb, nwp) = word_after(s, c);
            if s.x + g.advance > right && nb > 0 {
                let s2 = WordScan {
                    pos: nwp,
                    x: x0,
                    y: s.y + lh,
                    a: s.a - nb,
                    b: 0,
                    is_ws: false,
                    word_pos: nwp,
                    floor: nwp,
                };
                if is_unicode_whitespace(c) || !s.is_ws {
                    assert(nb == s.b && nwp == s.word_pos);
                    assert(s.a - nb == s.pos - nwp);
                } else {
                    assert(nb == s.a && nwp == s.pos);
                }
                assert(s.floor < nwp <= s.pos);
                let g2 = glyphs.subrange(0, glyphs.len() - (s.a - nb));
                assert(g2.len() == base + nwp);
                lemma_word_wrap_count(
                    m,
                    chars,
                    s2,
                    x0,
                    right,
                    lh,
                    color,
                    base,
                    g2,
                    lines.push(nb as usize),
                );
            } else {
                let s2 = WordScan {
                    pos: s.pos + 1,
                    x: s.x + g.advance,
                    y: s.y,
                    a: s.a + 1,
                    b: nb,
                    is_ws: ws,
                    word_pos: nwp,
                    floor: s.floor,
                };
                lemma_word_wrap_count(
                    m,
                    chars,
                    s2,
                    x0,
                    right,
                    lh,
                    color,
                    base,
                    glyphs.push(placed(g, s.x, s.y, color)),
                    lines,
                );
            }
        }
    }
}

proof fn lemma_word_wrap_height(
    m: Map<u32, GlyphMetrics>,
    chars: Seq<char>,
    s: WordScan,
    yh: int,
    x0: int,
    right: int,
    lh: int,
    color: u32,
    glyphs: Seq<GlyphInstance>,
    lines: Seq<usize>,
)
    ensures
        ({
            let r = word_wrap_from(m, chars, s, x0, right, lh, color, glyphs, lines);
            let h = word_wrap_height_from(
                m,
                chars,
                WordScan { x: s.x - x0, y: yh, ..s },
                right - x0,
                lh,
            );
            &&& h.1 == r.missing
            &&& h.2 == r.stuck
            &&& (r.missing is None && !r.stuck) ==> h.0 == yh + (r.lines.len() - lines.len()) * lh
        }),
    decreases chars.len() - s.floor, chars.len() - s.pos,
{
    let r = word_wrap_from(m, chars, s, x0, right, lh, color, glyphs, lines);
    let sh = WordScan { x: s.x - x0, y: yh, ..s };
    if s.pos < 0 || s.pos >= chars.len() || s.floor < 0 {
        if s.a > 0 {
            assert(r.lines.len() - lines.len() == 1);
        } else {
            assert(r.lines.len() - lines.len() == 0);
        }
    } else {
        let c = chars[s.pos];
        assert(word_after(sh, c) == word_after(s, c));
        if let Some(g) = glyph_for(m, c) {
            let (ws, nb, nwp) = word_after(s, c);
            if s.x + g.advance > right && nb > 0 {
                if s.floor < nwp <= s.pos {
                    let s2 = WordScan {
                        pos: nwp,
                        x: x0,
                        y: s.y + lh,
                        a: s.a - nb,
                        b: 0,
                        is_ws: false,
                        word_pos: nwp,
                        floor: nwp,
                    };
                    let lines2 = lines.push(nb as usize);
                    assert(WordScan { x: s2.x - x0, y: yh + lh, ..s2 } == WordScan {
                        pos: nwp,
                        x: 0,
                        y: yh + lh,
                        a: sh.a - nb,
                        b: 0,
                        is_ws: false,
                        word_pos: nwp,
                        floor: nwp,
                    });
                    lemma_word_wrap_height(
                        m,
                        chars,
                        s2,
                        yh + lh,
                        x0,
                        right,
                        lh,
                        color,
                        glyphs.subrange(0, glyphs.len() - (s.a - nb)),
                        lines2,
                    );
                    let k = r.lines.len() - lines2.len();
                    assert(yh + lh + k * lh == yh + (k + 1) * lh) by (nonlinear_arith);
                }
            } else {
                let s2 = WordScan {
                    pos: s.pos + 1,
                    x: s.x + g.advance,
                    y: s.y,
                    a: s.a + 1,
                    b: nb,
                    is_ws: ws,
                    word_pos: nwp,
                    floor: s.floor,
                };
                assert(WordScan { x: s2.x - x0, y: yh, ..s2 } == WordScan {
                    pos: sh.pos + 1,
                    x: sh.x + g.advance,
                    y: sh.y,
                    a: sh.a + 1,
                    b: nb,
                    is_ws: ws,
                    word_pos: nwp,
                    floor: sh.floor,
                });
                lemma_word_wrap_height(
                    m,
                    chars,
                    s2,
                    yh,
                    x0,
                    right,
                    lh,
                    color,
                    glyphs.push(placed(g, s.x, s.y, color)),
                    lines,
                );
            }
        }
    }
}

/// Law: laying text out, in any wrap mode, appends exactly one glyph per
/// character when every character has a glyph (its own or `'?'`) and the
/// layout ends. Word wrapping always ends.
pub proof fn law_one_glyph_per_character(
    mode: WrapMode,
    ctx_glyphs: Seq<GlyphInstance>,
    color: u32,
    spacing: usize,
    font_height: u32,
    m: Map<u32, GlyphMetrics>,
    x0: int,
    y0: int,
    width: u32,
    text: Seq<char>,
)
    ensures
        ({
            let r = mode_layout(
                mode,
                ctx_glyphs,
                color,
                spacing,
                font_height,
                m,
                x0,
                y0,
                width,
                text,
            );
            &&& mode == WrapMode::Word ==> !r.stuck
            &&& (r.missing is None && !r.stuck) ==> r.glyphs.len() == ctx_glyphs.len()
                + text.len()
        }),
{
    match mode {
        WrapMode::NoWrap => {
            lemma_no_wrap_count(m, text, 0, x0, y0, color, ctx_glyphs);
        },
        WrapMode::Character => {
            lemma_char_wrap_count(
                m,
                text,
                0,
                x0,
                y0,
                0,
                x0,
                right_margin(x0, width),
                line_height(font_height, spacing),
                color,
                ctx_glyphs,
                Seq::empty(),
            );
        },
        WrapMode::Word => {
            lemma_word_wrap_count(
                m,
                text,
                word_scan_start(x0, y0),
                x0,
                right_margin(x0, width),
                line_height(font_height, spacing),
                color,
                ctx_glyphs.len() as int,
                ctx_glyphs,
                Seq::empty(),
            );
        },
    }
}

/// Law: measuring wrapped text agrees with laying it out in a box of the
/// same width, wherever the box stands: both meet the same missing glyph
/// and end (or not) alike, and the measured height is one line height per
/// line that the layout records.
pub proof fn law_measure_matches_layout(
    mode: WrapMode,
    ctx_glyphs: Seq<GlyphInstance>,
    color: u32,
    spacing: usize,
    font_height: u32,
    m: Map<u32, GlyphMetrics>,
    x0: int,
    y0: int,
    width: u32,
    text: Seq<char>,
)
    requires
        mode != WrapMode::NoWrap,
    ensures
        ({
            let r = mode_layout(
                mode,
                ctx_glyphs,
                color,
                spacing,
                font_height,
                m,
                x0,
                y0,
                width,
                text,
            );
            let h = mode_height(mode, spacing, font_height, m, width, text);
            &&& h.1 == r.missing
            &&& h.2 == r.stuck
            &&& (r.missing is None && !r.stuck) ==> h.0 == r.lines.len() * line_height(
                font_height,
                spacing,
            )
        }),
{
    let lh = line_height(font_height, spacing);
    let right = right_margin(x0, width);
    if mode == WrapMode::Character {
        lemma_char_wrap_height(
            m,
            text,
            0,
            x0,
            y0,
            0,
            0,
            x0,
            right,
            lh,
            color,
            ctx_glyphs,
            Seq::empty(),
        );
        assert(right - x0 == (width as i32) as int);
    } else {
        lemma_word_wrap_height(
            m,
            text,
            word_scan_start(x0, y0),
            0,
            x0,
            right,
            lh,
            color,
            ctx_glyphs,
            Seq::empty(),
        );
        assert(WordScan { x: x0 - x0, y: 0, ..word_scan_start(x0, y0) } == word_scan_start(0, 0));
    }
}

/// `glyphs` starts with `ctx` and every glyph after it has colour `color`.
pub open spec fn keeps_and_colours(
    ctx: Seq<GlyphInstance>,
    glyphs: Seq<GlyphInstance>,
    color: u32,
) -> bool {
    &&& glyphs.len() >= ctx.len()
    &&& glyphs.take(ctx.len() as int) == ctx
    &&& forall|i: int| ctx.len() <= i < glyphs.len() ==> (#[trigger] glyphs[i]).color == color
}

/// Every character of `chars` has a glyph: its own or the font's `'?'`.
pub open spec fn all_drawable(m: Map<u32, GlyphMetrics>, chars: Seq<char>) -> bool {
    forall|i: int| 0 <= i < chars.len() ==> #[trigger] glyph_for(m, chars[i]) is Some
}

proof fn lemma_keep_push(ctx: Seq<GlyphInstance>, glyphs: Seq<GlyphInstance>, g: GlyphInstance, color: u32)
    requires
        keeps_and_colours(ctx, glyphs, color),
        g.color == color,
    ensures
        keeps_and_colours(ctx, glyphs.push(g), color),
{
    assert(glyphs.push(g).take(ctx.len() as int) =~= glyphs.take(ctx.len() as int));
    assert forall|i: int| ctx.len() <= i < glyphs.push(g).len() implies (#[trigger] glyphs.push(
        g,
    )[i]).color == color by {
        if i < glyphs.len() {
            assert(glyphs.push(g)[i] == glyphs[i]);
        }
    }
}

proof fn lemma_keep_truncate(ctx: Seq<GlyphInstance>, glyphs: Seq<GlyphInstance>, n: int, color: u32)
    requires
        keeps_and_colours(ctx, glyphs, color),
        ctx.len() <= n <= glyphs.len(),
    ensures
        keeps_and_colours(ctx, glyphs.subrange(0, n), color),
{
    assert(glyphs.subrange(0, n).take(ctx.len() as int) =~= glyphs.take(ctx.len() as int));
    assert forall|i: int| ctx.len() <= i < n implies (#[trigger] glyphs.subrange(0, n)[i]).color
        == color by {
        assert(glyphs.subrange(0, n)[i] == glyphs[i]);
    }
}

proof fn lemma_no_wrap_keeps(
    m: Map<u32, GlyphMetrics>,
    chars: Seq<char>,
    pos: int,
    x: int,
    y: int,
    color: u32,
    ctx: Seq<GlyphInstance>,
    glyphs: Seq<GlyphInstance>,
)
    requires
        0 <= pos <= chars.len(),
        keeps_and_colours(ctx, glyphs, color),
    ensures
        keeps_and_colours(ctx, no_wrap_from(m, chars, pos, x, y, color, glyphs).0, color),
        all_drawable(m, chars) ==> no_wrap_from(m, chars, pos, x, y, color, glyphs).1 is None,
    decreases chars.len() - pos,
{
    if pos < chars.len() {
        if let Some(g) = glyph_for(m, chars[pos]) {
            lemma_keep_push(ctx, glyphs, placed(g, x, y, color), color);
            lemma_no_wrap_keeps(
                m,
                chars,
                pos + 1,
                x + g.advance,
                y,
                color,
                ctx,
                glyphs.push(placed(g, x, y, color)),
            );
        } else {
            assert(glyph_for(m, chars[pos]) is None);
        }
    }
}

proof fn lemma_char_wrap_keeps(
    m: Map<u32, GlyphMetrics>,
    chars: Seq<char>,
    pos: int,
    x: int,
    y: int,
    lg: int,
    x0: int,
    right: int,
    lh: int,
    color: u32,
    ctx: Seq<GlyphInstance>,
    glyphs: Seq<GlyphInstance>,
    lines: Seq<usize>,
)
    requires
        0 <= pos <= chars.len(),
        keeps_and_colours(ctx, glyphs, color),
    ensures
        ({
            let r = char_wrap_from(m, chars, pos, x, y, lg, x0, right, lh, color, glyphs, lines);
            &&& keeps_and_colours(ctx, r.glyphs, color)
            &&& all_drawable(m, chars) ==> r.missing is None
        }),
    decreases chars.len() - pos,
{
    if pos < chars.len() {
        if let Some(g) = glyph_for(m, chars[pos]) {
            if x + g.advance > right && lg > 0 {
                if x0 + g.advance <= right {
                    lemma_keep_push(ctx, glyphs, placed(g, x0, y + lh, color), color);
                    lemma_char_wrap_keeps(
                        m,
                        chars,
                        pos + 1,
                        x0 + g.advance,
                        y + lh,
                        2,
                        x0,
                        right,
                        lh,
                        color,
                        ctx,
                        glyphs.push(placed(g, x0, y + lh, color)),
                        lines.push(lg as usize),
                    );
                }
            } else {
                lemma_keep_push(ctx, glyphs, placed(g, x, y, color), color);
                lemma_char_wrap_keeps(
                    m,
                    chars,
                    pos + 1,
                    x + g.advance,
                    y,
                    lg + 1,
                    x0,
                    right,
                    lh,
                    color,
                    ctx,
                    glyphs.push(placed(g, x, y, color)),
                    lines,
                );
            }
        } else {
            assert(glyph_for(m, chars[pos]) is None);
        }
    }
}

proof fn lemma_word_wrap_keeps(
    m: Map<u32, GlyphMetrics>,
    chars: Seq<char>,
    s: WordScan,
    x0: int,
    right: int,
    lh: int,
    color: u32,
    ctx: Seq<GlyphInstance>,
    glyphs: Seq<GlyphInstance>,
    lines: Seq<usize>,
)
    requires
        word_scan_valid(s, chars.len() as int, ctx.len() as int, glyphs.len() as int),
        keeps_and_colours(ctx, glyphs, color),
    ensures
        ({
            let r = word_wrap_from(m, chars, s, x0, right, lh, color, glyphs, lines);
            &&& keeps_and_colours(ctx, r.glyphs, color)
            &&& all_drawable(m, chars) ==> r.missing is None
        }),
    decreases chars.len() - s.floor, chars.len() - s.pos,
{
    let base = ctx.len() as int;
    if s.pos < chars.len() {
        let c = chars[s.pos];
        if let Some(g) = glyph_for(m, c) {
            let (ws, nb, nwp) = word_after(s, c);
            if s.x + g.advance > right && nb > 0 {
                let s2 = WordScan {
                    pos: nwp,
                    x: x0,
                    y: s.y + lh,
                    a: s.a - nb,
                    b: 0,
                    is_ws: false,
                    word_pos: nwp,
                    floor: nwp,
                };
                if is_unicode_whitespace(c) || !s.is_ws {
                    assert(nb == s.b && nwp == s.word_pos);
                    assert(s.a - nb == s.pos - nwp);
                } else {
                    assert(nb == s.a && nwp == s.pos);
                }
                assert(s.floor < nwp <= s.pos);
                let n = glyphs.len() - (s.a - nb);
                let g2 = glyphs.subrange(0, n);
                assert(g2.len() == base + nwp);
                lemma_keep_truncate(ctx, glyphs, n, color);
                lemma_word_wrap_keeps(
                    m,
                    chars,
                    s2,
                    x0,
                    right,
                    lh,
                    color,
                    ctx,
                    g2,
                    lines.push(nb as usize),
                );
            } else {
                let s2 = WordScan {
                    pos: s.pos + 1,
                    x: s.x + g.advance,
                    y: s.y,
                    a: s.a + 1,
                    b: nb,
                    is_ws: ws,
                    word_pos: nwp,
                    floor: s.floor,
                };
                lemma_keep_push(ctx, glyphs, placed(g, s.x, s.y, color), color);
                lemma_word_wrap_keeps(
                    m,
                    chars,
                    s2,
                    x0,
                    right,
                    lh,
                    color,
                    ctx,
                    glyphs.push(placed(g, s.x, s.y, color)),
                    lines,
                );
            }
        } else {
            assert(glyph_for(m, chars[s.pos]) is None);
        }
    }
}

/// Law: laying text out, in any wrap mode, keeps the glyphs the context
/// already held and gives every glyph it appends the context's colour; and a
/// text whose every character has a glyph (its own or `'?'`) meets no
/// missing glyph.
pub proof fn law_layout_keeps_glyphs_and_colour(
    mode: WrapMode,
    ctx_glyphs: Seq<GlyphInstance>,
    color: u32,
    spacing: usize,
    font_height: u32,
    m: Map<u32, GlyphMetrics>,
    x0: int,
    y0: int,
    width: u32,
    text: Seq<char>,
)
    ensures
        ({
            let r = mode_layout(
                mode,
                ctx_glyphs,
                color,
                spacing,
                font_height,
                m,
                x0,
                y0,
                width,
                text,
            );
            &&& keeps_and_colours(ctx_glyphs, r.glyphs, color)
            &&& all_drawable(m, text) ==> r.missing is None
        }),
{
    assert(ctx_glyphs.take(ctx_glyphs.len() as int) =~= ctx_glyphs);
    match mode {
        WrapMode::NoWrap => {
            lemma_no_wrap_keeps(m, text, 0, x0, y0, color, ctx_glyphs, ctx_glyphs);
        },
        WrapMode::Character => {
            lemma_char_wrap_keeps(
                m,
                text,
                0,
                x0,
                y0,
                0,
                x0,
                right_margin(x0, width),
                line_height(font_height, spacing),
                color,
                ctx_glyphs,
                ctx_glyphs,
                Seq::empty(),
            );
        },
        WrapMode::Word => {
            lemma_word_wrap_keeps(
                m,
                text,
                word_scan_start(x0, y0),
                x0,
                right_margin(x0, width),
                line_height(font_height, spacing),
                color,
                ctx_glyphs,
                ctx_glyphs,
                Seq::empty(),
            );
        },
    }
}

} // verus!
