use rg_vulkan::canvas::{draw_console_text, FontAtlas, UiCanvas};
use rg_vulkan::error::VkError;
use rg_vulkan::glyph::{GlyphInstance, GlyphMetrics, VkFont, WHITE};
use rg_vulkan::text::{
    char_wrap_ends, layout_char_wrap, layout_no_wrap, layout_word_wrap, measure_char_wrap, measure_no_wrap,
    measure_word_wrap, CanvasContext, WrapMode,
};
use std::collections::HashMap;

fn metrics(advance: i32) -> GlyphMetrics {
    GlyphMetrics {
        advance,
        offset_x: 1,
        offset_y: -2,
        width: 6,
        height: 9,
        uv_min: [10, 20],
        uv_max: [30, 40],
        layer_index: 1,
    }
}

fn font(chars: &str, with_question_mark: bool) -> VkFont {
    let mut glyphs = HashMap::new();
    for c in chars.chars() {
        glyphs.insert(c as u32, metrics(8));
    }
    if with_question_mark {
        glyphs.insert('?' as u32, metrics(5));
    }
    VkFont { height: 10, glyphs }
}

fn instance(x: i16, y: i16, color: u32) -> GlyphInstance {
    GlyphInstance {
        pos: [x + 1, y - 2],
        size: [6, 9],
        color,
        uv_min: [10, 20],
        uv_max: [30, 40],
        layer_index: 1,
    }
}

fn positions(ctx: &CanvasContext) -> Vec<[i16; 2]> {
    ctx.glyphs.iter().map(|g| g.pos).collect()
}

#[test]
fn glyph_instance_from_metrics() {
    assert_eq!(metrics(8).to_glyph_instance(5, 20), instance(5, 20, WHITE));
}

#[test]
fn no_wrap_places_glyphs_on_one_line() {
    let f = font("a", false);
    let mut ctx = CanvasContext::new("f".to_string());
    ctx.color = 0x11223344;
    assert_eq!(layout_no_wrap(&mut ctx, 5, 20, &f, "aa"), Ok(()));
    assert_eq!(ctx.glyphs, vec![instance(5, 20, 0x11223344), instance(13, 20, 0x11223344)]);
    assert_eq!(ctx.line_lengths, vec![2]);
    assert_eq!(measure_no_wrap(&ctx, &f, "aa"), Ok(10));
}

#[test]
fn missing_glyph_uses_question_mark() {
    let f = font("a", true);
    let mut ctx = CanvasContext::new("f".to_string());
    assert_eq!(layout_no_wrap(&mut ctx, 0, 0, &f, "ab"), Ok(()));
    assert_eq!(positions(&ctx), vec![[1, -2], [9, -2]]);
}

#[test]
fn missing_glyph_without_question_mark_is_an_error() {
    let f = font("a", false);
    let mut ctx = CanvasContext::new("f".to_string());
    assert_eq!(
        layout_no_wrap(&mut ctx, 0, 0, &f, "ab"),
        Err(VkError::GenericError("No glyph for b".to_string()))
    );
    assert_eq!(ctx.glyphs.len(), 1);
}

#[test]
fn character_wrap_breaks_before_the_margin() {
    let f = font("a", false);
    let mut ctx = CanvasContext::new("f".to_string());
    assert_eq!(layout_char_wrap(&mut ctx, 0, 0, 20, &f, "aaa"), Ok(()));
    assert_eq!(positions(&ctx), vec![[1, -2], [9, -2], [1, 8]]);
    assert_eq!(ctx.line_lengths, vec![2, 2]);
    assert_eq!(measure_char_wrap(&ctx, 20, &f, "aaa"), Ok(20));
}

#[test]
fn word_wrap_moves_the_word_to_the_next_line() {
    let f = font("abcd ", false);
    let mut ctx = CanvasContext::new("f".to_string());
    assert_eq!(layout_word_wrap(&mut ctx, 0, 0, 20, &f, "ab cd"), Ok(()));
    assert_eq!(positions(&ctx), vec![[1, -2], [9, -2], [17, -2], [1, 8], [9, 8]]);
    assert_eq!(ctx.line_lengths, vec![3, 2]);
    assert_eq!(measure_word_wrap(&ctx, 20, &f, "ab cd"), Ok(20));
}

#[test]
fn wrap_mode_dispatches() {
    let f = font("a", false);
    let mut ctx = CanvasContext::new("f".to_string());
    assert_eq!(WrapMode::Character.layout(&mut ctx, 0, 0, 20, &f, "aaa"), Ok(()));
    assert_eq!(ctx.line_lengths, vec![2, 2]);
    assert_eq!(WrapMode::NoWrap.measure(&ctx, 20, &f, "aaa"), Ok(10));
    assert_eq!(WrapMode::Word.measure(&ctx, 20, &f, "aaa"), Ok(10));
}

fn canvas() -> UiCanvas {
    let mut f = font("a", false);
    f.glyphs.insert(0x2588, metrics(8));
    UiCanvas {
        context: CanvasContext::new("console".to_string()),
        atlas: FontAtlas { fonts: vec![("console".to_string(), f)] },
    }
}

#[test]
fn canvas_draws_and_measures_with_its_font() {
    let mut c = canvas();
    c.set_color(7);
    c.set_wrap_mode(WrapMode::Character);
    c.set_line_spacing(2);
    assert_eq!(c.draw_text(0, 0, 20, "aaa"), Ok(()));
    assert_eq!(c.context.glyphs.len(), 3);
    assert_eq!(c.context.glyphs[2].pos, [1, 10]);
    assert_eq!(c.measure_text(20, "aaa"), 24);
    assert!(c.draw_rect(3, 4, 50, 60));
    let last = *c.context.glyphs.last().unwrap();
    assert_eq!((last.pos, last.size, last.color), ([3, 4], [50, 60], 7));
}

#[test]
fn canvas_without_its_font_draws_nothing() {
    let mut c = canvas();
    c.set_font("title".to_string());
    assert_eq!(c.draw_text(0, 0, 20, "aaa"), Ok(()));
    assert!(c.context.glyphs.is_empty());
    assert_eq!(c.measure_text(20, "aaa"), 0);
    assert!(!c.draw_rect(0, 0, 1, 1));
    assert_eq!(c.atlas.find(&"console".to_string()), Some(0));
    assert_eq!(c.atlas.find(&"title".to_string()), None);
}

#[test]
fn console_text_starts_one_line_down() {
    let c = canvas();
    let mut batch = Vec::new();
    assert!(draw_console_text(&mut batch, &c.atlas, 5, 20, "a-a", 3));
    assert_eq!(batch, vec![instance(5, 30, 3), instance(13, 30, 3)]);
    let empty = FontAtlas { fonts: vec![] };
    assert!(!draw_console_text(&mut batch, &empty, 5, 20, "a", 3));
    assert_eq!(batch.len(), 2);
}

#[test]
fn font_atlas_insert_replaces_by_name() {
    let mut atlas = FontAtlas::new();
    atlas.insert("console".to_string(), font("a", false));
    atlas.insert("title".to_string(), font("b", false));
    atlas.insert("console".to_string(), font("c", false));
    assert_eq!(atlas.fonts.len(), 2);
    assert_eq!(atlas.find(&"console".to_string()), Some(0));
    assert!(atlas.fonts[0].1.glyphs.contains_key(&('c' as u32)));
}

#[test]
fn character_wrap_of_a_too_wide_glyph_never_ends() {
    let f = font("a", false);
    let ctx = CanvasContext::new("f".to_string());
    assert!(!char_wrap_ends(&ctx, 5, &f, "aa"));
    assert!(char_wrap_ends(&ctx, 5, &f, "a"));
    assert!(char_wrap_ends(&ctx, 20, &f, "aaaa"));
    assert!(char_wrap_ends(&ctx, 5, &f, "ab"));
    let mut c = canvas();
    c.set_wrap_mode(WrapMode::Character);
    assert!(!c.text_layout_ends(0, 0, 5, "aa"));
    assert!(c.text_layout_ends(0, 0, 20, "aa"));
    c.set_wrap_mode(WrapMode::Word);
    assert!(c.text_layout_ends(0, 0, 5, "aa"));
}
