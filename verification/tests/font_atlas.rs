use rg_vulkan::font_atlas::{FontAtlasBuilder, GlyphSlot};

#[test]
fn glyphs_get_separate_slots() {
    let mut b = FontAtlasBuilder::new(64, 64);
    let s1 = b.allocate_glyph(10, 10).unwrap();
    let s2 = b.allocate_glyph(10, 10).unwrap();
    assert_eq!((s1.max_x - s1.min_x, s1.max_y - s1.min_y), (11, 11));
    assert_eq!(s1.layer_index, 0);
    assert_eq!(s2.layer_index, 0);
    let overlap = s1.min_x < s2.max_x && s2.min_x < s1.max_x && s1.min_y < s2.max_y && s2.min_y < s1.max_y;
    assert!(!overlap);
}

#[test]
fn full_layer_moves_on_to_a_new_one() {
    let mut b = FontAtlasBuilder::new(16, 16);
    let s1: GlyphSlot = b.allocate_glyph(15, 15).unwrap();
    assert_eq!(s1.layer_index, 0);
    let s2 = b.allocate_glyph(15, 15).unwrap();
    assert_eq!(s2.layer_index, 1);
    assert_eq!(b.build().len(), 2);
}

#[test]
fn too_large_glyph_gets_no_slot() {
    let mut b = FontAtlasBuilder::new(8, 8);
    assert_eq!(b.allocate_glyph(20, 2), None);
    assert_eq!(b.build().len(), 3);
}

#[test]
fn coverage_lands_in_the_current_layer() {
    let mut b = FontAtlasBuilder::new(4, 3);
    b.put_coverage(1, 1, 1, 1, 200);
    b.put_coverage(3, 0, 5, 0, 9);
    let layers = b.build();
    assert_eq!(layers.len(), 1);
    let mut expected = vec![0u8; 12];
    expected[2 * 4 + 2] = 200;
    assert_eq!(layers[0], expected);
}

#[test]
fn layer_is_closed_only_when_full() {
    let mut b = FontAtlasBuilder::new(32, 32);
    let s1 = b.allocate_glyph(7, 7).unwrap();
    let s2 = b.allocate_glyph(7, 7).unwrap();
    let s3 = b.allocate_glyph(7, 7).unwrap();
    assert_eq!((s1.layer_index, s2.layer_index, s3.layer_index), (0, 0, 0));
    assert_eq!(b.current_layer_index(), 0);
    let big = b.allocate_glyph(31, 31).unwrap();
    assert_eq!(big.layer_index, 1);
    assert_eq!(b.current_layer_index(), 1);
    assert_eq!(b.build().len(), 2);
    assert_eq!(b.build(), vec![Vec::<u8>::new()]);
}

#[test]
fn glyph_as_large_as_a_layer_fits_a_fresh_one() {
    let mut b = FontAtlasBuilder::new(8, 8);
    assert!(b.allocate_glyph(7, 7).is_some());
    assert!(b.allocate_glyph(7, 7).is_some());
    assert_eq!(b.allocate_glyph(8, 7), None);
}
