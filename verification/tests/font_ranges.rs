use rg_vulkan::font::{char_set_fits, optimize_ranges, ranges_can_merge, to_char_set};

#[test]
fn should_optimize() {
    let res = optimize_ranges(&vec![(2..=9), (0..=4), (5..=11), (100..=122)]);
    assert_eq!(vec![(0..=11), (100..=122)], res)
}

#[test]
fn should_iterate_lazily() {
    let ranges = vec![(33..=45), (77..=82)];
    let result = to_char_set(&ranges);
    assert_eq!(
        vec![
            '!', '"', '#', '$', '%', '&', '\'', '(', ')', '*', '+', ',', '-', 'M', 'N', 'O', 'P',
            'Q', 'R'
        ],
        result
    );
}

#[test]
fn optimize_keeps_separate_ranges_apart() {
    let res = optimize_ranges(&vec![(10..=12), (1..=3)]);
    assert_eq!(vec![(1..=3), (10..=12)], res);
}

#[test]
fn optimize_joins_adjacent_ranges() {
    let res = optimize_ranges(&vec![(4..=6), (1..=3)]);
    assert_eq!(vec![(1..=6)], res);
}

#[test]
fn optimize_single_range() {
    let res = optimize_ranges(&vec![(7..=7)]);
    assert_eq!(vec![(7..=7)], res);
}

#[test]
fn char_set_skips_surrogates() {
    let res = to_char_set(&vec![(0xD7FE..=0xE001)]);
    assert_eq!(
        vec!['\u{D7FE}', '\u{D7FF}', '\u{E000}', '\u{E001}'],
        res
    );
}

#[test]
fn char_set_of_empty_list() {
    let res = to_char_set(&vec![]);
    assert!(res.is_empty());
}

#[test]
fn merge_needs_room_above_each_range() {
    assert!(ranges_can_merge(&vec![(5..=u32::MAX), (0..=9)]));
    assert!(!ranges_can_merge(&vec![(0..=u32::MAX), (5..=9)]));
    assert!(ranges_can_merge(&vec![(1..=2)]));
}

#[test]
fn char_set_count_must_fit() {
    assert!(char_set_fits(&vec![(0..=0x10FFFF)]));
    assert!(char_set_fits(&vec![(10..=1)]));
    assert!(!char_set_fits(&vec![(0..=u32::MAX)]));
    assert!(!char_set_fits(&vec![(1..=u32::MAX), (0..=0)]));
}

#[test]
fn optimizing_twice_changes_nothing() {
    let once = optimize_ranges(&vec![(30..=40), (2..=9), (0..=4), (10..=11), (100..=122)]);
    assert_eq!(once, vec![(0..=11), (30..=40), (100..=122)]);
    assert!(ranges_can_merge(&once));
    assert_eq!(optimize_ranges(&once), once);
}
