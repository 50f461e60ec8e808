use rg_vulkan::host::Arguments;
use rg_vulkan::strings::{format_u32, parse_u32, split_text};

#[test]
fn it_works() {}

fn args(v: &[&str]) -> Vec<String> {
    v.iter().map(|s| s.to_string()).collect()
}

#[test]
fn has_option_finds_flag() {
    let v = args(&["prog", "-windowed", "-x"]);
    assert!(Arguments::has_option(&v, "-windowed"));
    assert!(!Arguments::has_option(&v, "-dedicated"));
}

#[test]
fn get_value_returns_next_argument() {
    let v = args(&["prog", "-base", "a,b", "-base", "c"]);
    assert_eq!(Arguments::get_value(&v, "-base"), Some(&"a,b".to_string()));
    assert_eq!(Arguments::get_value(&v, "-other"), None);
}

#[test]
fn from_args_reads_flags_and_base_list() {
    let v = args(&["prog", "-dedicated", "-base", "one,,two"]);
    let a = Arguments::from_args(&v);
    assert!(a.dedicated());
    assert!(!a.windowed());
    assert_eq!(a.base(), &args(&["one", "", "two"]));
}

#[test]
fn from_args_without_base_has_one_empty_entry() {
    let v = args(&["prog", "-windowed"]);
    let a = Arguments::from_args(&v);
    assert!(a.windowed());
    assert_eq!(a.base(), &args(&[""]));
}

#[test]
fn split_commas_keeps_trailing_empty_piece() {
    assert_eq!(split_text("x,", ','), args(&["x", ""]));
    assert_eq!(split_text("", ','), args(&[""]));
    assert_eq!(split_text("a:b:c", ':'), args(&["a", "b", "c"]));
}

#[test]
fn decimal_round_trip() {
    assert_eq!(format_u32(0), "0");
    assert_eq!(format_u32(4318), "4318");
    assert_eq!(format_u32(u32::MAX), "4294967295");
    assert_eq!(parse_u32("4294967295"), Some(u32::MAX));
    assert_eq!(parse_u32("+17"), Some(17));
}

#[test]
fn parse_rejects_bad_numbers() {
    assert_eq!(parse_u32("4294967296"), None);
    assert_eq!(parse_u32(""), None);
    assert_eq!(parse_u32("+"), None);
    assert_eq!(parse_u32("-1"), None);
    assert_eq!(parse_u32("12a"), None);
    assert_eq!(parse_u32("007"), Some(7));
}
