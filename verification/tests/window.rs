use rg_vulkan::config::{apply_overrides, default_config, Config, ConfigOverrides};
use rg_vulkan::window::{
    centered_position, find_best_video_mode, select_best_monitor, text_contains, window_size,
    VideoMode,
};

#[test]
fn default_config_is_windowed_800_by_600() {
    let c = default_config();
    assert!(c.windowed);
    assert_eq!((c.width, c.height, c.bit_depth, c.refresh_rate), (800, 600, 24, 60));
    let d = Config::default();
    assert!(!d.windowed);
    assert_eq!((d.width, d.height), (0, 0));
}

#[test]
fn overrides_take_precedence_and_are_clamped() {
    let mut c = default_config();
    let args = ConfigOverrides {
        windowed: Some(false),
        width: Some(10_000),
        height: None,
        bit_depth: Some(8),
        refresh_rate: Some(144),
    };
    apply_overrides(&mut c, &args);
    assert!(!c.windowed);
    assert_eq!((c.width, c.height, c.bit_depth, c.refresh_rate), (3840, 600, 24, 144));
    let mut z = Config::default();
    apply_overrides(&mut z, &ConfigOverrides::default());
    assert_eq!((z.width, z.height, z.bit_depth, z.refresh_rate), (400, 200, 24, 50));
}

#[test]
fn window_size_is_clamped() {
    assert_eq!(window_size(100, 5000, 1920, 1080), (400, 1080));
    assert_eq!(window_size(1024, 768, 1920, 1080), (1024, 768));
}

#[test]
fn window_is_centred_on_secondary_monitor() {
    assert_eq!(centered_position(0, 0, 1920, 1080, 800, 600), None);
    assert_eq!(centered_position(1920, 0, 1920, 1080, 800, 600), Some((2480, 240)));
    assert_eq!(centered_position(-1280, 100, 1280, 1024, 801, 601), Some((-1040, 312)));
}

#[test]
fn substring_search() {
    assert!(text_contains("DELL U2720Q", "U27"));
    assert!(text_contains("abc", ""));
    assert!(!text_contains("abc", "abcd"));
    assert!(!text_contains("abc", "bd"));
}

#[test]
fn selects_preferred_monitor_by_name() {
    let names = vec![None, Some("LG HDR".to_string()), Some("DELL U2720Q".to_string())];
    assert_eq!(select_best_monitor(&names, &Some("DELL".to_string()), Some(1)), Some(2));
    assert_eq!(select_best_monitor(&names, &Some("Sony".to_string()), Some(1)), Some(1));
    assert_eq!(select_best_monitor(&names, &None, None), None);
}

fn mode(width: u32, height: u32, hz: u32, bit_depth: u16) -> VideoMode {
    VideoMode { width, height, refresh_rate_millihertz: hz * 1000, bit_depth }
}

#[test]
fn picks_closest_video_mode() {
    let modes = vec![mode(1920, 1080, 60, 32), mode(1280, 720, 60, 32), mode(1920, 1080, 144, 32)];
    assert_eq!(find_best_video_mode(&modes, 1920, 1080, 32, 120), Some(2));
    assert_eq!(find_best_video_mode(&modes, 1280, 700, 32, 60), Some(1));
    assert_eq!(find_best_video_mode(&vec![], 1280, 700, 32, 60), None);
}

#[test]
fn ties_go_to_the_last_mode() {
    let modes = vec![mode(800, 600, 60, 24), mode(800, 600, 60, 24)];
    assert_eq!(find_best_video_mode(&modes, 800, 600, 24, 60), Some(1));
}
