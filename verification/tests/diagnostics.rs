use rg_vulkan::diagnostics::{device_type_name, log_level_of, validation_plan, LogLevel};

#[test]
fn names_device_types() {
    assert_eq!(device_type_name(1), "Integrated GPU (iGPU)");
    assert_eq!(device_type_name(2), "Discrete GPU (dGPU)");
    assert_eq!(device_type_name(3), "Virtual GPU");
    assert_eq!(device_type_name(4), "CPU Fallback");
    assert_eq!(device_type_name(0), "Unknown Device Type");
}

#[test]
fn validation_layer_only_when_available() {
    let p = validation_plan(true, false);
    assert!(!p.use_layer && p.warn_unavailable);
    let p = validation_plan(true, true);
    assert!(p.use_layer && !p.warn_unavailable);
    let p = validation_plan(false, false);
    assert!(!p.use_layer && !p.warn_unavailable);
}

#[test]
fn severities_map_to_log_levels() {
    assert_eq!(log_level_of(0x1), LogLevel::Trace);
    assert_eq!(log_level_of(0x10), LogLevel::Debug);
    assert_eq!(log_level_of(0x100), LogLevel::Warn);
    assert_eq!(log_level_of(0x1000), LogLevel::Error);
    assert_eq!(log_level_of(0x11), LogLevel::Error);
}

#[test]
fn debug_utils_extension_follows_validation() {
    assert!(validation_plan(true, false).debug_utils_extension);
    assert!(!validation_plan(false, true).debug_utils_extension);
}
