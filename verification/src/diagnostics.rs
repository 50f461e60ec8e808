use vstd::prelude::*;

verus! {

/// `VK_PHYSICAL_DEVICE_TYPE_INTEGRATED_GPU`.
pub const DEVICE_TYPE_INTEGRATED_GPU: i32 = 1;

/// `VK_PHYSICAL_DEVICE_TYPE_DISCRETE_GPU`.
pub const DEVICE_TYPE_DISCRETE_GPU: i32 = 2;

/// `VK_PHYSICAL_DEVICE_TYPE_VIRTUAL_GPU`.
pub const DEVICE_TYPE_VIRTUAL_GPU: i32 = 3;

/// `VK_PHYSICAL_DEVICE_TYPE_CPU`.
pub const DEVICE_TYPE_CPU: i32 = 4;

/// The description of a physical device type in the device listing.
pub open spec fn device_type_text(device_type: i32) -> Seq<char> {
    if device_type == DEVICE_TYPE_INTEGRATED_GPU {
        "Integrated GPU (iGPU)"@
    } else if device_type == DEVICE_TYPE_DISCRETE_GPU {
        "Discrete GPU (dGPU)"@
    } else if device_type == DEVICE_TYPE_VIRTUAL_GPU {
        "Virtual GPU"@
    } else if device_type == DEVICE_TYPE_CPU {
        "CPU Fallback"@
    } else {
        "Unknown Device Type"@
    }
}

/// Describes a physical device type for the device listing.
pub fn device_type_name(device_type: i32) -> (r: &'static str)
    ensures
        r@ == device_type_text(device_type),
{
    if device_type == DEVICE_TYPE_INTEGRATED_GPU {
        "Integrated GPU (iGPU)"
    } else if device_type == DEVICE_TYPE_DISCRETE_GPU {
        "Discrete GPU (dGPU)"
    } else if device_type == DEVICE_TYPE_VIRTUAL_GPU {
        "Virtual GPU"
    } else if device_type == DEVICE_TYPE_CPU {
        "CPU Fallback"
    } else {
        "Unknown Device Type"
    }
}

/// What the instance does about the validation layer.
#[derive(Clone, Copy, Debug, PartialEq, Eq)]
pub struct ValidationPlan {
    /// Whether the layer is enabled on the instance.
    pub use_layer: bool,
    /// Whether to warn that validation was wanted but the layer is missing.
    pub warn_unavailable: bool,
    /// Whether the debug-utils instance extension is requested, for the
    /// validation messages.
    pub debug_utils_extension: bool,
}

/// Enables the validation layer when validation is wanted and the layer is
/// installed, warns when it is wanted but missing, and requests the
/// debug-utils extension whenever validation is wanted.
pub fn validation_plan(enabled: bool, available: bool) -> (r: ValidationPlan)
    ensures
        r.use_layer == (enabled && available),
        r.warn_unavailable == (enabled && !available),
        r.debug_utils_extension == enabled,
{
    ValidationPlan {
        use_layer: enabled && available,
        warn_unavailable: enabled && !available,
        debug_utils_extension: enabled,
    }
}

/// `VK_DEBUG_UTILS_MESSAGE_SEVERITY_VERBOSE_BIT_EXT`.
pub const SEVERITY_VERBOSE: u32 = 0x1;

/// `VK_DEBUG_UTILS_MESSAGE_SEVERITY_INFO_BIT_EXT`.
pub const SEVERITY_INFO: u32 = 0x10;

/// `VK_DEBUG_UTILS_MESSAGE_SEVERITY_WARNING_BIT_EXT`.
pub const SEVERITY_WARNING: u32 = 0x100;

/// The log level a validation message is reported at.
#[derive(Clone, Copy, Debug, PartialEq, Eq)]
pub enum LogLevel {
    Trace,
    Debug,
    Warn,
    Error,
}

/// The log level of a validation message of the given severity: verbose
/// messages are traced, informational ones logged for debugging, warnings
/// warned about, and everything else reported as an error.
pub fn log_level_of(severity: u32) -> (r: LogLevel)
    ensures
        r == (if severity == SEVERITY_VERBOSE {
            LogLevel::Trace
        } else if severity == SEVERITY_INFO {
            LogLevel::Debug
        } else if severity == SEVERITY_WARNING {
            LogLevel::Warn
        } else {
            LogLevel::Error
        }),
{
    if severity == SEVERITY_VERBOSE {
        LogLevel::Trace
    } else if severity == SEVERITY_INFO {
        LogLevel::Debug
    } else if severity == SEVERITY_WARNING {
        LogLevel::Warn
    } else {
        LogLevel::Error
    }
}

} // verus!
