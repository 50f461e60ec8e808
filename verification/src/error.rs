use vstd::prelude::*;

verus! {

/// Errors reported by the renderer.
///
/// Payloads that the graphics API, the windowing system or the C string
/// conversion carry are held as plain values: a Vulkan result code, or the
/// text of the underlying error.
#[derive(Debug, PartialEq)]
pub enum VkError {
    /// A Vulkan call failed with this `VkResult` code.
    VkErrorCode(i32),
    /// A failure described by a message.
    GenericError(String),
    /// The hardware does not meet a requirement.
    SuitabilityError(&'static str),
    /// The swapchain no longer matches the surface and must be recreated.
    SwapchainChanged,
    /// A string held an interior NUL byte.
    InvalidString(String),
    /// A window or display handle could not be obtained.
    HandleError(String),
    /// A lock was poisoned.
    LockPoisoned,
    /// The operating system reported an error.
    OsError(String),
}

/// Whether `e` is a `SuitabilityError` with the message `msg`.
pub open spec fn is_suitability(e: VkError, msg: Seq<char>) -> bool {
    e matches VkError::SuitabilityError(m) && m@ == msg
}

/// Wraps a message into a `GenericError`.
pub fn to_generic(message: String) -> (e: VkError)
    ensures
        e matches VkError::GenericError(m) && m@ == message@,
{
    VkError::GenericError(message)
}

/// Wraps a cause into a `SuitabilityError`.
pub fn to_suitability(cause: &'static str) -> (e: VkError)
    ensures
        e matches VkError::SuitabilityError(c) && c@ == cause@,
{
    VkError::SuitabilityError(cause)
}

} // verus!
