use rg_vulkan::frames::{FramesInFlight, MAX_FRAMES_IN_FLIGHT};
use rg_vulkan::renderer::FrameState;
use rg_vulkan::error::VkError;

#[test]
fn advancing_cycles_through_the_frames() {
    let mut f = FramesInFlight::new(vec!["a", "b"]);
    assert_eq!(f.current_frame(), 0);
    assert_eq!(*f.frame(), "a");
    f.advance_frame_index();
    assert_eq!(f.current_frame(), 1);
    assert_eq!(*f.frame(), "b");
    for _ in 0..MAX_FRAMES_IN_FLIGHT {
        f.advance_frame_index();
    }
    assert_eq!(f.current_frame(), 1);
    f.advance_frame_index();
    assert_eq!(f.current_frame(), 0);
}

#[test]
fn take_frames_empties() {
    let mut f = FramesInFlight::new(vec![1, 2]);
    assert_eq!(f.take_frames(), vec![1, 2]);
    assert!(f.take_frames().is_empty());
}

#[test]
fn resize_defers_rebuild_until_settled() {
    let mut s = FrameState::new();
    s.mark_resized();
    assert!(s.begin_frame(150));
    assert!(s.on_acquired(&Err(VkError::SwapchainChanged)) == false);
    assert!(!s.recreate_swapchain);
    assert!(!s.begin_frame(200));
    assert!(s.recreate_swapchain);
}

#[test]
fn changed_swapchain_asks_for_rebuild() {
    let mut s = FrameState::new();
    assert!(s.begin_frame(0));
    assert!(!s.on_acquired(&Err(VkError::SwapchainChanged)));
    assert!(s.recreate_swapchain);
    let mut t = FrameState::new();
    assert!(t.begin_frame(0));
    assert!(t.on_acquired(&Ok(3)));
    assert_eq!(t.image_index, Some(3));
    t.on_render_pass_begun(true);
    assert!(t.recording);
    assert!(t.on_presented(&Ok(true)));
    assert!(t.recreate_swapchain);
    assert_eq!(t.image_index, None);
}

#[test]
fn failed_present_stops_the_frame() {
    let mut s = FrameState::new();
    s.begin_frame(0);
    s.on_acquired(&Ok(1));
    let before = s;
    assert!(!s.on_presented(&Err(VkError::VkErrorCode(-4))));
    assert_eq!(s, before);
}

#[test]
fn minimized_window_skips_rebuild() {
    let mut s = FrameState::new();
    s.mark_resized();
    s.begin_frame(500);
    assert!(!s.start_recreate(0, 600));
    assert!(s.resize_pending);
    s.on_recreated(true);
    assert!(!s.recreate_swapchain);
    let mut t = FrameState::new();
    t.mark_resized();
    t.begin_frame(500);
    assert!(t.start_recreate(800, 600));
    assert!(!t.resize_pending);
    t.on_recreated(false);
    assert!(t.recreate_swapchain);
}
