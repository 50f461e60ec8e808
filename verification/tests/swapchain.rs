use rg_vulkan::error::VkError;
use rg_vulkan::memory::{
    texture_view, TextureView,
    get_memory_type_index, layer_buffer_offsets, pick_depth_format, staging_layout,
    transition_barrier, TransitionBarrier,
};
use rg_vulkan::swapchain::{
    acquire_outcome, clamp_u32, find_best_swapchain_present_mode, get_swapchain_extent,
    get_swapchain_surface_format, image_sharing, present_outcome, Extent2D, SurfaceCapabilities,
    SurfaceFormat, SwapchainSupport, ERROR_OUT_OF_DATE,
};

fn caps(min: u32, max: u32, current: Extent2D) -> SurfaceCapabilities {
    SurfaceCapabilities {
        min_image_count: min,
        max_image_count: max,
        current_extent: current,
        min_image_extent: Extent2D { width: 100, height: 100 },
        max_image_extent: Extent2D { width: 2000, height: 1000 },
    }
}

#[test]
fn image_count_is_one_above_minimum_within_maximum() {
    let e = Extent2D { width: 1, height: 1 };
    let s = SwapchainSupport { capabilities: caps(2, 0, e), formats: vec![], present_modes: vec![] };
    assert_eq!(s.get_optimal_image_count(), 3);
    let s = SwapchainSupport { capabilities: caps(2, 2, e), formats: vec![], present_modes: vec![] };
    assert_eq!(s.get_optimal_image_count(), 2);
}

#[test]
fn extent_follows_surface_or_window() {
    let fixed = caps(2, 0, Extent2D { width: 640, height: 480 });
    assert_eq!(get_swapchain_extent(800, 600, &fixed), Extent2D { width: 640, height: 480 });
    let free = caps(2, 0, Extent2D { width: u32::MAX, height: u32::MAX });
    assert_eq!(get_swapchain_extent(5000, 50, &free), Extent2D { width: 2000, height: 100 });
    assert_eq!(clamp_u32(7, 1, 5), 5);
}

#[test]
fn prefers_srgb_bgra_and_mailbox() {
    let other = SurfaceFormat { format: 44, color_space: 0 };
    let srgb = SurfaceFormat { format: 50, color_space: 0 };
    assert_eq!(get_swapchain_surface_format(&[other, srgb]), srgb);
    assert_eq!(get_swapchain_surface_format(&[other]), other);
    assert_eq!(find_best_swapchain_present_mode(&[2, 1]), 1);
    assert_eq!(find_best_swapchain_present_mode(&[0, 2]), 2);
}

#[test]
fn sharing_only_across_families() {
    assert_eq!(image_sharing(0, 0), (false, vec![]));
    assert_eq!(image_sharing(0, 1), (true, vec![0, 1]));
}

#[test]
fn acquire_and_present_outcomes() {
    assert_eq!(acquire_outcome(Ok((2, false))), Ok(2));
    assert_eq!(acquire_outcome(Ok((2, true))), Err(VkError::SwapchainChanged));
    assert_eq!(acquire_outcome(Err(ERROR_OUT_OF_DATE)), Err(VkError::SwapchainChanged));
    assert_eq!(acquire_outcome(Err(-3)), Err(VkError::VkErrorCode(-3)));
    assert_eq!(present_outcome(Ok(false)), Ok(false));
    assert_eq!(present_outcome(Ok(true)), Ok(true));
    assert_eq!(present_outcome(Err(ERROR_OUT_OF_DATE)), Ok(true));
    assert_eq!(present_outcome(Err(-4)), Err(VkError::VkErrorCode(-4)));
}

#[test]
fn memory_type_search() {
    let mut flags = [0u32; 32];
    flags[0] = 0x1;
    flags[1] = 0x6;
    flags[2] = 0x7;
    assert_eq!(get_memory_type_index(3, &flags, 0x6, 0b111), Ok(1));
    assert_eq!(get_memory_type_index(3, &flags, 0x6, 0b101), Ok(2));
    assert_eq!(
        get_memory_type_index(3, &flags, 0x8, 0b111),
        Err(VkError::SuitabilityError("Failed to find appropriate memory type!"))
    );
}

#[test]
fn depth_format_choice() {
    assert_eq!(pick_depth_format(&[0, 0x200, 0x200]), Ok(130));
    assert_eq!(pick_depth_format(&[0x200, 0, 0]), Ok(126));
    assert_eq!(
        pick_depth_format(&[0, 0, 0]),
        Err(VkError::SuitabilityError("Failed to find suitable depth format!"))
    );
}

#[test]
fn layout_transitions() {
    assert_eq!(
        transition_barrier(0, 7),
        Ok(TransitionBarrier {
            src_access_mask: 0,
            dst_access_mask: 0x1000,
            src_stage_mask: 0x1,
            dst_stage_mask: 0x1000
        })
    );
    assert_eq!(
        transition_barrier(7, 5),
        Ok(TransitionBarrier {
            src_access_mask: 0x1000,
            dst_access_mask: 0x20,
            src_stage_mask: 0x1000,
            dst_stage_mask: 0x80
        })
    );
    assert!(transition_barrier(5, 7).is_err());
}

#[test]
fn staging_offsets() {
    assert_eq!(layer_buffer_offsets(4, 2, 3), vec![0, 8, 16]);
    assert_eq!(staging_layout(&vec![8, 3, 5]), (16, vec![0, 8, 11]));
}

#[test]
fn texture_view_by_layer_count() {
    assert_eq!(texture_view(1), TextureView { view_type: 1, layer_count: 1 });
    assert_eq!(texture_view(3), TextureView { view_type: 5, layer_count: 3 });
}
