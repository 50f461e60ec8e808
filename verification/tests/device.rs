use rg_vulkan::device::{
    check_physical_device_extensions, check_swapchain_support, get_physical_device_id, is_nil,
    pick_physical_device, preferred_device_update, queue_family_indices, unique_queue_families,
    DeviceCandidate, DeviceId, QueueFamilyIndices,
};
use rg_vulkan::error::VkError;
use rg_vulkan::swapchain::{Extent2D, SurfaceCapabilities, SurfaceFormat, SwapchainSupport};

const UUID_TEXT: &str = "550e8400-e29b-41d4-a716-446655440000";
const UUID_BYTES: [u8; 16] = [
    0x55, 0x0e, 0x84, 0x00, 0xe2, 0x9b, 0x41, 0xd4, 0xa7, 0x16, 0x44, 0x66, 0x55, 0x44, 0x00, 0x00,
];

#[test]
fn parses_hyphenated_uuid() {
    assert_eq!(DeviceId::parse(UUID_TEXT), Some(DeviceId::Uuid(UUID_BYTES)));
}

#[test]
fn parses_simple_and_braced_uuid() {
    assert_eq!(
        DeviceId::parse("550e8400e29b41d4a716446655440000"),
        Some(DeviceId::Uuid(UUID_BYTES))
    );
    assert_eq!(
        DeviceId::parse("{550e8400-e29b-41d4-a716-446655440000}"),
        Some(DeviceId::Uuid(UUID_BYTES))
    );
}

#[test]
fn parses_vendor_and_device() {
    assert_eq!(DeviceId::parse("4318:7815"), Some(DeviceId::VendorAndDeviceId(4318, 7815)));
    assert_eq!(DeviceId::parse("+1:2"), Some(DeviceId::VendorAndDeviceId(1, 2)));
}

#[test]
fn rejects_malformed_ids() {
    assert_eq!(DeviceId::parse(""), None);
    assert_eq!(DeviceId::parse("1:2:3"), None);
    assert_eq!(DeviceId::parse("12"), None);
    assert_eq!(DeviceId::parse("a:1"), None);
    assert_eq!(DeviceId::parse("1:4294967296"), None);
    assert_eq!(DeviceId::parse("550e8400-e29b-41d4-a716-44665544000g"), None);
}

#[test]
fn display_then_parse_gives_the_id_back() {
    let ids = [
        DeviceId::Uuid(UUID_BYTES),
        DeviceId::VendorAndDeviceId(0, 0),
        DeviceId::VendorAndDeviceId(u32::MAX, 17),
    ];
    for id in ids {
        let text = id.to_string();
        assert_eq!(DeviceId::parse(&text), Some(id));
    }
    assert_eq!(DeviceId::Uuid(UUID_BYTES).to_string(), UUID_TEXT);
    assert_eq!(DeviceId::VendorAndDeviceId(4318, 7815).to_string(), "4318:7815");
}

#[test]
fn from_parsed_prefers_the_uuid() {
    assert_eq!(
        DeviceId::from_parsed(Some(UUID_BYTES), "1:2"),
        Some(DeviceId::Uuid(UUID_BYTES))
    );
    assert_eq!(DeviceId::from_parsed(None, "1:2"), Some(DeviceId::VendorAndDeviceId(1, 2)));
    assert_eq!(DeviceId::from_parsed(None, "x"), None);
}

#[test]
fn default_id_is_nil_uuid() {
    assert_eq!(DeviceId::default(), DeviceId::Uuid([0; 16]));
    assert!(is_nil(&[0; 16]));
    assert!(!is_nil(&UUID_BYTES));
}

#[test]
fn device_id_falls_back_to_vendor_for_nil_uuid() {
    assert_eq!(get_physical_device_id([0; 16], 7, 9), DeviceId::VendorAndDeviceId(7, 9));
    assert_eq!(get_physical_device_id(UUID_BYTES, 7, 9), DeviceId::Uuid(UUID_BYTES));
}

#[test]
fn same_as_compares_ids() {
    let a = DeviceId::Uuid(UUID_BYTES);
    let mut other = UUID_BYTES;
    other[15] = 1;
    assert!(a.same_as(&DeviceId::Uuid(UUID_BYTES)));
    assert!(!a.same_as(&DeviceId::Uuid(other)));
    assert!(!a.same_as(&DeviceId::VendorAndDeviceId(1, 2)));
}

fn candidates() -> Vec<DeviceCandidate> {
    vec![
        DeviceCandidate { suitable: false, id: DeviceId::VendorAndDeviceId(1, 1) },
        DeviceCandidate { suitable: true, id: DeviceId::VendorAndDeviceId(2, 2) },
        DeviceCandidate { suitable: true, id: DeviceId::VendorAndDeviceId(3, 3) },
    ]
}

#[test]
fn picks_preferred_suitable_device() {
    let c = candidates();
    let r = pick_physical_device(&c, &Some(DeviceId::VendorAndDeviceId(3, 3)));
    assert_eq!(r, Ok((2, DeviceId::VendorAndDeviceId(3, 3))));
}

#[test]
fn falls_back_to_first_suitable_device() {
    let c = candidates();
    assert_eq!(
        pick_physical_device(&c, &Some(DeviceId::VendorAndDeviceId(1, 1))),
        Ok((1, DeviceId::VendorAndDeviceId(2, 2)))
    );
    assert_eq!(pick_physical_device(&c, &None), Ok((1, DeviceId::VendorAndDeviceId(2, 2))));
}

#[test]
fn no_suitable_device_is_an_error() {
    let c = vec![DeviceCandidate { suitable: false, id: DeviceId::VendorAndDeviceId(1, 1) }];
    assert_eq!(
        pick_physical_device(&c, &None),
        Err(VkError::SuitabilityError("No suitable physical device found!"))
    );
}

#[test]
fn records_a_new_preferred_device() {
    let picked = DeviceId::VendorAndDeviceId(2, 2);
    assert_eq!(preferred_device_update(&Some(picked), &picked), None);
    assert_eq!(preferred_device_update(&None, &picked), Some("2:2".to_string()));
    assert_eq!(
        preferred_device_update(&Some(DeviceId::VendorAndDeviceId(1, 1)), &picked),
        Some("2:2".to_string())
    );
}

#[test]
fn finds_queue_families() {
    let r = queue_family_indices(&vec![0x4, 0x3, 0x1], &vec![false, false, true]);
    assert_eq!(r, Ok(QueueFamilyIndices { graphics: 1, present: 2 }));
}

#[test]
fn missing_queue_family_is_an_error() {
    let e = Err(VkError::SuitabilityError("Missing required queue families."));
    assert_eq!(queue_family_indices(&vec![0x4, 0x2], &vec![true, true]), e);
    let e = Err(VkError::SuitabilityError("Missing required queue families."));
    assert_eq!(queue_family_indices(&vec![0x1], &vec![false]), e);
}

#[test]
fn requires_swapchain_extension() {
    let ok = vec!["VK_KHR_maintenance1".to_string(), "VK_KHR_swapchain".to_string()];
    assert_eq!(check_physical_device_extensions(&ok), Ok(()));
    let missing = vec!["VK_KHR_maintenance1".to_string()];
    assert_eq!(
        check_physical_device_extensions(&missing),
        Err(VkError::SuitabilityError("Missing required device extensions."))
    );
}

fn support(formats: usize, modes: usize) -> SwapchainSupport {
    let extent = Extent2D { width: 1, height: 1 };
    SwapchainSupport {
        capabilities: SurfaceCapabilities {
            min_image_count: 1,
            max_image_count: 0,
            current_extent: extent,
            min_image_extent: extent,
            max_image_extent: extent,
        },
        formats: vec![SurfaceFormat { format: 50, color_space: 0 }; formats],
        present_modes: vec![2; modes],
    }
}

#[test]
fn requires_formats_and_present_modes() {
    assert_eq!(check_swapchain_support(&support(1, 1)), Ok(()));
    let e = Err(VkError::SuitabilityError("Insufficient swapchain support."));
    assert_eq!(check_swapchain_support(&support(0, 1)), e);
    let e = Err(VkError::SuitabilityError("Insufficient swapchain support."));
    assert_eq!(check_swapchain_support(&support(1, 0)), e);
}

#[test]
fn unique_queue_families_lists_each_once() {
    assert_eq!(unique_queue_families(&QueueFamilyIndices { graphics: 0, present: 0 }), vec![0]);
    assert_eq!(unique_queue_families(&QueueFamilyIndices { graphics: 0, present: 2 }), vec![0, 2]);
}
