use crate::error::VkError;
use vstd::prelude::*;

verus! {

/// Number of memory types a Vulkan device can report.
pub const MAX_MEMORY_TYPES: usize = 32;

/// Memory type `i` may back a resource whose requirements allow the types
/// in `type_bits`, and its property flags hold all of `properties`.
pub open spec fn memory_type_fits(flags: Seq<u32>, type_bits: u32, properties: u32, i: int) -> bool {
    &&& (type_bits & (1u32 << (i as u32))) != 0
    &&& (flags[i] & properties) == properties
}

/// Message of the error for a resource that no memory type can hold.
pub open spec fn no_memory_type_text() -> Seq<char> {
    "Failed to find appropriate memory type!"@
}

/// The first of the device's `memory_type_count` memory types that the
/// resource allows and that has all the requested property flags.
///
/// `property_flags` holds the flags of every memory type slot. A search that
/// runs past the 32 slots would shift out of range and index out of bounds,
/// so such an input is excluded.
pub fn get_memory_type_index(
    memory_type_count: u32,
    property_flags: &[u32; 32],
    properties: u32,
    memory_type_bits: u32,
) -> (r: Result<u32, VkError>)
    requires
        memory_type_count <= 32 || exists|i: int|
            0 <= i < 32 && memory_type_fits(property_flags@, memory_type_bits, properties, i),
    ensures
        match r {
            Ok(i) => {
                &&& i < memory_type_count
                &&& memory_type_fits(property_flags@, memory_type_bits, properties, i as int)
                &&& forall|j: int|
                    0 <= j < i ==> !memory_type_fits(
                        property_flags@,
                        memory_type_bits,
                        properties,
                        j,
                    )
            },
            Err(e) => {
                &&& e matches VkError::SuitabilityError(m) && m@ == no_memory_type_text()
                &&& forall|j: int|
                    0 <= j < memory_type_count ==> !memory_type_fits(
                        property_flags@,
                        memory_type_bits,
                        properties,
                        j,
                    )
            },
        },
{
    let mut i: u32 = 0;
    while i < memory_type_count
        invariant
            memory_type_count <= 32 || exists|k: int|
                i <= k < 32 && memory_type_fits(property_flags@, memory_type_bits, properties, k),
            forall|j: int|
                0 <= j < i ==> !memory_type_fits(property_flags@, memory_type_bits, properties, j),
        decreases memory_type_count - i,
    {
        let bit = 1u32 << i;
        if (memory_type_bits & bit) != 0 && (property_flags[i as usize] & properties) == properties {
            return Ok(i);
        }
        i = i + 1;
    }
    Err(VkError::SuitabilityError("Failed to find appropriate memory type!"))
}

/// `VK_FORMAT_D32_SFLOAT`.
pub const FORMAT_D32_SFLOAT: i32 = 126;

/// `VK_FORMAT_D32_SFLOAT_S8_UINT`.
pub const FORMAT_D32_SFLOAT_S8_UINT: i32 = 130;

/// `VK_FORMAT_D24_UNORM_S8_UINT`.
pub const FORMAT_D24_UNORM_S8_UINT: i32 = 129;

/// `VK_FORMAT_FEATURE_DEPTH_STENCIL_ATTACHMENT_BIT`.
pub const FEATURE_DEPTH_STENCIL_ATTACHMENT: u32 = 0x200;

/// The depth formats to try, in order of preference.
pub open spec fn depth_candidates() -> Seq<i32> {
    seq![FORMAT_D32_SFLOAT, FORMAT_D32_SFLOAT_S8_UINT, FORMAT_D24_UNORM_S8_UINT]
}

/// The candidate can serve as a depth attachment with optimal tiling.
pub open spec fn depth_capable(features: u32) -> bool {
    (features & FEATURE_DEPTH_STENCIL_ATTACHMENT) == FEATURE_DEPTH_STENCIL_ATTACHMENT
}

/// Message of the error for a device without a depth format.
pub open spec fn no_depth_format_text() -> Seq<char> {
    "Failed to find suitable depth format!"@
}

/// The first depth candidate whose optimal-tiling features, given in
/// candidate order, allow depth attachments.
pub fn pick_depth_format(optimal_tiling_features: &[u32; 3]) -> (r: Result<i32, VkError>)
    ensures
        match r {
            Ok(f) => exists|i: int|
                0 <= i < 3 && f == depth_candidates()[i] && depth_capable(
                    optimal_tiling_features@[i],
                ) && forall|j: int| 0 <= j < i ==> !depth_capable(optimal_tiling_features@[j]),
            Err(e) => {
                &&& e matches VkError::SuitabilityError(m) && m@ == no_depth_format_text()
                &&& forall|j: int| 0 <= j < 3 ==> !depth_capable(optimal_tiling_features@[j])
            },
        },
{
    let candidates: [i32; 3] = [FORMAT_D32_SFLOAT, FORMAT_D32_SFLOAT_S8_UINT, FORMAT_D24_UNORM_S8_UINT];
    let mut i: usize = 0;
    while i < 3
        invariant
            i <= 3,
            candidates@ == depth_candidates(),
            forall|j: int| 0 <= j < i ==> !depth_capable(optimal_tiling_features@[j]),
        decreases 3 - i,
    {
        if (optimal_tiling_features[i] & FEATURE_DEPTH_STENCIL_ATTACHMENT)
            == FEATURE_DEPTH_STENCIL_ATTACHMENT {
            return Ok(candidates[i]);
        }
        i = i + 1;
    }
    Err(VkError::SuitabilityError("Failed to find suitable depth format!"))
}

/// `VK_IMAGE_LAYOUT_UNDEFINED`.
pub const LAYOUT_UNDEFINED: i32 = 0;

/// `VK_IMAGE_LAYOUT_SHADER_READ_ONLY_OPTIMAL`.
pub const LAYOUT_SHADER_READ_ONLY_OPTIMAL: i32 = 5;

/// `VK_IMAGE_LAYOUT_TRANSFER_DST_OPTIMAL`.
pub const LAYOUT_TRANSFER_DST_OPTIMAL: i32 = 7;

/// `VK_ACCESS_SHADER_READ_BIT`.
pub const ACCESS_SHADER_READ: u32 = 0x20;

/// `VK_ACCESS_TRANSFER_WRITE_BIT`.
pub const ACCESS_TRANSFER_WRITE: u32 = 0x1000;

/// `VK_PIPELINE_STAGE_TOP_OF_PIPE_BIT`.
pub const STAGE_TOP_OF_PIPE: u32 = 0x1;

/// `VK_PIPELINE_STAGE_FRAGMENT_SHADER_BIT`.
pub const STAGE_FRAGMENT_SHADER: u32 = 0x80;

/// `VK_PIPELINE_STAGE_TRANSFER_BIT`.
pub const STAGE_TRANSFER: u32 = 0x1000;

/// The access masks and pipeline stages of an image layout transition.
#[derive(Clone, Copy, Debug, PartialEq, Eq)]
pub struct TransitionBarrier {
    pub src_access_mask: u32,
    pub dst_access_mask: u32,
    pub src_stage_mask: u32,
    pub dst_stage_mask: u32,
}

/// Message of the error for a layout transition without a barrier.
pub open spec fn unsupported_transition_text() -> Seq<char> {
    "Unsupported image layout transition!"@
}

/// The barrier of an image layout transition. Two transitions are known:
/// from undefined to transfer destination (before an upload) and from
/// transfer destination to shader read (after it).
pub fn transition_barrier(old_layout: i32, new_layout: i32) -> (r: Result<TransitionBarrier, VkError>)
    ensures
        if old_layout == LAYOUT_UNDEFINED && new_layout == LAYOUT_TRANSFER_DST_OPTIMAL {
            r == Ok::<TransitionBarrier, VkError>(
                TransitionBarrier {
                    src_access_mask: 0,
                    dst_access_mask: ACCESS_TRANSFER_WRITE,
                    src_stage_mask: STAGE_TOP_OF_PIPE,
                    dst_stage_mask: STAGE_TRANSFER,
                },
            )
        } else if old_layout == LAYOUT_TRANSFER_DST_OPTIMAL && new_layout
            == LAYOUT_SHADER_READ_ONLY_OPTIMAL {
            r == Ok::<TransitionBarrier, VkError>(
                TransitionBarrier {
                    src_access_mask: ACCESS_TRANSFER_WRITE,
                    dst_access_mask: ACCESS_SHADER_READ,
                    src_stage_mask: STAGE_TRANSFER,
                    dst_stage_mask: STAGE_FRAGMENT_SHADER,
                },
            )
        } else {
            r matches Err(VkError::GenericError(m)) && m@ == unsupported_transition_text()
        },
{
    if old_layout == LAYOUT_UNDEFINED && new_layout == LAYOUT_TRANSFER_DST_OPTIMAL {
        Ok(
            TransitionBarrier {
                src_access_mask: 0,
                dst_access_mask: ACCESS_TRANSFER_WRITE,
                src_stage_mask: STAGE_TOP_OF_PIPE,
                dst_stage_mask: STAGE_TRANSFER,
            },
        )
    } else if old_layout == LAYOUT_TRANSFER_DST_OPTIMAL && new_layout
        == LAYOUT_SHADER_READ_ONLY_OPTIMAL {
        Ok(
            TransitionBarrier {
                src_access_mask: ACCESS_TRANSFER_WRITE,
                dst_access_mask: ACCESS_SHADER_READ,
                src_stage_mask: STAGE_TRANSFER,
                dst_stage_mask: STAGE_FRAGMENT_SHADER,
            },
        )
    } else {
        Err(VkError::GenericError(String::from_str("Unsupported image layout transition!")))
    }
}

/// Offset in the staging buffer of each of `layers_count` layers of
/// `width` x `height` texels, one byte each: layer `i` starts at
/// `i * width * height`. The products are computed in 32 bits, so inputs
/// whose products overflow are excluded.
pub fn layer_buffer_offsets(width: u32, height: u32, layers_count: u32) -> (r: Vec<u64>)
    requires
        layers_count > 0 ==> width * height <= u32::MAX,
        layers_count > 0 ==> (layers_count - 1) * (width * height) <= u32::MAX,
    ensures
        r@.len() == layers_count,
        forall|i: int| 0 <= i < layers_count ==> r@[i] == i * (width * height),
{
    let mut r: Vec<u64> = Vec::new();
    if layers_count == 0 {
        return r;
    }
    let layer_size = width * height;
    let mut i: u32 = 0;
    while i < layers_count
        invariant
            layer_size == width * height,
            (layers_count - 1) * layer_size <= u32::MAX,
            i <= layers_count,
            r@.len() == i,
            forall|k: int| 0 <= k < i ==> r@[k] == k * (width * height),
        decreases layers_count - i,
    {
        assert(i * layer_size <= (layers_count - 1) * layer_size) by (nonlinear_arith)
            requires
                i <= layers_count - 1,
                layer_size >= 0,
        ;
        r.push((i * layer_size) as u64);
        i = i + 1;
    }
    r
}

/// Offsets at which consecutive layers of the given byte sizes are copied
/// into one staging buffer, and the buffer's total size. There must be at
/// least one layer.
pub fn staging_layout(layer_sizes: &Vec<usize>) -> (r: (u64, Vec<u64>))
    requires
        layer_sizes@.len() > 0,
        sum_sizes(layer_sizes@) <= usize::MAX,
    ensures
        r.0 == sum_sizes(layer_sizes@),
        r.1@.len() == layer_sizes@.len(),
        forall|i: int| 0 <= i < layer_sizes@.len() ==> r.1@[i] == sum_sizes(layer_sizes@.take(i)),
{
    let n = layer_sizes.len();
    let mut offsets: Vec<u64> = Vec::new();
    let mut offset: u64 = 0;
    let mut i: usize = 0;
    while i < n
        invariant
            n == layer_sizes@.len(),
            i <= n,
            sum_sizes(layer_sizes@) <= usize::MAX,
            offset == sum_sizes(layer_sizes@.take(i as int)),
            offsets@.len() == i,
            forall|k: int| 0 <= k < i ==> offsets@[k] == sum_sizes(layer_sizes@.take(k)),
        decreases n - i,
    {
        offsets.push(offset);
        proof {
            assert(layer_sizes@.take(i as int + 1).drop_last() =~= layer_sizes@.take(i as int));
            lemma_sum_prefix(layer_sizes@, i as int + 1);
        }
        offset = offset + layer_sizes[i] as u64;
        i = i + 1;
    }
    proof {
        assert(layer_sizes@.take(n as int) =~= layer_sizes@);
    }
    (offset, offsets)
}

/// Total of the sizes.
pub open spec fn sum_sizes(s: Seq<usize>) -> int
    decreases s.len(),
{
    if s.len() == 0 {
        0
    } else {
        sum_sizes(s.drop_last()) + s.last()
    }
}

proof fn lemma_sum_prefix(s: Seq<usize>, k: int)
    requires
        0 <= k <= s.len(),
    ensures
        sum_sizes(s.take(k)) <= sum_sizes(s),
    decreases s.len(),
{
    if k < s.len() {
        assert(s.drop_last().take(k) =~= s.take(k));
        lemma_sum_prefix(s.drop_last(), k);
    } else {
        assert(s.take(k) =~= s);
    }
}

/// `VK_IMAGE_VIEW_TYPE_2D`.
pub const IMAGE_VIEW_TYPE_2D: i32 = 1;

/// `VK_IMAGE_VIEW_TYPE_2D_ARRAY`.
pub const IMAGE_VIEW_TYPE_2D_ARRAY: i32 = 5;

/// The view of an uploaded texture: its view type and layer count.
#[derive(Clone, Copy, Debug, PartialEq, Eq)]
pub struct TextureView {
    pub view_type: i32,
    pub layer_count: u32,
}

/// The view of a texture uploaded from `layers` layers: a plain 2D view for
/// one layer, a 2D array view over all layers for more.
pub fn texture_view(layers: usize) -> (r: TextureView)
    requires
        layers <= u32::MAX,
    ensures
        r.view_type == (if layers > 1 {
            IMAGE_VIEW_TYPE_2D_ARRAY
        } else {
            IMAGE_VIEW_TYPE_2D
        }),
        r.layer_count == layers,
{
    let view_type = if layers > 1 {
        IMAGE_VIEW_TYPE_2D_ARRAY
    } else {
        IMAGE_VIEW_TYPE_2D
    };
    TextureView { view_type, layer_count: layers as u32 }
}

} // verus!
