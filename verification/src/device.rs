use crate::error::{is_suitability, VkError};
use crate::strings::{
    decimal_text, format_u32, is_digit, lemma_decimal_text, lemma_digits_have_no,
    lemma_parse_decimal, lemma_split_pair, parse_u32, parse_u32_spec, push_char, split_on,
    split_text, string_views,
};
use crate::swapchain::SwapchainSupport;
use vstd::prelude::*;
use vstd::string::StringExecFns;

verus! {

// ---------------------------------------------------------------------------
// UUIDs
// ---------------------------------------------------------------------------

/// What `uuid::Uuid::parse_str` gives for a text: the bytes of the UUID, or
/// nothing when the text is not one of the accepted UUID forms.
pub uninterp spec fn uuid_parse(text: Seq<char>) -> Option<[u8; 16]>;

/// `uuid::Uuid::parse_str`, which `Uuid::from_str` calls. The contract claims
/// that the result is the named parse of the text, and that a text it accepts
/// has one of the four lengths of the accepted forms (simple 32, hyphenated
/// 36, braced 38, URN 45): the parser matches on the byte length first and
/// accepts only ASCII, so bytes and characters agree.
#[verifier::external_body]
fn parse_uuid(text: &str) -> (r: Option<[u8; 16]>)
    ensures
        r == uuid_parse(text@),
        r is Some ==> uuid_length(text@.len()),
{
    match uuid::Uuid::parse_str(text) {
        Ok(u) => Some(u.into_bytes()),
        Err(_) => None,
    }
}

/// The lengths of the UUID forms that the parser accepts: simple,
/// hyphenated, braced and URN.
pub open spec fn uuid_length(n: nat) -> bool {
    n == 32 || n == 36 || n == 38 || n == 45
}

/// The lowercase hexadecimal digit of `n`.
pub open spec fn hex_digit(n: int) -> char {
    if n < 10 {
        (n + '0' as int) as char
    } else {
        (n - 10 + 'a' as int) as char
    }
}

/// The two lowercase hexadecimal digits of each byte of `b`.
pub open spec fn hex_bytes(b: Seq<u8>) -> Seq<char>
    decreases b.len(),
{
    if b.len() == 0 {
        Seq::empty()
    } else {
        hex_bytes(b.drop_last()) + seq![hex_digit(b.last() as int / 16), hex_digit(b.last() as int % 16)]
    }
}

/// The hyphenated form of a UUID: 8, 4, 4, 4 and 12 lowercase hexadecimal
/// digits joined by `-`.
pub open spec fn hyphenated_text(b: [u8; 16]) -> Seq<char> {
    let s = b@;
    hex_bytes(s.subrange(0, 4)) + seq!['-'] + hex_bytes(s.subrange(4, 6)) + seq!['-'] + hex_bytes(
        s.subrange(6, 8),
    ) + seq!['-'] + hex_bytes(s.subrange(8, 10)) + seq!['-'] + hex_bytes(s.subrange(10, 16))
}

/// `uuid::Uuid::to_string` (its `Display`, which is the lowercase hyphenated
/// form). The contract claims that text, and that parsing it gives the bytes
/// back, as the crate documents of every form it generates.
#[verifier::external_body]
fn uuid_text(bytes: [u8; 16]) -> (r: String)
    ensures
        r@ == hyphenated_text(bytes),
        uuid_parse(r@) == Some(bytes),
{
    uuid::Uuid::from_bytes(bytes).to_string()
}

/// Whether all bytes of a UUID are zero.
pub open spec fn is_nil_spec(bytes: [u8; 16]) -> bool {
    forall|i: int| 0 <= i < 16 ==> #[trigger] bytes[i] == 0
}

/// Whether the UUID `bytes` is the nil UUID.
pub fn is_nil(bytes: &[u8; 16]) -> (r: bool)
    ensures
        r == is_nil_spec(*bytes),
{
    let mut i: usize = 0;
    while i < 16
        invariant
            i <= 16,
            forall|j: int| 0 <= j < i ==> #[trigger] bytes[j] == 0,
        decreases 16 - i,
    {
        if bytes[i] != 0 {
            return false;
        }
        i = i + 1;
    }
    true
}

// ---------------------------------------------------------------------------
// Device ids
// ---------------------------------------------------------------------------

/// How a physical device is recognised again: by its UUID, or by its vendor
/// and device ids where the driver reports no UUID.
#[derive(Clone, Copy, Debug, PartialEq)]
pub enum DeviceId {
    Uuid([u8; 16]),
    VendorAndDeviceId(u32, u32),
}

/// The text of a device id: the hyphenated UUID, or `vendor:device` in
/// decimal.
pub open spec fn display_text(id: DeviceId) -> Seq<char> {
    match id {
        DeviceId::Uuid(b) => hyphenated_text(b),
        DeviceId::VendorAndDeviceId(v, d) => decimal_text(v as nat).push(':') + decimal_text(
            d as nat,
        ),
    }
}

/// The device id in `text` when it is not a UUID: two decimal `u32` joined
/// by a single `:`.
pub open spec fn vendor_and_device_parse(text: Seq<char>) -> Option<DeviceId> {
    let parts = split_on(text, ':');
    if parts.len() == 2 && parse_u32_spec(parts[0]) is Some && parse_u32_spec(parts[1]) is Some {
        Some(DeviceId::VendorAndDeviceId(parse_u32_spec(parts[0])->0, parse_u32_spec(parts[1])->0))
    } else {
        None
    }
}

/// The device id that `text` names, given what UUID parsing made of it.
pub open spec fn device_id_from(uuid: Option<[u8; 16]>, text: Seq<char>) -> Option<DeviceId> {
    match uuid {
        Some(b) => Some(DeviceId::Uuid(b)),
        None => vendor_and_device_parse(text),
    }
}

/// The device id that `text` names: a text of no UUID length is read as
/// `vendor:device` at once.
pub open spec fn device_id_parse(text: Seq<char>) -> Option<DeviceId> {
    if uuid_length(text.len()) {
        device_id_from(uuid_parse(text), text)
    } else {
        vendor_and_device_parse(text)
    }
}

proof fn lemma_hex_bytes_len(b: Seq<u8>)
    ensures
        hex_bytes(b).len() == 2 * b.len(),
    decreases b.len(),
{
    if b.len() > 0 {
        lemma_hex_bytes_len(b.drop_last());
    }
}

proof fn lemma_hyphenated_len(b: [u8; 16])
    ensures
        hyphenated_text(b).len() == 36,
{
    let s = b@;
    lemma_hex_bytes_len(s.subrange(0, 4));
    lemma_hex_bytes_len(s.subrange(4, 6));
    lemma_hex_bytes_len(s.subrange(6, 8));
    lemma_hex_bytes_len(s.subrange(8, 10));
    lemma_hex_bytes_len(s.subrange(10, 16));
}

impl DeviceId {
    /// The device id in `text`, given the result of parsing `text` as a UUID:
    /// that UUID when there is one, else `vendor:device` in decimal.
    pub fn from_parsed(uuid: Option<[u8; 16]>, text: &str) -> (r: Option<DeviceId>)
        ensures
            r == device_id_from(uuid, text@),
    {
        match uuid {
            Some(b) => Some(DeviceId::Uuid(b)),
            None => {
                let parts = split_text(text, ':');
                proof {
                    assert(string_views(parts@).len() == parts@.len());
                }
                if parts.len() == 2 {
                    proof {
                        assert(parts@[0]@ == split_on(text@, ':')[0]);
                        assert(parts@[1]@ == split_on(text@, ':')[1]);
                    }
                    let vendor = parse_u32(parts[0].as_str());
                    let device = parse_u32(parts[1].as_str());
                    match (vendor, device) {
                        (Some(v), Some(d)) => Some(DeviceId::VendorAndDeviceId(v, d)),
                        _ => None,
                    }
                } else {
                    None
                }
            },
        }
    }

    /// The device id that `value` names: a UUID in any form the UUID parser
    /// accepts, or `vendor:device` in decimal.
    pub fn parse(value: &str) -> (r: Option<DeviceId>)
        ensures
            r == device_id_parse(value@),
    {
        let uuid = parse_uuid(value);
        Self::from_parsed(uuid, value)
    }

    /// Whether two device ids are the same.
    pub fn same_as(&self, other: &DeviceId) -> (r: bool)
        ensures
            r == (*self == *other),
    {
        match (self, other) {
            (DeviceId::Uuid(a), DeviceId::Uuid(b)) => {
                let mut i: usize = 0;
                while i < 16
                    invariant
                        i <= 16,
                        *self == DeviceId::Uuid(*a),
                        *other == DeviceId::Uuid(*b),
                        forall|j: int| 0 <= j < i ==> a[j] == b[j],
                    decreases 16 - i,
                {
                    if a[i] != b[i] {
                        proof {
                            assert(a@[i as int] != b@[i as int]);
                        }
                        return false;
                    }
                    i = i + 1;
                }
                proof {
                    assert(*a =~= *b);
                }
                true
            },
            (DeviceId::VendorAndDeviceId(v1, d1), DeviceId::VendorAndDeviceId(v2, d2)) => {
                *v1 == *v2 && *d1 == *d2
            },
            _ => false,
        }
    }

    /// The text of the device id. Parsing it gives the same id back.
    pub fn to_string(&self) -> (r: String)
        ensures
            r@ == display_text(*self),
            device_id_parse(r@) == Some(*self),
    {
        match self {
            DeviceId::Uuid(b) => {
                let r = uuid_text(*b);
                proof {
                    lemma_hyphenated_len(*b);
                }
                r
            },
            DeviceId::VendorAndDeviceId(v, d) => {
                let mut r = format_u32(*v);
                push_char(&mut r, ':');
                let tail = format_u32(*d);
                r.append(tail.as_str());
                proof {
                    law_vendor_and_device_round_trip(*v, *d);
                }
                r
            },
        }
    }
}

/// The text of a vendor-and-device id parses back into the same id.
pub proof fn law_vendor_and_device_round_trip(v: u32, d: u32)
    ensures
        device_id_parse(display_text(DeviceId::VendorAndDeviceId(v, d))) == Some(
            DeviceId::VendorAndDeviceId(v, d),
        ),
{
    lemma_decimal_text(v as nat);
    lemma_decimal_text(d as nat);
    lemma_digits_have_no(decimal_text(v as nat), ':');
    lemma_digits_have_no(decimal_text(d as nat), ':');
    lemma_split_pair(decimal_text(v as nat), decimal_text(d as nat), ':');
    lemma_parse_decimal(v);
    lemma_parse_decimal(d);
}

impl Default for DeviceId {
    /// The nil UUID.
    fn default() -> (r: Self)
        ensures
            r matches DeviceId::Uuid(b) && is_nil_spec(b),
    {
        DeviceId::Uuid([0u8; 16])
    }
}

/// The id of a physical device from what the driver reports: its UUID, or,
/// when that is nil, its vendor and device ids.
pub fn get_physical_device_id(uuid: [u8; 16], vendor_id: u32, device_id: u32) -> (r: DeviceId)
    ensures
        r == (if is_nil_spec(uuid) {
            DeviceId::VendorAndDeviceId(vendor_id, device_id)
        } else {
            DeviceId::Uuid(uuid)
        }),
{
    if is_nil(&uuid) {
        DeviceId::VendorAndDeviceId(vendor_id, device_id)
    } else {
        DeviceId::Uuid(uuid)
    }
}

// ---------------------------------------------------------------------------
// Choosing a physical device
// ---------------------------------------------------------------------------

/// A physical device as the selection sees it: whether it meets the
/// renderer's requirements, and its id.
#[derive(Clone, Copy, Debug)]
pub struct DeviceCandidate {
    pub suitable: bool,
    pub id: DeviceId,
}

/// The first suitable candidate at or after `from` for which `wanted` holds.
pub open spec fn first_suitable(
    c: Seq<DeviceCandidate>,
    wanted: spec_fn(DeviceId) -> bool,
) -> Option<int> {
    if exists|i: int| 0 <= i < c.len() && c[i].suitable && wanted(c[i].id) {
        Some(
            choose|i: int|
                0 <= i < c.len() && c[i].suitable && wanted(c[i].id) && forall|j: int|
                    0 <= j < i ==> !(c[j].suitable && wanted(c[j].id)),
        )
    } else {
        None
    }
}

/// The test for one id.
pub open spec fn has_id(p: DeviceId) -> spec_fn(DeviceId) -> bool {
    |id: DeviceId| id == p
}

/// The test that every id passes.
pub open spec fn any_id() -> spec_fn(DeviceId) -> bool {
    |id: DeviceId| true
}

/// The candidate the renderer picks: the first suitable one with the
/// preferred id, if one is preferred and present, else the first suitable
/// one.
pub open spec fn picked_device(c: Seq<DeviceCandidate>, preferred: Option<DeviceId>) -> Option<
    int,
> {
    match preferred {
        Some(p) => match first_suitable(c, has_id(p)) {
            Some(i) => Some(i),
            None => first_suitable(c, any_id()),
        },
        None => first_suitable(c, any_id()),
    }
}

/// The message of the error when no device fits.
pub open spec fn no_device_message() -> Seq<char> {
    "No suitable physical device found!"@
}

proof fn lemma_first_suitable(
    c: Seq<DeviceCandidate>,
    wanted: spec_fn(DeviceId) -> bool,
    k: int,
)
    requires
        0 <= k < c.len(),
        c[k].suitable && wanted(c[k].id),
        forall|j: int| 0 <= j < k ==> !(c[j].suitable && wanted(c[j].id)),
    ensures
        first_suitable(c, wanted) == Some(k),
{
    let i = choose|i: int|
        0 <= i < c.len() && c[i].suitable && wanted(c[i].id) && forall|j: int|
            0 <= j < i ==> !(c[j].suitable && wanted(c[j].id));
    assert(c[k].suitable && wanted(c[k].id));
    if i < k {
        assert(!(c[i].suitable && wanted(c[i].id)));
    }
    if k < i {
        assert(!(c[k].suitable && wanted(c[k].id)));
    }
}

/// The index of the first suitable candidate with id `preferred`, or of the
/// first suitable one when `preferred` is `None`.
fn find_suitable(candidates: &Vec<DeviceCandidate>, preferred: Option<DeviceId>) -> (r: Option<
    usize,
>)
    ensures
        r matches Some(i) ==> i < candidates@.len(),
        match preferred {
            Some(p) => match r {
                Some(i) => first_suitable(candidates@, has_id(p)) == Some(i as int),
                None => first_suitable(candidates@, has_id(p)) is None,
            },
            None => match r {
                Some(i) => first_suitable(candidates@, any_id()) == Some(i as int),
                None => first_suitable(candidates@, any_id()) is None,
            },
        },
{
    let ghost wanted: spec_fn(DeviceId) -> bool = match preferred {
        Some(p) => has_id(p),
        None => any_id(),
    };
    let mut i: usize = 0;
    while i < candidates.len()
        invariant
            i <= candidates@.len(),
            wanted == (match preferred {
                Some(p) => has_id(p),
                None => any_id(),
            }),
            forall|j: int| 0 <= j < i ==> !(candidates@[j].suitable && wanted(candidates@[j].id)),
        decreases candidates@.len() - i,
    {
        let c = candidates[i];
        let matches = match preferred {
            Some(p) => c.id.same_as(&p),
            None => true,
        };
        if c.suitable && matches {
            proof {
                lemma_first_suitable(candidates@, wanted, i as int);
            }
            return Some(i);
        }
        i = i + 1;
    }
    None
}

/// Picks the physical device to render with among `candidates`: the first
/// suitable one whose id is `preferred`, when there is one, else the first
/// suitable one; an error when none is suitable. Returns the index of the
/// device and its id.
pub fn pick_physical_device(candidates: &Vec<DeviceCandidate>, preferred: &Option<DeviceId>) -> (r:
    Result<(usize, DeviceId), VkError>)
    ensures
        match r {
            Ok((i, id)) => picked_device(candidates@, *preferred) == Some(i as int) && i
                < candidates@.len() && id == candidates@[i as int].id,
            Err(e) => picked_device(candidates@, *preferred) is None && is_suitability(e, no_device_message()),
        },
{
    if let Some(p) = preferred {
        if let Some(i) = find_suitable(candidates, Some(*p)) {
            return Ok((i, candidates[i].id));
        }
    }
    match find_suitable(candidates, None) {
        Some(i) => Ok((i, candidates[i].id)),
        None => {
            proof {
                reveal_strlit("No suitable physical device found!");
            }
            Err(VkError::SuitabilityError("No suitable physical device found!"))
        },
    }
}

/// The preferred device to record after picking `picked`: its text, when it
/// differs from the device that was preferred.
pub fn preferred_device_update(preferred: &Option<DeviceId>, picked: &DeviceId) -> (r: Option<
    String,
>)
    ensures
        match r {
            Some(s) => *preferred != Some(*picked) && s@ == display_text(*picked),
            None => *preferred == Some(*picked),
        },
{
    let same = match preferred {
        Some(p) => p.same_as(picked),
        None => false,
    };
    if same {
        None
    } else {
        Some(picked.to_string())
    }
}

// ---------------------------------------------------------------------------
// Device requirements
// ---------------------------------------------------------------------------

/// `VK_QUEUE_GRAPHICS_BIT`.
pub const QUEUE_GRAPHICS_BIT: u32 = 1;

/// The queue families the renderer submits to.
#[derive(Copy, Clone, Debug, PartialEq, Eq)]
pub struct QueueFamilyIndices {
    pub graphics: u32,
    pub present: u32,
}

/// The first index in `0..n` where `p` holds.
pub open spec fn first_index(n: int, p: spec_fn(int) -> bool) -> Option<int> {
    if exists|i: int| 0 <= i < n && #[trigger] p(i) {
        Some(choose|i: int| 0 <= i < n && #[trigger] p(i) && forall|j: int| 0 <= j < i ==> !#[trigger] p(j))
    } else {
        None
    }
}

proof fn lemma_first_index(n: int, p: spec_fn(int) -> bool, k: int)
    requires
        0 <= k < n,
        p(k),
        forall|j: int| 0 <= j < k ==> !#[trigger] p(j),
    ensures
        first_index(n, p) == Some(k),
{
    let i = choose|i: int| 0 <= i < n && #[trigger] p(i) && forall|j: int| 0 <= j < i ==> !#[trigger] p(j);
    assert(p(k));
    if i < k {
        assert(!p(i));
    }
    if k < i {
        assert(!p(k));
    }
}

/// The message of the error when a queue family is missing.
pub open spec fn missing_queue_message() -> Seq<char> {
    "Missing required queue families."@
}

/// The graphics family: the first family whose flags hold the graphics bit.
pub open spec fn graphics_family(flags: Seq<u32>) -> Option<int> {
    first_index(flags.len() as int, |i: int| flags[i] & QUEUE_GRAPHICS_BIT != 0)
}

/// The present family: the first family that can present to the surface.
pub open spec fn present_family(support: Seq<bool>) -> Option<int> {
    first_index(support.len() as int, |i: int| support[i])
}

/// Finds the queue families to use from the flags of each family and whether
/// it can present to the surface: the first with the graphics bit and the
/// first that can present; an error when either is missing.
pub fn queue_family_indices(queue_flags: &Vec<u32>, present_support: &Vec<bool>) -> (r: Result<
    QueueFamilyIndices,
    VkError,
>)
    requires
        queue_flags@.len() == present_support@.len(),
        queue_flags@.len() <= u32::MAX,
    ensures
        match r {
            Ok(q) => graphics_family(queue_flags@) == Some(q.graphics as int) && present_family(
                present_support@,
            ) == Some(q.present as int),
            Err(e) => (graphics_family(queue_flags@) is None || present_family(present_support@) is None)
                && is_suitability(e, missing_queue_message()),
        },
{
    let ghost pp = |i: int| present_support@[i];
    let ghost gp = |i: int| queue_flags@[i] & QUEUE_GRAPHICS_BIT != 0;
    let n = present_support.len();
    let mut present: Option<u32> = None;
    let mut i: usize = 0;
    while i < n
        invariant_except_break
            present is None,
        invariant
            n == present_support@.len(),
            n <= u32::MAX,
            i <= n,
            pp == (|i: int| present_support@[i]),
            forall|j: int| 0 <= j < i ==> !#[trigger] pp(j),
        ensures
            match present {
                Some(k) => first_index(n as int, pp) == Some(k as int),
                None => first_index(n as int, pp) is None,
            },
        decreases n - i,
    {
        if present_support[i] {
            proof {
                lemma_first_index(n as int, pp, i as int);
            }
            present = Some(i as u32);
            break;
        }
        i = i + 1;
    }
    let mut graphics: Option<u32> = None;
    let mut k: usize = 0;
    while k < queue_flags.len()
        invariant_except_break
            graphics is None,
        invariant
            queue_flags@.len() <= u32::MAX,
            k <= queue_flags@.len(),
            gp == (|i: int| queue_flags@[i] & QUEUE_GRAPHICS_BIT != 0),
            forall|j: int| 0 <= j < k ==> !#[trigger] gp(j),
        ensures
            match graphics {
                Some(g) => first_index(queue_flags@.len() as int, gp) == Some(g as int),
                None => first_index(queue_flags@.len() as int, gp) is None,
            },
        decreases queue_flags@.len() - k,
    {
        if queue_flags[k] & QUEUE_GRAPHICS_BIT != 0 {
            proof {
                lemma_first_index(queue_flags@.len() as int, gp, k as int);
            }
            graphics = Some(k as u32);
            break;
        }
        k = k + 1;
    }
    match (graphics, present) {
        (Some(graphics), Some(present)) => Ok(QueueFamilyIndices { graphics, present }),
        _ => {
            proof {
                reveal_strlit("Missing required queue families.");
            }
            Err(VkError::SuitabilityError("Missing required queue families."))
        },
    }
}

/// The name of the swapchain device extension, which the renderer needs.
pub open spec fn swapchain_extension_name() -> Seq<char> {
    "VK_KHR_swapchain"@
}

/// The message of the error when a device extension is missing.
pub open spec fn missing_extension_message() -> Seq<char> {
    "Missing required device extensions."@
}

/// Checks that the device offers every extension the renderer needs, given
/// the names of the extensions it offers.
pub fn check_physical_device_extensions(available: &Vec<String>) -> (r: Result<(), VkError>)
    ensures
        match r {
            Ok(()) => exists|i: int| 0 <= i < available@.len() && available@[i]@
                == swapchain_extension_name(),
            Err(e) => (forall|i: int| 0 <= i < available@.len() ==> available@[i]@
                != swapchain_extension_name()) && is_suitability(e, missing_extension_message()),
        },
{
    let needed = String::from_str("VK_KHR_swapchain");
    let mut i: usize = 0;
    while i < available.len()
        invariant
            i <= available@.len(),
            needed@ == swapchain_extension_name(),
            forall|j: int| 0 <= j < i ==> available@[j]@ != swapchain_extension_name(),
        decreases available@.len() - i,
    {
        if available[i] == needed {
            return Ok(());
        }
        i = i + 1;
    }
    proof {
        reveal_strlit("Missing required device extensions.");
    }
    Err(VkError::SuitabilityError("Missing required device extensions."))
}

/// The message of the error when a surface offers no format or no present
/// mode.
pub open spec fn insufficient_swapchain_message() -> Seq<char> {
    "Insufficient swapchain support."@
}

/// Checks that the surface offers at least one format and one present mode
/// on the device.
pub fn check_swapchain_support(support: &SwapchainSupport) -> (r: Result<(), VkError>)
    ensures
        match r {
            Ok(()) => support.formats@.len() > 0 && support.present_modes@.len() > 0,
            Err(e) => (support.formats@.len() == 0 || support.present_modes@.len() == 0)
                && is_suitability(e, insufficient_swapchain_message()),
        },
{
    if support.formats.len() == 0 || support.present_modes.len() == 0 {
        proof {
            reveal_strlit("Insufficient swapchain support.");
        }
        return Err(VkError::SuitabilityError("Insufficient swapchain support."));
    }
    Ok(())
}

/// The queue families to create queues on: the graphics family and the
/// present family, each once.
pub fn unique_queue_families(indices: &QueueFamilyIndices) -> (r: Vec<u32>)
    ensures
        r@.to_set() == set![indices.graphics, indices.present],
        r@.no_duplicates(),
{
    let mut r: Vec<u32> = Vec::new();
    r.push(indices.graphics);
    if indices.present != indices.graphics {
        r.push(indices.present);
    }
    proof {
        if indices.present != indices.graphics {
            assert(r@ =~= seq![indices.graphics, indices.present]);
            assert(r@.to_set() =~= set![indices.graphics, indices.present]) by {
                assert(r@.contains(indices.graphics) && r@[0] == indices.graphics);
                assert(r@[1] == indices.present);
            }
        } else {
            assert(r@ =~= seq![indices.graphics]);
            assert(r@.to_set() =~= set![indices.graphics, indices.present]) by {
                assert(r@[0] == indices.graphics);
            }
        }
    }
    r
}

} // verus!
