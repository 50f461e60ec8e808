use guillotiere::{size2, AtlasAllocator};
use vstd::prelude::*;

verus! {

/// The guillotine atlas allocator of the `guillotiere` crate.
#[verifier::external_type_specification]
#[verifier::external_body]
pub struct ExAtlasAllocator(AtlasAllocator);

/// An axis-aligned rectangle `(min_x, min_y, max_x, max_y)`, max exclusive.
pub type Rect = (i32, i32, i32, i32);

/// The rectangles that an atlas allocator has handed out.
pub uninterp spec fn atlas_allocations(a: AtlasAllocator) -> Set<Rect>;

/// The width and height that an atlas allocator was created with.
pub uninterp spec fn atlas_extent(a: AtlasAllocator) -> (i32, i32);

/// Whether the allocator, in its present state, accepts a request for a
/// `width` x `height` rectangle. The allocator is deterministic: the answer
/// depends on its free rectangles and the requested size alone.
pub uninterp spec fn atlas_fits(a: AtlasAllocator, width: i32, height: i32) -> bool;

/// Two rectangles share at least one pixel.
pub open spec fn rects_overlap(r: Rect, s: Rect) -> bool {
    r.0 < s.2 && s.0 < r.2 && r.1 < s.3 && s.1 < r.3
}

/// The rectangle lies inside `(0, 0)..(width, height)`.
pub open spec fn rect_within(r: Rect, width: int, height: int) -> bool {
    0 <= r.0 && 0 <= r.1 && r.2 <= width && r.3 <= height
}

/// `AtlasAllocator::new(size2(width, height))`: an allocator over a
/// `width` x `height` area with nothing allocated. It asserts that both
/// sizes are positive, so those are required. It starts with one free
/// rectangle covering the whole area, filed in the free list of its size
/// class; a request is searched from its own size class upward, and a size
/// no larger than the area never falls in a higher class, so a fresh
/// allocator accepts exactly the non-empty requests that fit the area.
#[verifier::external_body]
pub(crate) fn new_atlas(width: i32, height: i32) -> (a: AtlasAllocator)
    requires
        width > 0,
        height > 0,
    ensures
        atlas_allocations(a) == Set::<Rect>::empty(),
        atlas_extent(a) == (width, height),
        forall|w: i32, h: i32|
            #[trigger] atlas_fits(a, w, h) == (0 < w <= width && 0 < h <= height),
{
    AtlasAllocator::new(size2(width, height))
}

/// `AtlasAllocator::allocate(size2(width, height))`. It succeeds exactly when
/// the allocator accepts the request in its present state (`atlas_fits`);
/// empty or negative sizes are refused. With the default alignment of one
/// pixel, an allocation is exactly the requested size; it lies inside the
/// atlas and is carved out of a free rectangle, so it shares no pixel with
/// the rectangles allocated before. Which free rectangle is chosen is left
/// unsaid: it depends on the allocator's best-fit search.
#[verifier::external_body]
pub(crate) fn atlas_allocate(a: &mut AtlasAllocator, width: i32, height: i32) -> (r: Option<Rect>)
    ensures
        atlas_extent(*final(a)) == atlas_extent(*old(a)),
        (r is Some) == atlas_fits(*old(a), width, height),
        (width <= 0 || height <= 0) ==> r is None,
        match r {
            None => atlas_allocations(*final(a)) == atlas_allocations(*old(a)),
            Some(rect) => {
                &&& rect.2 == rect.0 + width
                &&& rect.3 == rect.1 + height
                &&& rect_within(rect, atlas_extent(*old(a)).0 as int, atlas_extent(*old(a)).1 as int)
                &&& forall|o: Rect| #[trigger]
                    atlas_allocations(*old(a)).contains(o) ==> !rects_overlap(o, rect)
                &&& atlas_allocations(*final(a)) == atlas_allocations(*old(a)).insert(rect)
            },
        },
{
    match a.allocate(size2(width, height)) {
        Some(allocation) => {
            let r = allocation.rectangle;
            Some((r.min.x, r.min.y, r.max.x, r.max.y))
        },
        None => None,
    }
}

} // verus!
