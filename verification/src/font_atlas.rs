use crate::atlas::{
    atlas_allocate, atlas_allocations, atlas_extent, atlas_fits, new_atlas, rect_within,
    rects_overlap, Rect,
};
use guillotiere::AtlasAllocator;
use vstd::prelude::*;

verus! {

/// Where a glyph bitmap was packed: the atlas layer and the rectangle
/// reserved for it (the glyph plus a one-pixel gutter), max exclusive.
#[derive(Clone, Copy, Debug, PartialEq, Eq)]
pub struct GlyphSlot {
    pub layer_index: u32,
    pub min_x: i32,
    pub min_y: i32,
    pub max_x: i32,
    pub max_y: i32,
}

/// The rectangle of a slot.
pub open spec fn slot_rect(s: GlyphSlot) -> Rect {
    (s.min_x, s.min_y, s.max_x, s.max_y)
}

/// A layer of `n` bytes, all zero.
pub open spec fn zeros(n: int) -> Seq<u8> {
    Seq::new(n as nat, |i: int| 0u8)
}

/// Packs glyph bitmaps into layers of a single-channel texture array. Each
/// layer has its own guillotine allocator; when a glyph does not fit, the
/// current layer is closed and a fresh one is started.
pub struct FontAtlasBuilder {
    layer_width: u32,
    layer_height: u32,
    size_2d: (i32, i32),
    allocator: AtlasAllocator,
    layers: Vec<Vec<u8>>,
    atlas_data: Vec<u8>,
    placed: Ghost<Seq<(nat, Rect)>>,
}

impl FontAtlasBuilder {
    /// Width of a layer in pixels.
    pub closed spec fn width(&self) -> u32 {
        self.layer_width
    }

    /// Height of a layer in pixels.
    pub closed spec fn height(&self) -> u32 {
        self.layer_height
    }

    /// The pixels of the closed layers.
    pub closed spec fn closed_layers(&self) -> Seq<Seq<u8>> {
        self.layers@.map_values(|l: Vec<u8>| l@)
    }

    /// The pixels of the layer being filled.
    pub closed spec fn current_layer(&self) -> Seq<u8> {
        self.atlas_data@
    }

    /// Every rectangle reserved so far, with the index of its layer.
    pub closed spec fn placements(&self) -> Seq<(nat, Rect)> {
        self.placed@
    }

    /// Whether the allocator of the current layer accepts a `width` x
    /// `height` request now.
    pub closed spec fn fits_now(&self, width: i32, height: i32) -> bool {
        atlas_fits(self.allocator, width, height)
    }

    /// Whether a fresh layer accepts a `width` x `height` request: it must
    /// be non-empty and no larger than the layer.
    pub open spec fn fits_fresh(&self, width: i32, height: i32) -> bool {
        0 < width <= self.width() && 0 < height <= self.height()
    }

    /// The builder's invariant: both sizes positive, the current layer holds
    /// one byte per pixel, the allocator covers the layer and holds the
    /// rectangles placed on it, and the placed rectangles lie in their layer
    /// and do not overlap within a layer.
    pub closed spec fn wf(&self) -> bool {
        &&& self.size_2d.0 > 0
        &&& self.size_2d.1 > 0
        &&& self.layer_width as int == self.size_2d.0 as int
        &&& self.layer_height as int == self.size_2d.1 as int
        &&& atlas_extent(self.allocator) == self.size_2d
        &&& self.atlas_data@.len() == self.layer_width as int * self.layer_height as int
        &&& forall|i: int|
            0 <= i < self.placed@.len() ==> {
                let (layer, r) = #[trigger] self.placed@[i];
                &&& layer <= self.layers@.len()
                &&& rect_within(r, self.layer_width as int, self.layer_height as int)
                &&& layer == self.layers@.len() ==> atlas_allocations(self.allocator).contains(r)
            }
        &&& forall|i: int, j: int|
            0 <= i < j < self.placed@.len() && (#[trigger] self.placed@[i]).0
                == (#[trigger] self.placed@[j]).0 ==> !rects_overlap(
                self.placed@[i].1,
                self.placed@[j].1,
            )
    }

    /// A builder for layers of `atlas_width` x `atlas_height` pixels, with an
    /// empty first layer.
    pub fn new(atlas_width: usize, atlas_height: usize) -> (r: Self)
        requires
            0 < atlas_width <= i32::MAX,
            0 < atlas_height <= i32::MAX,
            atlas_width * atlas_height <= usize::MAX,
        ensures
            r.wf(),
            r.width() == atlas_width as u32,
            r.height() == atlas_height as u32,
            r.closed_layers().len() == 0,
            r.current_layer() == zeros(atlas_width * atlas_height),
            r.placements().len() == 0,
            forall|w: i32, h: i32| #[trigger] r.fits_now(w, h) == r.fits_fresh(w, h),
    {
        let w = atlas_width as i32;
        let h = atlas_height as i32;
        let data = vec![0u8; atlas_width * atlas_height];
        proof {
            assert(data@ =~= zeros(atlas_width * atlas_height)) by {
                assert forall|i: int| 0 <= i < data@.len() implies data@[i] == 0u8 by {
                    assert(vstd::pervasive::cloned(0u8, data@[i]));
                }
            }
        }
        let r = FontAtlasBuilder {
            layer_width: atlas_width as u32,
            layer_height: atlas_height as u32,
            size_2d: (w, h),
            allocator: new_atlas(w, h),
            layers: Vec::new(),
            atlas_data: data,
            placed: Ghost(Seq::empty()),
        };
        proof {
            assert(r.closed_layers() =~= Seq::<Seq<u8>>::empty());
        }
        r
    }

    /// Closes the current layer and starts an empty one with a fresh
    /// allocator.
    fn start_new_layer(&mut self)
        requires
            old(self).wf(),
        ensures
            final(self).wf(),
            final(self).width() == old(self).width(),
            final(self).height() == old(self).height(),
            final(self).closed_layers() == old(self).closed_layers().push(old(self).current_layer()),
            final(self).current_layer() == zeros(final(self).width() as int * final(self).height() as int),
            final(self).placements() == old(self).placements(),
            forall|w: i32, h: i32| #[trigger] final(self).fits_now(w, h) == final(self).fits_fresh(w, h),
    {
        let ghost before = self.closed_layers();
        self.allocator = new_atlas(self.size_2d.0, self.size_2d.1);
        let current_len = self.atlas_data.len();
        assert(current_len == self.layer_width as int * self.layer_height as int);
        let data_size = self.layer_width as usize * self.layer_height as usize;
        let mut layer = vec![0u8; data_size];
        proof {
            assert(layer@ =~= zeros(data_size as int)) by {
                assert forall|i: int| 0 <= i < layer@.len() implies layer@[i] == 0u8 by {
                    assert(vstd::pervasive::cloned(0u8, layer@[i]));
                }
            }
        }
        std::mem::swap(&mut layer, &mut self.atlas_data);
        self.layers.push(layer);
        proof {
            assert(self.closed_layers() =~= before.push(old(self).current_layer()));
            assert forall|i: int| 0 <= i < self.placed@.len() implies {
                let (layer, r) = #[trigger] self.placed@[i];
                &&& layer <= self.layers@.len()
                &&& rect_within(r, self.layer_width as int, self.layer_height as int)
                &&& layer == self.layers@.len() ==> atlas_allocations(self.allocator).contains(r)
            } by {
                assert(old(self).placed@[i] == self.placed@[i]);
            }
        }
    }

    /// Tries to reserve a `width` x `height` rectangle in the current layer.
    fn try_place(&mut self, width: i32, height: i32) -> (r: Option<GlyphSlot>)
        requires
            old(self).wf(),
        ensures
            final(self).wf(),
            final(self).width() == old(self).width(),
            final(self).height() == old(self).height(),
            final(self).closed_layers() == old(self).closed_layers(),
            final(self).current_layer() == old(self).current_layer(),
            (r is Some) == old(self).fits_now(width, height),
            (width <= 0 || height <= 0) ==> r is None,
            match r {
                None => final(self).placements() == old(self).placements(),
                Some(slot) => {
                    &&& slot.layer_index == final(self).closed_layers().len() as u32
                    &&& slot.max_x == slot.min_x + width
                    &&& slot.max_y == slot.min_y + height
                    &&& final(self).placements() == old(self).placements().push(
                        (final(self).closed_layers().len(), slot_rect(slot)),
                    )
                },
            },
    {
        let ghost old_alloc = self.allocator;
        match atlas_allocate(&mut self.allocator, width, height) {
            Some(rect) => {
                let layer_index = self.layers.len() as u32;
                let ghost n = self.layers@.len();
                let ghost before = self.placed@;
                proof {
                    self.placed@ = self.placed@.push((n, rect));
                }
                proof {
                    let p = self.placed@;
                    assert forall|i: int| 0 <= i < p.len() implies {
                        let (layer, r) = #[trigger] p[i];
                        &&& layer <= self.layers@.len()
                        &&& rect_within(r, self.layer_width as int, self.layer_height as int)
                        &&& layer == self.layers@.len() ==> atlas_allocations(
                            self.allocator,
                        ).contains(r)
                    } by {
                        if i < before.len() {
                            assert(p[i] == before[i]);
                        }
                    }
                    assert forall|i: int, j: int|
                        0 <= i < j < p.len() && (#[trigger] p[i]).0 == (#[trigger] p[j]).0 implies !rects_overlap(
                        p[i].1,
                        p[j].1,
                    ) by {
                        assert(p[i] == before[i]);
                        if j < before.len() {
                            assert(p[j] == before[j]);
                        } else {
                            assert(atlas_allocations(old_alloc).contains(before[i].1));
                        }
                    }
                }
                Some(
                    GlyphSlot {
                        layer_index,
                        min_x: rect.0,
                        min_y: rect.1,
                        max_x: rect.2,
                        max_y: rect.3,
                    },
                )
            },
            None => {
                proof {
                    let p = self.placed@;
                    assert forall|i: int| 0 <= i < p.len() implies {
                        let (layer, r) = #[trigger] p[i];
                        &&& layer <= self.layers@.len()
                        &&& rect_within(r, self.layer_width as int, self.layer_height as int)
                        &&& layer == self.layers@.len() ==> atlas_allocations(
                            self.allocator,
                        ).contains(r)
                    } by {}
                }
                None
            },
        }
    }

    /// Reserves room for a glyph bitmap of `w` x `h` pixels plus a one-pixel
    /// gutter. The current layer is closed only when its allocator refuses
    /// the request; the glyph is then tried once more on a new layer, which
    /// takes it whenever it fits a layer at all. When that fails too, that
    /// layer is closed as well and no slot is returned.
    pub fn allocate_glyph(&mut self, w: u32, h: u32) -> (r: Option<GlyphSlot>)
        requires
            old(self).wf(),
            (w as i32) < i32::MAX,
            (h as i32) < i32::MAX,
        ensures
            final(self).wf(),
            final(self).width() == old(self).width(),
            final(self).height() == old(self).height(),
            ((w as i32) + 1 <= 0 || (h as i32) + 1 <= 0) ==> r is None,
            old(self).fits_now(((w as i32) + 1) as i32, ((h as i32) + 1) as i32) ==> {
                &&& r is Some
                &&& final(self).closed_layers() == old(self).closed_layers()
                &&& final(self).current_layer() == old(self).current_layer()
            },
            !old(self).fits_now(((w as i32) + 1) as i32, ((h as i32) + 1) as i32) && old(self).fits_fresh(((w as i32) + 1) as i32, ((h as i32) + 1) as i32) ==> {
                &&& r is Some
                &&& final(self).closed_layers() == old(self).closed_layers().push(
                    old(self).current_layer(),
                )
                &&& final(self).current_layer() == zeros(
                    final(self).width() as int * final(self).height() as int,
                )
            },
            (r is None) == (!old(self).fits_now(((w as i32) + 1) as i32, ((h as i32) + 1) as i32) && !old(
                self,
            ).fits_fresh(((w as i32) + 1) as i32, ((h as i32) + 1) as i32)),
            (w as int) + 1 <= old(self).width() && (h as int) + 1 <= old(self).height() ==> r is Some,
            match r {
                Some(slot) => {
                    &&& slot.layer_index == final(self).closed_layers().len() as u32
                    &&& slot.max_x == slot.min_x + (w as i32) + 1
                    &&& slot.max_y == slot.min_y + (h as i32) + 1
                    &&& final(self).placements() == old(self).placements().push(
                        (final(self).closed_layers().len(), slot_rect(slot)),
                    )
                    &&& {
                        ||| (final(self).closed_layers() == old(self).closed_layers()
                            && final(self).current_layer() == old(self).current_layer())
                        ||| (final(self).closed_layers() == old(self).closed_layers().push(
                            old(self).current_layer(),
                        ) && final(self).current_layer() == zeros(
                            final(self).width() as int * final(self).height() as int,
                        ))
                    }
                },
                None => {
                    &&& final(self).placements() == old(self).placements()
                    &&& final(self).closed_layers() == old(self).closed_layers().push(
                        old(self).current_layer(),
                    ).push(zeros(final(self).width() as int * final(self).height() as int))
                    &&& final(self).current_layer() == zeros(final(self).width() as int * final(self).height() as int)
                },
            },
    {
        let width = w as i32 + 1;
        let height = h as i32 + 1;
        if let Some(slot) = self.try_place(width, height) {
            return Some(slot);
        }
        self.start_new_layer();
        if let Some(slot) = self.try_place(width, height) {
            return Some(slot);
        }
        self.start_new_layer();
        None
    }

    /// The index of the layer being filled, which glyphs without a bitmap
    /// are recorded under.
    pub fn current_layer_index(&self) -> (r: u32)
        requires
            self.closed_layers().len() <= u32::MAX,
        ensures
            r == self.closed_layers().len(),
    {
        self.layers.len() as u32
    }

    /// Index of the pixel `(px, py)` in a layer.
    pub open spec fn pixel_index(&self, px: int, py: int) -> int {
        py * self.width() as int + px
    }

    /// Writes the coverage `value` of the glyph pixel `(x, y)` of a glyph
    /// whose slot starts at `(min_x, min_y)`; pixels outside the layer are
    /// dropped.
    pub fn put_coverage(&mut self, min_x: i32, min_y: i32, x: u32, y: u32, value: u8)
        requires
            old(self).wf(),
            (min_x as u32) + x <= u32::MAX,
            (min_y as u32) + y <= u32::MAX,
            ((min_x as u32) + x < old(self).width() && (min_y as u32) + y < old(self).height())
                ==> old(self).pixel_index((min_x as u32) + x, (min_y as u32) + y) <= u32::MAX,
        ensures
            final(self).wf(),
            final(self).width() == old(self).width(),
            final(self).height() == old(self).height(),
            final(self).closed_layers() == old(self).closed_layers(),
            final(self).placements() == old(self).placements(),
            final(self).current_layer() == if (min_x as u32) + x < old(self).width() && (min_y as u32) + y
                < old(self).height() {
                old(self).current_layer().update(
                    old(self).pixel_index((min_x as u32) + x, (min_y as u32) + y),
                    value,
                )
            } else {
                old(self).current_layer()
            },
    {
        let pixel_x = min_x as u32 + x;
        let pixel_y = min_y as u32 + y;
        if pixel_x < self.layer_width && pixel_y < self.layer_height {
            let idx = (pixel_y * self.layer_width + pixel_x) as usize;
            proof {
                let lw = self.layer_width as int;
                let lh = self.layer_height as int;
                let px = pixel_x as int;
                let py = pixel_y as int;
                assert(py * lw + px < lw * lh) by (nonlinear_arith)
                    requires
                        0 <= px < lw,
                        0 <= py < lh,
                ;
            }
            self.atlas_data.set(idx, value);
        }
    }

    /// Closes the current layer and hands out all layers, first to last.
    /// The builder is left without layers.
    pub fn build(&mut self) -> (r: Vec<Vec<u8>>)
        ensures
            r@.map_values(|l: Vec<u8>| l@) == old(self).closed_layers().push(
                old(self).current_layer(),
            ),
            final(self).closed_layers().len() == 0,
            final(self).current_layer().len() == 0,
    {
        let ghost before = self.closed_layers();
        let mut data: Vec<u8> = Vec::new();
        std::mem::swap(&mut data, &mut self.atlas_data);
        self.layers.push(data);
        let mut out: Vec<Vec<u8>> = Vec::new();
        std::mem::swap(&mut out, &mut self.layers);
        proof {
            assert(out@.map_values(|l: Vec<u8>| l@) =~= before.push(old(self).current_layer()));
            assert(self.closed_layers() =~= Seq::<Seq<u8>>::empty());
        }
        out
    }
}

/// Law: the rectangles that the builder reserves lie inside their layer and
/// never overlap another rectangle of the same layer, so no two glyph
/// bitmaps of the atlas share a pixel.
pub proof fn law_glyph_slots_disjoint(b: &FontAtlasBuilder)
    requires
        b.wf(),
    ensures
        forall|i: int|
            0 <= i < b.placements().len() ==> rect_within(
                #[trigger] b.placements()[i].1,
                b.width() as int,
                b.height() as int,
            ),
        forall|i: int, j: int|
            0 <= i < j < b.placements().len() && (#[trigger] b.placements()[i]).0 == (
            #[trigger] b.placements()[j]).0 ==> !rects_overlap(
                b.placements()[i].1,
                b.placements()[j].1,
            ),
{
    assert forall|i: int| 0 <= i < b.placements().len() implies rect_within(
        #[trigger] b.placements()[i].1,
        b.width() as int,
        b.height() as int,
    ) by {
        let (layer, r) = b.placed@[i];
    }
}

/// Law: the layer being filled always holds one byte per pixel.
pub proof fn law_current_layer_size(b: &FontAtlasBuilder)
    requires
        b.wf(),
    ensures
        b.current_layer().len() == b.width() as int * b.height() as int,
{
}

/// Law: every reserved slot names a layer that `build` hands out: the
/// closed layers and the layer being filled.
pub proof fn law_slots_name_built_layers(b: &FontAtlasBuilder)
    requires
        b.wf(),
    ensures
        forall|i: int|
            0 <= i < b.placements().len() ==> (#[trigger] b.placements()[i]).0 < b.closed_layers().push(
                b.current_layer(),
            ).len(),
{
    assert forall|i: int| 0 <= i < b.placements().len() implies (#[trigger] b.placements()[i]).0
        < b.closed_layers().push(b.current_layer()).len() by {
        let (layer, r) = b.placed@[i];
    }
}

/// Law: after `build` the builder holds no layer and an empty buffer, so
/// building again hands out one empty layer.
pub proof fn law_build_after_build(b: &FontAtlasBuilder)
    requires
        b.closed_layers().len() == 0,
        b.current_layer().len() == 0,
    ensures
        b.closed_layers().push(b.current_layer()) == seq![Seq::<u8>::empty()],
{
    assert(b.current_layer() =~= Seq::<u8>::empty());
    assert(b.closed_layers().push(b.current_layer()) =~= seq![Seq::<u8>::empty()]);
}

} // verus!
