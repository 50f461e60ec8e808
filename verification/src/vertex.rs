use vstd::prelude::*;

verus! {

/// A two-component vector of the math library, carried through unchanged.
#[verifier::external_type_specification]
#[verifier::external_body]
pub struct ExVec2(glam::Vec2);

/// A three-component vector of the math library, carried through unchanged.
#[verifier::external_type_specification]
#[verifier::external_body]
pub struct ExVec3(glam::Vec3);

/// A four-component vector of the math library, carried through unchanged.
#[verifier::external_type_specification]
#[verifier::external_body]
pub struct ExVec4(glam::Vec4);

/// A vertex with a 2D position and an RGBA colour.
#[derive(Copy, Clone, Debug)]
pub struct Pos2Color4Vertex {
    pub pos: glam::Vec2,
    pub color: glam::Vec4,
}

impl Pos2Color4Vertex {
    /// The vertex at `pos` with colour `color`.
    pub fn new(pos: glam::Vec2, color: glam::Vec4) -> (r: Self)
        ensures
            r.pos == pos,
            r.color == color,
    {
        Pos2Color4Vertex { pos, color }
    }
}

/// A vertex with a 2D position, an RGBA colour and texture coordinates.
#[derive(Copy, Clone, Debug)]
pub struct Pos2Color4Tex2Vertex {
    pub pos: glam::Vec2,
    pub color: glam::Vec4,
    pub tex: glam::Vec2,
}

impl Pos2Color4Tex2Vertex {
    /// The vertex at `pos` with colour `color` and texture coordinates `tex`.
    pub fn new(pos: glam::Vec2, color: glam::Vec4, tex: glam::Vec2) -> (r: Self)
        ensures
            r.pos == pos,
            r.color == color,
            r.tex == tex,
    {
        Pos2Color4Tex2Vertex { pos, color, tex }
    }
}

/// Most cubes drawn in one frame.
pub const MAX_CUBES_PER_FRAME: usize = 100_000;

/// Most hyper-cubes drawn in one frame: a hyper-cube holds up to 4096 cubes.
pub const MAX_HYPER_CUBES_PER_FRAME: usize = MAX_CUBES_PER_FRAME / 4096;

/// One cube of a hyper-cube: its index inside the hyper-cube and its
/// material.
#[derive(Copy, Clone, Debug)]
pub struct CubeInstance {
    pub data: [u16; 2],
}

impl CubeInstance {
    /// The cube at `index` made of `material`.
    pub fn new(index: u16, material: u8) -> (r: Self)
        ensures
            r.data@ == seq![index, material as u16],
    {
        CubeInstance { data: [index, material as u16] }
    }
}

/// A hyper-cube queued for drawing: where it stands, and the run of cube
/// instances that belongs to it.
#[derive(Copy, Clone, Debug)]
pub struct HyperCubeInstance {
    pub position: glam::Vec3,
    pub first_cube: usize,
    pub cube_count: usize,
}

/// The cube instances for the visible cells `visible` of a hyper-cube whose
/// materials are `materials`: one per visible cell with a non-zero material,
/// in the order of `visible`, with the cell index cut to 16 bits.
pub open spec fn visible_cubes(visible: Seq<usize>, materials: Seq<u8>) -> Seq<(u16, u8)>
    decreases visible.len(),
{
    if visible.len() == 0 {
        Seq::empty()
    } else {
        let rest = visible_cubes(visible.drop_last(), materials);
        let index = visible.last();
        let material = materials[index as int];
        if material > 0 {
            rest.push((index as u16, material))
        } else {
            rest
        }
    }
}

proof fn lemma_visible_cubes_len(visible: Seq<usize>, materials: Seq<u8>)
    ensures
        visible_cubes(visible, materials).len() <= visible.len(),
    decreases visible.len(),
{
    if visible.len() > 0 {
        lemma_visible_cubes_len(visible.drop_last(), materials);
    }
}

/// The cube and hyper-cube instances gathered for one frame.
pub struct CubeBatch {
    pub cubes: Vec<CubeInstance>,
    pub hyper_cubes: Vec<HyperCubeInstance>,
}

/// The pair that a cube instance encodes: its index and its material.
pub open spec fn cube_pair(c: CubeInstance) -> (u16, u8) {
    (c.data[0], c.data[1] as u8)
}

/// Whether the cube instances `cubes` encode exactly the pairs `pairs`.
pub open spec fn encodes(cubes: Seq<CubeInstance>, pairs: Seq<(u16, u8)>) -> bool {
    &&& cubes.len() == pairs.len()
    &&& forall|i: int|
        0 <= i < cubes.len() ==> #[trigger] cubes[i].data@ == seq![
            pairs[i].0,
            pairs[i].1 as u16,
        ]
}

/// Indices of the cube mesh: two triangles on each of six faces.
pub const CUBE_INDEX_COUNT: u32 = 36;

/// One instanced draw of the cube mesh.
#[derive(Clone, Copy, Debug, PartialEq, Eq)]
pub struct CubeDraw {
    pub index_count: u32,
    pub instance_count: u32,
    pub first_instance: u32,
}

/// The draw of a hyper-cube: all its cube instances, the counts cut to 32
/// bits as the draw call takes them.
pub open spec fn cube_draw(h: HyperCubeInstance) -> CubeDraw {
    CubeDraw {
        index_count: CUBE_INDEX_COUNT,
        instance_count: h.cube_count as u32,
        first_instance: h.first_cube as u32,
    }
}

/// The hyper-cube runs of a batch chain up: at most the frame's limit of
/// hyper-cubes, the first run starts at the first cube, each run starts where
/// the one before it ends, and the last run ends at the last cube.
pub open spec fn chained(cubes_len: int, hyper: Seq<HyperCubeInstance>) -> bool {
    &&& hyper.len() <= MAX_HYPER_CUBES_PER_FRAME
    &&& hyper.len() > 0 ==> hyper[0].first_cube == 0
    &&& forall|k: int|
        0 <= k < hyper.len() - 1 ==> #[trigger] hyper[k].first_cube + hyper[k].cube_count
            == hyper[k + 1].first_cube
    &&& cubes_len == (if hyper.len() == 0 {
        0
    } else {
        hyper.last().first_cube + hyper.last().cube_count
    })
}

impl CubeBatch {
    /// The draws for the queued hyper-cubes, in order.
    pub fn draw_calls(&self) -> (r: Vec<CubeDraw>)
        ensures
            r@ == self.hyper_cubes@.map_values(|h: HyperCubeInstance| cube_draw(h)),
    {
        let mut r: Vec<CubeDraw> = Vec::new();
        let mut i: usize = 0;
        while i < self.hyper_cubes.len()
            invariant
                i <= self.hyper_cubes@.len(),
                r@ == self.hyper_cubes@.take(i as int).map_values(
                    |h: HyperCubeInstance| cube_draw(h),
                ),
            decreases self.hyper_cubes@.len() - i,
        {
            let h = self.hyper_cubes[i];
            r.push(
                CubeDraw {
                    index_count: CUBE_INDEX_COUNT,
                    instance_count: h.cube_count as u32,
                    first_instance: h.first_cube as u32,
                },
            );
            proof {
                assert(self.hyper_cubes@.take(i as int + 1).map_values(
                    |h: HyperCubeInstance| cube_draw(h),
                ) =~= self.hyper_cubes@.take(i as int).map_values(
                    |h: HyperCubeInstance| cube_draw(h),
                ).push(cube_draw(h)));
            }
            i = i + 1;
        }
        proof {
            assert(self.hyper_cubes@.take(self.hyper_cubes@.len() as int) =~= self.hyper_cubes@);
        }
        r
    }

    /// Empties the batch once its draws are recorded.
    pub fn clear(&mut self)
        ensures
            final(self).cubes@.len() == 0,
            final(self).hyper_cubes@.len() == 0,
            chained(final(self).cubes@.len() as int, final(self).hyper_cubes@),
    {
        self.cubes.clear();
        self.hyper_cubes.clear();
    }

    /// An empty batch.
    pub fn new() -> (r: Self)
        ensures
            r.cubes@.len() == 0,
            r.hyper_cubes@.len() == 0,
            chained(r.cubes@.len() as int, r.hyper_cubes@),
    {
        CubeBatch { cubes: Vec::new(), hyper_cubes: Vec::new() }
    }

    /// Queues the hyper-cube at `position` whose visible cells are `visible`
    /// and whose cell materials are `materials`. Nothing is queued once the
    /// frame holds its most cubes or hyper-cubes; otherwise one cube instance
    /// is added per visible cell with a non-zero material, and one hyper-cube
    /// instance that covers them. Returns whether the hyper-cube was queued.
    pub fn draw_hyper_cube(
        &mut self,
        position: glam::Vec3,
        visible: &Vec<usize>,
        materials: &Vec<u8>,
    ) -> (queued: bool)
        requires
            forall|i: int| 0 <= i < visible@.len() ==> #[trigger] visible@[i] < materials@.len(),
            old(self).cubes@.len() + visible@.len() <= usize::MAX,
        ensures
            chained(old(self).cubes@.len() as int, old(self).hyper_cubes@) ==> chained(
                final(self).cubes@.len() as int,
                final(self).hyper_cubes@,
            ),
            queued == (old(self).cubes@.len() < MAX_CUBES_PER_FRAME
                && old(self).hyper_cubes@.len() < MAX_HYPER_CUBES_PER_FRAME),
            !queued ==> final(self).cubes@ == old(self).cubes@ && final(self).hyper_cubes@
                == old(self).hyper_cubes@,
            queued ==> {
                let added = visible_cubes(visible@, materials@);
                &&& final(self).cubes@.len() == old(self).cubes@.len() + added.len()
                &&& final(self).cubes@.take(old(self).cubes@.len() as int) == old(self).cubes@
                &&& encodes(final(self).cubes@.skip(old(self).cubes@.len() as int), added)
                &&& final(self).hyper_cubes@ == old(self).hyper_cubes@.push(
                    HyperCubeInstance {
                        position,
                        first_cube: old(self).cubes@.len() as usize,
                        cube_count: added.len() as usize,
                    },
                )
            },
    {
        if self.cubes.len() >= MAX_CUBES_PER_FRAME {
            return false;
        }
        if self.hyper_cubes.len() >= MAX_HYPER_CUBES_PER_FRAME {
            return false;
        }
        let first_cube = self.cubes.len();
        let ghost start = self.cubes@;
        let mut i: usize = 0;
        while i < visible.len()
            invariant
                i <= visible@.len(),
                start == old(self).cubes@,
                first_cube == start.len(),
                forall|k: int| 0 <= k < visible@.len() ==> #[trigger] visible@[k] < materials@.len(),
                start.len() + visible@.len() <= usize::MAX,
                self.cubes@.take(first_cube as int) == start,
                self.cubes@.len() == first_cube + visible_cubes(visible@.take(i as int), materials@).len(),
                encodes(
                    self.cubes@.skip(first_cube as int),
                    visible_cubes(visible@.take(i as int), materials@),
                ),
                self.hyper_cubes@ == old(self).hyper_cubes@,
            decreases visible@.len() - i,
        {
            let index = visible[i];
            let material = materials[index];
            proof {
                assert(visible@.take(i as int + 1).drop_last() =~= visible@.take(i as int));
                lemma_visible_cubes_len(visible@.take(i as int), materials@);
            }
            let ghost before = self.cubes@;
            if material > 0 {
                self.cubes.push(CubeInstance::new(index as u16, material));
                proof {
                    assert(self.cubes@.take(first_cube as int) =~= before.take(first_cube as int));
                    assert(self.cubes@.skip(first_cube as int) =~= before.skip(
                        first_cube as int,
                    ).push(self.cubes@.last()));
                }
            }
            i = i + 1;
        }
        proof {
            assert(visible@.take(visible@.len() as int) =~= visible@);
        }
        let count = self.cubes.len() - first_cube;
        self.hyper_cubes.push(HyperCubeInstance { position, first_cube, cube_count: count });
        true
    }
}

} // verus!
