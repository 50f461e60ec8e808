use rg_vulkan::vertex::{
    CubeBatch, CubeDraw, CubeInstance, Pos2Color4Tex2Vertex, Pos2Color4Vertex,
    MAX_HYPER_CUBES_PER_FRAME,
};

#[test]
fn cube_instance_packs_index_and_material() {
    assert_eq!(CubeInstance::new(4095, 7).data, [4095, 7]);
    assert_eq!(CubeInstance::new(0, 255).data, [0, 255]);
}

#[test]
fn vertices_keep_their_fields() {
    let v = Pos2Color4Vertex::new(glam::Vec2::new(1.0, 2.0), glam::Vec4::new(0.1, 0.2, 0.3, 1.0));
    assert_eq!(v.pos, glam::Vec2::new(1.0, 2.0));
    assert_eq!(v.color, glam::Vec4::new(0.1, 0.2, 0.3, 1.0));
    let t = Pos2Color4Tex2Vertex::new(
        glam::Vec2::new(1.0, 2.0),
        glam::Vec4::ONE,
        glam::Vec2::new(0.5, 0.25),
    );
    assert_eq!(t.tex, glam::Vec2::new(0.5, 0.25));
}

#[test]
fn hyper_cube_keeps_visible_solid_cells() {
    let mut batch = CubeBatch::new();
    let materials = vec![0u8, 3, 0, 9, 1];
    let visible = vec![0usize, 1, 2, 3];
    assert!(batch.draw_hyper_cube(glam::Vec3::ZERO, &visible, &materials));
    let data: Vec<[u16; 2]> = batch.cubes.iter().map(|c| c.data).collect();
    assert_eq!(data, vec![[1, 3], [3, 9]]);
    assert_eq!(batch.hyper_cubes.len(), 1);
    assert_eq!(batch.hyper_cubes[0].first_cube, 0);
    assert_eq!(batch.hyper_cubes[0].cube_count, 2);
    assert!(batch.draw_hyper_cube(glam::Vec3::ONE, &vec![4], &materials));
    assert_eq!(batch.hyper_cubes[1].first_cube, 2);
    assert_eq!(
        batch.draw_calls(),
        vec![
            CubeDraw { index_count: 36, instance_count: 2, first_instance: 0 },
            CubeDraw { index_count: 36, instance_count: 1, first_instance: 2 },
        ]
    );
    batch.clear();
    assert!(batch.cubes.is_empty() && batch.hyper_cubes.is_empty());
}

#[test]
fn hyper_cube_limit_per_frame() {
    let mut batch = CubeBatch::new();
    let materials = vec![1u8];
    for _ in 0..MAX_HYPER_CUBES_PER_FRAME {
        assert!(batch.draw_hyper_cube(glam::Vec3::ZERO, &vec![0], &materials));
    }
    assert_eq!(MAX_HYPER_CUBES_PER_FRAME, 24);
    assert!(!batch.draw_hyper_cube(glam::Vec3::ZERO, &vec![0], &materials));
    assert_eq!(batch.hyper_cubes.len(), 24);
}
