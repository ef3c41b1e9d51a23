use kuberirust::coords::{ChunkCoord, GlobalCoord, LocalCoord};
use kuberirust::mesh::{
    atlas_u, atlas_v, build_instances, build_mesh_batches, create_vertices, cube_indices,
    QuadType, UVQuadKey, ATLAS_CELLS, UV,
};
use kuberirust::world::{Block, BlockType, Chunk, World};

fn key(quadtype: QuadType, uv: UV) -> UVQuadKey {
    UVQuadKey { quadtype, uv }
}

#[test]
fn atlas_table_exact_values() {
    // Numerators over ATLAS_CELLS = 16; the normalized atlas coordinates
    // are these divided by 16 (e.g. grass-top u spans 0.125 .. 0.1875).
    assert_eq!(ATLAS_CELLS, 16);
    assert_eq!(atlas_u(key(QuadType::GRASS_TOP, UV::MIN)), 2);
    assert_eq!(atlas_u(key(QuadType::GRASS_TOP, UV::MAX)), 3);
    assert_eq!(atlas_u(key(QuadType::GRASS_SIDE, UV::MIN)), 3);
    assert_eq!(atlas_u(key(QuadType::GRASS_SIDE, UV::MAX)), 4);
    assert_eq!(atlas_u(key(QuadType::DIRT, UV::MIN)), 2);
    assert_eq!(atlas_u(key(QuadType::DIRT, UV::MAX)), 3);
    assert_eq!(atlas_u(key(QuadType::STONE, UV::MIN)), 0);
    assert_eq!(atlas_u(key(QuadType::STONE, UV::MAX)), 1);
    assert_eq!(atlas_v(key(QuadType::GRASS_TOP, UV::MIN)), 6);
    assert_eq!(atlas_v(key(QuadType::GRASS_TOP, UV::MAX)), 7);
    assert_eq!(atlas_v(key(QuadType::GRASS_SIDE, UV::MIN)), 15);
    assert_eq!(atlas_v(key(QuadType::GRASS_SIDE, UV::MAX)), 16);
    assert_eq!(atlas_v(key(QuadType::DIRT, UV::MIN)), 15);
    assert_eq!(atlas_v(key(QuadType::DIRT, UV::MAX)), 16);
    assert_eq!(atlas_v(key(QuadType::STONE, UV::MIN)), 14);
    assert_eq!(atlas_v(key(QuadType::STONE, UV::MAX)), 15);
}

#[test]
fn atlas_lookup_is_pure() {
    // Two lookups with the same key always agree.
    let k = key(QuadType::GRASS_SIDE, UV::MIN);
    assert_eq!(atlas_u(k), atlas_u(k));
    assert_eq!(atlas_v(k), atlas_v(k));
}

#[test]
fn grass_cube_vertices_exact() {
    let v = create_vertices(BlockType::GRASS);
    assert_eq!(v.len(), 24);
    // Top face, first corner: position (0, 0, 1), grass-top MIN/MIN:
    // u = 2, v = 16 - 6 = 10 (vertical complemented).
    assert_eq!((v[0].pos_x, v[0].pos_y, v[0].pos_z), (0, 0, 1));
    assert_eq!((v[0].u_num, v[0].v_num), (2, 10));
    // Bottom face uses the dirt category: first corner (0, 1, 0) MAX/MIN:
    // u = 3, v = 16 - 15 = 1.
    assert_eq!((v[4].pos_x, v[4].pos_y, v[4].pos_z), (0, 1, 0));
    assert_eq!((v[4].u_num, v[4].v_num), (3, 1));
    // Right face uses the grass-side category: first corner (1, 0, 0)
    // MIN/MIN: u = 3, v = 16 - 15 = 1.
    assert_eq!((v[8].pos_x, v[8].pos_y, v[8].pos_z), (1, 0, 0));
    assert_eq!((v[8].u_num, v[8].v_num), (3, 1));
    // Every corner position is 0 or 1, and every texture coordinate stays
    // inside the normalized square.
    for vx in v.iter() {
        assert!(vx.pos_x <= 1 && vx.pos_y <= 1 && vx.pos_z <= 1);
        assert!(vx.u_num <= ATLAS_CELLS && vx.v_num <= ATLAS_CELLS);
    }
}

#[test]
fn stone_cube_uses_one_category_everywhere() {
    let v = create_vertices(BlockType::STONE);
    assert_eq!(v.len(), 24);
    for vx in v.iter() {
        // Stone u spans cells 0..1, stored v spans 16-15 .. 16-14 = 1..2.
        assert!(vx.u_num == 0 || vx.u_num == 1);
        assert!(vx.v_num == 1 || vx.v_num == 2);
    }
}

#[test]
fn shared_category_yields_identical_uv() {
    // Grass's bottom face and dirt's bottom face share the dirt category,
    // so their texture coordinates agree corner for corner.
    let grass = create_vertices(BlockType::GRASS);
    let dirt = create_vertices(BlockType::DIRT);
    for c in 4..8usize {
        assert_eq!(grass[c].u_num, dirt[c].u_num);
        assert_eq!(grass[c].v_num, dirt[c].v_num);
    }
}

#[test]
fn cube_indices_exact() {
    let ix = cube_indices();
    let expected: Vec<u16> = vec![
        0, 1, 2, 2, 3, 0, 4, 5, 6, 6, 7, 4, 8, 9, 10, 10, 11, 8, 12, 13, 14, 14, 15, 12, 16, 17,
        18, 18, 19, 16, 20, 21, 22, 22, 23, 20,
    ];
    assert_eq!(ix, expected);
}

fn sample_world() -> World {
    let mut world = World::new(3);
    let mut a = Chunk::new();
    a.insert_block(LocalCoord { x: 0, y: 0, z: 0 }, Block { blocktype: BlockType::GRASS });
    a.insert_block(LocalCoord { x: 1, y: 2, z: 0 }, Block { blocktype: BlockType::GRASS });
    a.insert_block(LocalCoord { x: 2, y: 2, z: 2 }, Block { blocktype: BlockType::STONE });
    world.insert_chunk(ChunkCoord { x: 0, y: 0, z: 0 }, a);
    let mut b = Chunk::new();
    b.insert_block(LocalCoord { x: 2, y: 1, z: 1 }, Block { blocktype: BlockType::GRASS });
    world.insert_chunk(ChunkCoord { x: -1, y: 0, z: 0 }, b);
    world
}

#[test]
fn instances_one_per_matching_block() {
    let world = sample_world();
    let grass = build_instances(&world, BlockType::GRASS);
    // 2 grass blocks in the first chunk, 1 in the second: count 3, in
    // chunk order then block order, at chunk * 3 + local.
    assert_eq!(
        grass,
        vec![
            GlobalCoord { x: 0, y: 0, z: 0 },
            GlobalCoord { x: 1, y: 2, z: 0 },
            GlobalCoord { x: -3 + 2, y: 1, z: 1 },
        ]
    );
    assert_eq!(build_instances(&world, BlockType::STONE).len(), 1);
    assert_eq!(build_instances(&world, BlockType::DIRT).len(), 0);
}

#[test]
fn batches_skip_types_with_no_instances() {
    let world = sample_world();
    let batches = build_mesh_batches(&world);
    // Grass and stone are present, dirt is not: no empty batch for dirt.
    assert_eq!(batches.len(), 2);
    assert_eq!(batches[0].blocktype, BlockType::GRASS);
    assert_eq!(batches[0].instances.len(), 3);
    assert_eq!(batches[0].vertices.len(), 24);
    assert_eq!(batches[0].indices.len(), 36);
    assert_eq!(batches[1].blocktype, BlockType::STONE);
    assert_eq!(batches[1].instances.len(), 1);
    assert_eq!(batches[1].instances[0], GlobalCoord { x: 2, y: 2, z: 2 });
}

#[test]
fn empty_world_yields_no_batches() {
    let world = World::new(16);
    assert_eq!(build_mesh_batches(&world).len(), 0);
}
