use kuberirust::coords::{ChunkCoord, GlobalCoord, LocalCoord, global_to_chunk_local};
use kuberirust::world::{Block, BlockType, Chunk, World};

#[test]
fn insert_then_lookup_roundtrip() {
    let mut world = World::new(16);
    let mut chunk = Chunk::new();
    chunk.insert_block(LocalCoord { x: 5, y: 0, z: 15 }, Block { blocktype: BlockType::DIRT });
    world.insert_chunk(ChunkCoord { x: 2, y: -1, z: 0 }, chunk);
    // global = chunk * 16 + local, component-wise
    let g = GlobalCoord { x: 2 * 16 + 5, y: -1 * 16 + 0, z: 0 * 16 + 15 };
    assert_eq!(world.lookup(g), Some(BlockType::DIRT));
}

#[test]
fn floored_modulo_negative_coordinates() {
    // With chunk size 16, the global position (-1, -1, -1) lies in chunk
    // (-1, -1, -1) at local (15, 15, 15) - never in chunk (0, 0, 0) with a
    // negative local coordinate.
    let (c, l) = global_to_chunk_local(GlobalCoord { x: -1, y: -1, z: -1 }, 16);
    assert_eq!(c, ChunkCoord { x: -1, y: -1, z: -1 });
    assert_eq!(l, LocalCoord { x: 15, y: 15, z: 15 });
}

#[test]
fn negative_lookup_resolves_to_negative_chunk() {
    let mut world = World::new(16);
    let mut chunk = Chunk::new();
    chunk.insert_block(LocalCoord { x: 15, y: 15, z: 15 }, Block { blocktype: BlockType::STONE });
    world.insert_chunk(ChunkCoord { x: -1, y: -1, z: -1 }, chunk);
    assert_eq!(world.lookup(GlobalCoord { x: -1, y: -1, z: -1 }), Some(BlockType::STONE));
    // The same local position in chunk (0, 0, 0) is a different voxel.
    assert_eq!(world.lookup(GlobalCoord { x: 15, y: 15, z: 15 }), None);
}

#[test]
fn missing_chunk_and_missing_block_both_answer_none() {
    let mut world = World::new(4);
    let mut chunk = Chunk::new();
    chunk.insert_block(LocalCoord { x: 0, y: 0, z: 0 }, Block { blocktype: BlockType::GRASS });
    world.insert_chunk(ChunkCoord { x: 0, y: 0, z: 0 }, chunk);
    // Unknown local position inside a stored chunk.
    assert_eq!(world.lookup(GlobalCoord { x: 1, y: 0, z: 0 }), None);
    // Unknown chunk altogether.
    assert_eq!(world.lookup(GlobalCoord { x: 100, y: 100, z: 100 }), None);
}

#[test]
fn insert_block_replaces_existing_entry() {
    let mut chunk = Chunk::new();
    let l = LocalCoord { x: 1, y: 2, z: 3 };
    chunk.insert_block(l, Block { blocktype: BlockType::GRASS });
    chunk.insert_block(l, Block { blocktype: BlockType::STONE });
    assert_eq!(chunk.get_block(l), Some(BlockType::STONE));
    assert_eq!(chunk.blocks.len(), 1);
}

#[test]
fn insert_chunk_replaces_existing_chunk() {
    let mut world = World::new(8);
    let c = ChunkCoord { x: 1, y: 1, z: 1 };
    let mut first = Chunk::new();
    first.insert_block(LocalCoord { x: 0, y: 0, z: 0 }, Block { blocktype: BlockType::GRASS });
    world.insert_chunk(c, first);
    let mut second = Chunk::new();
    second.insert_block(LocalCoord { x: 1, y: 0, z: 0 }, Block { blocktype: BlockType::DIRT });
    world.insert_chunk(c, second);
    assert_eq!(world.chunks.len(), 1);
    assert_eq!(world.lookup(GlobalCoord { x: 8, y: 8, z: 8 }), None);
    assert_eq!(world.lookup(GlobalCoord { x: 9, y: 8, z: 8 }), Some(BlockType::DIRT));
}

#[test]
fn positive_split_matches_plain_division() {
    let (c, l) = global_to_chunk_local(GlobalCoord { x: 33, y: 16, z: 0 }, 16);
    assert_eq!(c, ChunkCoord { x: 2, y: 1, z: 0 });
    assert_eq!(l, LocalCoord { x: 1, y: 0, z: 0 });
}
