use kuberirust::coords::LocalCoord;
use kuberirust::generate::{build_chunk_from_samples, build_random_chunk, classify_sample};
use kuberirust::world::BlockType;
use rand::SeedableRng;

#[test]
fn classify_uses_both_thresholds() {
    // Thresholds as in the default generator: grass below 3, stone below 4.
    assert_eq!(classify_sample(0, 3, 4), Some(BlockType::GRASS));
    assert_eq!(classify_sample(2, 3, 4), Some(BlockType::GRASS));
    assert_eq!(classify_sample(3, 3, 4), Some(BlockType::STONE));
    assert_eq!(classify_sample(4, 3, 4), None);
    assert_eq!(classify_sample(9, 3, 4), None);
}

#[test]
fn chunk_from_samples_places_each_classified_block() {
    // chunk size 2: samples in lexicographic (x, y, z) order.
    let samples: Vec<u32> = vec![0, 9, 3, 9, 9, 9, 2, 9];
    let chunk = build_chunk_from_samples(&samples, 2, 3, 4);
    assert_eq!(chunk.get_block(LocalCoord { x: 0, y: 0, z: 0 }), Some(BlockType::GRASS));
    assert_eq!(chunk.get_block(LocalCoord { x: 0, y: 0, z: 1 }), None);
    assert_eq!(chunk.get_block(LocalCoord { x: 0, y: 1, z: 0 }), Some(BlockType::STONE));
    assert_eq!(chunk.get_block(LocalCoord { x: 0, y: 1, z: 1 }), None);
    assert_eq!(chunk.get_block(LocalCoord { x: 1, y: 0, z: 0 }), None);
    assert_eq!(chunk.get_block(LocalCoord { x: 1, y: 0, z: 1 }), None);
    assert_eq!(chunk.get_block(LocalCoord { x: 1, y: 1, z: 0 }), Some(BlockType::GRASS));
    assert_eq!(chunk.get_block(LocalCoord { x: 1, y: 1, z: 1 }), None);
    assert_eq!(chunk.blocks.len(), 3);
}

#[test]
fn random_chunk_holds_only_grass_and_stone() {
    let mut rng = rand::rngs::StdRng::seed_from_u64(7);
    let chunk = build_random_chunk(&mut rng, 4, 3, 4);
    for &(l, b) in chunk.blocks.iter() {
        assert!(l.x < 4 && l.y < 4 && l.z < 4);
        assert!(b.blocktype == BlockType::GRASS || b.blocktype == BlockType::STONE);
    }
}

#[test]
fn random_chunk_is_reproducible_under_a_fixed_seed() {
    let mut rng1 = rand::rngs::StdRng::seed_from_u64(42);
    let mut rng2 = rand::rngs::StdRng::seed_from_u64(42);
    let c1 = build_random_chunk(&mut rng1, 3, 3, 4);
    let c2 = build_random_chunk(&mut rng2, 3, 3, 4);
    for x in 0..3u32 {
        for y in 0..3u32 {
            for z in 0..3u32 {
                let l = LocalCoord { x, y, z };
                assert_eq!(c1.get_block(l), c2.get_block(l));
            }
        }
    }
}

#[test]
fn saturating_thresholds_fill_the_chunk_with_grass() {
    // Every sample lies below 10, so with both thresholds at 10 every cell
    // classifies to grass: the sample driving the table really is in range.
    let mut rng = rand::rngs::StdRng::seed_from_u64(1);
    let chunk = build_random_chunk(&mut rng, 2, 10, 10);
    assert_eq!(chunk.blocks.len(), 8);
    for x in 0..2u32 {
        for y in 0..2u32 {
            for z in 0..2u32 {
                let l = LocalCoord { x, y, z };
                assert_eq!(chunk.get_block(l), Some(BlockType::GRASS));
            }
        }
    }
}

#[test]
fn zero_grass_threshold_yields_no_grass() {
    let mut rng = rand::rngs::StdRng::seed_from_u64(5);
    let chunk = build_random_chunk(&mut rng, 3, 0, 10);
    assert_eq!(chunk.blocks.len(), 27);
    for &(_, b) in chunk.blocks.iter() {
        assert_eq!(b.blocktype, BlockType::STONE);
    }
}
