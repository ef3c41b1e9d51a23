//! Procedural chunk population.
//!
//! Each of the `chunk_size^3` local positions of a chunk draws one
//! independent uniform sample in `[0, SAMPLE_RANGE)` from an explicit,
//! seedable random source. A sample below the grass threshold stores a grass
//! block, one below the stone threshold stores a stone block, and any other
//! sample leaves the position as air. The classification of samples into
//! blocks is a verified function of the samples alone; only the draw itself
//! is trusted.

use vstd::prelude::*;

verus! {

use crate::coords::LocalCoord;
use crate::world::{Block, BlockType, Chunk};

/// The number of distinct values a per-voxel sample can take: every draw is
/// uniform over `[0, SAMPLE_RANGE)`.
pub const SAMPLE_RANGE: u32 = 10;

/// `rand::rngs::StdRng`, declared so a seeded random source can be threaded
/// through the generator explicitly.
#[verifier::external_type_specification]
#[verifier::external_body]
pub struct ExStdRng(rand::rngs::StdRng);

/// Relies on rand's `Rng::gen_range` over the range `0..bound`: the result
/// is a uniform sample in `[0, bound)`. The range is non-empty, so the call
/// cannot panic. Nothing more is assumed: the sample is random, and every
/// caller must cope with every value below the bound.
#[verifier::external_body]
fn sample_below(rng: &mut rand::rngs::StdRng, bound: u32) -> (r: u32)
    requires
        1 <= bound,
    ensures
        r < bound,
{
    rand::Rng::gen_range(rng, 0..bound)
}

/// The block a sample produces: grass below the grass threshold, otherwise
/// stone below the stone threshold, otherwise air.
pub open spec fn spec_classify_sample(
    val: u32,
    grass_threshold: u32,
    stone_threshold: u32,
) -> Option<BlockType> {
    if val < grass_threshold {
        Some(BlockType::GRASS)
    } else if val < stone_threshold {
        Some(BlockType::STONE)
    } else {
        None
    }
}

/// Turns one sample into the block it produces, if any.
pub fn classify_sample(val: u32, grass_threshold: u32, stone_threshold: u32) -> (r: Option<
    BlockType,
>)
    ensures
        r == spec_classify_sample(val, grass_threshold, stone_threshold),
{
    if val < grass_threshold {
        Some(BlockType::GRASS)
    } else if val < stone_threshold {
        Some(BlockType::STONE)
    } else {
        None
    }
}

/// The position of the sample for local position `(k, l, m)` in a flat
/// sample sequence laid out in lexicographic order.
pub open spec fn sample_index(k: int, l: int, m: int, s: int) -> int {
    (k * s + l) * s + m
}

/// `(k2, l2, m2)` comes strictly before `(bk, bl, bm)` in lexicographic
/// order.
pub open spec fn lex_before(k2: int, l2: int, m2: int, bk: int, bl: int, bm: int) -> bool {
    ||| k2 < bk
    ||| (k2 == bk && l2 < bl)
    ||| (k2 == bk && l2 == bl && m2 < bm)
}

/// The cell at local position `(k, l, m)` holds exactly what its sample
/// classifies to: the classified block, or no entry for air.
pub open spec fn cell_matches(
    c: Chunk,
    samples: Seq<u32>,
    s: int,
    grass_threshold: u32,
    stone_threshold: u32,
    k: int,
    l: int,
    m: int,
) -> bool {
    let lc = LocalCoord { x: k as u32, y: l as u32, z: m as u32 };
    match spec_classify_sample(samples[sample_index(k, l, m, s)], grass_threshold,
        stone_threshold) {
        Some(bt) => c.block_map().dom().contains(lc) && c.block_map()[lc] == Block {
            blocktype: bt,
        },
        None => !c.block_map().dom().contains(lc),
    }
}

/// Every cell lexicographically before `(bk, bl, bm)` matches its sample.
pub open spec fn cells_match_before(
    c: Chunk,
    samples: Seq<u32>,
    s: int,
    grass_threshold: u32,
    stone_threshold: u32,
    bk: int,
    bl: int,
    bm: int,
) -> bool {
    forall|k2: int, l2: int, m2: int|
        0 <= k2 < s && 0 <= l2 < s && 0 <= m2 < s && lex_before(k2, l2, m2, bk, bl, bm)
            ==> #[trigger] cell_matches(c, samples, s, grass_threshold, stone_threshold, k2, l2, m2)
}

/// Every cell matches its sample: the chunk is exactly what the samples
/// describe.
pub open spec fn chunk_matches_samples(
    c: Chunk,
    samples: Seq<u32>,
    s: int,
    grass_threshold: u32,
    stone_threshold: u32,
) -> bool {
    forall|k2: int, l2: int, m2: int|
        0 <= k2 < s && 0 <= l2 < s && 0 <= m2 < s ==> #[trigger] cell_matches(
            c,
            samples,
            s,
            grass_threshold,
            stone_threshold,
            k2,
            l2,
            m2,
        )
}

/// Every stored key lies lexicographically before `(bk, bl, bm)`.
pub open spec fn dom_before(c: Chunk, bk: int, bl: int, bm: int) -> bool {
    forall|lc: LocalCoord| #[trigger]
        c.block_map().dom().contains(lc) ==> lex_before(
            lc.x as int,
            lc.y as int,
            lc.z as int,
            bk,
            bl,
            bm,
        )
}

/// Builds the chunk that a flat sequence of `chunk_size^3` samples (in
/// lexicographic cell order) describes: each sample below the grass
/// threshold stores a grass block, each other sample below the stone
/// threshold stores a stone block, and every remaining position stays air.
pub fn build_chunk_from_samples(
    samples: &Vec<u32>,
    chunk_size: u32,
    grass_threshold: u32,
    stone_threshold: u32,
) -> (c: Chunk)
    requires
        1 <= chunk_size,
        samples@.len() == chunk_size * chunk_size * chunk_size,
    ensures
        c.wf(chunk_size as int),
        chunk_matches_samples(c, samples@, chunk_size as int, grass_threshold, stone_threshold),
{
    let s: u32 = chunk_size;
    // Reading the length pins the sample count, and with it the whole index
    // range of the loops, into the usize range.
    let n_samples: usize = samples.len();
    let mut chunk: Chunk = Chunk::new();
    proof {
        assert(n_samples == s * s * s && s * s * s <= usize::MAX);
    }
    let mut k: u32 = 0;
    while k < s
        invariant
            0 <= k <= s,
            1 <= s,
            samples@.len() == s * s * s,
            s * s * s <= usize::MAX,
            chunk.wf(s as int),
            cells_match_before(chunk, samples@, s as int, grass_threshold, stone_threshold,
                k as int, 0, 0),
            dom_before(chunk, k as int, 0, 0),
        decreases s - k,
    {
        let mut l: u32 = 0;
        while l < s
            invariant
                0 <= l <= s,
                0 <= k < s,
                1 <= s,
                samples@.len() == s * s * s,
                s * s * s <= usize::MAX,
                chunk.wf(s as int),
                cells_match_before(chunk, samples@, s as int, grass_threshold, stone_threshold,
                    k as int, l as int, 0),
                dom_before(chunk, k as int, l as int, 0),
            decreases s - l,
        {
            let mut m: u32 = 0;
            while m < s
                invariant
                    0 <= m <= s,
                    0 <= l < s,
                    0 <= k < s,
                    1 <= s,
                    samples@.len() == s * s * s,
                    s * s * s <= usize::MAX,
                    chunk.wf(s as int),
                    cells_match_before(chunk, samples@, s as int, grass_threshold,
                        stone_threshold, k as int, l as int, m as int),
                    dom_before(chunk, k as int, l as int, m as int),
                decreases s - m,
            {
                proof {
                    assert(0 <= (k * s + l) * s + m < s * s * s) by (nonlinear_arith)
                        requires
                            0 <= k < s,
                            0 <= l < s,
                            0 <= m < s,
                    ;
                    assert(k * s + l < s * s) by (nonlinear_arith)
                        requires
                            0 <= k < s,
                            0 <= l < s,
                    ;
                    assert(s * s <= s * s * s) by (nonlinear_arith)
                        requires
                            1 <= s,
                    ;
                }
                let sidx: usize = ((k as usize) * (s as usize) + (l as usize)) * (s as usize)
                    + (m as usize);
                let val: u32 = samples[sidx];
                let lc = LocalCoord { x: k, y: l, z: m };
                let ghost before = chunk;
                match classify_sample(val, grass_threshold, stone_threshold) {
                    Some(bt) => {
                        chunk.insert_block(lc, Block { blocktype: bt });
                    },
                    None => {},
                }
                proof {
                    assert(chunk.wf(s as int));
                    assert forall|lc2: LocalCoord| #[trigger]
                        chunk.block_map().dom().contains(lc2) implies lex_before(
                        lc2.x as int,
                        lc2.y as int,
                        lc2.z as int,
                        k as int,
                        l as int,
                        m as int + 1,
                    ) by {
                        if lc2 != lc {
                            assert(before.block_map().dom().contains(lc2));
                        }
                    }
                    assert forall|k2: int, l2: int, m2: int|
                        0 <= k2 < s && 0 <= l2 < s && 0 <= m2 < s && lex_before(
                            k2,
                            l2,
                            m2,
                            k as int,
                            l as int,
                            m as int + 1,
                        ) implies #[trigger] cell_matches(chunk, samples@, s as int,
                        grass_threshold, stone_threshold, k2, l2, m2) by {
                        let lc2 = LocalCoord { x: k2 as u32, y: l2 as u32, z: m2 as u32 };
                        if k2 == k as int && l2 == l as int && m2 == m as int {
                            assert(lc2 == lc);
                        } else {
                            assert(cell_matches(before, samples@, s as int, grass_threshold,
                                stone_threshold, k2, l2, m2));
                            assert(lc2 != lc);
                            if before.block_map().dom().contains(lc2) {
                                assert(chunk.block_map().dom().contains(lc2));
                                assert(chunk.block_map()[lc2] == before.block_map()[lc2]);
                            } else {
                                assert(!chunk.block_map().dom().contains(lc2));
                            }
                        }
                    }
                }
                m += 1;
            }
            proof {
                assert forall|k2: int, l2: int, m2: int|
                    0 <= k2 < s && 0 <= l2 < s && 0 <= m2 < s && lex_before(
                        k2,
                        l2,
                        m2,
                        k as int,
                        l as int + 1,
                        0,
                    ) implies #[trigger] cell_matches(chunk, samples@, s as int, grass_threshold,
                    stone_threshold, k2, l2, m2) by {
                    assert(lex_before(k2, l2, m2, k as int, l as int, s as int));
                }
                assert forall|lc2: LocalCoord| #[trigger]
                    chunk.block_map().dom().contains(lc2) implies lex_before(
                    lc2.x as int,
                    lc2.y as int,
                    lc2.z as int,
                    k as int,
                    l as int + 1,
                    0,
                ) by {}
            }
            l += 1;
        }
        proof {
            assert forall|k2: int, l2: int, m2: int|
                0 <= k2 < s && 0 <= l2 < s && 0 <= m2 < s && lex_before(
                    k2,
                    l2,
                    m2,
                    k as int + 1,
                    0,
                    0,
                ) implies #[trigger] cell_matches(chunk, samples@, s as int, grass_threshold,
                stone_threshold, k2, l2, m2) by {
                assert(lex_before(k2, l2, m2, k as int, s as int, 0));
            }
            assert forall|lc2: LocalCoord| #[trigger]
                chunk.block_map().dom().contains(lc2) implies lex_before(
                lc2.x as int,
                lc2.y as int,
                lc2.z as int,
                k as int + 1,
                0,
                0,
            ) by {}
        }
        k += 1;
    }
    chunk
}

/// Builds a randomly populated chunk: draws one uniform sample in
/// `[0, SAMPLE_RANGE)` per local position from the given generator and
/// stores the block the thresholds assign, if any. The samples are random,
/// so the contract promises exactly this: the result is the chunk that some
/// sequence of in-range samples describes.
pub fn build_random_chunk(
    rng: &mut rand::rngs::StdRng,
    chunk_size: u32,
    grass_threshold: u32,
    stone_threshold: u32,
) -> (c: Chunk)
    requires
        1 <= chunk_size,
        chunk_size * chunk_size * chunk_size <= usize::MAX,
    ensures
        c.wf(chunk_size as int),
        exists|samples: Seq<u32>|
            {
                &&& samples.len() == chunk_size * chunk_size * chunk_size
                &&& (forall|i: int| 0 <= i < samples.len() ==> #[trigger] samples[i] < SAMPLE_RANGE)
                &&& chunk_matches_samples(
                    c,
                    samples,
                    chunk_size as int,
                    grass_threshold,
                    stone_threshold,
                )
            },
{
    let s: u32 = chunk_size;
    proof {
        assert(s * s <= s * s * s && s <= s * s * s && (s * s) * s == s * s * s)
            by (nonlinear_arith)
            requires
                1 <= s,
        ;
    }
    let total: usize = ((s as usize) * (s as usize)) * (s as usize);
    let mut samples: Vec<u32> = Vec::new();
    let mut i: usize = 0;
    while i < total
        invariant
            0 <= i <= total,
            total == s * s * s,
            samples@.len() == i,
            forall|j: int| 0 <= j < i ==> #[trigger] samples@[j] < SAMPLE_RANGE,
        decreases total - i,
    {
        let v: u32 = sample_below(rng, SAMPLE_RANGE);
        samples.push(v);
        i += 1;
    }
    let c = build_chunk_from_samples(&samples, s, grass_threshold, stone_threshold);
    proof {
        assert(samples@.len() == chunk_size * chunk_size * chunk_size);
    }
    c
}

} // verus!
