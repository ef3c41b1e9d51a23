//! Cube geometry with texture-atlas lookups, and instance batching.
//!
//! Every block type shares one 24-vertex, 36-index unit cube. Each vertex
//! carries a corner position (0 or 1 per axis) and a texture coordinate
//! resolved through a fixed, total atlas table keyed by face category and
//! corner role. Texture coordinates are exact rationals: numerators over
//! `ATLAS_CELLS`, so no floating point enters the geometry; the renderer
//! divides once on upload. The vertical coordinate is stored already
//! complemented (`v = 1 - v_atlas`) because the atlas image's origin is its
//! top-left corner while the mesh's vertical axis grows the other way.

use vstd::prelude::*;

verus! {

use crate::assoc::lemma_assoc_map_entry;
use crate::coords::{ChunkCoord, GlobalCoord, LocalCoord, chunk_local_to_global};
use crate::world::{Block, BlockType, Chunk, World, chunk_coord_fits};

/// Number of texture cells along each axis of the atlas: every normalized
/// texture coordinate is a multiple of `1 / ATLAS_CELLS`.
pub const ATLAS_CELLS: u16 = 16;

/// The texture category of one cube face: which atlas cell it samples.
#[derive(Clone, Copy, PartialEq, Eq, Structural, Debug, Hash)]
pub enum QuadType {
    GRASS_TOP,
    GRASS_SIDE,
    DIRT,
    STONE,
}

/// Which edge of an atlas cell a texture coordinate lies on.
#[derive(Clone, Copy, PartialEq, Eq, Structural, Debug, Hash)]
pub enum UV {
    MIN,
    MAX,
}

/// Key of the atlas table: one face category and one corner role.
#[derive(Clone, Copy, PartialEq, Eq, Structural, Debug, Hash)]
pub struct UVQuadKey {
    pub quadtype: QuadType,
    pub uv: UV,
}

/// Horizontal atlas coordinate of a key, in units of `1 / ATLAS_CELLS`.
pub open spec fn spec_atlas_u(key: UVQuadKey) -> u16 {
    match (key.quadtype, key.uv) {
        (QuadType::GRASS_TOP, UV::MIN) => 2,
        (QuadType::GRASS_TOP, UV::MAX) => 3,
        (QuadType::GRASS_SIDE, UV::MIN) => 3,
        (QuadType::GRASS_SIDE, UV::MAX) => 4,
        (QuadType::DIRT, UV::MIN) => 2,
        (QuadType::DIRT, UV::MAX) => 3,
        (QuadType::STONE, UV::MIN) => 0,
        (QuadType::STONE, UV::MAX) => 1,
    }
}

/// Vertical atlas coordinate of a key, in units of `1 / ATLAS_CELLS`,
/// before complementing.
pub open spec fn spec_atlas_v(key: UVQuadKey) -> u16 {
    match (key.quadtype, key.uv) {
        (QuadType::GRASS_TOP, UV::MIN) => 6,
        (QuadType::GRASS_TOP, UV::MAX) => 7,
        (QuadType::GRASS_SIDE, UV::MIN) => 15,
        (QuadType::GRASS_SIDE, UV::MAX) => 16,
        (QuadType::DIRT, UV::MIN) => 15,
        (QuadType::DIRT, UV::MAX) => 16,
        (QuadType::STONE, UV::MIN) => 14,
        (QuadType::STONE, UV::MAX) => 15,
    }
}

/// Horizontal atlas lookup: total over the whole finite key domain, so it
/// can never miss at run time.
pub fn atlas_u(key: UVQuadKey) -> (r: u16)
    ensures
        r == spec_atlas_u(key),
        r <= ATLAS_CELLS,
{
    match (key.quadtype, key.uv) {
        (QuadType::GRASS_TOP, UV::MIN) => 2,
        (QuadType::GRASS_TOP, UV::MAX) => 3,
        (QuadType::GRASS_SIDE, UV::MIN) => 3,
        (QuadType::GRASS_SIDE, UV::MAX) => 4,
        (QuadType::DIRT, UV::MIN) => 2,
        (QuadType::DIRT, UV::MAX) => 3,
        (QuadType::STONE, UV::MIN) => 0,
        (QuadType::STONE, UV::MAX) => 1,
    }
}

/// Vertical atlas lookup (uncomplemented): total over the whole finite key
/// domain, so it can never miss at run time.
pub fn atlas_v(key: UVQuadKey) -> (r: u16)
    ensures
        r == spec_atlas_v(key),
        r <= ATLAS_CELLS,
{
    match (key.quadtype, key.uv) {
        (QuadType::GRASS_TOP, UV::MIN) => 6,
        (QuadType::GRASS_TOP, UV::MAX) => 7,
        (QuadType::GRASS_SIDE, UV::MIN) => 15,
        (QuadType::GRASS_SIDE, UV::MAX) => 16,
        (QuadType::DIRT, UV::MIN) => 15,
        (QuadType::DIRT, UV::MAX) => 16,
        (QuadType::STONE, UV::MIN) => 14,
        (QuadType::STONE, UV::MAX) => 15,
    }
}

/// One mesh vertex: a corner of the unit cube and its texture coordinate.
/// Both are exact: positions are 0 or 1, texture coordinates numerators
/// over `ATLAS_CELLS`, the vertical one already complemented.
#[derive(Clone, Copy, PartialEq, Eq, Structural, Debug)]
pub struct CubeVertex {
    pub pos_x: u8,
    pub pos_y: u8,
    pub pos_z: u8,
    pub u_num: u16,
    pub v_num: u16,
}

/// The face category each face of a block samples. Faces are numbered
/// top, bottom, right, left, front, back. Grass uses its top category on
/// the top face, dirt below, and its side category around; dirt and stone
/// use their single category everywhere. An unlisted block type would fall
/// to its own arm here, never to a missing table entry.
pub open spec fn spec_face_quad(bt: crate::world::BlockType, f: int) -> QuadType {
    match bt {
        crate::world::BlockType::GRASS => if f == 0 {
            QuadType::GRASS_TOP
        } else if f == 1 {
            QuadType::DIRT
        } else {
            QuadType::GRASS_SIDE
        },
        crate::world::BlockType::DIRT => QuadType::DIRT,
        crate::world::BlockType::STONE => QuadType::STONE,
    }
}

/// Corner position and texture-corner roles of corner `c` of face `f`, in
/// the fixed winding order the index list assumes.
pub open spec fn spec_face_corner(f: int, c: int) -> ((u8, u8, u8), UV, UV) {
    if f == 0 {
        // top (z = 1)
        if c == 0 {
            ((0, 0, 1), UV::MIN, UV::MIN)
        } else if c == 1 {
            ((1, 0, 1), UV::MAX, UV::MIN)
        } else if c == 2 {
            ((1, 1, 1), UV::MAX, UV::MAX)
        } else {
            ((0, 1, 1), UV::MIN, UV::MAX)
        }
    } else if f == 1 {
        // bottom (z = 0)
        if c == 0 {
            ((0, 1, 0), UV::MAX, UV::MIN)
        } else if c == 1 {
            ((1, 1, 0), UV::MIN, UV::MIN)
        } else if c == 2 {
            ((1, 0, 0), UV::MIN, UV::MAX)
        } else {
            ((0, 0, 0), UV::MAX, UV::MAX)
        }
    } else if f == 2 {
        // right (x = 1)
        if c == 0 {
            ((1, 0, 0), UV::MIN, UV::MIN)
        } else if c == 1 {
            ((1, 1, 0), UV::MAX, UV::MIN)
        } else if c == 2 {
            ((1, 1, 1), UV::MAX, UV::MAX)
        } else {
            ((1, 0, 1), UV::MIN, UV::MAX)
        }
    } else if f == 3 {
        // left (x = 0)
        if c == 0 {
            ((0, 0, 1), UV::MIN, UV::MAX)
        } else if c == 1 {
            ((0, 1, 1), UV::MAX, UV::MAX)
        } else if c == 2 {
            ((0, 1, 0), UV::MAX, UV::MIN)
        } else {
            ((0, 0, 0), UV::MIN, UV::MIN)
        }
    } else if f == 4 {
        // front (y = 1)
        if c == 0 {
            ((1, 1, 0), UV::MAX, UV::MIN)
        } else if c == 1 {
            ((0, 1, 0), UV::MIN, UV::MIN)
        } else if c == 2 {
            ((0, 1, 1), UV::MIN, UV::MAX)
        } else {
            ((1, 1, 1), UV::MAX, UV::MAX)
        }
    } else {
        // back (y = 0)
        if c == 0 {
            ((1, 0, 1), UV::MAX, UV::MAX)
        } else if c == 1 {
            ((0, 0, 1), UV::MIN, UV::MAX)
        } else if c == 2 {
            ((0, 0, 0), UV::MIN, UV::MIN)
        } else {
            ((1, 0, 0), UV::MAX, UV::MIN)
        }
    }
}

/// The vertex at corner `c` of face `f` of a block of type `bt`: the
/// corner's position, and the atlas coordinates of the face's category at
/// the corner's roles, the vertical one complemented.
pub open spec fn spec_cube_vertex(bt: crate::world::BlockType, f: int, c: int) -> CubeVertex {
    let ((x, y, z), ur, vr) = spec_face_corner(f, c);
    let q = spec_face_quad(bt, f);
    CubeVertex {
        pos_x: x,
        pos_y: y,
        pos_z: z,
        u_num: spec_atlas_u(UVQuadKey { quadtype: q, uv: ur }),
        v_num: (ATLAS_CELLS - spec_atlas_v(UVQuadKey { quadtype: q, uv: vr })) as u16,
    }
}

/// `v` is exactly the 24-vertex cube for block type `bt`: four corners per
/// face, six faces, in face-major order.
pub open spec fn is_cube_vertices(v: Seq<CubeVertex>, bt: crate::world::BlockType) -> bool {
    &&& v.len() == 24
    &&& forall|i: int| 0 <= i < 24 ==> #[trigger] v[i] == spec_cube_vertex(bt, i / 4, i % 4)
}

/// Law: the atlas lookup is a pure function of face category and corner
/// role, so two block types whose faces share a category get identical
/// texture coordinates on those faces, corner for corner.
pub proof fn lemma_shared_category_same_uv(
    b1: crate::world::BlockType,
    b2: crate::world::BlockType,
    f: int,
    c: int,
)
    requires
        0 <= f < 6,
        0 <= c < 4,
        spec_face_quad(b1, f) == spec_face_quad(b2, f),
    ensures
        spec_cube_vertex(b1, f, c).u_num == spec_cube_vertex(b2, f, c).u_num,
        spec_cube_vertex(b1, f, c).v_num == spec_cube_vertex(b2, f, c).v_num,
{
}

/// One vertex: a cube corner together with the atlas coordinates of the
/// face's category at the given corner roles, vertical complemented.
fn build_vertex(px: u8, py: u8, pz: u8, quadtype: QuadType, u: UV, v: UV) -> (vx: CubeVertex)
    ensures
        vx == (CubeVertex {
            pos_x: px,
            pos_y: py,
            pos_z: pz,
            u_num: spec_atlas_u(UVQuadKey { quadtype, uv: u }),
            v_num: (ATLAS_CELLS - spec_atlas_v(UVQuadKey { quadtype, uv: v })) as u16,
        }),
{
    let u_num = atlas_u(UVQuadKey { quadtype, uv: u });
    let v_raw = atlas_v(UVQuadKey { quadtype, uv: v });
    CubeVertex { pos_x: px, pos_y: py, pos_z: pz, u_num, v_num: ATLAS_CELLS - v_raw }
}

/// Builds the 24 vertices of the unit cube for one block type: each face's
/// four corners in winding order, textured through the atlas table for that
/// face's category. An unrecognized face category cannot occur: the table
/// is total.
pub fn create_vertices(blocktype: crate::world::BlockType) -> (r: Vec<CubeVertex>)
    ensures
        is_cube_vertices(r@, blocktype),
{
    let top_quad: QuadType = match blocktype {
        crate::world::BlockType::GRASS => QuadType::GRASS_TOP,
        crate::world::BlockType::DIRT => QuadType::DIRT,
        crate::world::BlockType::STONE => QuadType::STONE,
    };
    let bottom_quad: QuadType = match blocktype {
        crate::world::BlockType::GRASS => QuadType::DIRT,
        crate::world::BlockType::DIRT => QuadType::DIRT,
        crate::world::BlockType::STONE => QuadType::STONE,
    };
    let side_quad: QuadType = match blocktype {
        crate::world::BlockType::GRASS => QuadType::GRASS_SIDE,
        crate::world::BlockType::DIRT => QuadType::DIRT,
        crate::world::BlockType::STONE => QuadType::STONE,
    };

    let mut vertex_data: Vec<CubeVertex> = Vec::new();

    // top (z = 1)
    vertex_data.push(build_vertex(0, 0, 1, top_quad, UV::MIN, UV::MIN));
    vertex_data.push(build_vertex(1, 0, 1, top_quad, UV::MAX, UV::MIN));
    vertex_data.push(build_vertex(1, 1, 1, top_quad, UV::MAX, UV::MAX));
    vertex_data.push(build_vertex(0, 1, 1, top_quad, UV::MIN, UV::MAX));

    // bottom (z = 0)
    vertex_data.push(build_vertex(0, 1, 0, bottom_quad, UV::MAX, UV::MIN));
    vertex_data.push(build_vertex(1, 1, 0, bottom_quad, UV::MIN, UV::MIN));
    vertex_data.push(build_vertex(1, 0, 0, bottom_quad, UV::MIN, UV::MAX));
    vertex_data.push(build_vertex(0, 0, 0, bottom_quad, UV::MAX, UV::MAX));

    // right (x = 1)
    vertex_data.push(build_vertex(1, 0, 0, side_quad, UV::MIN, UV::MIN));
    vertex_data.push(build_vertex(1, 1, 0, side_quad, UV::MAX, UV::MIN));
    vertex_data.push(build_vertex(1, 1, 1, side_quad, UV::MAX, UV::MAX));
    vertex_data.push(build_vertex(1, 0, 1, side_quad, UV::MIN, UV::MAX));

    // left (x = 0)
    vertex_data.push(build_vertex(0, 0, 1, side_quad, UV::MIN, UV::MAX));
    vertex_data.push(build_vertex(0, 1, 1, side_quad, UV::MAX, UV::MAX));
    vertex_data.push(build_vertex(0, 1, 0, side_quad, UV::MAX, UV::MIN));
    vertex_data.push(build_vertex(0, 0, 0, side_quad, UV::MIN, UV::MIN));

    // front (y = 1)
    vertex_data.push(build_vertex(1, 1, 0, side_quad, UV::MAX, UV::MIN));
    vertex_data.push(build_vertex(0, 1, 0, side_quad, UV::MIN, UV::MIN));
    vertex_data.push(build_vertex(0, 1, 1, side_quad, UV::MIN, UV::MAX));
    vertex_data.push(build_vertex(1, 1, 1, side_quad, UV::MAX, UV::MAX));

    // back (y = 0)
    vertex_data.push(build_vertex(1, 0, 1, side_quad, UV::MAX, UV::MAX));
    vertex_data.push(build_vertex(0, 0, 1, side_quad, UV::MIN, UV::MAX));
    vertex_data.push(build_vertex(0, 0, 0, side_quad, UV::MIN, UV::MIN));
    vertex_data.push(build_vertex(1, 0, 0, side_quad, UV::MAX, UV::MIN));

    proof {
        assert forall|i: int| 0 <= i < 24 implies #[trigger] vertex_data@[i] == spec_cube_vertex(
            blocktype,
            i / 4,
            i % 4,
        ) by {
            assert(vertex_data@.len() == 24);
        }
    }
    vertex_data
}

/// The index `i` of the shared index list: two triangles per face, each
/// face's six entries referencing that face's four vertices in the pattern
/// 0, 1, 2, 2, 3, 0.
pub open spec fn spec_cube_index(i: int) -> u16 {
    let f = i / 6;
    let t = i % 6;
    (4 * f + if t == 0 {
        0int
    } else if t == 1 {
        1int
    } else if t == 2 {
        2int
    } else if t == 3 {
        2int
    } else if t == 4 {
        3int
    } else {
        0int
    }) as u16
}

/// `ix` is exactly the 36-entry shared cube index list.
pub open spec fn is_cube_indices(ix: Seq<u16>) -> bool {
    &&& ix.len() == 36
    &&& forall|i: int| 0 <= i < 36 ==> #[trigger] ix[i] == spec_cube_index(i)
}

/// The shared 36-entry index list, reused by every block type and every
/// instance: six faces, two triangles each.
pub fn cube_indices() -> (r: Vec<u16>)
    ensures
        is_cube_indices(r@),
{
    let mut ix: Vec<u16> = Vec::new();
    // top
    ix.push(0);
    ix.push(1);
    ix.push(2);
    ix.push(2);
    ix.push(3);
    ix.push(0);
    // bottom
    ix.push(4);
    ix.push(5);
    ix.push(6);
    ix.push(6);
    ix.push(7);
    ix.push(4);
    // right
    ix.push(8);
    ix.push(9);
    ix.push(10);
    ix.push(10);
    ix.push(11);
    ix.push(8);
    // left
    ix.push(12);
    ix.push(13);
    ix.push(14);
    ix.push(14);
    ix.push(15);
    ix.push(12);
    // front
    ix.push(16);
    ix.push(17);
    ix.push(18);
    ix.push(18);
    ix.push(19);
    ix.push(16);
    // back
    ix.push(20);
    ix.push(21);
    ix.push(22);
    ix.push(22);
    ix.push(23);
    ix.push(20);
    proof {
        assert forall|i: int| 0 <= i < 36 implies #[trigger] ix@[i] == spec_cube_index(i) by {
            assert(ix@.len() == 36);
        }
    }
    ix
}

} // verus!

verus! {

/// The global position of the block at local position `l` of the chunk at
/// `c`: `c * s + l` component-wise, reduced into 32 bits (exact whenever
/// the chunk's blocks fit the global coordinate range).
pub open spec fn spec_global_of(c: ChunkCoord, l: LocalCoord, s: int) -> GlobalCoord {
    GlobalCoord {
        x: (c.x * s + l.x) as i32,
        y: (c.y * s + l.y) as i32,
        z: (c.z * s + l.z) as i32,
    }
}

/// How many stored blocks of type `t` a chunk's entry sequence holds.
pub open spec fn chunk_count(blocks: Seq<(LocalCoord, Block)>, t: BlockType) -> nat
    decreases blocks.len(),
{
    if blocks.len() == 0 {
        0
    } else {
        chunk_count(blocks.drop_last(), t) + if blocks.last().1.blocktype == t {
            1nat
        } else {
            0nat
        }
    }
}

/// How many blocks of type `t` a world's chunks hold in total.
pub open spec fn world_count(entries: Seq<(ChunkCoord, Chunk)>, t: BlockType) -> nat
    decreases entries.len(),
{
    if entries.len() == 0 {
        0
    } else {
        world_count(entries.drop_last(), t) + chunk_count(entries.last().1.blocks@, t)
    }
}

/// The instance translations of the type-`t` blocks of one chunk, in
/// storage order.
pub open spec fn chunk_instances(
    c: ChunkCoord,
    blocks: Seq<(LocalCoord, Block)>,
    t: BlockType,
    s: int,
) -> Seq<GlobalCoord>
    decreases blocks.len(),
{
    if blocks.len() == 0 {
        Seq::empty()
    } else {
        chunk_instances(c, blocks.drop_last(), t, s) + if blocks.last().1.blocktype == t {
            seq![spec_global_of(c, blocks.last().0, s)]
        } else {
            Seq::empty()
        }
    }
}

/// The instance translations of all type-`t` blocks of a world, chunks in
/// storage order.
pub open spec fn world_instances(
    entries: Seq<(ChunkCoord, Chunk)>,
    t: BlockType,
    s: int,
) -> Seq<GlobalCoord>
    decreases entries.len(),
{
    if entries.len() == 0 {
        Seq::empty()
    } else {
        world_instances(entries.drop_last(), t, s) + chunk_instances(
            entries.last().0,
            entries.last().1.blocks@,
            t,
            s,
        )
    }
}

/// One chunk emits exactly one instance per stored block of the type.
pub proof fn lemma_chunk_instance_count(
    c: ChunkCoord,
    blocks: Seq<(LocalCoord, Block)>,
    t: BlockType,
    s: int,
)
    ensures
        chunk_instances(c, blocks, t, s).len() == chunk_count(blocks, t),
    decreases blocks.len(),
{
    if blocks.len() > 0 {
        lemma_chunk_instance_count(c, blocks.drop_last(), t, s);
    }
}

/// Law: a world emits exactly one instance per stored block of the type:
/// the instance list is as long as the total block count over all chunks.
pub proof fn lemma_world_instance_count(entries: Seq<(ChunkCoord, Chunk)>, t: BlockType, s: int)
    ensures
        world_instances(entries, t, s).len() == world_count(entries, t),
    decreases entries.len(),
{
    if entries.len() > 0 {
        lemma_world_instance_count(entries.drop_last(), t, s);
        lemma_chunk_instance_count(entries.last().0, entries.last().1.blocks@, t, s);
    }
}

/// Every instance a chunk emits stands for one of its stored blocks, of
/// the requested type, at that block's composed global position.
pub proof fn lemma_chunk_instances_membership(
    c: ChunkCoord,
    blocks: Seq<(LocalCoord, Block)>,
    t: BlockType,
    s: int,
    i: int,
)
    requires
        0 <= i < chunk_instances(c, blocks, t, s).len(),
    ensures
        exists|k: int|
            0 <= k < blocks.len() && (#[trigger] blocks[k]).1.blocktype == t
                && chunk_instances(c, blocks, t, s)[i] == spec_global_of(c, blocks[k].0, s),
    decreases blocks.len(),
{
    let insts = chunk_instances(c, blocks, t, s);
    let prev = chunk_instances(c, blocks.drop_last(), t, s);
    if i < prev.len() {
        lemma_chunk_instances_membership(c, blocks.drop_last(), t, s, i);
        let k = choose|k: int|
            0 <= k < blocks.drop_last().len() && (#[trigger] blocks.drop_last()[k]).1.blocktype
                == t && prev[i] == spec_global_of(c, blocks.drop_last()[k].0, s);
        assert(blocks[k] == blocks.drop_last()[k]);
        assert(insts[i] == prev[i]);
    } else {
        let k = blocks.len() - 1;
        assert(blocks.last().1.blocktype == t);
        assert(insts[i] == spec_global_of(c, blocks[k].0, s));
        assert(0 <= k < blocks.len() && blocks[k].1.blocktype == t);
    }
}

/// Every instance a world emits stands for a block stored in one of its
/// chunks, of the requested type, at that block's composed global position.
pub proof fn lemma_world_instances_membership(
    entries: Seq<(ChunkCoord, Chunk)>,
    t: BlockType,
    s: int,
    i: int,
)
    requires
        0 <= i < world_instances(entries, t, s).len(),
    ensures
        exists|p: int, k: int|
            #![trigger entries[p].1.blocks@[k]]
            {
                &&& 0 <= p < entries.len()
                &&& 0 <= k < entries[p].1.blocks@.len()
                &&& entries[p].1.blocks@[k].1.blocktype == t
                &&& world_instances(entries, t, s)[i] == spec_global_of(
                    entries[p].0,
                    entries[p].1.blocks@[k].0,
                    s,
                )
            },
    decreases entries.len(),
{
    let insts = world_instances(entries, t, s);
    let prev = world_instances(entries.drop_last(), t, s);
    if i < prev.len() {
        lemma_world_instances_membership(entries.drop_last(), t, s, i);
        let (p, k) = choose|p: int, k: int|
            #![trigger entries.drop_last()[p].1.blocks@[k]]
            {
                &&& 0 <= p < entries.drop_last().len()
                &&& 0 <= k < entries.drop_last()[p].1.blocks@.len()
                &&& entries.drop_last()[p].1.blocks@[k].1.blocktype == t
                &&& prev[i] == spec_global_of(
                    entries.drop_last()[p].0,
                    entries.drop_last()[p].1.blocks@[k].0,
                    s,
                )
            };
        assert(entries[p] == entries.drop_last()[p]);
        assert(insts[i] == prev[i]);
        assert(0 <= p < entries.len() && 0 <= k < entries[p].1.blocks@.len()
            && entries[p].1.blocks@[k].1.blocktype == t && insts[i] == spec_global_of(
            entries[p].0,
            entries[p].1.blocks@[k].0,
            s,
        ));
    } else {
        let p = entries.len() - 1;
        let blocks = entries.last().1.blocks@;
        lemma_chunk_instances_membership(entries.last().0, blocks, t, s, i - prev.len());
        let k = choose|k: int|
            0 <= k < blocks.len() && (#[trigger] blocks[k]).1.blocktype == t && chunk_instances(
                entries.last().0,
                blocks,
                t,
                s,
            )[i - prev.len()] == spec_global_of(entries.last().0, blocks[k].0, s);
        assert(entries[p] == entries.last());
        assert(insts[i] == chunk_instances(entries.last().0, blocks, t, s)[i - prev.len()]);
        assert(0 <= p < entries.len() && 0 <= k < entries[p].1.blocks@.len()
            && entries[p].1.blocks@[k].1.blocktype == t && insts[i] == spec_global_of(
            entries[p].0,
            entries[p].1.blocks@[k].0,
            s,
        ));
    }
}

/// Every stored block of the requested type shows up among the chunk's
/// emitted instances, at its composed global position.
pub proof fn lemma_chunk_instances_complete(
    c: ChunkCoord,
    blocks: Seq<(LocalCoord, Block)>,
    t: BlockType,
    s: int,
    k: int,
)
    requires
        0 <= k < blocks.len(),
        blocks[k].1.blocktype == t,
    ensures
        exists|i: int|
            0 <= i < chunk_instances(c, blocks, t, s).len() && #[trigger] chunk_instances(
                c,
                blocks,
                t,
                s,
            )[i] == spec_global_of(c, blocks[k].0, s),
    decreases blocks.len(),
{
    let insts = chunk_instances(c, blocks, t, s);
    let prev = chunk_instances(c, blocks.drop_last(), t, s);
    if k == blocks.len() - 1 {
        assert(insts[prev.len() as int] == spec_global_of(c, blocks[k].0, s));
    } else {
        assert(blocks.drop_last()[k] == blocks[k]);
        lemma_chunk_instances_complete(c, blocks.drop_last(), t, s, k);
        let i = choose|i: int|
            0 <= i < prev.len() && #[trigger] prev[i] == spec_global_of(
                c,
                blocks.drop_last()[k].0,
                s,
            );
        assert(insts[i] == prev[i]);
    }
}

/// Law: every stored block of the requested type shows up among the
/// world's emitted instances, at its composed global position: together
/// with the count law, the instance list holds exactly the stored blocks
/// of the type.
pub proof fn lemma_world_instances_complete(
    entries: Seq<(ChunkCoord, Chunk)>,
    t: BlockType,
    s: int,
    p: int,
    k: int,
)
    requires
        0 <= p < entries.len(),
        0 <= k < entries[p].1.blocks@.len(),
        entries[p].1.blocks@[k].1.blocktype == t,
    ensures
        exists|i: int|
            0 <= i < world_instances(entries, t, s).len() && #[trigger] world_instances(
                entries,
                t,
                s,
            )[i] == spec_global_of(entries[p].0, entries[p].1.blocks@[k].0, s),
    decreases entries.len(),
{
    let insts = world_instances(entries, t, s);
    let prev = world_instances(entries.drop_last(), t, s);
    if p == entries.len() - 1 {
        let blocks = entries[p].1.blocks@;
        lemma_chunk_instances_complete(entries[p].0, blocks, t, s, k);
        let j = choose|j: int|
            0 <= j < chunk_instances(entries[p].0, blocks, t, s).len() && #[trigger]
                chunk_instances(entries[p].0, blocks, t, s)[j] == spec_global_of(
                entries[p].0,
                blocks[k].0,
                s,
            );
        assert(entries.last() == entries[p]);
        assert(insts[prev.len() + j] == chunk_instances(entries[p].0, blocks, t, s)[j]);
    } else {
        assert(entries.drop_last()[p] == entries[p]);
        lemma_world_instances_complete(entries.drop_last(), t, s, p, k);
        let i = choose|i: int|
            0 <= i < prev.len() && #[trigger] prev[i] == spec_global_of(
                entries.drop_last()[p].0,
                entries.drop_last()[p].1.blocks@[k].0,
                s,
            );
        assert(insts[i] == prev[i]);
    }
}

/// Law: every instance translation points at a stored block of its type:
/// looking the translation up in the world answers exactly that type.
pub proof fn lemma_instance_is_stored_block(w: World, t: BlockType, i: int)
    requires
        w.wf(),
        0 <= i < world_instances(w.chunks@, t, w.chunk_size as int).len(),
    ensures
        ({
            let g = world_instances(w.chunks@, t, w.chunk_size as int)[i];
            w.block_at(g.x as int, g.y as int, g.z as int) == Some(t)
        }),
{
    let s = w.chunk_size as int;
    let entries = w.chunks@;
    lemma_world_instances_membership(entries, t, s, i);
    let (p, k) = choose|p: int, k: int|
        #![trigger entries[p].1.blocks@[k]]
        {
            &&& 0 <= p < entries.len()
            &&& 0 <= k < entries[p].1.blocks@.len()
            &&& entries[p].1.blocks@[k].1.blocktype == t
            &&& world_instances(entries, t, s)[i] == spec_global_of(
                entries[p].0,
                entries[p].1.blocks@[k].0,
                s,
            )
        };
    let c = entries[p].0;
    let chunk = entries[p].1;
    let l = chunk.blocks@[k].0;
    assert(chunk.wf(s) && chunk_coord_fits(c, s));
    assert(l.in_chunk(s));
    assert(w.chunk_entries()[p] == (c, chunk.block_map()));
    lemma_assoc_map_entry(w.chunk_entries(), p);
    lemma_assoc_map_entry(chunk.blocks@, k);
    w.lemma_stored_block_is_found(c, l);
    let g = world_instances(entries, t, s)[i];
    assert(g.x == c.x * s + l.x && g.y == c.y * s + l.y && g.z == c.z * s + l.z);
}

/// Walks every chunk and every block in it, emitting one translation per
/// block whose type matches: the instance list for one block type, with no
/// deduplication and no culling.
pub fn build_instances(world: &World, blocktype: BlockType) -> (r: Vec<GlobalCoord>)
    requires
        world.wf(),
    ensures
        r@ == world_instances(world.chunks@, blocktype, world.chunk_size as int),
        r@.len() == world_count(world.chunks@, blocktype),
{
    let ghost s: int = world.chunk_size as int;
    let mut out: Vec<GlobalCoord> = Vec::new();
    let n: usize = world.chunks.len();
    let mut i: usize = 0;
    while i < n
        invariant
            0 <= i <= n,
            n == world.chunks@.len(),
            world.wf(),
            s == world.chunk_size as int,
            out@ == world_instances(world.chunks@.take(i as int), blocktype, s),
        decreases n - i,
    {
        let cc: ChunkCoord = world.chunks[i].0;
        let chunk: &Chunk = &world.chunks[i].1;
        let m: usize = chunk.blocks.len();
        let mut j: usize = 0;
        while j < m
            invariant
                0 <= j <= m,
                0 <= i < n,
                n == world.chunks@.len(),
                m == chunk.blocks@.len(),
                world.wf(),
                s == world.chunk_size as int,
                cc == world.chunks@[i as int].0,
                chunk == &world.chunks@[i as int].1,
                out@ == world_instances(world.chunks@.take(i as int), blocktype, s)
                    + chunk_instances(cc, chunk.blocks@.take(j as int), blocktype, s),
            decreases m - j,
        {
            let (lc, b) = chunk.blocks[j];
            if b.blocktype == blocktype {
                let g = chunk_local_to_global(cc, lc, world.chunk_size);
                out.push(g);
                proof {
                    assert(g == spec_global_of(cc, lc, s));
                }
            }
            proof {
                let taken = chunk.blocks@.take(j as int + 1);
                assert(taken.drop_last() =~= chunk.blocks@.take(j as int));
                assert(taken.last() == chunk.blocks@[j as int]);
                assert(out@ =~= world_instances(world.chunks@.take(i as int), blocktype, s)
                    + chunk_instances(cc, taken, blocktype, s));
            }
            j += 1;
        }
        proof {
            assert(chunk.blocks@.take(m as int) =~= chunk.blocks@);
            let taken = world.chunks@.take(i as int + 1);
            assert(taken.drop_last() =~= world.chunks@.take(i as int));
            assert(taken.last() == world.chunks@[i as int]);
            assert(out@ =~= world_instances(taken, blocktype, s));
        }
        i += 1;
    }
    proof {
        assert(world.chunks@.take(n as int) =~= world.chunks@);
        lemma_world_instance_count(world.chunks@, blocktype, s);
    }
    out
}

/// Draw data for one block type: the shared cube geometry plus one
/// translation per instance of that type.
pub struct MeshBatch {
    pub blocktype: BlockType,
    pub vertices: Vec<CubeVertex>,
    pub indices: Vec<u16>,
    pub instances: Vec<GlobalCoord>,
}

/// `b` is the batch `w` yields for `b.blocktype`: the full cube geometry,
/// and exactly that type's instance translations — as many instances as
/// the world stores blocks of the type, and at least one.
pub open spec fn batch_matches_world(b: MeshBatch, w: World) -> bool {
    &&& is_cube_vertices(b.vertices@, b.blocktype)
    &&& is_cube_indices(b.indices@)
    &&& b.instances@ == world_instances(w.chunks@, b.blocktype, w.chunk_size as int)
    &&& b.instances@.len() == world_count(w.chunks@, b.blocktype)
    &&& b.instances@.len() > 0
}

/// The block types with at least one stored block, in the fixed build
/// order.
pub open spec fn spec_present_types(entries: Seq<(ChunkCoord, Chunk)>) -> Seq<BlockType> {
    (if world_count(entries, BlockType::GRASS) > 0 {
        seq![BlockType::GRASS]
    } else {
        Seq::empty()
    }) + (if world_count(entries, BlockType::DIRT) > 0 {
        seq![BlockType::DIRT]
    } else {
        Seq::empty()
    }) + (if world_count(entries, BlockType::STONE) > 0 {
        seq![BlockType::STONE]
    } else {
        Seq::empty()
    })
}

/// Builds one mesh batch per block type that has at least one instance in
/// the world; a type with no instance gets no batch at all.
pub fn build_mesh_batches(world: &World) -> (r: Vec<MeshBatch>)
    requires
        world.wf(),
    ensures
        r@.map_values(|b: MeshBatch| b.blocktype) == spec_present_types(world.chunks@),
        forall|i: int| 0 <= i < r@.len() ==> batch_matches_world(#[trigger] r@[i], *world),
{
    let mut out: Vec<MeshBatch> = Vec::new();
    let grass = build_instances(world, BlockType::GRASS);
    if grass.len() > 0 {
        out.push(MeshBatch {
            blocktype: BlockType::GRASS,
            vertices: create_vertices(BlockType::GRASS),
            indices: cube_indices(),
            instances: grass,
        });
    }
    let dirt = build_instances(world, BlockType::DIRT);
    if dirt.len() > 0 {
        out.push(MeshBatch {
            blocktype: BlockType::DIRT,
            vertices: create_vertices(BlockType::DIRT),
            indices: cube_indices(),
            instances: dirt,
        });
    }
    let stone = build_instances(world, BlockType::STONE);
    if stone.len() > 0 {
        out.push(MeshBatch {
            blocktype: BlockType::STONE,
            vertices: create_vertices(BlockType::STONE),
            indices: cube_indices(),
            instances: stone,
        });
    }
    proof {
        assert(out@.map_values(|b: MeshBatch| b.blocktype) =~= spec_present_types(
            world.chunks@,
        ));
    }
    out
}

} // verus!
