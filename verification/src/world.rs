//! Sparse chunk and block storage.
//!
//! A `Chunk` maps local positions to blocks; a `World` maps chunk positions
//! to chunks and resolves global positions through floored coordinate
//! arithmetic. A position without an entry is air, never an error: an
//! unknown chunk and an unknown local position both answer `None` through
//! the same path.

use vstd::prelude::*;

verus! {

use crate::assoc::{
    assoc_keys_unique, assoc_map_of, lemma_assoc_map_absent, lemma_assoc_map_entry,
    lemma_assoc_map_push, lemma_assoc_map_update,
};
use crate::coords::{
    ChunkCoord, GlobalCoord, LocalCoord, global_to_chunk_local, lemma_compose_then_split,
};

/// The kind of solid block stored at a voxel.
#[derive(Clone, Copy, PartialEq, Eq, Structural, Debug)]
pub enum BlockType {
    GRASS,
    DIRT,
    STONE,
}

/// Presence of a block type at a voxel.
#[derive(Clone, Copy, PartialEq, Eq, Structural, Debug)]
pub struct Block {
    pub blocktype: BlockType,
}

/// A fixed-size cubic region of the world, storing its solid blocks
/// sparsely: an entry per solid block, keyed by local position, with no
/// explicit entry for air.
pub struct Chunk {
    pub blocks: Vec<(LocalCoord, Block)>,
}

impl Chunk {
    /// The mapping from local position to block that this chunk denotes.
    pub open spec fn block_map(self) -> Map<LocalCoord, Block> {
        assoc_map_of(self.blocks@)
    }

    /// No local position is stored twice.
    pub open spec fn keys_unique(self) -> bool {
        assoc_keys_unique(self.blocks@)
    }

    /// Unique keys, every one inside a chunk of side length `s`.
    pub open spec fn wf(self, s: int) -> bool {
        &&& self.keys_unique()
        &&& forall|i: int|
            0 <= i < self.blocks@.len() ==> (#[trigger] self.blocks@[i]).0.in_chunk(s)
    }

    /// An empty chunk: all air.
    pub fn new() -> (c: Chunk)
        ensures
            c.block_map() == Map::<LocalCoord, Block>::empty(),
            forall|s: int| c.wf(s),
    {
        Chunk { blocks: Vec::new() }
    }

    /// The block stored at `l`, or `None` when `l` is air.
    pub fn get_block(&self, l: LocalCoord) -> (r: Option<BlockType>)
        requires
            self.keys_unique(),
        ensures
            r == if self.block_map().dom().contains(l) {
                Some(self.block_map()[l].blocktype)
            } else {
                None::<BlockType>
            },
    {
        let n: usize = self.blocks.len();
        let mut i: usize = 0;
        while i < n
            invariant
                0 <= i <= n,
                n == self.blocks@.len(),
                self.keys_unique(),
                forall|j: int| 0 <= j < i ==> (#[trigger] self.blocks@[j]).0 != l,
            decreases n - i,
        {
            let (lc, b) = self.blocks[i];
            if lc == l {
                proof {
                    lemma_assoc_map_entry(self.blocks@, i as int);
                }
                return Some(b.blocktype);
            }
            i += 1;
        }
        proof {
            lemma_assoc_map_absent(self.blocks@, l);
        }
        None
    }

    /// Stores `b` at `l`, replacing any block already there.
    pub fn insert_block(&mut self, l: LocalCoord, b: Block)
        requires
            old(self).keys_unique(),
        ensures
            final(self).keys_unique(),
            final(self).block_map() == old(self).block_map().insert(l, b),
            forall|s: int| old(self).wf(s) && l.in_chunk(s) ==> #[trigger] final(self).wf(s),
    {
        let n: usize = self.blocks.len();
        let mut i: usize = 0;
        while i < n
            invariant
                0 <= i <= n,
                n == self.blocks@.len(),
                self == old(self),
                old(self).keys_unique(),
                forall|j: int| 0 <= j < i ==> (#[trigger] self.blocks@[j]).0 != l,
            decreases n - i,
        {
            let (lc, _) = self.blocks[i];
            if lc == l {
                self.blocks.set(i, (l, b));
                proof {
                    lemma_assoc_map_update(old(self).blocks@, i as int, l, b);
                }
                return;
            }
            i += 1;
        }
        self.blocks.push((l, b));
        proof {
            lemma_assoc_map_push(old(self).blocks@, l, b);
        }
    }
}

/// The whole voxel world: a sparse mapping from chunk position to chunk.
/// Chunks without an entry are entirely air for every query.
pub struct World {
    /// Side length of every (cubic) chunk, in blocks.
    pub chunk_size: u32,
    pub chunks: Vec<(ChunkCoord, Chunk)>,
}

/// Every block of a chunk at `c` has a global position that fits the signed
/// 32-bit coordinate range: `c * s` and `c * s + (s - 1)` both fit, on each
/// axis.
pub open spec fn chunk_coord_fits(c: ChunkCoord, s: int) -> bool {
    &&& i32::MIN <= c.x * s && c.x * s + (s - 1) <= i32::MAX
    &&& i32::MIN <= c.y * s && c.y * s + (s - 1) <= i32::MAX
    &&& i32::MIN <= c.z * s && c.z * s + (s - 1) <= i32::MAX
}

impl World {
    /// The mapping from chunk position to that chunk's block mapping.
    pub open spec fn chunk_map(self) -> Map<ChunkCoord, Map<LocalCoord, Block>> {
        assoc_map_of(self.chunk_entries())
    }

    /// The stored entries with each chunk abstracted to its block mapping.
    pub open spec fn chunk_entries(self) -> Seq<(ChunkCoord, Map<LocalCoord, Block>)> {
        self.chunks@.map_values(|e: (ChunkCoord, Chunk)| (e.0, e.1.block_map()))
    }

    /// No chunk position is stored twice.
    pub open spec fn keys_unique(self) -> bool {
        assoc_keys_unique(self.chunks@)
    }

    /// A positive chunk size, unique chunk positions, well-formed chunks,
    /// and chunk positions whose blocks all fit the global coordinate range.
    pub open spec fn wf(self) -> bool {
        &&& 1 <= self.chunk_size
        &&& self.keys_unique()
        &&& forall|i: int|
            0 <= i < self.chunks@.len() ==> (#[trigger] self.chunks@[i]).1.wf(
                self.chunk_size as int,
            )
        &&& forall|i: int|
            0 <= i < self.chunks@.len() ==> chunk_coord_fits(
                (#[trigger] self.chunks@[i]).0,
                self.chunk_size as int,
            )
    }

    /// The block type visible at global position `(gx, gy, gz)`: the entry
    /// of the chunk holding that position, or `None` for air, whether the
    /// chunk is missing or merely has no block there.
    pub open spec fn block_at(self, gx: int, gy: int, gz: int) -> Option<BlockType> {
        let s = self.chunk_size as int;
        let c = ChunkCoord { x: (gx / s) as i32, y: (gy / s) as i32, z: (gz / s) as i32 };
        let l = LocalCoord { x: (gx % s) as u32, y: (gy % s) as u32, z: (gz % s) as u32 };
        if self.chunk_map().dom().contains(c) && self.chunk_map()[c].dom().contains(l) {
            Some(self.chunk_map()[c][l].blocktype)
        } else {
            None
        }
    }

    /// An empty world of the given chunk size.
    pub fn new(chunk_size: u32) -> (w: World)
        requires
            1 <= chunk_size,
        ensures
            w.wf(),
            w.chunk_size == chunk_size,
            w.chunk_map() == Map::<ChunkCoord, Map<LocalCoord, Block>>::empty(),
    {
        let w = World { chunk_size, chunks: Vec::new() };
        proof {
            assert(w.chunk_entries() =~= Seq::<(ChunkCoord, Map<LocalCoord, Block>)>::empty());
        }
        w
    }

    /// The index of the chunk stored at `c`, or `None` when no chunk is.
    fn find_chunk(&self, c: ChunkCoord) -> (r: Option<usize>)
        requires
            self.keys_unique(),
        ensures
            match r {
                Some(i) => {
                    &&& 0 <= i < self.chunks@.len()
                    &&& self.chunks@[i as int].0 == c
                    &&& self.chunk_map().dom().contains(c)
                    &&& self.chunk_map()[c] == self.chunks@[i as int].1.block_map()
                },
                None => !self.chunk_map().dom().contains(c),
            },
    {
        let n: usize = self.chunks.len();
        let mut i: usize = 0;
        while i < n
            invariant
                0 <= i <= n,
                n == self.chunks@.len(),
                self.keys_unique(),
                forall|j: int| 0 <= j < i ==> (#[trigger] self.chunks@[j]).0 != c,
            decreases n - i,
        {
            let cc = self.chunks[i].0;
            if cc == c {
                proof {
                    assert(self.chunk_entries()[i as int] == (c, self.chunks@[i as int].1.block_map()));
                    lemma_assoc_map_entry(self.chunk_entries(), i as int);
                }
                return Some(i);
            }
            i += 1;
        }
        proof {
            assert(forall|j: int|
                0 <= j < self.chunk_entries().len() ==> (#[trigger] self.chunk_entries()[j]).0
                    == self.chunks@[j].0);
            lemma_assoc_map_absent(self.chunk_entries(), c);
        }
        None
    }

    /// Stores `chunk` at `c`, replacing any chunk already there.
    pub fn insert_chunk(&mut self, c: ChunkCoord, chunk: Chunk)
        requires
            old(self).wf(),
            chunk.wf(old(self).chunk_size as int),
            chunk_coord_fits(c, old(self).chunk_size as int),
        ensures
            final(self).wf(),
            final(self).chunk_size == old(self).chunk_size,
            final(self).chunk_map() == old(self).chunk_map().insert(c, chunk.block_map()),
    {
        let n: usize = self.chunks.len();
        let mut i: usize = 0;
        while i < n
            invariant
                0 <= i <= n,
                n == self.chunks@.len(),
                self == old(self),
                old(self).wf(),
                chunk.wf(old(self).chunk_size as int),
                chunk_coord_fits(c, old(self).chunk_size as int),
                forall|j: int| 0 <= j < i ==> (#[trigger] self.chunks@[j]).0 != c,
            decreases n - i,
        {
            let cc = self.chunks[i].0;
            if cc == c {
                self.chunks.set(i, (c, chunk));
                proof {
                    let entry = (c, chunk.block_map());
                    assert(self.chunk_entries() =~= old(self).chunk_entries().update(
                        i as int,
                        entry,
                    ));
                    assert(old(self).chunk_entries()[i as int].0 == c);
                    lemma_assoc_map_update(
                        old(self).chunk_entries(),
                        i as int,
                        c,
                        chunk.block_map(),
                    );
                }
                return;
            }
            i += 1;
        }
        self.chunks.push((c, chunk));
        proof {
            assert(self.chunk_entries() =~= old(self).chunk_entries().push(
                (c, chunk.block_map()),
            ));
            lemma_assoc_map_push(old(self).chunk_entries(), c, chunk.block_map());
        }
    }

    /// Law: a block stored under chunk position `c` at local position `l` is
    /// the one visible at the composed global position `c * chunk_size + l`.
    /// In particular, inserting a block at `(c, l)` and then looking up
    /// `c * chunk_size + l` returns that block's type.
    pub proof fn lemma_stored_block_is_found(self, c: ChunkCoord, l: LocalCoord)
        requires
            1 <= self.chunk_size,
            l.in_chunk(self.chunk_size as int),
            self.chunk_map().dom().contains(c),
            self.chunk_map()[c].dom().contains(l),
        ensures
            self.block_at(
                c.x * self.chunk_size + l.x,
                c.y * self.chunk_size + l.y,
                c.z * self.chunk_size + l.z,
            ) == Some(self.chunk_map()[c][l].blocktype),
    {
        let s = self.chunk_size as int;
        lemma_compose_then_split(c.x as int, l.x as int, s);
        lemma_compose_then_split(c.y as int, l.y as int, s);
        lemma_compose_then_split(c.z as int, l.z as int, s);
    }

    /// The block type at a global position, computed by resolving the
    /// position to a chunk position and a local position with floored
    /// division and modulo. Never panics: an unknown chunk and an unknown
    /// local position both answer `None`.
    pub fn lookup(&self, g: GlobalCoord) -> (r: Option<BlockType>)
        requires
            self.wf(),
        ensures
            r == self.block_at(g.x as int, g.y as int, g.z as int),
    {
        let (c, l) = global_to_chunk_local(g, self.chunk_size);
        match self.find_chunk(c) {
            Some(i) => {
                let chunk: &Chunk = &self.chunks[i].1;
                chunk.get_block(l)
            },
            None => None,
        }
    }
}

} // verus!
