use vstd::prelude::*;

verus! {

use std::collections::HashMap;

use vstd::arithmetic::div_mod::{
    lemma_fundamental_div_mod,
    lemma_fundamental_div_mod_converse_div,
    lemma_fundamental_div_mod_converse_mod,
    lemma_mod_bound,
};

use crate::block::BlockId;
use crate::chunk::{flat_index, grid_y, lemma_flat_index_inverse, Chunk, CHUNKHEIGHT, CHUNKSIZE, GRID_LEN};
use crate::coords::{chunk_split, ChunkPos};
use crate::mesh::{
    block_in, dir_at, face_corner_at, face_exposed, face_slot, face_vertex, faces_up_to,
    lemma_face_slot_inverse, lemma_faces_up_to_constant, lemma_faces_up_to_len, mesh_built_up_to,
    mesh_matches, quad_offset, resolve_chunk, slot_emits, wrap_local, MeshData, MeshVertex,
    WorldGrids,
};

broadcast use vstd::std_specs::hash::group_hash_axioms;

/// Packs a chunk position into a single map key. Distinct positions get
/// distinct keys (`lemma_pos_key_injective`), so the key fully stands in
/// for the position.
pub open spec fn pos_key(p: ChunkPos) -> u64 {
    (((p.x as int + 0x8000_0000) * 0x1_0000_0000 + (p.z as int + 0x8000_0000)) as int) as u64
}

pub fn pos_key_of(p: ChunkPos) -> (k: u64)
    ensures
        k == pos_key(p),
{
    let xk: u64 = ((p.x as i64) + 0x8000_0000) as u64;
    let zk: u64 = ((p.z as i64) + 0x8000_0000) as u64;
    xk * 0x1_0000_0000 + zk
}

pub proof fn lemma_pos_key_injective(a: ChunkPos, b: ChunkPos)
    requires
        pos_key(a) == pos_key(b),
    ensures
        a == b,
{
    let ax = a.x as int + 0x8000_0000;
    let az = a.z as int + 0x8000_0000;
    let bx = b.x as int + 0x8000_0000;
    let bz = b.z as int + 0x8000_0000;
    assert(ax * 0x1_0000_0000 + az == bx * 0x1_0000_0000 + bz);
    lemma_fundamental_div_mod_converse_div(ax * 0x1_0000_0000 + az, 0x1_0000_0000, ax, az);
    lemma_fundamental_div_mod_converse_div(bx * 0x1_0000_0000 + bz, 0x1_0000_0000, bx, bz);
    lemma_fundamental_div_mod_converse_mod(ax * 0x1_0000_0000 + az, 0x1_0000_0000, ax, az);
    lemma_fundamental_div_mod_converse_mod(bx * 0x1_0000_0000 + bz, 0x1_0000_0000, bx, bz);
}

/// Edge length, in chunks, of the square of chunks a fresh world
/// preloads around the origin.
pub const RENDERDISTANCE: usize = 3;

/// Height threshold of the default terrain rule.
pub const GRASS_THRESHOLD: usize = 120;

/// The default deterministic terrain rule: grass at and above the
/// threshold height, dirt below. A pure function of the cell's height.
pub open spec fn populated_block(y: int) -> BlockId {
    if y >= GRASS_THRESHOLD {
        BlockId::Grass
    } else {
        BlockId::Dirt
    }
}

/// The grid population produces: every cell holds the block its height
/// dictates.
pub open spec fn populated_grid() -> Seq<BlockId> {
    Seq::new(GRID_LEN as nat, |i: int| populated_block(grid_y(i)))
}

/// The loaded set of chunks, keyed by position. A position absent from
/// the store behaves as an infinite plane of `Air` for block queries.
pub struct World {
    /// Loaded chunks, keyed by `pos_key` of their position.
    pub chunks: HashMap<u64, Chunk>,
    /// The loaded chunk positions, each exactly once.
    pub positions: Vec<ChunkPos>,
}

impl World {
    /// Positions the store accepts. The extreme chunk coordinates are
    /// excluded so that every loaded chunk has an addressable neighbor
    /// on each side.
    pub open spec fn pos_in_range(p: ChunkPos) -> bool {
        &&& -0x7fff_ffff <= p.x <= 0x7fff_fffe
        &&& -0x7fff_ffff <= p.z <= 0x7fff_fffe
    }

    /// Whether the chunk at `p` is in the loaded set.
    pub open spec fn loaded(self, p: ChunkPos) -> bool {
        self.chunks@.contains_key(pos_key(p))
    }

    /// The loaded chunk at `p`.
    pub open spec fn chunk_at(self, p: ChunkPos) -> Chunk {
        self.chunks@[pos_key(p)]
    }

    /// The block grid of the loaded chunk at `p`.
    pub open spec fn grid(self, p: ChunkPos) -> Seq<BlockId> {
        self.chunk_at(p).blocks@
    }

    /// The store as a pure mapping from position to grid: the read-only
    /// view that meshing works on.
    pub open spec fn as_grids(self) -> WorldGrids {
        Map::new(|p: ChunkPos| self.loaded(p), |p: ChunkPos| self.grid(p))
    }

    /// The position list and the chunk map agree: the list holds each
    /// loaded position exactly once, and every stored chunk is
    /// well-formed, keyed by its own in-range position.
    pub open spec fn wf(self) -> bool {
        &&& self.positions@.no_duplicates()
        &&& forall|i: int|
            0 <= i < self.positions@.len() ==> self.loaded(#[trigger] self.positions@[i])
        &&& forall|k: u64|
            #[trigger] self.chunks@.contains_key(k) ==> {
                let c = self.chunks@[k];
                &&& c.wf()
                &&& pos_key(c.pos) == k
                &&& Self::pos_in_range(c.pos)
                &&& self.positions@.contains(c.pos)
            }
    }

    /// Returns the block stored at local `(x, y, z)` of the chunk at
    /// `pos`. A position outside the loaded set, or a `y` outside the
    /// vertical range, reads as `Air`: the sanctioned boundary policy,
    /// not an error.
    #[allow(non_snake_case)]
    pub fn getBlockType(&self, pos: ChunkPos, x: usize, y: usize, z: usize) -> (b: BlockId)
        requires
            self.wf(),
            x < CHUNKSIZE,
            z < CHUNKSIZE,
        ensures
            b == block_in(self.as_grids(), pos, x as int, y as int, z as int),
    {
        let k: u64 = pos_key_of(pos);
        match self.chunks.get(&k) {
            Some(c) => {
                if y < CHUNKHEIGHT {
                    c.get(x, y, z)
                } else {
                    BlockId::Air
                }
            },
            None => BlockId::Air,
        }
    }

    /// Maps an integer world-space block coordinate to its local block
    /// coordinate and owning chunk position. Floor semantics: negative
    /// coordinates round toward minus infinity, the local offsets are
    /// always in `[0, CHUNKSIZE)`, and the pair reconstructs the input
    /// exactly. The y coordinate has no chunking and passes through.
    #[allow(non_snake_case)]
    pub fn worldToLoc(wx: i32, wy: i32, wz: i32) -> (r: ((i32, i32, i32), ChunkPos))
        ensures
            r.1.x == wx as int / (CHUNKSIZE as int),
            r.1.z == wz as int / (CHUNKSIZE as int),
            r.0.0 == wx as int % (CHUNKSIZE as int),
            r.0.1 == wy,
            r.0.2 == wz as int % (CHUNKSIZE as int),
            0 <= r.0.0 < CHUNKSIZE,
            0 <= r.0.2 < CHUNKSIZE,
            r.1.x * (CHUNKSIZE as int) + r.0.0 == wx as int,
            r.1.z * (CHUNKSIZE as int) + r.0.2 == wz as int,
    {
        let sx = chunk_split(wx);
        let sz = chunk_split(wz);
        ((sx.1, wy, sz.1), ChunkPos { x: sx.0, z: sz.0 })
    }

    /// The loaded chunk at `pos`, if any.
    pub fn get_chunk(&self, pos: ChunkPos) -> (r: Option<&Chunk>)
        requires
            self.wf(),
        ensures
            self.loaded(pos) ==> r is Some && *r->Some_0 == self.chunk_at(pos),
            !self.loaded(pos) ==> r is None,
    {
        let k: u64 = pos_key_of(pos);
        self.chunks.get(&k)
    }

    /// Loads `chunk` at `pos`, replacing any chunk already loaded
    /// there. Every other chunk is untouched.
    pub fn insert(&mut self, pos: ChunkPos, chunk: Chunk)
        requires
            old(self).wf(),
            chunk.wf(),
            chunk.pos == pos,
            Self::pos_in_range(pos),
        ensures
            final(self).wf(),
            forall|q: ChunkPos|
                final(self).loaded(q) <==> (old(self).loaded(q) || q == pos),
            final(self).chunk_at(pos) == chunk,
            forall|q: ChunkPos|
                q != pos && old(self).loaded(q) ==> final(self).chunk_at(q) == old(
                    self,
                ).chunk_at(q),
            old(self).loaded(pos) ==> final(self).positions@ == old(self).positions@,
            !old(self).loaded(pos) ==> final(self).positions@ == old(self).positions@.push(pos),
    {
        let k: u64 = pos_key_of(pos);
        if !self.chunks.contains_key(&k) {
            proof {
                assert forall|i: int|
                    0 <= i < self.positions@.len() implies self.positions@[i] != pos by {
                    assert(self.loaded(self.positions@[i]));
                }
            }
            self.positions.push(pos);
        }
        self.chunks.insert(k, chunk);
        proof {
            assert forall|q: ChunkPos|
                self.loaded(q) <==> (old(self).loaded(q) || q == pos) by {
                if pos_key(q) == pos_key(pos) {
                    lemma_pos_key_injective(q, pos);
                }
            }
            assert forall|q: ChunkPos|
                q != pos && old(self).loaded(q) implies self.chunk_at(q) == old(self).chunk_at(
                    q,
                ) by {
                if pos_key(q) == pos_key(pos) {
                    lemma_pos_key_injective(q, pos);
                }
            }
            assert(self.positions@.no_duplicates());
            assert forall|kk: u64| #[trigger]
                self.chunks@.contains_key(kk) implies {
                let c = self.chunks@[kk];
                &&& c.wf()
                &&& pos_key(c.pos) == kk
                &&& Self::pos_in_range(c.pos)
                &&& self.positions@.contains(c.pos)
            } by {
                if kk != k {
                    let c = self.chunks@[kk];
                    assert(old(self).chunks@.contains_key(kk));
                    assert(old(self).positions@.contains(c.pos));
                    let i = choose|i: int|
                        0 <= i < old(self).positions@.len() && old(self).positions@[i] == c.pos;
                    assert(self.positions@[i] == c.pos);
                } else {
                    if old(self).loaded(pos) {
                        let i = choose|i: int|
                            0 <= i < old(self).positions@.len() && old(self).positions@[i] == pos;
                        assert(self.positions@[i] == pos);
                    } else {
                        assert(self.positions@[self.positions@.len() - 1] == pos);
                    }
                }
            }
        }
    }

    /// Unloads the chunk at `pos`, if one is loaded. Every other chunk
    /// is untouched. External streaming logic calls this when a
    /// position leaves the loaded set.
    pub fn remove(&mut self, pos: ChunkPos)
        requires
            old(self).wf(),
        ensures
            final(self).wf(),
            forall|q: ChunkPos|
                final(self).loaded(q) <==> (old(self).loaded(q) && q != pos),
            forall|q: ChunkPos|
                q != pos && old(self).loaded(q) ==> final(self).chunk_at(q) == old(
                    self,
                ).chunk_at(q),
    {
        let k: u64 = pos_key_of(pos);
        self.chunks.remove(&k);
        let ghost mid = *self;
        let mut i: usize = 0;
        let n: usize = self.positions.len();
        let mut found: bool = false;
        let mut at: usize = 0;
        while i < n
            invariant
                i <= n,
                n == self.positions@.len(),
                *self == mid,
                !found ==> forall|j: int| 0 <= j < i ==> self.positions@[j] != pos,
                found ==> at < n && self.positions@[at as int] == pos,
            decreases n - i,
        {
            if !found {
                let q = self.positions[i];
                if q.x == pos.x && q.z == pos.z {
                    found = true;
                    at = i;
                }
            }
            i = i + 1;
        }
        if found {
            self.positions.remove(at);
            proof {
                assert(self.positions@ == mid.positions@.remove(at as int));
            }
        }
        proof {
            assert forall|q: ChunkPos|
                self.loaded(q) <==> (old(self).loaded(q) && q != pos) by {
                if pos_key(q) == pos_key(pos) {
                    lemma_pos_key_injective(q, pos);
                }
            }
            assert forall|q: ChunkPos|
                q != pos && old(self).loaded(q) implies self.chunk_at(q) == old(self).chunk_at(
                    q,
                ) by {
                if pos_key(q) == pos_key(pos) {
                    lemma_pos_key_injective(q, pos);
                }
            }
            if found {
                assert forall|a: int, b: int|
                    0 <= a < b < self.positions@.len() implies self.positions@[a]
                    != self.positions@[b] by {
                    let oa = if a < at { a } else { a + 1 };
                    let ob = if b < at { b } else { b + 1 };
                    assert(mid.positions@[oa] == self.positions@[a]);
                    assert(mid.positions@[ob] == self.positions@[b]);
                }
                assert(self.positions@.no_duplicates());
            } else {
                assert forall|q: ChunkPos|
                    old(self).loaded(q) implies q != pos by {
                    let c = old(self).chunks@[pos_key(q)];
                    lemma_pos_key_injective(c.pos, q);
                    if q == pos {
                        let j = choose|j: int|
                            0 <= j < old(self).positions@.len() && old(self).positions@[j] == q;
                        assert(self.positions@[j] != pos);
                    }
                }
            }
            assert forall|kk: u64| #[trigger]
                self.chunks@.contains_key(kk) implies {
                let c = self.chunks@[kk];
                &&& c.wf()
                &&& pos_key(c.pos) == kk
                &&& Self::pos_in_range(c.pos)
                &&& self.positions@.contains(c.pos)
            } by {
                let c = self.chunks@[kk];
                assert(old(self).chunks@.contains_key(kk));
                assert(kk != pos_key(pos));
                assert(c.pos != pos);
                let i0 = choose|i0: int|
                    0 <= i0 < old(self).positions@.len() && old(self).positions@[i0] == c.pos;
                if found {
                    if i0 < at {
                        assert(self.positions@[i0] == c.pos);
                    } else {
                        assert(old(self).positions@[at as int] == pos);
                        assert(i0 != at);
                        assert(self.positions@[i0 - 1] == c.pos);
                    }
                } else {
                    assert(self.positions@[i0] == c.pos);
                }
            }
            assert forall|i1: int|
                0 <= i1 < self.positions@.len() implies self.loaded(
                #[trigger] self.positions@[i1]) by {
                let oi = if found && i1 >= at { i1 + 1 } else { i1 };
                assert(old(self).positions@[oi] == self.positions@[i1]);
                assert(old(self).loaded(self.positions@[i1]));
                if found {
                    assert(old(self).positions@[at as int] == pos);
                    assert(oi != at);
                    assert(self.positions@[i1] != pos);
                } else {
                    assert(forall|j: int|
                        0 <= j < old(self).positions@.len() ==> old(self).positions@[j] != pos);
                }
                if pos_key(self.positions@[i1]) == pos_key(pos) {
                    lemma_pos_key_injective(self.positions@[i1], pos);
                }
            }
        }
    }
}

impl World {
    /// A world preloaded with the render-distance square of chunks
    /// around the origin, all air and unmeshed. Shader compilation and
    /// the texture array are the render boundary's business, not the
    /// store's.
    #[verifier::loop_isolation(false)]
    pub fn new() -> (w: World)
        ensures
            w.wf(),
            forall|p: ChunkPos|
                w.loaded(p) <==> (-1 <= p.x <= 1 && -1 <= p.z <= 1),
            forall|p: ChunkPos|
                w.loaded(p) ==> {
                    &&& #[trigger] w.chunk_at(p).pos == p
                    &&& w.chunk_at(p).mesh is None
                    &&& forall|i: int| 0 <= i < GRID_LEN ==> w.grid(p)[i] == BlockId::Air
                },
    {
        let mut w = World { chunks: HashMap::new(), positions: Vec::new() };
        let mut x: usize = 0;
        while x < RENDERDISTANCE
            invariant
                x <= RENDERDISTANCE,
                w.wf(),
                forall|p: ChunkPos|
                    w.loaded(p) <==> (-1 <= p.x < x - 1 && -1 <= p.z <= 1),
                forall|p: ChunkPos|
                    w.loaded(p) ==> {
                        &&& #[trigger] w.chunk_at(p).pos == p
                        &&& w.chunk_at(p).mesh is None
                        &&& forall|i: int| 0 <= i < GRID_LEN ==> w.grid(p)[i] == BlockId::Air
                    },
            decreases RENDERDISTANCE - x,
        {
            let mut z: usize = 0;
            while z < RENDERDISTANCE
                invariant
                    z <= RENDERDISTANCE,
                    w.wf(),
                    forall|p: ChunkPos|
                        w.loaded(p) <==> ((-1 <= p.x < x - 1 && -1 <= p.z <= 1) || (p.x == x - 1
                            && -1 <= p.z < z - 1)),
                    forall|p: ChunkPos|
                        w.loaded(p) ==> {
                            &&& #[trigger] w.chunk_at(p).pos == p
                            &&& w.chunk_at(p).mesh is None
                            &&& forall|i: int| 0 <= i < GRID_LEN ==> w.grid(p)[i] == BlockId::Air
                        },
                decreases RENDERDISTANCE - z,
            {
                let pos = ChunkPos { x: x as i32 - 1, z: z as i32 - 1 };
                let c = Chunk::new(pos);
                let ghost wpre = w;
                w.insert(pos, c);
                proof {
                    assert forall|p: ChunkPos|
                        w.loaded(p) implies {
                        &&& #[trigger] w.chunk_at(p).pos == p
                        &&& w.chunk_at(p).mesh is None
                        &&& forall|i: int| 0 <= i < GRID_LEN ==> w.grid(p)[i] == BlockId::Air
                    } by {
                        if p == pos {
                            assert(w.chunk_at(p) == c);
                            assert forall|i: int|
                                0 <= i < GRID_LEN implies w.grid(p)[i] == BlockId::Air by {
                                assert(c.blocks@[i] == BlockId::Air);
                            }
                        } else {
                            assert(wpre.loaded(p));
                            assert(w.chunk_at(p) == wpre.chunk_at(p));
                            assert forall|i: int|
                                0 <= i < GRID_LEN implies w.grid(p)[i] == BlockId::Air by {
                                assert(wpre.grid(p)[i] == BlockId::Air);
                            }
                        }
                    }
                }
                z = z + 1;
            }
            x = x + 1;
        }
        w
    }

    /// Fills a chunk's grid by the default terrain rule: a pure
    /// function of each cell's height, independent of everything else.
    #[allow(non_snake_case)]
    #[verifier::loop_isolation(false)]
    pub fn fillChunk(chunk: &mut Chunk)
        requires
            old(chunk).wf(),
        ensures
            final(chunk).wf(),
            final(chunk).pos == old(chunk).pos,
            final(chunk).mesh == old(chunk).mesh,
            final(chunk).blocks@ == populated_grid(),
    {
        let mut x: usize = 0;
        while x < CHUNKSIZE
            invariant
                x <= CHUNKSIZE,
                chunk.wf(),
                chunk.pos == old(chunk).pos,
                chunk.mesh == old(chunk).mesh,
                forall|i: int|
                    0 <= i < flat_index(x as int, 0, 0) ==> #[trigger] chunk.blocks@[i]
                        == populated_grid()[i],
            decreases CHUNKSIZE - x,
        {
            let mut y: usize = 0;
            while y < CHUNKHEIGHT
                invariant
                    y <= CHUNKHEIGHT,
                    chunk.wf(),
                    chunk.pos == old(chunk).pos,
                    chunk.mesh == old(chunk).mesh,
                    forall|i: int|
                        0 <= i < flat_index(x as int, y as int, 0) ==> #[trigger] chunk.blocks@[i]
                            == populated_grid()[i],
                decreases CHUNKHEIGHT - y,
            {
                let mut z: usize = 0;
                while z < CHUNKSIZE
                    invariant
                        z <= CHUNKSIZE,
                        chunk.wf(),
                        chunk.pos == old(chunk).pos,
                        chunk.mesh == old(chunk).mesh,
                        forall|i: int|
                            0 <= i < flat_index(x as int, y as int, z as int) ==> #[trigger] chunk
                                .blocks@[i] == populated_grid()[i],
                    decreases CHUNKSIZE - z,
                {
                    let b: BlockId = if y >= GRASS_THRESHOLD {
                        BlockId::Grass
                    } else {
                        BlockId::Dirt
                    };
                    chunk.set(x, y, z, b);
                    proof {
                        lemma_flat_index_inverse(x as int, y as int, z as int);
                        assert(populated_grid()[flat_index(x as int, y as int, z as int)] == b);
                    }
                    z = z + 1;
                }
                y = y + 1;
            }
            x = x + 1;
        }
        proof {
            assert(chunk.blocks@ =~= populated_grid());
        }
    }

    /// Populates every loaded chunk by the terrain rule: the batch is a
    /// synchronous barrier, and when it returns every chunk of the
    /// loaded set holds exactly the grid the rule dictates. Grids of
    /// distinct chunks are independent, so workers given disjoint
    /// position sets (see `scheduler::partition_jobs`) produce this
    /// same outcome.
    #[allow(non_snake_case)]
    #[verifier::loop_isolation(false)]
    pub fn setAll(&mut self)
        requires
            old(self).wf(),
        ensures
            final(self).wf(),
            final(self).positions@ == old(self).positions@,
            forall|q: ChunkPos| final(self).loaded(q) <==> old(self).loaded(q),
            forall|q: ChunkPos|
                old(self).loaded(q) ==> {
                    &&& #[trigger] final(self).grid(q) == populated_grid()
                    &&& final(self).chunk_at(q).pos == old(self).chunk_at(q).pos
                    &&& final(self).chunk_at(q).mesh == old(self).chunk_at(q).mesh
                },
    {
        let n: usize = self.positions.len();
        let mut i: usize = 0;
        while i < n
            invariant
                i <= n,
                self.wf(),
                n == self.positions@.len(),
                self.positions@ == old(self).positions@,
                forall|q: ChunkPos| self.loaded(q) <==> old(self).loaded(q),
                forall|j: int| #![trigger old(self).positions@[j]]
                    0 <= j < i ==> {
                        &&& self.grid(old(self).positions@[j]) == populated_grid()
                        &&& self.chunk_at(old(self).positions@[j]).pos == old(self).chunk_at(
                            old(self).positions@[j]).pos
                        &&& self.chunk_at(old(self).positions@[j]).mesh == old(self).chunk_at(
                            old(self).positions@[j]).mesh
                    },
                forall|j: int|
                    i <= j < n ==> #[trigger] self.chunk_at(old(self).positions@[j]) == old(
                        self,
                    ).chunk_at(old(self).positions@[j]),
            decreases n - i,
        {
            let ghost pre = *self;
            let pos = self.positions[i];
            let k: u64 = pos_key_of(pos);
            let copt = self.chunks.remove(&k);
            let mut chunk = copt.unwrap();
            Self::fillChunk(&mut chunk);
            self.chunks.insert(k, chunk);
            proof {
                assert forall|q: ChunkPos| self.loaded(q) <==> pre.loaded(q) by {
                    if pos_key(q) == pos_key(pos) {
                        lemma_pos_key_injective(q, pos);
                    }
                }
                assert forall|q: ChunkPos|
                    q != pos && pre.loaded(q) implies self.chunk_at(q) == pre.chunk_at(q) by {
                    if pos_key(q) == pos_key(pos) {
                        lemma_pos_key_injective(q, pos);
                    }
                }
                assert forall|j: int| #![trigger old(self).positions@[j]]
                    0 <= j < i + 1 implies {
                        &&& self.grid(old(self).positions@[j]) == populated_grid()
                        &&& self.chunk_at(old(self).positions@[j]).pos == old(self).chunk_at(
                            old(self).positions@[j]).pos
                        &&& self.chunk_at(old(self).positions@[j]).mesh == old(self).chunk_at(
                            old(self).positions@[j]).mesh
                    } by {
                    let q = old(self).positions@[j];
                    if j < i {
                        if q == pos {
                            assert(pre.positions@[j] == pre.positions@[i as int]);
                            assert(false);
                        }
                    }
                }
                assert forall|j: int|
                    i + 1 <= j < n implies #[trigger] self.chunk_at(old(self).positions@[j])
                        == old(self).chunk_at(old(self).positions@[j]) by {
                    let q = old(self).positions@[j];
                    if q == pos {
                        assert(pre.positions@[j] == pre.positions@[i as int]);
                        assert(false);
                    }
                }
                assert forall|kk: u64| #[trigger]
                    self.chunks@.contains_key(kk) implies {
                    let c = self.chunks@[kk];
                    &&& c.wf()
                    &&& pos_key(c.pos) == kk
                    &&& Self::pos_in_range(c.pos)
                    &&& self.positions@.contains(c.pos)
                } by {
                    if kk != k {
                        assert(pre.chunks@.contains_key(kk));
                        assert(self.chunks@[kk] == pre.chunks@[kk]);
                    } else {
                        lemma_pos_key_injective(pre.chunks@[k].pos, pos);
                        assert(pre.chunks@[k].pos == pos);
                        assert(self.chunks@[k].pos == pos);
                        assert(self.positions@[i as int] == pos);
                    }
                }
            }
            i = i + 1;
        }
        proof {
            assert forall|q: ChunkPos|
                old(self).loaded(q) implies {
                    &&& #[trigger] self.grid(q) == populated_grid()
                    &&& self.chunk_at(q).pos == old(self).chunk_at(q).pos
                    &&& self.chunk_at(q).mesh == old(self).chunk_at(q).mesh
                } by {
                let c = old(self).chunks@[pos_key(q)];
                lemma_pos_key_injective(c.pos, q);
                assert(old(self).positions@.contains(q));
                let j = choose|j: int|
                    0 <= j < old(self).positions@.len() && old(self).positions@[j] == q;
            }
        }
    }
}

impl World {
    /// Builds the mesh of every loaded chunk, in position order,
    /// against the shared read-only store: the worker half of a remesh
    /// batch. Nothing is mutated; the results are handed back for the
    /// owning half to apply.
    #[verifier::loop_isolation(false)]
    pub fn collect_meshes(&self) -> (r: Vec<(ChunkPos, MeshData)>)
        requires
            self.wf(),
        ensures
            r@.len() == self.positions@.len(),
            forall|j: int|
                0 <= j < r@.len() ==> (#[trigger] r@[j]).0 == self.positions@[j] && mesh_matches(
                    self.as_grids(),
                    self.positions@[j],
                    r@[j].1,
                ),
    {
        let mut out: Vec<(ChunkPos, MeshData)> = Vec::new();
        let n: usize = self.positions.len();
        let mut i: usize = 0;
        while i < n
            invariant
                i <= n,
                n == self.positions@.len(),
                out@.len() == i,
                forall|j: int|
                    0 <= j < i ==> (#[trigger] out@[j]).0 == self.positions@[j] && mesh_matches(
                        self.as_grids(),
                        self.positions@[j],
                        out@[j].1,
                    ),
            decreases n - i,
        {
            let pos = self.positions[i];
            let k: u64 = pos_key_of(pos);
            match self.chunks.get(&k) {
                Some(c) => {
                    proof {
                        lemma_pos_key_injective(c.pos, pos);
                    }
                    let m = c.remesh(self);
                    out.push((pos, m));
                },
                None => {
                    proof {
                        assert(false);
                    }
                },
            }
            i = i + 1;
        }
        out
    }

    /// Remeshes every loaded chunk and applies the results. The worker
    /// half builds every mesh against a read-only view of the whole
    /// store; only after all building is done does the owning half
    /// store each result in its chunk. Block grids are read, never
    /// written: the store holds exactly the same voxels afterwards.
    #[allow(non_snake_case)]
    #[verifier::loop_isolation(false)]
    pub fn chunkRemeshAll(&mut self)
        requires
            old(self).wf(),
        ensures
            final(self).wf(),
            final(self).positions@ == old(self).positions@,
            forall|q: ChunkPos| final(self).loaded(q) <==> old(self).loaded(q),
            forall|q: ChunkPos|
                old(self).loaded(q) ==> {
                    &&& #[trigger] final(self).grid(q) == old(self).grid(q)
                    &&& final(self).chunk_at(q).pos == old(self).chunk_at(q).pos
                },
            forall|q: ChunkPos|
                old(self).loaded(q) ==> (#[trigger] final(self).chunk_at(q).mesh) is Some
                    && mesh_matches(
                    old(self).as_grids(),
                    q,
                    final(self).chunk_at(q).mesh->Some_0,
                ),
    {
        let mut results = self.collect_meshes();
        let ghost all = results@;
        let ghost w0 = *self;
        let ghost n = w0.positions@.len() as int;
        proof {
            assert(results@ =~= all.take(results@.len() as int));
        }
        while results.len() > 0
            invariant
                self.wf(),
                self.positions@ == w0.positions@,
                results@.len() <= n,
                results@ == all.take(results@.len() as int),
                forall|q: ChunkPos| self.loaded(q) <==> w0.loaded(q),
                forall|j: int|
                    results@.len() <= j < n ==> {
                        &&& #[trigger] self.grid(w0.positions@[j]) == w0.grid(w0.positions@[j])
                        &&& self.chunk_at(w0.positions@[j]).pos == w0.chunk_at(
                            w0.positions@[j],
                        ).pos
                        &&& self.chunk_at(w0.positions@[j]).mesh == Some(all[j].1)
                    },
                forall|j: int|
                    0 <= j < results@.len() ==> #[trigger] self.chunk_at(w0.positions@[j])
                        == w0.chunk_at(w0.positions@[j]),
            decreases results@.len(),
        {
            let pr = results.pop().unwrap();
            let ghost jj = results@.len() as int;
            let pos = pr.0;
            let mdata = pr.1;
            proof {
                assert(all.take(jj + 1)[jj] == all[jj]);
                assert(pr == all[jj]);
                assert(pos == w0.positions@[jj]);
                assert(results@ =~= all.take(jj));
                assert(self.loaded(pos));
            }
            let ghost pre = *self;
            let k: u64 = pos_key_of(pos);
            let copt = self.chunks.remove(&k);
            let mut chunk = copt.unwrap();
            chunk.uploadMesh(mdata);
            self.chunks.insert(k, chunk);
            proof {
                assert forall|q: ChunkPos| self.loaded(q) <==> pre.loaded(q) by {
                    if pos_key(q) == pos_key(pos) {
                        lemma_pos_key_injective(q, pos);
                    }
                }
                assert forall|q: ChunkPos|
                    q != pos && pre.loaded(q) implies self.chunk_at(q) == pre.chunk_at(q) by {
                    if pos_key(q) == pos_key(pos) {
                        lemma_pos_key_injective(q, pos);
                    }
                }
                lemma_pos_key_injective(pre.chunks@[k].pos, pos);
                assert(self.chunk_at(pos) == chunk);
                assert(chunk.blocks@ == pre.chunk_at(pos).blocks@);
                assert(pre.chunk_at(pos) == w0.chunk_at(pos));
                assert forall|j: int|
                    jj <= j < n implies {
                        &&& #[trigger] self.grid(w0.positions@[j]) == w0.grid(w0.positions@[j])
                        &&& self.chunk_at(w0.positions@[j]).pos == w0.chunk_at(
                            w0.positions@[j],
                        ).pos
                        &&& self.chunk_at(w0.positions@[j]).mesh == Some(all[j].1)
                    } by {
                    let q = w0.positions@[j];
                    if j == jj {
                        assert(self.grid(q) == chunk.blocks@);
                    } else {
                        if q == pos {
                            assert(w0.positions@[j] == w0.positions@[jj]);
                            assert(false);
                        }
                        assert(pre.loaded(q));
                        assert(self.chunk_at(q) == pre.chunk_at(q));
                        assert(pre.grid(q) == w0.grid(q));
                        assert(pre.chunk_at(q).mesh == Some(all[j].1));
                    }
                }
                assert forall|j: int|
                    0 <= j < jj implies #[trigger] self.chunk_at(w0.positions@[j]) == w0.chunk_at(
                        w0.positions@[j],
                    ) by {
                    let q = w0.positions@[j];
                    if q == pos {
                        assert(w0.positions@[j] == w0.positions@[jj]);
                        assert(false);
                    }
                }
                assert forall|kk: u64| #[trigger]
                    self.chunks@.contains_key(kk) implies {
                    let c = self.chunks@[kk];
                    &&& c.wf()
                    &&& pos_key(c.pos) == kk
                    &&& Self::pos_in_range(c.pos)
                    &&& self.positions@.contains(c.pos)
                } by {
                    if kk != k {
                        assert(pre.chunks@.contains_key(kk));
                        assert(self.chunks@[kk] == pre.chunks@[kk]);
                    } else {
                        assert(chunk.pos == pos);
                        let i0 = choose|i0: int|
                            0 <= i0 < pre.positions@.len() && pre.positions@[i0] == pos;
                        assert(self.positions@[i0] == pos);
                    }
                }
            }
        }
        proof {
            assert forall|q: ChunkPos|
                old(self).loaded(q) implies {
                    &&& #[trigger] self.grid(q) == old(self).grid(q)
                    &&& self.chunk_at(q).pos == old(self).chunk_at(q).pos
                } by {
                let c = old(self).chunks@[pos_key(q)];
                lemma_pos_key_injective(c.pos, q);
                assert(old(self).positions@.contains(q));
                let j = choose|j: int|
                    0 <= j < old(self).positions@.len() && old(self).positions@[j] == q;
            }
            assert forall|q: ChunkPos|
                old(self).loaded(q) implies (#[trigger] self.chunk_at(q).mesh) is Some
                    && mesh_matches(old(self).as_grids(), q, self.chunk_at(q).mesh->Some_0) by {
                let c = old(self).chunks@[pos_key(q)];
                lemma_pos_key_injective(c.pos, q);
                assert(old(self).positions@.contains(q));
                let j = choose|j: int|
                    0 <= j < old(self).positions@.len() && old(self).positions@[j] == q;
                assert(self.grid(w0.positions@[j]) == w0.grid(w0.positions@[j]));
                assert(self.chunk_at(q).mesh == Some(all[j].1));
                assert(mesh_matches(old(self).as_grids(), q, all[j].1));
            }
        }
    }
}

/// The populated grid holds, at every local coordinate, exactly the
/// block the height rule dictates.
pub proof fn lemma_populated_grid_block(x: int, y: int, z: int)
    requires
        0 <= x < CHUNKSIZE,
        0 <= y < CHUNKHEIGHT,
        0 <= z < CHUNKSIZE,
    ensures
        populated_grid()[flat_index(x, y, z)] == populated_block(y),
{
    lemma_flat_index_inverse(x, y, z);
}

/// Batches are deterministic: two worlds over the same loaded set
/// whose grids have both been populated by the terrain rule hold
/// exactly the same grids, so the meshes a remesh batch builds for any
/// position coincide. Running population followed by remeshing any
/// number of times therefore always produces identical mesh data.
pub proof fn lemma_batch_deterministic(
    w1: World,
    w2: World,
    p: ChunkPos,
    m1: MeshData,
    m2: MeshData,
)
    requires
        forall|q: ChunkPos| w1.loaded(q) <==> w2.loaded(q),
        forall|q: ChunkPos| w1.loaded(q) ==> #[trigger] w1.grid(q) == populated_grid(),
        forall|q: ChunkPos| w2.loaded(q) ==> #[trigger] w2.grid(q) == populated_grid(),
        mesh_matches(w1.as_grids(), p, m1),
        mesh_matches(w2.as_grids(), p, m2),
    ensures
        m1.vertices@ == m2.vertices@,
        m1.indices@ == m2.indices@,
{
    assert(w1.as_grids() =~= w2.as_grids());
    crate::mesh::lemma_mesh_deterministic(w1.as_grids(), p, m1, m2);
}

impl Chunk {
    /// Applies a mesh result: replaces this chunk's stored mesh and
    /// touches nothing else. Uploading the buffers to the GPU is the
    /// render boundary's job on the owning thread.
    #[allow(non_snake_case)]
    pub fn uploadMesh(&mut self, data: MeshData)
        ensures
            final(self).blocks@ == old(self).blocks@,
            final(self).pos == old(self).pos,
            final(self).mesh == Some(data),
    {
        self.mesh = Some(data);
    }

    /// Builds the surface mesh of this chunk against the world it is
    /// loaded in: every cell is visited in grid order and each of its
    /// six faces is emitted as one quad exactly when the neighbor
    /// (resolved across chunk boundaries) does not occlude it. The call
    /// is read-only; the result is a pure function of the loaded grids.
    #[verifier::loop_isolation(false)]
    #[verifier::rlimit(100)]
    pub fn remesh(&self, world: &World) -> (m: MeshData)
        requires
            world.wf(),
            self.wf(),
            world.loaded(self.pos),
            world.grid(self.pos) == self.blocks@,
        ensures
            mesh_matches(world.as_grids(), self.pos, m),
    {
        let ghost w = world.as_grids();
        let ghost p = self.pos;
        proof {
            let c = world.chunks@[pos_key(self.pos)];
            lemma_pos_key_injective(c.pos, self.pos);
            assert(World::pos_in_range(p));
            assert(w.contains_key(p) && w[p] == self.blocks@);
        }
        let mut verts: Vec<MeshVertex> = Vec::new();
        let mut inds: Vec<u32> = Vec::new();
        let mut next: u32 = 0;

        let mut x: usize = 0;
        while x < CHUNKSIZE
            invariant
                x <= CHUNKSIZE,
                mesh_built_up_to(w, p, verts@, inds@, 12288 * x),
                next as int == 4 * faces_up_to(w, p, 12288 * x).len(),
            decreases CHUNKSIZE - x,
        {
            let mut y: usize = 0;
            while y < CHUNKHEIGHT
                invariant
                    y <= CHUNKHEIGHT,
                    mesh_built_up_to(w, p, verts@, inds@, 12288 * x + 96 * y),
                    next as int == 4 * faces_up_to(w, p, 12288 * x + 96 * y).len(),
                decreases CHUNKHEIGHT - y,
            {
                let mut z: usize = 0;
                while z < CHUNKSIZE
                    invariant
                        z <= CHUNKSIZE,
                        mesh_built_up_to(w, p, verts@, inds@, 12288 * x + 96 * y + 6 * z),
                        next as int == 4 * faces_up_to(w, p, 12288 * x + 96 * y + 6 * z).len(),
                    decreases CHUNKSIZE - z,
                {
                    let ghost base: int = 12288 * x + 96 * y + 6 * z;
                    let id = self.get(x, y, z);
                    proof {
                        assert(base == face_slot(x as int, y as int, z as int, 0));
                        assert(id == block_in(w, p, x as int, y as int, z as int));
                    }
                    if id != BlockId::Air {
                        let mut d: usize = 0;
                        while d < 6
                            invariant
                                d <= 6,
                                mesh_built_up_to(w, p, verts@, inds@, base + d),
                                next as int == 4 * faces_up_to(w, p, base + d).len(),
                            decreases 6 - d,
                        {
                            let off = dir_at(d);
                            let ny: i32 = y as i32 + off.1;
                            let exposed: bool;
                            if ny < 0 || ny >= CHUNKHEIGHT as i32 {
                                exposed = true;
                            } else {
                                let nx0: i32 = x as i32 + off.0;
                                let nz0: i32 = z as i32 + off.2;
                                let mut cx: i32 = self.pos.x;
                                let mut cz: i32 = self.pos.z;
                                let mut lx: i32 = nx0;
                                let mut lz: i32 = nz0;
                                if nx0 < 0 {
                                    cx = cx - 1;
                                    lx = nx0 + CHUNKSIZE as i32;
                                } else if nx0 >= CHUNKSIZE as i32 {
                                    cx = cx + 1;
                                    lx = nx0 - CHUNKSIZE as i32;
                                }
                                if nz0 < 0 {
                                    cz = cz - 1;
                                    lz = nz0 + CHUNKSIZE as i32;
                                } else if nz0 >= CHUNKSIZE as i32 {
                                    cz = cz + 1;
                                    lz = nz0 - CHUNKSIZE as i32;
                                }
                                let np = ChunkPos { x: cx, z: cz };
                                proof {
                                    assert(np == resolve_chunk(
                                        p,
                                        (x as int) + (off.0 as int),
                                        (z as int) + (off.2 as int),
                                    ));
                                    assert(lx as int == wrap_local((x as int) + (off.0 as int)));
                                    assert(lz as int == wrap_local((z as int) + (off.2 as int)));
                                }
                                let nb = world.getBlockType(np, lx as usize, ny as usize, lz as usize);
                                exposed = nb == BlockId::Air;
                            }
                            proof {
                                assert(exposed == face_exposed(
                                    w, p, x as int, y as int, z as int, d as int,
                                ));
                                lemma_face_slot_inverse(x as int, y as int, z as int, d as int);
                                assert(base + d == face_slot(x as int, y as int, z as int, d as int));
                            }
                            if exposed {
                                proof {
                                    assert(slot_emits(w, p, base + d));
                                    lemma_faces_up_to_len(w, p, base + d);
                                }
                                let ghost verts0 = verts@;
                                let ghost inds0 = inds@;
                                let t0 = face_corner_at(d, 0);
                                let t1 = face_corner_at(d, 1);
                                let t2 = face_corner_at(d, 2);
                                let t3 = face_corner_at(d, 3);
                                let xb: i32 = 2 * (x as i32);
                                let yb: i32 = 2 * ((y as i32) - (CHUNKHEIGHT as i32));
                                let zb: i32 = 2 * (z as i32);
                                let lay: u8 = id.layer();
                                let v0 = MeshVertex {
                                    x2: xb + t0.0, y2: yb + t0.1, z2: zb + t0.2,
                                    u: t0.3, v: t0.4, layer: lay,
                                };
                                let v1 = MeshVertex {
                                    x2: xb + t1.0, y2: yb + t1.1, z2: zb + t1.2,
                                    u: t1.3, v: t1.4, layer: lay,
                                };
                                let v2 = MeshVertex {
                                    x2: xb + t2.0, y2: yb + t2.1, z2: zb + t2.2,
                                    u: t2.3, v: t2.4, layer: lay,
                                };
                                let v3 = MeshVertex {
                                    x2: xb + t3.0, y2: yb + t3.1, z2: zb + t3.2,
                                    u: t3.3, v: t3.4, layer: lay,
                                };
                                verts.push(v0);
                                verts.push(v1);
                                verts.push(v2);
                                verts.push(v3);
                                inds.push(next);
                                inds.push(next + 1);
                                inds.push(next + 2);
                                inds.push(next);
                                inds.push(next + 2);
                                inds.push(next + 3);
                                proof {
                                    let f = (x as int, y as int, z as int, d as int);
                                    let fs = faces_up_to(w, p, base + d);
                                    let fs2 = faces_up_to(w, p, base + d + 1);
                                    assert(fs2 == fs.push(f));
                                    assert(v0 == face_vertex(w, p, f, 0));
                                    assert(v1 == face_vertex(w, p, f, 1));
                                    assert(v2 == face_vertex(w, p, f, 2));
                                    assert(v3 == face_vertex(w, p, f, 3));
                                    assert forall|j: int| 0 <= j < verts@.len()
                                        implies #[trigger] verts@[j] == face_vertex(
                                            w, p, fs2[j / 4], j % 4,
                                        ) by {
                                        lemma_fundamental_div_mod(j, 4);
                                        lemma_mod_bound(j, 4);
                                        if j < 4 * fs.len() {
                                            assert(verts@[j] == verts0[j]);
                                            assert(j / 4 < fs.len());
                                            assert(fs2[j / 4] == fs[j / 4]);
                                        } else {
                                            assert(j / 4 == fs.len());
                                            assert(fs2[j / 4] == f);
                                        }
                                    }
                                    assert forall|j: int| 0 <= j < inds@.len()
                                        implies ((#[trigger] inds@[j]) as int) == 4 * (j / 6)
                                            + quad_offset(j % 6) by {
                                        lemma_fundamental_div_mod(j, 6);
                                        lemma_mod_bound(j, 6);
                                        if j < 6 * fs.len() {
                                            assert(inds@[j] == inds0[j]);
                                            assert(j / 6 < fs.len());
                                        } else {
                                            assert(j / 6 == fs.len());
                                        }
                                    }
                                    assert(mesh_built_up_to(w, p, verts@, inds@, base + d + 1));
                                }
                                next = next + 4;
                            } else {
                                proof {
                                    assert(!slot_emits(w, p, base + d));
                                    assert(faces_up_to(w, p, base + d + 1) == faces_up_to(
                                        w, p, base + d,
                                    ));
                                }
                            }
                            d = d + 1;
                        }
                    } else {
                        proof {
                            assert forall|dd: int| base <= dd < base + 6
                                implies !#[trigger] slot_emits(w, p, dd) by {
                                lemma_face_slot_inverse(x as int, y as int, z as int, dd - base);
                                assert(dd == face_slot(x as int, y as int, z as int, dd - base));
                            }
                            lemma_faces_up_to_constant(w, p, base, base + 6);
                        }
                    }
                    z = z + 1;
                }
                y = y + 1;
            }
            x = x + 1;
        }
        MeshData { vertices: verts, indices: inds }
    }
}

} // verus!
