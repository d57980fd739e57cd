use vstd::prelude::*;

verus! {

use vstd::arithmetic::div_mod::{
    lemma_fundamental_div_mod,
    lemma_fundamental_div_mod_converse_div,
    lemma_fundamental_div_mod_converse_mod,
    lemma_mod_bound,
};

use crate::block::BlockId;
use crate::coords::ChunkPos;
use crate::mesh::MeshData;

/// Horizontal edge length of a chunk, in blocks.
pub const CHUNKSIZE: usize = 16;

/// Fixed vertical extent of every chunk, in blocks. The world has no
/// vertical chunking: blocks above or below this range do not exist.
pub const CHUNKHEIGHT: usize = 128;

/// Number of cells in one chunk's dense block grid.
pub const GRID_LEN: usize = 16 * 128 * 16;

/// Position of local coordinate `(x, y, z)` in the flat block grid;
/// `x` is the outermost axis and `z` the innermost.
pub open spec fn flat_index(x: int, y: int, z: int) -> int {
    (x * (CHUNKHEIGHT as int) + y) * (CHUNKSIZE as int) + z
}

/// Local x of flat grid position `i`.
pub open spec fn grid_x(i: int) -> int {
    i / ((CHUNKHEIGHT * CHUNKSIZE) as int)
}

/// Local y of flat grid position `i`.
pub open spec fn grid_y(i: int) -> int {
    (i / (CHUNKSIZE as int)) % (CHUNKHEIGHT as int)
}

/// Local z of flat grid position `i`.
pub open spec fn grid_z(i: int) -> int {
    i % (CHUNKSIZE as int)
}

/// `flat_index` of in-range coordinates stays in the grid and projects
/// back to the coordinates it was built from.
pub proof fn lemma_flat_index_inverse(x: int, y: int, z: int)
    requires
        0 <= x < CHUNKSIZE,
        0 <= y < CHUNKHEIGHT,
        0 <= z < CHUNKSIZE,
    ensures
        0 <= flat_index(x, y, z) < GRID_LEN,
        grid_x(flat_index(x, y, z)) == x,
        grid_y(flat_index(x, y, z)) == y,
        grid_z(flat_index(x, y, z)) == z,
{
    let i = flat_index(x, y, z);
    let c = x * (CHUNKHEIGHT as int) + y;
    lemma_fundamental_div_mod_converse_div(i, CHUNKSIZE as int, c, z);
    lemma_fundamental_div_mod_converse_mod(i, CHUNKSIZE as int, c, z);
    lemma_fundamental_div_mod_converse_div(c, CHUNKHEIGHT as int, x, y);
    lemma_fundamental_div_mod_converse_mod(c, CHUNKHEIGHT as int, x, y);
    lemma_fundamental_div_mod_converse_div(
        i,
        (CHUNKHEIGHT * CHUNKSIZE) as int,
        x,
        y * (CHUNKSIZE as int) + z,
    );
}

/// Every flat grid position decodes to in-range coordinates that encode
/// back to it.
pub proof fn lemma_grid_decode(i: int)
    requires
        0 <= i < GRID_LEN,
    ensures
        0 <= grid_x(i) < CHUNKSIZE,
        0 <= grid_y(i) < CHUNKHEIGHT,
        0 <= grid_z(i) < CHUNKSIZE,
        flat_index(grid_x(i), grid_y(i), grid_z(i)) == i,
{
    lemma_fundamental_div_mod(i, CHUNKSIZE as int);
    lemma_mod_bound(i, CHUNKSIZE as int);
    let q = i / (CHUNKSIZE as int);
    let z = i % (CHUNKSIZE as int);
    lemma_fundamental_div_mod(q, CHUNKHEIGHT as int);
    lemma_mod_bound(q, CHUNKHEIGHT as int);
    let x = q / (CHUNKHEIGHT as int);
    let y = q % (CHUNKHEIGHT as int);
    assert(i == q * (CHUNKSIZE as int) + z);
    assert(q == x * (CHUNKHEIGHT as int) + y);
    assert(i == x * ((CHUNKHEIGHT * CHUNKSIZE) as int) + (y * (CHUNKSIZE as int) + z)) by {
        assert((x * (CHUNKHEIGHT as int) + y) * (CHUNKSIZE as int)
            == x * ((CHUNKHEIGHT * CHUNKSIZE) as int) + y * (CHUNKSIZE as int)) by (nonlinear_arith);
    }
    lemma_fundamental_div_mod_converse_div(
        i,
        (CHUNKHEIGHT * CHUNKSIZE) as int,
        x,
        y * (CHUNKSIZE as int) + z,
    );
}

/// One horizontal cell of the world: a dense grid of block types plus
/// the most recent mesh built for it, if any. The grid has fixed size
/// `GRID_LEN` (the `wf` invariant) and is never resized.
pub struct Chunk {
    /// Block grid, indexed by `flat_index`.
    pub blocks: Vec<BlockId>,
    /// The cell of the world this chunk occupies.
    pub pos: ChunkPos,
    /// Most recently applied mesh, or `None` if never meshed.
    pub mesh: Option<MeshData>,
}

impl Chunk {
    /// The grid always holds exactly one block per local coordinate.
    pub open spec fn wf(self) -> bool {
        self.blocks@.len() == GRID_LEN
    }

    /// Block stored at in-range local coordinates.
    pub open spec fn spec_block(self, x: int, y: int, z: int) -> BlockId {
        self.blocks@[flat_index(x, y, z)]
    }

    /// A fresh chunk for `pos`: entirely `Air`, never meshed.
    pub fn new(pos: ChunkPos) -> (c: Chunk)
        ensures
            c.wf(),
            c.pos == pos,
            c.mesh is None,
            forall|i: int| 0 <= i < GRID_LEN ==> c.blocks@[i] == BlockId::Air,
    {
        Chunk { blocks: vec![BlockId::Air; GRID_LEN], pos, mesh: None }
    }

    /// Flat grid position of `(x, y, z)`, computed without overflow.
    fn index_of(x: usize, y: usize, z: usize) -> (i: usize)
        requires
            x < CHUNKSIZE,
            y < CHUNKHEIGHT,
            z < CHUNKSIZE,
        ensures
            i == flat_index(x as int, y as int, z as int),
            i < GRID_LEN,
    {
        (x * CHUNKHEIGHT + y) * CHUNKSIZE + z
    }

    /// Overwrites the block at one local coordinate, leaving every other
    /// cell, the position and the mesh unchanged.
    pub fn set(&mut self, x: usize, y: usize, z: usize, block: BlockId)
        requires
            old(self).wf(),
            x < CHUNKSIZE,
            y < CHUNKHEIGHT,
            z < CHUNKSIZE,
        ensures
            final(self).wf(),
            final(self).blocks@ == old(self).blocks@.update(
                flat_index(x as int, y as int, z as int),
                block,
            ),
            final(self).pos == old(self).pos,
            final(self).mesh == old(self).mesh,
    {
        let i: usize = Self::index_of(x, y, z);
        self.blocks[i] = block;
    }

    /// Reads the block at one local coordinate.
    pub fn get(&self, x: usize, y: usize, z: usize) -> (b: BlockId)
        requires
            self.wf(),
            x < CHUNKSIZE,
            y < CHUNKHEIGHT,
            z < CHUNKSIZE,
        ensures
            b == self.spec_block(x as int, y as int, z as int),
    {
        let i: usize = Self::index_of(x, y, z);
        self.blocks[i]
    }

    /// The most recently applied mesh, if any.
    pub fn mesh_data(&self) -> (m: &Option<MeshData>)
        ensures
            m == &self.mesh,
    {
        &self.mesh
    }
}

} // verus!
