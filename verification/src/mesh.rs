use vstd::prelude::*;

verus! {

use vstd::arithmetic::div_mod::{
    lemma_fundamental_div_mod,
    lemma_fundamental_div_mod_converse_div,
    lemma_fundamental_div_mod_converse_mod,
    lemma_mod_bound,
};

use crate::block::BlockId;
use crate::chunk::{
    flat_index, grid_x, grid_y, grid_z, lemma_flat_index_inverse, lemma_grid_decode, CHUNKHEIGHT,
    CHUNKSIZE, GRID_LEN,
};
use crate::coords::ChunkPos;

/// Read-only view of every loaded chunk's block grid, keyed by chunk
/// position: the input of the meshing algorithm.
pub type WorldGrids = Map<ChunkPos, Seq<BlockId>>;

/// Block at local `(x, y, z)` of the chunk at `p`. A position outside
/// the loaded set, or a coordinate outside the grid, reads as `Air`.
pub open spec fn block_in(w: WorldGrids, p: ChunkPos, x: int, y: int, z: int) -> BlockId {
    if w.contains_key(p) && 0 <= x < CHUNKSIZE && 0 <= y < CHUNKHEIGHT && 0 <= z < CHUNKSIZE {
        w[p][flat_index(x, y, z)]
    } else {
        BlockId::Air
    }
}

/// Unit offset of face direction `d`: back, front, left, right, down,
/// up.
pub open spec fn dir_offset(d: int) -> (int, int, int) {
    if d == 0 {
        (0, 0, -1)
    } else if d == 1 {
        (0, 0, 1)
    } else if d == 2 {
        (-1, 0, 0)
    } else if d == 3 {
        (1, 0, 0)
    } else if d == 4 {
        (0, -1, 0)
    } else {
        (0, 1, 0)
    }
}

/// Wraps a stepped local coordinate back into `[0, CHUNKSIZE)` after a
/// chunk-boundary crossing. Steps are at most one block, so one
/// correction suffices.
pub open spec fn wrap_local(n: int) -> int {
    if n < 0 {
        n + CHUNKSIZE
    } else if n >= CHUNKSIZE {
        n - CHUNKSIZE
    } else {
        n
    }
}

/// Chunk holding the neighbor cell whose unwrapped local coordinates
/// are `(nx, _, nz)` relative to chunk `p`: stepping out of the local
/// range crosses into the adjacent chunk along that axis.
pub open spec fn resolve_chunk(p: ChunkPos, nx: int, nz: int) -> ChunkPos {
    ChunkPos {
        x: if nx < 0 {
            (p.x - 1) as i32
        } else if nx >= CHUNKSIZE {
            (p.x + 1) as i32
        } else {
            p.x
        },
        z: if nz < 0 {
            (p.z - 1) as i32
        } else if nz >= CHUNKSIZE {
            (p.z + 1) as i32
        } else {
            p.z
        },
    }
}

/// The face of the block at `(x, y, z)` in direction `d` is exposed iff
/// its neighbor lies outside the world's vertical range, or resolves
/// (across chunk boundaries where needed) to `Air` — which also covers
/// neighbors in unloaded chunks.
pub open spec fn face_exposed(w: WorldGrids, p: ChunkPos, x: int, y: int, z: int, d: int) -> bool {
    let off = dir_offset(d);
    let ny = y + off.1;
    if !(0 <= ny < CHUNKHEIGHT) {
        true
    } else {
        let np = resolve_chunk(p, x + off.0, z + off.2);
        block_in(w, np, wrap_local(x + off.0), ny, wrap_local(z + off.2)) == BlockId::Air
    }
}

/// The resolved neighbor of `(x, y, z)` in direction `d` lies in the
/// vertical range and holds a solid block. This is the exact negation
/// of `face_exposed`.
pub open spec fn neighbor_solid(w: WorldGrids, p: ChunkPos, x: int, y: int, z: int, d: int) -> bool {
    let off = dir_offset(d);
    let ny = y + off.1;
    &&& 0 <= ny < CHUNKHEIGHT
    &&& block_in(
        w,
        resolve_chunk(p, x + off.0, z + off.2),
        wrap_local(x + off.0),
        ny,
        wrap_local(z + off.2),
    ).is_solid()
}

/// A face is part of the mesh iff its own block is solid and the face
/// is exposed.
pub open spec fn face_emitted(w: WorldGrids, p: ChunkPos, x: int, y: int, z: int, d: int) -> bool {
    block_in(w, p, x, y, z).is_solid() && face_exposed(w, p, x, y, z, d)
}

/// Total number of face slots one chunk visit covers: six directions
/// for every cell, visited in grid order.
pub const FACE_SLOTS: usize = 16 * 128 * 16 * 6;

/// Face slot of direction `d` at cell `(x, y, z)`.
pub open spec fn face_slot(x: int, y: int, z: int, d: int) -> int {
    flat_index(x, y, z) * 6 + d
}

pub open spec fn slot_x(k: int) -> int {
    grid_x(k / 6)
}

pub open spec fn slot_y(k: int) -> int {
    grid_y(k / 6)
}

pub open spec fn slot_z(k: int) -> int {
    grid_z(k / 6)
}

pub open spec fn slot_d(k: int) -> int {
    k % 6
}

/// The face a slot stands for, as `(x, y, z, d)`.
pub open spec fn slot_face(k: int) -> (int, int, int, int) {
    (slot_x(k), slot_y(k), slot_z(k), slot_d(k))
}

/// Whether visiting slot `k` emits its face.
pub open spec fn slot_emits(w: WorldGrids, p: ChunkPos, k: int) -> bool {
    face_emitted(w, p, slot_x(k), slot_y(k), slot_z(k), slot_d(k))
}

/// The faces emitted by the first `k` slots, in visiting order.
pub open spec fn faces_up_to(w: WorldGrids, p: ChunkPos, k: int) -> Seq<(int, int, int, int)>
    decreases k,
{
    if k <= 0 {
        Seq::empty()
    } else if slot_emits(w, p, k - 1) {
        faces_up_to(w, p, k - 1).push(slot_face(k - 1))
    } else {
        faces_up_to(w, p, k - 1)
    }
}

/// Every face of the chunk at `p` that the culling visit emits, in
/// visiting order.
pub open spec fn mesh_faces(w: WorldGrids, p: ChunkPos) -> Seq<(int, int, int, int)> {
    faces_up_to(w, p, FACE_SLOTS as int)
}

pub proof fn lemma_faces_up_to_len(w: WorldGrids, p: ChunkPos, k: int)
    requires
        k >= 0,
    ensures
        faces_up_to(w, p, k).len() <= k,
    decreases k,
{
    if k > 0 {
        lemma_faces_up_to_len(w, p, k - 1);
    }
}

/// A run of slots none of which emits leaves the face sequence
/// unchanged.
pub proof fn lemma_faces_up_to_constant(w: WorldGrids, p: ChunkPos, k1: int, k2: int)
    requires
        0 <= k1 <= k2,
        forall|k: int| k1 <= k < k2 ==> !#[trigger] slot_emits(w, p, k),
    ensures
        faces_up_to(w, p, k2) == faces_up_to(w, p, k1),
    decreases k2 - k1,
{
    if k2 > k1 {
        lemma_faces_up_to_constant(w, p, k1, k2 - 1);
    }
}

/// Face slots of in-range faces are in range and decode back to their
/// coordinates.
pub proof fn lemma_face_slot_inverse(x: int, y: int, z: int, d: int)
    requires
        0 <= x < CHUNKSIZE,
        0 <= y < CHUNKHEIGHT,
        0 <= z < CHUNKSIZE,
        0 <= d < 6,
    ensures
        0 <= face_slot(x, y, z, d) < FACE_SLOTS,
        slot_face(face_slot(x, y, z, d)) == (x, y, z, d),
{
    lemma_flat_index_inverse(x, y, z);
    let b = flat_index(x, y, z);
    let k = face_slot(x, y, z, d);
    lemma_fundamental_div_mod_converse_div(k, 6, b, d);
    lemma_fundamental_div_mod_converse_mod(k, 6, b, d);
}

/// Every slot decodes to in-range face coordinates that encode back to
/// it.
pub proof fn lemma_slot_decode(k: int)
    requires
        0 <= k < FACE_SLOTS,
    ensures
        0 <= slot_x(k) < CHUNKSIZE,
        0 <= slot_y(k) < CHUNKHEIGHT,
        0 <= slot_z(k) < CHUNKSIZE,
        0 <= slot_d(k) < 6,
        face_slot(slot_x(k), slot_y(k), slot_z(k), slot_d(k)) == k,
{
    lemma_fundamental_div_mod(k, 6);
    lemma_mod_bound(k, 6);
    let b = k / 6;
    lemma_grid_decode(b);
}

/// A face value occurs among the first `n` slots' output exactly when
/// some slot below `n` emits it.
pub proof fn lemma_faces_up_to_membership(
    w: WorldGrids,
    p: ChunkPos,
    f: (int, int, int, int),
    n: int,
)
    requires
        n >= 0,
    ensures
        faces_up_to(w, p, n).contains(f) <==> exists|k: int|
            0 <= k < n && #[trigger] slot_emits(w, p, k) && slot_face(k) == f,
    decreases n,
{
    if n > 0 {
        lemma_faces_up_to_membership(w, p, f, n - 1);
        let prev = faces_up_to(w, p, n - 1);
        let cur = faces_up_to(w, p, n);
        if slot_emits(w, p, n - 1) {
            assert(cur == prev.push(slot_face(n - 1)));
            if f == slot_face(n - 1) {
                assert(cur[cur.len() - 1] == f);
                assert(cur.contains(f));
            }
            if cur.contains(f) && f != slot_face(n - 1) {
                let i = choose|i: int| 0 <= i < cur.len() && cur[i] == f;
                assert(prev[i] == f);
                assert(prev.contains(f));
            }
            if prev.contains(f) {
                let i = choose|i: int| 0 <= i < prev.len() && prev[i] == f;
                assert(cur[i] == f);
                assert(cur.contains(f));
            }
        }
    }
}

/// A face stands in the mesh exactly when its block is solid and the
/// face is exposed. Everything the mesh shows or hides reduces to this
/// equivalence.
pub proof fn lemma_mesh_face_iff_emitted(
    w: WorldGrids,
    p: ChunkPos,
    x: int,
    y: int,
    z: int,
    d: int,
)
    requires
        0 <= x < CHUNKSIZE,
        0 <= y < CHUNKHEIGHT,
        0 <= z < CHUNKSIZE,
        0 <= d < 6,
    ensures
        mesh_faces(w, p).contains((x, y, z, d)) <==> face_emitted(w, p, x, y, z, d),
{
    let f = (x, y, z, d);
    lemma_face_slot_inverse(x, y, z, d);
    lemma_faces_up_to_membership(w, p, f, FACE_SLOTS as int);
    let k0 = face_slot(x, y, z, d);
    if face_emitted(w, p, x, y, z, d) {
        assert(slot_emits(w, p, k0) && slot_face(k0) == f);
    }
    if mesh_faces(w, p).contains(f) {
        let k = choose|k: int|
            0 <= k < FACE_SLOTS && #[trigger] slot_emits(w, p, k) && slot_face(k) == f;
        lemma_slot_decode(k);
        assert(k == face_slot(x, y, z, d));
    }
}

/// One vertex of a chunk mesh. Positions sit on half-block boundaries,
/// so they are stored doubled: `x2` is twice the world-space x of the
/// vertex within its chunk, and likewise for `y2` and `z2`. Texture
/// coordinates are the unit-square corners `0` or `1`, and `layer`
/// selects the block's texture in the texture array.
#[derive(Copy, Clone, PartialEq, Eq, Structural, Debug)]
pub struct MeshVertex {
    pub x2: i32,
    pub y2: i32,
    pub z2: i32,
    pub u: u8,
    pub v: u8,
    pub layer: u8,
}

/// Surface geometry built for one chunk: an ordered vertex sequence and
/// an ordered triangle index sequence, four vertices and six indices per
/// exposed face. A mesh with no faces is a valid, drawable no-op.
pub struct MeshData {
    pub vertices: Vec<MeshVertex>,
    pub indices: Vec<u32>,
}

/// Corner `c` of the unit-cube face template for direction `d`:
/// doubled position offsets in `{-1, 1}` and the texture corner, as
/// `(x2, y2, z2, u, v)`.
pub open spec fn face_corner(d: int, c: int) -> (int, int, int, int, int) {
    if d == 0 {
        // back (-Z)
        if c == 0 { (-1, -1, -1, 0, 0) }
        else if c == 1 { (1, -1, -1, 1, 0) }
        else if c == 2 { (1, 1, -1, 1, 1) }
        else { (-1, 1, -1, 0, 1) }
    } else if d == 1 {
        // front (+Z)
        if c == 0 { (-1, -1, 1, 0, 0) }
        else if c == 1 { (1, -1, 1, 1, 0) }
        else if c == 2 { (1, 1, 1, 1, 1) }
        else { (-1, 1, 1, 0, 1) }
    } else if d == 2 {
        // left (-X)
        if c == 0 { (-1, -1, -1, 0, 0) }
        else if c == 1 { (-1, -1, 1, 1, 0) }
        else if c == 2 { (-1, 1, 1, 1, 1) }
        else { (-1, 1, -1, 0, 1) }
    } else if d == 3 {
        // right (+X)
        if c == 0 { (1, -1, -1, 0, 0) }
        else if c == 1 { (1, -1, 1, 1, 0) }
        else if c == 2 { (1, 1, 1, 1, 1) }
        else { (1, 1, -1, 0, 1) }
    } else if d == 4 {
        // bottom (-Y)
        if c == 0 { (-1, -1, -1, 0, 1) }
        else if c == 1 { (1, -1, -1, 1, 1) }
        else if c == 2 { (1, -1, 1, 1, 0) }
        else { (-1, -1, 1, 0, 0) }
    } else {
        // top (+Y)
        if c == 0 { (-1, 1, -1, 0, 1) }
        else if c == 1 { (1, 1, -1, 1, 1) }
        else if c == 2 { (1, 1, 1, 1, 0) }
        else { (-1, 1, 1, 0, 0) }
    }
}

/// Corner `c` of face `f`: the template corner translated by the
/// block's local coordinates, with y biased down by the chunk height
/// (the builder's origin convention places the visible world below its
/// local zero), and tagged with the block's texture layer.
pub open spec fn face_vertex(
    w: WorldGrids,
    p: ChunkPos,
    f: (int, int, int, int),
    c: int,
) -> MeshVertex {
    let t = face_corner(f.3, c);
    MeshVertex {
        x2: (2 * f.0 + t.0) as i32,
        y2: (2 * (f.1 - CHUNKHEIGHT) + t.1) as i32,
        z2: (2 * f.2 + t.2) as i32,
        u: t.3 as u8,
        v: t.4 as u8,
        layer: block_in(w, p, f.0, f.1, f.2).spec_layer(),
    }
}

/// Index `j` of a quad's six triangle indices, relative to the quad's
/// base vertex: two triangles `(0, 1, 2)` and `(0, 2, 3)`.
pub open spec fn quad_offset(j: int) -> int {
    if j == 0 { 0 }
    else if j == 1 { 1 }
    else if j == 2 { 2 }
    else if j == 3 { 0 }
    else if j == 4 { 2 }
    else { 3 }
}

/// The vertex and index sequences are exactly those of the faces the
/// first `k` slots emit: four template corners per face in face order,
/// and six indices per face against a base of four per quad.
pub open spec fn mesh_built_up_to(
    w: WorldGrids,
    p: ChunkPos,
    vs: Seq<MeshVertex>,
    ix: Seq<u32>,
    k: int,
) -> bool {
    let fs = faces_up_to(w, p, k);
    &&& vs.len() == 4 * fs.len()
    &&& ix.len() == 6 * fs.len()
    &&& forall|j: int|
        0 <= j < vs.len() ==> #[trigger] vs[j] == face_vertex(w, p, fs[j / 4], j % 4)
    &&& forall|j: int|
        0 <= j < ix.len() ==> (#[trigger] ix[j]) as int == 4 * (j / 6) + quad_offset(j % 6)
}

/// `m` is exactly the mesh of the chunk at `p` under the grids `w`.
pub open spec fn mesh_matches(w: WorldGrids, p: ChunkPos, m: MeshData) -> bool {
    mesh_built_up_to(w, p, m.vertices@, m.indices@, FACE_SLOTS as int)
}

/// Full interior occlusion: a block all six of whose face-neighbors are
/// solid (resolved across chunk boundaries where needed) contributes no
/// face to the mesh.
pub proof fn lemma_occluded_block_has_no_face(w: WorldGrids, p: ChunkPos, x: int, y: int, z: int)
    requires
        0 <= x < CHUNKSIZE,
        0 <= y < CHUNKHEIGHT,
        0 <= z < CHUNKSIZE,
        forall|d: int| 0 <= d < 6 ==> #[trigger] neighbor_solid(w, p, x, y, z, d),
    ensures
        forall|d: int| 0 <= d < 6 ==> !mesh_faces(w, p).contains((x, y, z, d)),
{
    assert forall|d: int| 0 <= d < 6 implies !mesh_faces(w, p).contains((x, y, z, d)) by {
        lemma_mesh_face_iff_emitted(w, p, x, y, z, d);
        assert(neighbor_solid(w, p, x, y, z, d));
        assert(!face_exposed(w, p, x, y, z, d));
    }
}

/// A solid block on the outer boundary of the loaded set, or at the
/// world's vertical extremes, always has its outward face in the mesh:
/// the neighbor in direction `d` lies beyond the vertical range or in a
/// chunk absent from the loaded set.
pub proof fn lemma_boundary_face_present(
    w: WorldGrids,
    p: ChunkPos,
    x: int,
    y: int,
    z: int,
    d: int,
)
    requires
        0 <= x < CHUNKSIZE,
        0 <= y < CHUNKHEIGHT,
        0 <= z < CHUNKSIZE,
        0 <= d < 6,
        block_in(w, p, x, y, z).is_solid(),
        ({
            let off = dir_offset(d);
            !(0 <= y + off.1 < CHUNKHEIGHT) || !w.contains_key(
                resolve_chunk(p, x + off.0, z + off.2),
            )
        }),
    ensures
        mesh_faces(w, p).contains((x, y, z, d)),
{
    lemma_mesh_face_iff_emitted(w, p, x, y, z, d);
    assert(face_exposed(w, p, x, y, z, d));
}

/// Meshing is deterministic: two meshes built for the same chunk over
/// the same grids are identical.
pub proof fn lemma_mesh_deterministic(w: WorldGrids, p: ChunkPos, m1: MeshData, m2: MeshData)
    requires
        mesh_matches(w, p, m1),
        mesh_matches(w, p, m2),
    ensures
        m1.vertices@ == m2.vertices@,
        m1.indices@ == m2.indices@,
{
    assert(m1.vertices@ =~= m2.vertices@);
    assert forall|j: int| 0 <= j < m1.indices@.len() implies m1.indices@[j] == m2.indices@[j] by {
        assert(m1.indices@[j] as int == 4 * (j / 6) + quad_offset(j % 6));
        assert(m2.indices@[j] as int == 4 * (j / 6) + quad_offset(j % 6));
    }
    assert(m1.indices@ =~= m2.indices@);
}

/// Mesh integrity: with `F` faces the mesh has `4 F` vertices, `6 F`
/// indices, and every index points at one of its vertices.
pub proof fn lemma_mesh_integrity(w: WorldGrids, p: ChunkPos, m: MeshData)
    requires
        mesh_matches(w, p, m),
    ensures
        m.vertices@.len() == 4 * mesh_faces(w, p).len(),
        m.indices@.len() == 6 * mesh_faces(w, p).len(),
        forall|j: int|
            0 <= j < m.indices@.len() ==> ((#[trigger] m.indices@[j]) as int) < m.vertices@.len(),
{
    let fs = mesh_faces(w, p);
    assert forall|j: int|
        0 <= j < m.indices@.len() implies ((#[trigger] m.indices@[j]) as int) < m.vertices@.len() by {
        assert(m.indices@[j] as int == 4 * (j / 6) + quad_offset(j % 6));
        lemma_fundamental_div_mod(j, 6);
        lemma_mod_bound(j, 6);
        assert(j / 6 < fs.len());
    }
}

/// Executable mirror of `dir_offset`.
pub(crate) fn dir_at(d: usize) -> (r: (i32, i32, i32))
    requires
        d < 6,
    ensures
        r.0 as int == dir_offset(d as int).0,
        r.1 as int == dir_offset(d as int).1,
        r.2 as int == dir_offset(d as int).2,
{
    if d == 0 {
        (0, 0, -1)
    } else if d == 1 {
        (0, 0, 1)
    } else if d == 2 {
        (-1, 0, 0)
    } else if d == 3 {
        (1, 0, 0)
    } else if d == 4 {
        (0, -1, 0)
    } else {
        (0, 1, 0)
    }
}

/// Executable mirror of `face_corner`.
pub(crate) fn face_corner_at(d: usize, c: usize) -> (r: (i32, i32, i32, u8, u8))
    requires
        d < 6,
        c < 4,
    ensures
        r.0 as int == face_corner(d as int, c as int).0,
        r.1 as int == face_corner(d as int, c as int).1,
        r.2 as int == face_corner(d as int, c as int).2,
        r.3 as int == face_corner(d as int, c as int).3,
        r.4 as int == face_corner(d as int, c as int).4,
{
    if d == 0 {
        if c == 0 { (-1, -1, -1, 0, 0) }
        else if c == 1 { (1, -1, -1, 1, 0) }
        else if c == 2 { (1, 1, -1, 1, 1) }
        else { (-1, 1, -1, 0, 1) }
    } else if d == 1 {
        if c == 0 { (-1, -1, 1, 0, 0) }
        else if c == 1 { (1, -1, 1, 1, 0) }
        else if c == 2 { (1, 1, 1, 1, 1) }
        else { (-1, 1, 1, 0, 1) }
    } else if d == 2 {
        if c == 0 { (-1, -1, -1, 0, 0) }
        else if c == 1 { (-1, -1, 1, 1, 0) }
        else if c == 2 { (-1, 1, 1, 1, 1) }
        else { (-1, 1, -1, 0, 1) }
    } else if d == 3 {
        if c == 0 { (1, -1, -1, 0, 0) }
        else if c == 1 { (1, -1, 1, 1, 0) }
        else if c == 2 { (1, 1, 1, 1, 1) }
        else { (1, 1, -1, 0, 1) }
    } else if d == 4 {
        if c == 0 { (-1, -1, -1, 0, 1) }
        else if c == 1 { (1, -1, -1, 1, 1) }
        else if c == 2 { (1, -1, 1, 1, 0) }
        else { (-1, -1, 1, 0, 0) }
    } else {
        if c == 0 { (-1, 1, -1, 0, 1) }
        else if c == 1 { (1, 1, -1, 1, 1) }
        else if c == 2 { (1, 1, 1, 1, 0) }
        else { (-1, 1, 1, 0, 0) }
    }
}

} // verus!
