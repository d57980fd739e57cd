use voxel_world::block::BlockId;
use voxel_world::chunk::{Chunk, CHUNKHEIGHT, CHUNKSIZE};
use voxel_world::coords::ChunkPos;
use voxel_world::mesh::MeshData;
use voxel_world::world::World;

fn pos(x: i32, z: i32) -> ChunkPos {
    ChunkPos { x, z }
}

/// A world holding exactly the given chunks and nothing else.
fn world_of(chunks: Vec<Chunk>) -> World {
    let mut w = World::new();
    for x in -1..=1 {
        for z in -1..=1 {
            w.remove(pos(x, z));
        }
    }
    for c in chunks {
        let p = ChunkPos { x: c.pos.x, z: c.pos.z };
        w.insert(p, c);
    }
    w
}

fn mesh_of(w: &World, p: ChunkPos) -> MeshData {
    let c = w.get_chunk(p).unwrap();
    c.remesh(w)
}

fn face_count(m: &MeshData) -> usize {
    assert_eq!(m.vertices.len() % 4, 0);
    assert_eq!(m.indices.len() % 6, 0);
    assert_eq!(m.indices.len() / 6, m.vertices.len() / 4);
    m.vertices.len() / 4
}

fn check_integrity(m: &MeshData) {
    // 4 vertices and 6 indices per face, every index below the vertex count
    let faces = face_count(m);
    assert_eq!(m.vertices.len(), 4 * faces);
    assert_eq!(m.indices.len(), 6 * faces);
    for &ix in &m.indices {
        assert!((ix as usize) < m.vertices.len());
    }
    // each quad uses the fixed two-triangle pattern over its own base
    for q in 0..faces {
        let base = (4 * q) as u32;
        let got = &m.indices[6 * q..6 * q + 6];
        assert_eq!(got, &[base, base + 1, base + 2, base, base + 2, base + 3]);
    }
}

#[test]
fn empty_chunk_yields_empty_mesh() {
    let w = world_of(vec![Chunk::new(pos(0, 0))]);
    let m = mesh_of(&w, pos(0, 0));
    assert_eq!(m.vertices.len(), 0);
    assert_eq!(m.indices.len(), 0);
}

#[test]
fn single_block_emits_six_quads() {
    let mut c = Chunk::new(pos(0, 0));
    c.set(5, 64, 5, BlockId::Dirt);
    let w = world_of(vec![c]);
    let m = mesh_of(&w, pos(0, 0));
    assert_eq!(face_count(&m), 6);
    check_integrity(&m);
    // first face visited is the back (-Z) quad; its first corner is the
    // unit-cube template corner translated by the block, with y biased
    // down by the chunk height; doubled coordinates, layer 0 for dirt
    let v = &m.vertices[0];
    assert_eq!((v.x2, v.y2, v.z2), (2 * 5 - 1, 2 * (64 - 128) - 1, 2 * 5 - 1));
    assert_eq!((v.u, v.v), (0, 0));
    assert_eq!(v.layer, 0);
    // every vertex carries the dirt layer
    for v in &m.vertices {
        assert_eq!(v.layer, 0);
    }
}

#[test]
fn block_layers_select_textures() {
    assert_eq!(BlockId::Dirt.layer(), 0);
    assert_eq!(BlockId::Grass.layer(), 1);
    assert_eq!(BlockId::Air.layer(), 3);
    let mut c = Chunk::new(pos(0, 0));
    c.set(1, 1, 1, BlockId::Grass);
    let w = world_of(vec![c]);
    let m = mesh_of(&w, pos(0, 0));
    for v in &m.vertices {
        assert_eq!(v.layer, 1);
    }
}

#[test]
fn interior_block_is_fully_occluded() {
    // a 3x3x3 solid cube: the center block has six solid neighbors and
    // contributes nothing; the mesh is exactly the cube's surface
    let mut c = Chunk::new(pos(0, 0));
    for x in 5..8 {
        for y in 60..63 {
            for z in 5..8 {
                c.set(x, y, z, BlockId::Dirt);
            }
        }
    }
    let w = world_of(vec![c]);
    let m = mesh_of(&w, pos(0, 0));
    // 6 cube sides of 3x3 quads each
    assert_eq!(face_count(&m), 54);
    check_integrity(&m);
}

#[test]
fn cross_chunk_neighbors_cull_faces() {
    // two blocks touching across a chunk boundary hide each other's
    // facing quads
    let mut a = Chunk::new(pos(0, 0));
    a.set(CHUNKSIZE - 1, 10, 3, BlockId::Dirt);
    let mut b = Chunk::new(pos(1, 0));
    b.set(0, 10, 3, BlockId::Grass);
    let w = world_of(vec![a, b]);
    assert_eq!(face_count(&mesh_of(&w, pos(0, 0))), 5);
    assert_eq!(face_count(&mesh_of(&w, pos(1, 0))), 5);
}

#[test]
fn unloaded_neighbors_and_vertical_extremes_expose_faces() {
    // a block in each corner column at the bottom of a lone chunk: the
    // neighbors below and toward the two unloaded chunks are absent, so
    // those faces always render; alone it shows all six
    let mut c = Chunk::new(pos(0, 0));
    c.set(0, 0, 0, BlockId::Dirt);
    let w = world_of(vec![c]);
    let m = mesh_of(&w, pos(0, 0));
    assert_eq!(face_count(&m), 6);

    // a full floor: tops and bottoms render, plus the outer rim
    let mut c = Chunk::new(pos(0, 0));
    for x in 0..CHUNKSIZE {
        for z in 0..CHUNKSIZE {
            c.set(x, 0, z, BlockId::Dirt);
        }
    }
    let w = world_of(vec![c]);
    let m = mesh_of(&w, pos(0, 0));
    // 256 tops + 256 bottoms + 4 * 16 rim faces
    assert_eq!(face_count(&m), 256 + 256 + 64);
    check_integrity(&m);
}

#[test]
fn cavity_scenario_exact_face_count() {
    // a chunk entirely solid except one interior air cell: the mesh is
    // the chunk's outer shell plus the cavity's six inward walls
    let mut c = Chunk::new(pos(0, 0));
    for x in 0..CHUNKSIZE {
        for y in 0..CHUNKHEIGHT {
            for z in 0..CHUNKSIZE {
                c.set(x, y, z, BlockId::Dirt);
            }
        }
    }
    c.set(8, 64, 8, BlockId::Air);
    let w = world_of(vec![c]);
    let m = mesh_of(&w, pos(0, 0));
    let shell = 2 * CHUNKSIZE * CHUNKSIZE + 4 * CHUNKSIZE * CHUNKHEIGHT;
    assert_eq!(face_count(&m), shell + 6);
    check_integrity(&m);
}

#[test]
fn remesh_is_deterministic() {
    let mut c = Chunk::new(pos(0, 0));
    for x in 0..CHUNKSIZE {
        for y in 0..40 {
            for z in 0..CHUNKSIZE {
                if (x * y + z) % 5 != 0 {
                    c.set(x, y, z, BlockId::Grass);
                }
            }
        }
    }
    let w = world_of(vec![c]);
    let m1 = mesh_of(&w, pos(0, 0));
    let m2 = mesh_of(&w, pos(0, 0));
    assert_eq!(m1.vertices, m2.vertices);
    assert_eq!(m1.indices, m2.indices);
}

#[test]
fn populated_world_mesh_counts() {
    // after population every chunk is a full box of solid blocks; with
    // all nine loaded, interior vertical seams are culled and each
    // chunk shows its top, bottom and outward-facing sides only
    let mut w = World::new();
    w.setAll();
    w.chunkRemeshAll();
    let top_bottom = 2 * CHUNKSIZE * CHUNKSIZE;
    let side = CHUNKSIZE * CHUNKHEIGHT;
    // center chunk: every side neighbor is loaded and solid
    let center = w.get_chunk(pos(0, 0)).unwrap();
    let m = center.mesh_data().as_ref().unwrap();
    assert_eq!(face_count(m), top_bottom);
    // corner chunk: two sides face unloaded chunks
    let corner = w.get_chunk(pos(1, 1)).unwrap();
    let m = corner.mesh_data().as_ref().unwrap();
    assert_eq!(face_count(m), top_bottom + 2 * side);
    // edge chunk: one side faces an unloaded chunk
    let edge = w.get_chunk(pos(0, 1)).unwrap();
    let m = edge.mesh_data().as_ref().unwrap();
    assert_eq!(face_count(m), top_bottom + side);
    check_integrity(m);
}
