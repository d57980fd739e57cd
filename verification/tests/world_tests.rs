use voxel_world::block::BlockId;
use voxel_world::chunk::{Chunk, CHUNKHEIGHT, CHUNKSIZE};
use voxel_world::coords::ChunkPos;
use voxel_world::world::World;

fn pos(x: i32, z: i32) -> ChunkPos {
    ChunkPos { x, z }
}

#[test]
fn world_to_loc_negative_round_trip() {
    // world x = -1 with CHUNKSIZE = 16 maps to chunk -1, local 15
    let (local, chunk) = World::worldToLoc(-1, 5, 33);
    assert_eq!(chunk, pos(-1, 2));
    assert_eq!(local, (15, 5, 1));
}

#[test]
fn world_to_loc_round_trip_many() {
    let s = CHUNKSIZE as i32;
    for &wx in &[-100, -17, -16, -15, -1, 0, 1, 15, 16, 17, 100] {
        for &wz in &[-33, -2, 0, 2, 31] {
            let (local, chunk) = World::worldToLoc(wx, 7, wz);
            assert!(0 <= local.0 && local.0 < s);
            assert!(0 <= local.2 && local.2 < s);
            assert_eq!(chunk.x * s + local.0, wx);
            assert_eq!(chunk.z * s + local.2, wz);
            assert_eq!(local.1, 7);
        }
    }
}

#[test]
fn new_world_loads_render_distance_square() {
    let w = World::new();
    for x in -2..=2 {
        for z in -2..=2 {
            let should = (-1..=1).contains(&x) && (-1..=1).contains(&z);
            assert_eq!(w.get_chunk(pos(x, z)).is_some(), should);
        }
    }
    // fresh chunks are all air and unmeshed
    let c = w.get_chunk(pos(0, 0)).unwrap();
    assert!(c.mesh_data().is_none());
    assert_eq!(w.getBlockType(pos(0, 0), 3, 17, 9), BlockId::Air);
}

#[test]
fn get_block_type_boundary_policy() {
    let mut w = World::new();
    w.setAll();
    // unloaded chunk reads as air
    assert_eq!(w.getBlockType(pos(5, 5), 0, 0, 0), BlockId::Air);
    // y at or above the chunk height reads as air
    assert_eq!(w.getBlockType(pos(0, 0), 0, CHUNKHEIGHT, 0), BlockId::Air);
    assert_eq!(w.getBlockType(pos(0, 0), 0, usize::MAX, 0), BlockId::Air);
}

#[test]
fn set_all_populates_by_height_rule() {
    let mut w = World::new();
    w.setAll();
    for &(cx, cz) in &[(-1, -1), (0, 0), (1, -1), (0, 1)] {
        for &(x, z) in &[(0, 0), (15, 15), (7, 3)] {
            assert_eq!(w.getBlockType(pos(cx, cz), x, 0, z), BlockId::Dirt);
            assert_eq!(w.getBlockType(pos(cx, cz), x, 119, z), BlockId::Dirt);
            assert_eq!(w.getBlockType(pos(cx, cz), x, 120, z), BlockId::Grass);
            assert_eq!(w.getBlockType(pos(cx, cz), x, 127, z), BlockId::Grass);
        }
    }
}

#[test]
fn set_all_fills_every_cell() {
    let mut w = World::new();
    w.setAll();
    for x in 0..CHUNKSIZE {
        for y in 0..CHUNKHEIGHT {
            for z in 0..CHUNKSIZE {
                let expect = if y >= 120 { BlockId::Grass } else { BlockId::Dirt };
                assert_eq!(w.getBlockType(pos(-1, 1), x, y, z), expect);
            }
        }
    }
}

#[test]
fn insert_and_remove_update_loaded_set() {
    let mut w = World::new();
    assert!(w.get_chunk(pos(4, -7)).is_none());
    w.insert(pos(4, -7), Chunk::new(pos(4, -7)));
    assert!(w.get_chunk(pos(4, -7)).is_some());
    // the rest of the loaded set is untouched
    assert!(w.get_chunk(pos(0, 0)).is_some());
    w.remove(pos(4, -7));
    assert!(w.get_chunk(pos(4, -7)).is_none());
    w.remove(pos(0, 0));
    assert!(w.get_chunk(pos(0, 0)).is_none());
    assert!(w.get_chunk(pos(1, 1)).is_some());
    // removing an absent position is a no-op
    w.remove(pos(30, 30));
    assert!(w.get_chunk(pos(1, 1)).is_some());
}

#[test]
fn set_updates_single_cell() {
    let mut c = Chunk::new(pos(0, 0));
    c.set(3, 40, 5, BlockId::Grass);
    assert_eq!(c.get(3, 40, 5), BlockId::Grass);
    assert_eq!(c.get(3, 40, 6), BlockId::Air);
    assert_eq!(c.get(3, 41, 5), BlockId::Air);
    assert_eq!(c.get(2, 40, 5), BlockId::Air);
}

#[test]
fn remesh_all_never_mutates_block_grids() {
    let mut w = World::new();
    w.setAll();
    // carve a distinctive pattern so the check is not trivial
    let mut c = Chunk::new(pos(0, 0));
    for x in 0..CHUNKSIZE {
        for y in 0..CHUNKHEIGHT {
            for z in 0..CHUNKSIZE {
                if (x + y + z) % 3 == 0 {
                    c.set(x, y, z, BlockId::Dirt);
                }
            }
        }
    }
    w.insert(pos(0, 0), c);

    let mut before = Vec::new();
    for cx in -1..=1 {
        for cz in -1..=1 {
            for x in 0..CHUNKSIZE {
                for y in 0..CHUNKHEIGHT {
                    for z in 0..CHUNKSIZE {
                        before.push(w.getBlockType(pos(cx, cz), x, y, z));
                    }
                }
            }
        }
    }
    w.chunkRemeshAll();
    let mut i = 0;
    for cx in -1..=1 {
        for cz in -1..=1 {
            for x in 0..CHUNKSIZE {
                for y in 0..CHUNKHEIGHT {
                    for z in 0..CHUNKSIZE {
                        assert_eq!(w.getBlockType(pos(cx, cz), x, y, z), before[i]);
                        i += 1;
                    }
                }
            }
        }
    }
}

#[test]
fn repeated_batches_produce_identical_meshes() {
    let mut w = World::new();
    w.setAll();
    w.chunkRemeshAll();
    let mut first = Vec::new();
    for cx in -1..=1 {
        for cz in -1..=1 {
            let c = w.get_chunk(pos(cx, cz)).unwrap();
            let m = c.mesh_data().as_ref().unwrap();
            first.push((m.vertices.clone(), m.indices.clone()));
        }
    }
    for _ in 0..3 {
        w.setAll();
        w.chunkRemeshAll();
    }
    let mut i = 0;
    for cx in -1..=1 {
        for cz in -1..=1 {
            let c = w.get_chunk(pos(cx, cz)).unwrap();
            let m = c.mesh_data().as_ref().unwrap();
            assert_eq!(m.vertices, first[i].0);
            assert_eq!(m.indices, first[i].1);
            i += 1;
        }
    }
}
