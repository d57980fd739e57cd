use voxel_world::coords::ChunkPos;
use voxel_world::scheduler::{partition_jobs, JobKind, JobQueue};
use voxel_world::voxel::voxelShader;

fn jobs(n: i32) -> Vec<ChunkPos> {
    (0..n).map(|i| ChunkPos { x: i, z: -i }).collect()
}

#[test]
fn job_queue_drains_in_order_once_closed() {
    let mut q = JobQueue::new(JobKind::Populate);
    q.push(ChunkPos { x: 0, z: 0 });
    q.push(ChunkPos { x: 1, z: 0 });
    q.push(ChunkPos { x: 2, z: 0 });
    q.close();
    assert_eq!(q.pop(), Some(ChunkPos { x: 0, z: 0 }));
    assert_eq!(q.pop(), Some(ChunkPos { x: 1, z: 0 }));
    assert_eq!(q.pop(), Some(ChunkPos { x: 2, z: 0 }));
    assert_eq!(q.pop(), None);
    assert_eq!(q.pop(), None);
}

#[test]
fn empty_closed_queue_yields_nothing() {
    let mut q = JobQueue::new(JobKind::Remesh);
    q.close();
    assert_eq!(q.pop(), None);
}

#[test]
fn partition_round_robin() {
    let js = jobs(10);
    let rows = partition_jobs(&js, 3);
    assert_eq!(rows.len(), 3);
    let take = |w: usize| rows[w].iter().map(|p| p.x).collect::<Vec<_>>();
    assert_eq!(take(0), vec![0, 3, 6, 9]);
    assert_eq!(take(1), vec![1, 4, 7]);
    assert_eq!(take(2), vec![2, 5, 8]);
}

#[test]
fn partition_covers_each_job_exactly_once() {
    let js = jobs(23);
    let workers = 8;
    let rows = partition_jobs(&js, workers);
    assert_eq!(rows.len(), workers);
    let mut seen = vec![0usize; js.len()];
    for (w, row) in rows.iter().enumerate() {
        for (i, p) in row.iter().enumerate() {
            let j = w + i * workers;
            assert_eq!(*p, js[j]);
            seen[j] += 1;
        }
    }
    assert!(seen.iter().all(|&c| c == 1));
}

#[test]
fn partition_with_more_workers_than_jobs() {
    let js = jobs(2);
    let rows = partition_jobs(&js, 5);
    assert_eq!(rows.len(), 5);
    assert_eq!(rows[0], vec![ChunkPos { x: 0, z: 0 }]);
    assert_eq!(rows[1], vec![ChunkPos { x: 1, z: -1 }]);
    assert!(rows[2].is_empty());
    assert!(rows[3].is_empty());
    assert!(rows[4].is_empty());
}

#[test]
fn voxel_shader_keeps_source_paths() {
    let s = voxelShader::new("shaders/voxel.vs", "shaders/voxel.fs");
    assert_eq!(s.vsPath, "shaders/voxel.vs");
    assert_eq!(s.fsPath, "shaders/voxel.fs");
}
