use vstd::prelude::*;

verus! {

use vstd::arithmetic::div_mod::{lemma_fundamental_div_mod, lemma_mod_bound};
use vstd::arithmetic::mul::lemma_mul_inequality;

use crate::coords::ChunkPos;

/// Number of parallel workers a batch is given by default.
pub const THREADS: usize = 8;

/// The two kinds of batch work. A batch never mixes kinds: population
/// writes chunk grids, remeshing only reads them, and the two phases are
/// separated by a full barrier.
#[derive(Copy, Clone, PartialEq, Eq, Structural, Debug)]
pub enum JobKind {
    Populate,
    Remesh,
}

/// The job queue of one batch call. All jobs are enqueued before the
/// queue is closed; consumers only drain a closed queue, so every worker
/// terminates once the queue is empty instead of waiting for more work.
pub struct JobQueue {
    /// The kind of work every job of this batch performs.
    pub kind: JobKind,
    /// Every job enqueued so far, in order.
    pub jobs: Vec<ChunkPos>,
    /// Whether the batch is complete and consumers may drain.
    pub closed: bool,
    /// Number of jobs already handed out.
    pub next: usize,
}

impl JobQueue {
    /// Consumption never runs past the enqueued jobs.
    pub open spec fn wf(self) -> bool {
        self.next <= self.jobs@.len()
    }

    pub open spec fn spec_kind(self) -> JobKind {
        self.kind
    }

    pub open spec fn spec_closed(self) -> bool {
        self.closed
    }

    /// Every job enqueued so far, in order.
    pub open spec fn enqueued(self) -> Seq<ChunkPos> {
        self.jobs@
    }

    /// The jobs not yet handed to a consumer.
    pub open spec fn remaining(self) -> Seq<ChunkPos> {
        self.jobs@.skip(self.next as int)
    }

    /// An open, empty queue for one kind of batch work.
    pub fn new(kind: JobKind) -> (q: JobQueue)
        ensures
            q.wf(),
            q.spec_kind() == kind,
            !q.spec_closed(),
            q.enqueued() == Seq::<ChunkPos>::empty(),
            q.remaining() == Seq::<ChunkPos>::empty(),
    {
        let q = JobQueue { kind, jobs: Vec::new(), closed: false, next: 0 };
        proof {
            assert(q.remaining() =~= Seq::<ChunkPos>::empty());
        }
        q
    }

    /// Enqueues one job. Only an open queue accepts jobs: closing is the
    /// point after which no job may be added.
    pub fn push(&mut self, job: ChunkPos)
        requires
            old(self).wf(),
            !old(self).spec_closed(),
        ensures
            final(self).wf(),
            final(self).spec_kind() == old(self).spec_kind(),
            !final(self).spec_closed(),
            final(self).enqueued() == old(self).enqueued().push(job),
            final(self).remaining() == old(self).remaining().push(job),
    {
        self.jobs.push(job);
        proof {
            assert(self.remaining() =~= old(self).remaining().push(job));
        }
    }

    /// Closes the queue: all jobs of the batch are in, and consumers may
    /// start draining.
    pub fn close(&mut self)
        requires
            old(self).wf(),
            !old(self).spec_closed(),
        ensures
            final(self).wf(),
            final(self).spec_kind() == old(self).spec_kind(),
            final(self).spec_closed(),
            final(self).enqueued() == old(self).enqueued(),
            final(self).remaining() == old(self).remaining(),
    {
        self.closed = true;
    }

    /// Hands out the next job of a closed queue, or `None` once the
    /// queue is drained.
    pub fn pop(&mut self) -> (r: Option<ChunkPos>)
        requires
            old(self).wf(),
            old(self).spec_closed(),
        ensures
            final(self).wf(),
            final(self).spec_kind() == old(self).spec_kind(),
            final(self).spec_closed(),
            final(self).enqueued() == old(self).enqueued(),
            old(self).remaining().len() > 0 ==> {
                &&& r == Some(old(self).remaining()[0])
                &&& final(self).remaining() == old(self).remaining().skip(1)
            },
            old(self).remaining().len() == 0 ==> {
                &&& r is None
                &&& final(self).remaining() == old(self).remaining()
            },
    {
        if self.next < self.jobs.len() {
            let job = self.jobs[self.next];
            self.next = self.next + 1;
            proof {
                assert(self.remaining() =~= old(self).remaining().skip(1));
            }
            Some(job)
        } else {
            None
        }
    }
}

/// Statically partitions a batch's jobs round-robin among `workers`
/// workers: worker `w` receives jobs `w`, `w + workers`, and so on, in
/// order. The rows cover every job exactly once
/// (`lemma_partition_covers`), so each worker owns its subset outright
/// and population workers never touch the same chunk.
pub fn partition_jobs(jobs: &Vec<ChunkPos>, workers: usize) -> (r: Vec<Vec<ChunkPos>>)
    requires
        1 <= workers,
        jobs@.len() + workers < usize::MAX,
    ensures
        r@.len() == workers,
        forall|wi: int, i: int|
            0 <= wi < workers && 0 <= i < r@[wi]@.len() ==> #[trigger] r@[wi]@[i] == jobs@[wi + i
                * workers],
        forall|wi: int|
            0 <= wi < workers ==> jobs@.len() <= wi + (#[trigger] r@[wi]@.len()) * workers,
        forall|wi: int|
            0 <= wi < workers && 0 < (#[trigger] r@[wi]@.len()) ==> wi + (r@[wi]@.len() - 1)
                * workers < jobs@.len(),
{
    let n: usize = jobs.len();
    let mut r: Vec<Vec<ChunkPos>> = Vec::new();
    let mut wi: usize = 0;
    while wi < workers
        invariant
            wi <= workers,
            1 <= workers,
            n == jobs@.len(),
            n + workers < usize::MAX,
            r@.len() == wi,
            forall|w2: int, i: int|
                0 <= w2 < wi && 0 <= i < r@[w2]@.len() ==> #[trigger] r@[w2]@[i] == jobs@[w2 + i
                    * workers],
            forall|w2: int| 0 <= w2 < wi ==> n <= w2 + (#[trigger] r@[w2]@.len()) * workers,
            forall|w2: int|
                0 <= w2 < wi && 0 < (#[trigger] r@[w2]@.len()) ==> w2 + (r@[w2]@.len() - 1)
                    * workers < n,
        decreases workers - wi,
    {
        let mut row: Vec<ChunkPos> = Vec::new();
        let mut j: usize = wi;
        proof {
            assert((0int) * (workers as int) == 0) by (nonlinear_arith);
        }
        while j < n
            invariant
                wi < workers,
                1 <= workers,
                n == jobs@.len(),
                n + workers < usize::MAX,
                wi <= j,
                j == wi + row@.len() * workers,
                forall|i: int|
                    0 <= i < row@.len() ==> #[trigger] row@[i] == jobs@[wi + i * workers],
                row@.len() > 0 ==> wi + (row@.len() - 1) * workers < n,
            decreases n + workers - j,
        {
            let ghost row0 = row@;
            row.push(jobs[j]);
            proof {
                let lw = row@.len() as int;
                let wj = j as int;
                assert(lw * (workers as int) == (lw - 1) * (workers as int) + (
                workers as int)) by (nonlinear_arith);
                assert(wj == wi + (lw - 1) * workers);
                assert forall|i: int|
                    0 <= i < lw implies #[trigger] row@[i] == jobs@[wi + i * workers] by {
                    if i == lw - 1 {
                        assert(wi + i * workers == wj);
                        assert(row@[i] == jobs@[wj]);
                    } else {
                        assert(row@[i] == row0[i]);
                        assert(row0[i] == jobs@[wi + i * workers]);
                    }
                }
                assert(wi + lw * workers == wj + workers);
            }
            j = j + workers;
        }
        let ghost r0 = r@;
        r.push(row);
        proof {
            assert(r@[wi as int]@ == row@);
            assert forall|w2: int, i: int|
                0 <= w2 < wi + 1 && 0 <= i < r@[w2]@.len() implies #[trigger] r@[w2]@[i]
                    == jobs@[w2 + i * workers] by {
                if w2 < wi {
                    assert(r@[w2] == r0[w2]);
                    assert(r0[w2]@[i] == jobs@[w2 + i * workers]);
                } else {
                    assert(r@[w2]@ == row@);
                    assert(row@[i] == jobs@[w2 + i * workers]);
                }
            }
            assert forall|w2: int|
                0 <= w2 < wi + 1 implies n <= w2 + (#[trigger] r@[w2]@.len()) * workers by {
                if w2 < wi {
                    assert(r@[w2] == r0[w2]);
                    assert(n <= w2 + r0[w2]@.len() * workers);
                } else {
                    assert(r@[w2]@ == row@);
                }
            }
            assert forall|w2: int|
                0 <= w2 < wi + 1 && 0 < (#[trigger] r@[w2]@.len()) implies w2 + (r@[w2]@.len()
                    - 1) * workers < n by {
                if w2 < wi {
                    assert(r@[w2] == r0[w2]);
                    assert(0 < r0[w2]@.len() ==> w2 + (r0[w2]@.len() - 1) * workers < n);
                } else {
                    assert(r@[w2]@ == row@);
                }
            }
        }
        wi = wi + 1;
    }
    r
}

/// Every job of a partitioned batch lands in exactly one worker's row:
/// job `j` is item `j / workers` of row `j % workers`. Together with
/// `partition_jobs`' contract this makes the rows a disjoint cover of
/// the batch.
pub proof fn lemma_partition_covers(
    jobs: Seq<ChunkPos>,
    workers: int,
    r: Seq<Seq<ChunkPos>>,
    j: int,
)
    requires
        1 <= workers,
        r.len() == workers,
        forall|wi: int, i: int|
            0 <= wi < workers && 0 <= i < r[wi].len() ==> #[trigger] r[wi][i] == jobs[wi + i
                * workers],
        forall|wi: int|
            0 <= wi < workers ==> jobs.len() <= wi + (#[trigger] r[wi].len()) * workers,
        0 <= j < jobs.len(),
    ensures
        0 <= j % workers < workers,
        0 <= j / workers < r[j % workers].len(),
        r[j % workers][j / workers] == jobs[j],
{
    lemma_fundamental_div_mod(j, workers);
    lemma_mod_bound(j, workers);
    let wi = j % workers;
    let i = j / workers;
    assert(j == wi + i * workers) by (nonlinear_arith)
        requires
            j == workers * (j / workers) + j % workers,
            wi == j % workers,
            i == j / workers,
    ;
    assert(i >= 0) by (nonlinear_arith)
        requires
            j >= 0,
            workers >= 1,
            i == j / workers,
            j == wi + i * workers,
            0 <= wi < workers,
    ;
    if i >= r[wi].len() {
        lemma_mul_inequality(r[wi].len() as int, i, workers);
        assert(false);
    }
    assert(r[wi][i] == jobs[wi + i * workers]);
}

} // verus!
