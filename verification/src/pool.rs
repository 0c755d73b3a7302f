//! The worker pool's scheduling state: a fixed worker capacity, a
//! FIFO queue of submitted jobs, the jobs being run, and the jobs
//! finished. The decisions live here — submission never blocks, a
//! worker may claim the front job only while fewer than `capacity`
//! jobs run — while the loop that runs threads and performs the jobs
//! stands outside the library. At every step, at most `capacity` jobs
//! are running at once.

use vstd::prelude::*;

verus! {

/// The scheduling state of a pool of workers. Jobs are named by
/// caller-chosen identifiers.
pub struct WorkerPool {
    pub capacity: usize,
    pub queued: Vec<u64>,
    pub running: Vec<u64>,
    pub done: Vec<u64>,
}

impl WorkerPool {
    /// The pool's invariant: never more jobs running than workers.
    pub open spec fn wf(&self) -> bool {
        self.running@.len() <= self.capacity
    }

    /// A pool of `n` workers with nothing queued, running or done.
    pub fn new(n: usize) -> (r: WorkerPool)
        ensures
            r.capacity == n,
            r.queued@ == Seq::<u64>::empty(),
            r.running@ == Seq::<u64>::empty(),
            r.done@ == Seq::<u64>::empty(),
            r.wf(),
    {
        WorkerPool { capacity: n, queued: Vec::new(), running: Vec::new(), done: Vec::new() }
    }

    /// Enqueues a job at the back of the queue. Never blocks and
    /// never refuses: the queue is unbounded.
    pub fn execute(&mut self, job: u64)
        requires
            old(self).wf(),
        ensures
            final(self).queued@ == old(self).queued@.push(job),
            final(self).running == old(self).running,
            final(self).done == old(self).done,
            final(self).capacity == old(self).capacity,
            final(self).wf(),
    {
        self.queued.push(job);
    }

    /// A worker claims the front job, but only while a worker is
    /// free: with `capacity` jobs already running, or an empty
    /// queue, nothing is claimed.
    pub fn claim(&mut self) -> (r: Option<u64>)
        requires
            old(self).wf(),
        ensures
            final(self).wf(),
            final(self).capacity == old(self).capacity,
            final(self).done == old(self).done,
            old(self).queued@.len() == 0 || old(self).running@.len() >= old(self).capacity
                ==> r is None && *final(self) == *old(self),
            old(self).queued@.len() > 0 && old(self).running@.len() < old(self).capacity ==> {
                &&& r == Option::Some(old(self).queued@[0])
                &&& final(self).queued@ == old(self).queued@.skip(1)
                &&& final(self).running@ == old(self).running@.push(old(self).queued@[0])
            },
            final(self).running@.len() <= old(self).running@.len() + 1,
    {
        if self.running.len() < self.capacity && self.queued.len() > 0 {
            let job = self.queued.remove(0);
            self.running.push(job);
            proof {
                assert(self.queued@ =~= old(self).queued@.skip(1));
            }
            Some(job)
        } else {
            None
        }
    }

    /// A worker reports a job finished: the first running job with
    /// this identifier moves to the finished list. Reports whether
    /// the job was running at all.
    pub fn finish(&mut self, job: u64) -> (ok: bool)
        requires
            old(self).wf(),
        ensures
            final(self).wf(),
            final(self).capacity == old(self).capacity,
            final(self).queued == old(self).queued,
            ok == old(self).running@.contains(job),
            ok ==> final(self).running@.len() == old(self).running@.len() - 1
                && final(self).done@ == old(self).done@.push(job),
            !ok ==> *final(self) == *old(self),
    {
        let mut i: usize = 0;
        while i < self.running.len()
            invariant
                0 <= i <= self.running@.len(),
                forall|j: int| 0 <= j < i ==> self.running@[j] != job,
                *self == *old(self),
                old(self).wf(),
            decreases self.running@.len() - i,
        {
            if self.running[i] == job {
                self.running.remove(i);
                self.done.push(job);
                proof {
                    assert(old(self).running@[i as int] == job);
                    assert(old(self).running@.contains(job));
                    assert(self.running@ =~= old(self).running@.subrange(0, i as int) + old(
                        self,
                    ).running@.subrange(i + 1, old(self).running@.len() as int));
                    assert(self.running@.len() == old(self).running@.len() - 1);
                }
                return true;
            }
            i += 1;
        }
        proof {
            if old(self).running@.contains(job) {
                let w = choose|w: int|
                    0 <= w < old(self).running@.len() && old(self).running@[w] == job;
                assert(old(self).running@[w] == job);
            }
        }
        false
    }
}

} // verus!
