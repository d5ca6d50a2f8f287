//! The queue of jobs waiting for enough compute nodes to run them.

use vstd::prelude::*;

use crate::dcl::DatasetPair;
use crate::models::jobs::Job;
use crate::models::ObjectId;

verus! {

/// A queued job: the project it belongs to, its datasets and the job itself.
pub type QueuedJob = (ObjectId, DatasetPair, Job);

/// Whether the job can run on a cluster built from `nodes` active nodes.
pub open spec fn fits(job: QueuedJob, nodes: nat) -> bool {
    job.2.config.cluster_size as usize <= nodes
}

/// Queue of jobs that arrived from the interface, in arrival order.
#[derive(Debug, Default, Clone)]
pub struct JobQueue {
    jobs: Vec<QueuedJob>,
}

impl View for JobQueue {
    type V = Seq<QueuedJob>;

    closed spec fn view(&self) -> Seq<QueuedJob> {
        self.jobs@
    }
}

impl JobQueue {
    /// Creates a new, empty [`JobQueue`].
    pub fn new() -> (queue: Self)
        ensures
            queue@ == Seq::<QueuedJob>::empty(),
    {
        JobQueue { jobs: Vec::new() }
    }

    /// The number of jobs in the queue.
    pub fn len(&self) -> (n: usize)
        ensures
            n == self@.len(),
    {
        self.jobs.len()
    }

    /// The job at `index`, if there is one.
    pub fn get(&self, index: usize) -> (job: Option<&QueuedJob>)
        ensures
            index < self@.len() ==> job == Some(&self@[index as int]),
            index >= self@.len() ==> job is None,
    {
        if index < self.jobs.len() {
            Some(&self.jobs[index])
        } else {
            None
        }
    }

    /// Goes through the jobs in the queue and returns, in increasing order,
    /// the indexes of the jobs which can be executed with `active` nodes.
    pub fn filter(&self, active: usize) -> (indices: Vec<usize>)
        ensures
            forall|k: int| 0 <= k < indices@.len() ==> #[trigger] indices@[k] < self@.len(),
            forall|k: int, l: int| 0 <= k < l < indices@.len() ==> indices@[k] < indices@[l],
            forall|i: int|
                0 <= i < self@.len() ==> (fits(#[trigger] self@[i], active as nat)
                    <==> indices@.contains(i as usize)),
    {
        let mut indices: Vec<usize> = Vec::new();
        let mut i: usize = 0;
        while i < self.jobs.len()
            invariant
                i <= self@.len(),
                self@ == self.jobs@,
                forall|k: int| 0 <= k < indices@.len() ==> #[trigger] indices@[k] < i,
                forall|k: int, l: int| 0 <= k < l < indices@.len() ==> indices@[k] < indices@[l],
                forall|j: int|
                    0 <= j < i ==> (fits(#[trigger] self@[j], active as nat) <==> indices@.contains(
                        j as usize,
                    )),
            decreases self@.len() - i,
        {
            let ghost old_indices = indices@;
            if self.jobs[i].2.config.cluster_size as usize <= active {
                indices.push(i);
                proof {
                    assert forall|j: int| 0 <= j < i implies (fits(#[trigger] self@[j], active as nat)
                        <==> indices@.contains(j as usize)) by {
                        if old_indices.contains(j as usize) {
                            let k = choose|k: int| 0 <= k < old_indices.len() && old_indices[k] == j as usize;
                            assert(indices@[k] == j as usize);
                        }
                        if indices@.contains(j as usize) {
                            let k = choose|k: int| 0 <= k < indices@.len() && indices@[k] == j as usize;
                            if k == old_indices.len() {
                                assert(indices@[k] == i);
                            } else {
                                assert(old_indices[k] == j as usize);
                            }
                        }
                    }
                    assert(indices@[indices@.len() - 1] == i);
                }
            } else {
                proof {
                    if indices@.contains(i) {
                        let k = choose|k: int| 0 <= k < indices@.len() && indices@[k] == i;
                        assert(indices@[k] < i);
                    }
                }
            }
            i += 1;
        }
        indices
    }

    /// Removes and returns the job at `index`, handing its ownership to the
    /// caller.
    pub fn remove(&mut self, index: usize) -> (job: QueuedJob)
        requires
            index < old(self)@.len(),
        ensures
            job == old(self)@[index as int],
            final(self)@ == old(self)@.remove(index as int),
    {
        self.jobs.remove(index)
    }

    /// Puts a job back into the queue at `index`, the place it previously had
    /// when it could not be executed.
    pub fn insert(&mut self, index: usize, job: QueuedJob)
        requires
            index <= old(self)@.len(),
        ensures
            final(self)@ == old(self)@.insert(index as int, job),
    {
        self.jobs.insert(index, job);
    }

    /// Pushes a job onto the end of the queue when it arrives.
    pub fn push(&mut self, job: QueuedJob)
        ensures
            final(self)@ == old(self)@.push(job),
    {
        self.jobs.push(job);
    }
}

/// Putting a removed job back where it was restores the queue: a job that
/// could not get a cluster keeps its place.
pub proof fn law_remove_then_insert_restores(jobs: Seq<QueuedJob>, index: int)
    requires
        0 <= index < jobs.len(),
    ensures
        jobs.remove(index).insert(index, jobs[index]) == jobs,
{
    assert(jobs.remove(index).insert(index, jobs[index]) =~= jobs);
}

} // verus!
