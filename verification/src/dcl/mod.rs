//! The distributed control layer's own bookkeeping: the queue of jobs waiting
//! for a cluster, the pool of connected compute nodes, and the decisions of
//! its health checking.

pub mod control;
pub mod health;
pub mod job_end;
pub mod job_queue;
pub mod messages;
pub mod node_pool;
pub mod predictions;
pub mod validation;

pub use job_queue::JobQueue;

use vstd::prelude::*;

verus! {

/// A pair of datasets, one for training and one for predicting.
#[derive(Clone, Debug, Default, PartialEq, Eq)]
pub struct DatasetPair {
    /// The training dataset
    pub train: String,
    /// The prediction dataset
    pub predict: String,
}

} // verus!
