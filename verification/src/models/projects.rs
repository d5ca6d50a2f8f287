//! The status of a project.

use vstd::prelude::*;

verus! {

/// The stage a project has reached.
#[derive(Clone, Copy, Debug, PartialEq, Eq, Structural)]
pub enum Status {
    /// The project has no dataset yet.
    Unfinished,
    /// The project is ready to be run.
    Ready,
    /// The project's job is running on a cluster.
    Processing {
        /// The number of models that returned valid predictions.
        model_success: i32,
        /// The number of models that failed.
        model_err: i32,
    },
    /// The project's predictions are ready.
    Complete,
    /// The user has read the project's predictions.
    Read,
}

} // verus!
