//! The status of a client's model.

use vstd::prelude::*;

verus! {

/// Whether a model is connected and taking jobs.
#[derive(Clone, Copy, Debug, PartialEq, Eq, Structural)]
pub enum Status {
    /// The model is connected and heartbeating.
    Running,
    /// The model stopped responding.
    Stopped,
    /// The model has never connected.
    NotStarted,
}

} // verus!
