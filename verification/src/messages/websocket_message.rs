//! The notification that a model finished its part of a job.

use vstd::prelude::*;

verus! {

/// Sent to a project's websocket when one of the models of its cluster is
/// done.
#[derive(Clone, Debug, PartialEq, Eq)]
pub struct ClientCompleteMessage {
    model_id: String,
    model_count: usize,
}

impl ClientCompleteMessage {
    /// The model that completed.
    pub closed spec fn model_id(&self) -> Seq<char> {
        self.model_id@
    }

    /// The number of models of the cluster that completed so far.
    pub closed spec fn model_count(&self) -> usize {
        self.model_count
    }

    /// A notification that `model_id` completed as the `model_count`th model.
    pub fn new(model_id: String, model_count: usize) -> (message: Self)
        ensures
            message.model_id() == model_id@,
            message.model_count() == model_count,
    {
        ClientCompleteMessage { model_id, model_count }
    }
}

} // verus!
