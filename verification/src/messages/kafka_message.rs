//! The messages sent through Kafka to update a project's websocket.

use vstd::prelude::*;

verus! {

/// Enum defining all messages sent through Kafka to update a websocket
#[derive(Debug, Clone, PartialEq, Eq)]
pub enum KafkaWsMessage<'a> {
    /// Message produced when a Model completes
    ClientCompleteMessage {
        /// project id which the client completed
        project_id: &'a str,
        /// the cluster size
        cluster_size: usize,
        /// The number of models completed for this project
        model_complete_count: usize,
        /// If the model was successfull
        success: bool,
    },
    /// Message sent when a project is completed
    JobCompleteMessage {
        /// Project id which job completed
        project_id: &'a str,
    },
}

impl<'a> KafkaWsMessage<'a> {
    /// The message announcing that one model of a cluster of `cluster_size`
    /// models finished, when `remaining` models are still running.
    pub fn client_complete(
        project_id: &'a str,
        cluster_size: usize,
        remaining: usize,
        success: bool,
    ) -> (message: Self)
        requires
            remaining <= cluster_size,
        ensures
            message == (KafkaWsMessage::ClientCompleteMessage {
                project_id,
                cluster_size,
                model_complete_count: (cluster_size - remaining) as usize,
                success,
            }),
    {
        KafkaWsMessage::ClientCompleteMessage {
            project_id,
            cluster_size,
            model_complete_count: cluster_size - remaining,
            success,
        }
    }
}

} // verus!
