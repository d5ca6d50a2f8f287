//! The messages of the first version of the node protocol, which could also
//! carry raw JSON from the API server through untouched.

use vstd::prelude::*;
use vstd::utf8::encode_utf8;

use crate::messages::length_prefix::{framed, write_length_prefix};
use crate::models::ObjectId;

verus! {

/// Different messages to be passed between DCL and DCN
#[derive(Debug, Clone, PartialEq, Eq)]
pub enum ClientMessage {
    /// Hearbeat alive message
    Alive {
        /// The current timestamp
        timestamp: u64,
    },
    /// Message to send Job Config
    JobConfig {
        /// Job timeout
        timeout: u8,
        /// Types of each column in dataset for job
        column_types: Vec<String>,
    },
    /// A request to setup a new model
    NewModel {
        /// The client's email address
        email: String,
        /// The name of the model
        model_name: String,
    },
    /// A response to a challenge issued by the server
    ChallengeResponse {
        /// The user's email
        email: String,
        /// The model name corresponding to the challenge
        model_name: String,
        /// The calculated response value
        response: String,
    },
    /// A request to authenticate a model
    AccessToken {
        /// The model identifier
        id: String,
        /// The access token itself
        token: String,
    },
    /// A dataset for the node to process
    Dataset {
        /// The dataset to train on
        train: String,
        /// The dataset to predict on
        predict: String,
    },
    /// Prediction data from a node after computation
    Predictions(String),
    /// A raw JSON message, usually from the API server
    RawJSON {
        /// The raw JSON contents
        content: String,
    },
}

/// Different messages to be passed between Interface and DCL
#[derive(Debug, Clone, PartialEq, Eq)]
pub enum InterfaceMessage {
    /// Configuration message for Job
    Config {
        /// ID of the dataset associated with Job
        id: ObjectId,
        /// Job timeout
        timeout: u8,
        /// The columns in the dataset
        column_types: Vec<String>,
    },
    /// A raw JSON message, usually from the API server
    RawJSON {
        /// The raw JSON contents
        content: String,
    },
}

impl ClientMessage {
    /// The body a message is sent with: the contents of a raw JSON message
    /// as they are, and otherwise `json`, the message's JSON serialisation.
    pub open spec fn body(&self, json: Seq<u8>) -> Seq<u8> {
        match self {
            ClientMessage::RawJSON { content } => encode_utf8(content@),
            _ => json,
        }
    }

    /// Converts a message into the bytes sent over the wire, given its JSON
    /// serialisation `json`: its body behind a length prefix.
    pub fn as_bytes(&self, json: &[u8]) -> (bytes: Vec<u8>)
        ensures
            bytes@ == framed(self.body(json@)),
    {
        match self {
            ClientMessage::RawJSON { content } => write_length_prefix(content.as_str().as_bytes()),
            _ => write_length_prefix(json),
        }
    }
}

impl InterfaceMessage {
    /// The body a message is sent with: the contents of a raw JSON message
    /// as they are, and otherwise `json`, the message's JSON serialisation.
    pub open spec fn body(&self, json: Seq<u8>) -> Seq<u8> {
        match self {
            InterfaceMessage::RawJSON { content } => encode_utf8(content@),
            _ => json,
        }
    }

    /// Converts a message into the bytes sent over the wire, given its JSON
    /// serialisation `json`: its body behind a length prefix.
    pub fn as_bytes(&self, json: &[u8]) -> (bytes: Vec<u8>)
        ensures
            bytes@ == framed(self.body(json@)),
    {
        match self {
            InterfaceMessage::RawJSON { content } => write_length_prefix(
                content.as_str().as_bytes(),
            ),
            _ => write_length_prefix(json),
        }
    }
}

} // verus!
