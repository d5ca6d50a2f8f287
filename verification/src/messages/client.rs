//! The messages exchanged between the control layer and compute nodes, and
//! the functions that build them.

use vstd::prelude::*;
use vstd::string::*;

use crate::models::jobs::{copy_strings, JobConfiguration, PredictionType};
use vstd::utf8::{encode_utf8, encode_utf8_valid_utf8};

use crate::utils::compress::{
    base64_encode, base64_encoded, bzip2_compressed, compress_bytes, spec_decode_and_decompress,
    DecodeError,
};

verus! {

/// Different messages to be passed between DCL and DCN
#[derive(Debug, Clone, PartialEq, Eq)]
pub enum ClientMessage {
    /// Hearbeat alive message
    Alive {
        /// The current timestamp
        timestamp: u64,
    },
    /// Message to send Job Config
    JobConfig {
        /// The current time according to the server
        message_creation_timestamp: i64,
        /// The timestamp by which models must return predictions
        prediction_cutoff_timestamp: i64,
        /// Cluster Size
        cluster_size: i32,
        /// Types of each column in dataset for job
        column_types: Vec<String>,
        /// The name of the prediction column
        prediction_column: String,
        /// If the problem is Regression or Classification
        prediction_type: PredictionType,
    },
    /// A request to setup a new model
    NewModel {
        /// The client's email address
        email: String,
        /// The client's password
        password: String,
        /// The name of the model
        model_name: String,
    },
    /// A response to a challenge issued by the server
    ChallengeResponse {
        /// The user's email
        email: String,
        /// The model name corresponding to the challenge
        model_name: String,
        /// The calculated response value
        response: String,
    },
    /// A request to authenticate a model
    AccessToken {
        /// The model identifier
        id: String,
        /// The access token itself
        token: String,
    },
    /// A dataset for the node to process
    Dataset {
        /// The dataset to train on
        train: String,
        /// The dataset to predict on
        predict: String,
    },
    /// Response from client about job
    ConfigResponse {
        /// Field to say if job has been accepted or not
        accept: bool,
    },
    /// Prediction data from a node after computation
    Predictions(String),
}

/// The text that carries `data` inside a message: its BZip2 compression,
/// written in Base64.
pub open spec fn transport_text(data: Seq<u8>) -> Seq<char> {
    base64_encoded(bzip2_compressed(data))
}

/// The number of seconds a job configuration allows its models, from the
/// minutes it holds.
pub open spec fn computation_seconds(config: JobConfiguration) -> int {
    config.node_computation_time as int * 60
}

/// The job configuration message that a node receives for `config` when it
/// is created at `now`, in seconds since the Unix epoch.
pub open spec fn is_job_config_for(
    message: ClientMessage,
    config: JobConfiguration,
    now: int,
) -> bool {
    match message {
        ClientMessage::JobConfig {
            message_creation_timestamp,
            prediction_cutoff_timestamp,
            cluster_size,
            column_types,
            prediction_column,
            prediction_type,
        } => {
            &&& message_creation_timestamp == now
            &&& prediction_cutoff_timestamp == now + computation_seconds(config)
            &&& cluster_size == config.cluster_size
            &&& column_types@ == config.column_types@
            &&& prediction_column@ == config.prediction_column@
            &&& prediction_type == config.prediction_type
        },
        _ => false,
    }
}

/// Reads the current time with `chrono::Utc::now().timestamp()`, the seconds
/// since the Unix epoch.
///
/// `Utc::now` panics on a system clock set before the epoch and otherwise
/// builds a `DateTime`, whose years stay within about 262,000 of the common
/// era, so the value returned is at least 0 and below 2^43. Which time it
/// reads is left unsaid.
#[verifier::external_body]
fn now_seconds() -> (seconds: i64)
    ensures
        0 <= seconds < 8796093022208,
{
    chrono::Utc::now().timestamp()
}

impl ClientMessage {
    /// Compresses the data and uses Base64 encoding to form a [`ClientMessage`].
    pub fn from_train_and_predict(train: &str, predict: &str) -> (message: Self)
        ensures
            match message {
                ClientMessage::Dataset { train: t, predict: p } => {
                    &&& t@ == transport_text(train.spec_bytes())
                    &&& p@ == transport_text(predict.spec_bytes())
                    &&& spec_decode_and_decompress(encode_utf8(t@)) == Ok::<Seq<u8>, DecodeError>(
                        train.spec_bytes(),
                    )
                    &&& spec_decode_and_decompress(encode_utf8(p@)) == Ok::<Seq<u8>, DecodeError>(
                        predict.spec_bytes(),
                    )
                },
                _ => false,
            },
    {
        let training_bytes = match compress_bytes(train.as_bytes()) {
            Ok(bytes) => bytes,
            Err(_) => Vec::new(),
        };
        let prediction_bytes = match compress_bytes(predict.as_bytes()) {
            Ok(bytes) => bytes,
            Err(_) => Vec::new(),
        };
        let encoded_training = base64_encode(training_bytes.as_slice());
        let encoded_prediction = base64_encode(prediction_bytes.as_slice());
        proof {
            encode_utf8_valid_utf8(train@);
            encode_utf8_valid_utf8(predict@);
        }
        ClientMessage::Dataset { train: encoded_training, predict: encoded_prediction }
    }

    /// Builds the configuration message for a job whose message is created
    /// at `now`, in seconds since the Unix epoch: the models must answer
    /// within the configuration's computation time of it.
    pub fn job_config_at(config: &JobConfiguration, now: i64) -> (message: Self)
        requires
            i64::MIN <= now + computation_seconds(*config) <= i64::MAX,
        ensures
            is_job_config_for(message, *config, now as int),
    {
        let seconds: i64 = config.node_computation_time as i64 * 60;
        ClientMessage::JobConfig {
            message_creation_timestamp: now,
            prediction_cutoff_timestamp: now + seconds,
            cluster_size: config.cluster_size,
            column_types: copy_strings(&config.column_types),
            prediction_column: config.prediction_column.clone(),
            prediction_type: config.prediction_type,
        }
    }

    /// Builds the configuration message for a job, created now.
    pub fn from_job_configuration(config: &JobConfiguration) -> (message: Self)
        ensures
            exists|now: int| 0 <= now && #[trigger] is_job_config_for(message, *config, now),
    {
        let now = now_seconds();
        Self::job_config_at(config, now)
    }
}

} // verus!
