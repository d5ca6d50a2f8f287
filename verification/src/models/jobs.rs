//! Jobs: the request to run a project's dataset on a cluster of models.

use vstd::prelude::*;

use crate::models::ObjectId;

verus! {

/// Copies a list of strings, keeping each of them.
pub(crate) fn copy_strings(strings: &Vec<String>) -> (copy: Vec<String>)
    ensures
        copy@ == strings@,
{
    let mut copy: Vec<String> = Vec::new();
    let mut i: usize = 0;
    while i < strings.len()
        invariant
            i <= strings@.len(),
            copy@ == strings@.take(i as int),
        decreases strings@.len() - i,
    {
        copy.push(strings[i].clone());
        i += 1;
        assert(copy@ =~= strings@.take(i as int));
    }
    assert(copy@ =~= strings@);
    copy
}

/// Different types of problem Sybl can accept
#[derive(Clone, Copy, Debug, PartialEq, Eq, Structural)]
pub enum PredictionType {
    /// Predicting a class of data
    Classification,
    /// Predicting a numerical value for data
    Regression,
}

/// Parameters required for configuring a job.
#[derive(Clone, Debug, PartialEq, Eq)]
pub struct JobConfiguration {
    /// The identifier of the project to be processed
    pub project_id: ObjectId,
    /// The amount of time, in minutes, each node is allowed to compute for
    pub node_computation_time: i32,
    /// The cluster size for a job
    pub cluster_size: i32,
    /// The types of each column in the dataset
    pub column_types: Vec<String>,
    /// The number of features in the dataset
    pub feature_dim: i8,
    /// The number of rows in train set (nearest 100)
    pub train_size: i32,
    /// The number of rows in predict set (nearest 100)
    pub predict_size: i32,
    /// The column to predict during evaluation
    pub prediction_column: String,
    /// The type of problem we are being asked to solve
    pub prediction_type: PredictionType,
    /// The total amount paid to run this job
    pub cost: i32,
}

impl JobConfiguration {
    /// Produces a copy of this configuration whose prediction column is
    /// replaced by its pseudonym.
    ///
    /// Clients receive data whose prediction column is anonymised, so the
    /// configuration they receive must name the column the same way.
    pub fn anonymise(&self, prediction_pseudonym: String) -> (anonymised: Self)
        ensures
            anonymised.prediction_column == prediction_pseudonym,
            anonymised.project_id == self.project_id,
            anonymised.node_computation_time == self.node_computation_time,
            anonymised.cluster_size == self.cluster_size,
            anonymised.column_types@ == self.column_types@,
            anonymised.feature_dim == self.feature_dim,
            anonymised.train_size == self.train_size,
            anonymised.predict_size == self.predict_size,
            anonymised.prediction_type == self.prediction_type,
            anonymised.cost == self.cost,
    {
        let column_types = copy_strings(&self.column_types);
        JobConfiguration {
            project_id: self.project_id,
            node_computation_time: self.node_computation_time,
            cluster_size: self.cluster_size,
            column_types,
            feature_dim: self.feature_dim,
            train_size: self.train_size,
            predict_size: self.predict_size,
            prediction_column: prediction_pseudonym,
            prediction_type: self.prediction_type,
            cost: self.cost,
        }
    }
}

impl Default for JobConfiguration {
    fn default() -> (config: Self)
        ensures
            config.project_id.bytes@ == Seq::new(12, |i: int| 0u8),
            config.node_computation_time == 0,
            config.cluster_size == 0,
            config.column_types@.len() == 0,
            config.feature_dim == 0,
            config.train_size == 0,
            config.predict_size == 0,
            config.prediction_column@.len() == 0,
            config.prediction_type == PredictionType::Classification,
            config.cost == 0,
    {
        let config = JobConfiguration {
            project_id: ObjectId::from_bytes([0u8; 12]),
            node_computation_time: 0,
            cluster_size: 0,
            column_types: Vec::new(),
            feature_dim: 0,
            train_size: 0,
            predict_size: 0,
            prediction_column: String::new(),
            prediction_type: PredictionType::Classification,
            cost: 0,
        };
        assert(config.project_id.bytes@ =~= Seq::new(12, |i: int| 0u8));
        config
    }
}

/// Reads the current time with `chrono::Utc::now().timestamp_millis()`, the
/// milliseconds since the Unix epoch.
///
/// `Utc::now` panics on a system clock set before the epoch and otherwise
/// builds a `DateTime`, whose years stay within about 262,000 of the common
/// era, so the value returned is at least 0 and below 2^43 seconds' worth of
/// milliseconds. Which time it reads is left unsaid.
#[verifier::external_body]
pub(crate) fn now_millis() -> (millis: i64)
    ensures
        0 <= millis < 8796093022208000,
{
    chrono::Utc::now().timestamp_millis()
}

/// Defines the information that should be stored with a job in the database.
#[derive(Clone, Debug, PartialEq, Eq)]
pub struct Job {
    /// The unique identifier for the job
    pub id: ObjectId,
    /// The message/configuration associated with the job
    pub config: JobConfiguration,
    /// Whether the job has been processed by the interface or not
    pub processed: bool,
    /// The time at which the [`Job`] was created, in milliseconds since the
    /// Unix epoch
    pub date_created: i64,
}

impl Job {
    /// Creates a new, unprocessed [`Job`] with a given [`JobConfiguration`],
    /// a fresh identifier and the current time.
    pub fn new(config: JobConfiguration) -> (job: Self)
        ensures
            job.config == config,
            !job.processed,
            0 <= job.date_created < 8796093022208000,
    {
        Job { id: ObjectId::new(), config, processed: false, date_created: now_millis() }
    }
}

} // verus!
