//! The records the control layer keeps about jobs, models and projects.

pub mod client_model;
pub mod dataset_analysis;
pub mod jobs;
pub mod models;
pub mod object_id;
pub mod projects;

pub use object_id::ObjectId;
