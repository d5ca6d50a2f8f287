//! Contains the messages for Interface - DCL Communication

use vstd::prelude::*;

use crate::models::ObjectId;

verus! {

/// Different messages to be passed between Interface and DCL
#[derive(Debug, Clone, PartialEq, Eq)]
pub enum InterfaceMessage {
    /// Configuration message for Job
    Config {
        /// ID of the dataset associated with Job
        id: ObjectId,
        /// Job timeout
        timeout: i32,
        /// The columns in the dataset
        column_types: Vec<String>,
    },
}

} // verus!
