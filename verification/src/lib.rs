//! Verified core of the Sybl distributed control layer: message framing,
//! dataset splitting, compression of datasets, job queueing and the
//! accounting of compute nodes.

pub mod dcl;
pub mod messages;
pub mod models;
pub mod server_pool;
pub mod utils;
