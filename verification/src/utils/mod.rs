//! Utilities for datasets: splitting, identifiers, compression and pricing.

pub mod compress;
pub mod finance;
pub mod text;

pub use text::{
    chunk_calculate, generate_ids, infer_train_and_predict, join_lines, merge_datasets, split_lines,
    CHUNK_SIZE,
};
