//! Analysis of the values of a categorical column.

use std::collections::HashMap;

use vstd::prelude::*;

verus! {

/// The values of a categorical column with the number of times each occurs.
#[derive(Debug, Default, Clone, PartialEq)]
pub struct CategoricalAnalysis {
    /// All the values in the column
    pub values: HashMap<String, i64>,
}

} // verus!
