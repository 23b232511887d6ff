//! Errors.

use vstd::prelude::*;

verus! {

/// What can go wrong when a stream is configured or aggregated.
#[derive(Clone, Debug)]
pub enum StreamError {
    /// A configuration value is not acceptable.
    ConfigError {
        /// What is wrong with it.
        reason: String,
    },
    /// A tick cannot be aggregated.
    AggregationError {
        /// Why it cannot.
        reason: String,
    },
}

} // verus!
