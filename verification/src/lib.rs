//! Probabilistic counting structures with verified behaviour:
//! a HyperLogLog cardinality estimator, a Morris-style approximate
//! counter, and a small `SELECT COUNT(...)` query front end that can
//! feed a column's values into the estimator.
//!
//! Each structure is a single-owner, single-threaded accumulator with no
//! internal locking; callers that share one across producers must
//! serialize the calls themselves.

pub mod hll;
pub mod morris;
pub mod parser;
pub mod plan;
