//! The stages that every signal passes on its way to the target.

pub mod relabel;
pub mod transform;
pub mod redact_pii;
pub mod cardinality_guard;
pub mod batch;
