//! Batch tasks: the metadata matching rules.
pub mod metadata;
