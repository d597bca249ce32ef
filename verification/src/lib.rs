//! Deterministic feature transformation for model serving: a pipeline
//! configuration lists named, typed features; a record of input values is
//! turned into a fixed-width row of encoded values.
pub mod config;
pub mod error;
pub mod input;
pub mod order;
pub mod predictor;
pub mod transformers;
