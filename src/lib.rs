//! Partitioning of embedded resources into numbered generated modules.
//!
//! A build step discovers resources, decides with a pluggable split strategy
//! where one generated module ends and the next begins, and renders the text
//! of every generated file: one file per module, an aggregator that declares
//! and calls each module in turn, and a root shim that re-exports the
//! aggregated function.
pub mod strategy;
pub mod text;
pub mod sets;
