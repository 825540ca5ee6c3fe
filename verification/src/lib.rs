//! Decoding, normalisation and routing of OTAP telemetry containers.
//!
//! A container carries a batch identifier and a list of payloads. Each payload
//! names the kind of table it holds and embeds a columnar stream. The crate
//! decodes the container, folds the fragments of each stream into tables,
//! reverses the transport encodings on those tables and plans their delivery
//! to the configured sinks.

pub mod payload;
pub mod wire;
pub mod codec;
pub mod config;
pub mod container;
pub mod envelope;
pub mod table;
pub mod arrow;
pub mod order;
pub mod normalize;
pub mod reconstruct;
pub mod route;
pub mod catalog;
pub mod pipeline;
