//! The fair sequencer: a mempool with incremental identifiers, and blobs
//! filled largest transaction first.
pub mod batch_builder;
pub mod mempool;
