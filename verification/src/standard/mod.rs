//! The standard, non-preferred sequencer: its mempool and batch assembly.
pub mod batch_builder;
pub mod mempool;
