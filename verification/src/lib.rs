//! A verified core of a rollup sequencer: mempools, batch assembly, the
//! preferred sequencer's blob bookkeeping and the decisions of its background
//! tasks.
use vstd::prelude::*;

pub mod api;
pub mod config;
pub mod errors;
pub mod fair;
mod ids;
pub mod metrics;
pub mod preferred;
pub mod standard;
pub mod types;

pub use types::SequencerNotReadyDetails;

verus! {

} // verus!
