//! The preferred sequencer: soft-confirmed batches and its background tasks.
pub mod async_batch;
pub mod batch_size_tracker;
pub mod bb_db;
pub mod db;
pub mod decisions;
pub mod events_cache;
pub mod node_delta_watcher;
pub mod notifications;
pub mod replica;
pub mod state_root_cache;
pub mod update_state;
