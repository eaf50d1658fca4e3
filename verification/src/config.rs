//! The sequencer's configuration and its defaults.
use vstd::prelude::*;

use crate::preferred::decisions::RecoveryStrategy;
use crate::standard::batch_builder::StdBatchBuilderConfig;

verus! {

/// Whether batches are produced automatically when the field is absent.
pub fn default_automatic_batch_production() -> (r: bool)
    ensures
        r,
{
    true
}

/// How long dropped transactions are tracked when the field is absent, in
/// seconds.
pub fn default_sequencer_dropped_tx_ttl_secs() -> (r: u64)
    ensures
        r == 60,
{
    60
}

/// The ideal buffer of finalized slots the sequencer keeps. The larger it
/// is, the longer forced transactions take to be included, and the more DA
/// instability the sequencer absorbs.
pub fn default_ideal_lag_behind_finalized_slot() -> (r: u64)
    ensures
        r == 10,
{
    10
}

/// The size of the channel that streams events, when the field is absent.
pub fn default_events_channel_size() -> (r: usize)
    ensures
        r == 10_000,
{
    10_000
}

/// The number of database events buffered while the state is updated, when
/// the field is absent.
pub fn default_db_event_channel_size() -> (r: usize)
    ensures
        r == 10_000,
{
    10_000
}

/// Configuration of the preferred sequencer.
#[derive(Debug, Clone, PartialEq, Eq)]
pub struct PreferredSequencerConfig {
    /// The minimum fee the preferred sequencer accepts, in rollup tokens.
    pub minimum_profit_per_tx: u128,
    /// The size of the channel that streams events.
    pub events_channel_size: usize,
    /// When present, Postgres is used as the database instead of RocksDB.
    pub postgres_connection_string: Option<String>,
    /// Skips the expensive consistency checks of state roots.
    pub disable_state_root_consistency_checks: bool,
    /// The ideal lag behind the finalized slot number.
    pub ideal_lag_behind_finalized_slot: u64,
    /// The number of database events buffered while the state is updated.
    pub db_event_channel_size: usize,
    /// What to do when the sequencer must recover.
    pub recovery_strategy: RecoveryStrategy,
    /// Batches are closed once executing their transactions took longer.
    pub batch_execution_time_limit_millis: u64,
}

impl Default for PreferredSequencerConfig {
    fn default() -> (r: Self)
        ensures
            r.minimum_profit_per_tx == 0,
            r.events_channel_size == 10_000,
            r.postgres_connection_string is None,
            !r.disable_state_root_consistency_checks,
            r.ideal_lag_behind_finalized_slot == 10,
            r.db_event_channel_size == 10_000,
            r.recovery_strategy == RecoveryStrategy::DoNotRecover,
            r.batch_execution_time_limit_millis == 6_000,
    {
        PreferredSequencerConfig {
            minimum_profit_per_tx: 0,
            events_channel_size: default_events_channel_size(),
            postgres_connection_string: None,
            disable_state_root_consistency_checks: false,
            ideal_lag_behind_finalized_slot: default_ideal_lag_behind_finalized_slot(),
            db_event_channel_size: default_db_event_channel_size(),
            recovery_strategy: RecoveryStrategy::DoNotRecover,
            batch_execution_time_limit_millis: 6_000,
        }
    }
}

/// Configuration of the preferred batch builder.
#[derive(Debug, Clone, PartialEq, Eq)]
pub struct PreferredBatchBuilderConfig {
    /// The minimum fee the preferred sequencer accepts, in rollup tokens.
    /// Sequencers should raise it to cover their DA costs.
    pub minimum_profit_per_tx: u64,
}

impl Default for PreferredBatchBuilderConfig {
    fn default() -> (r: Self)
        ensures
            r.minimum_profit_per_tx == 0,
    {
        PreferredBatchBuilderConfig { minimum_profit_per_tx: 0 }
    }
}

/// The kind of sequencer, with its own configuration.
#[derive(Debug, Clone)]
pub enum SequencerKindConfig {
    /// Posts transactions to the rollup, without soft confirmations.
    Standard(StdBatchBuilderConfig),
    /// Allowed to give soft confirmations.
    Preferred(PreferredSequencerConfig),
}

impl Default for SequencerKindConfig {
    fn default() -> (r: Self)
        ensures
            r matches SequencerKindConfig::Preferred(c) && c.minimum_profit_per_tx == 0
                && c.events_channel_size == 10_000 && c.postgres_connection_string is None
                && !c.disable_state_root_consistency_checks && c.ideal_lag_behind_finalized_slot
                == 10 && c.db_event_channel_size == 10_000 && c.recovery_strategy
                == RecoveryStrategy::DoNotRecover && c.batch_execution_time_limit_millis == 6_000,
    {
        SequencerKindConfig::Preferred(PreferredSequencerConfig::default())
    }
}

/// The sequencer's configuration; `DaAddress` and `Address` are the DA and
/// rollup address types, `Sc` the kind-specific part.
#[derive(Debug, Clone)]
pub struct SequencerConfig<DaAddress, Address, Sc> {
    /// Submitted transactions are assembled into batches and posted
    /// automatically; otherwise batch production must be requested.
    pub automatic_batch_production: bool,
    /// Requests are refused unless the node is within this many blocks of
    /// the sequencer, or ahead of it.
    pub max_allowed_node_distance_behind: u64,
    /// How long dropped transactions are tracked, in seconds.
    pub dropped_tx_ttl_secs: u64,
    /// DA address of the sequencer.
    pub da_address: DaAddress,
    /// Rollup address of the sequencer.
    pub rollup_address: Address,
    /// The addresses allowed to perform admin operations.
    pub admin_addresses: Vec<Address>,
    /// Sequencer-kind specific configuration.
    pub sequencer_kind_config: Sc,
    /// Maximum size of a batch.
    pub max_batch_size_bytes: usize,
    /// Maximum number of blobs sent in parallel.
    pub max_concurrent_blobs: usize,
}

impl<DaAddress: Clone, Address: Clone, Sc> SequencerConfig<DaAddress, Address, Sc> {
    /// The same configuration with another kind-specific part.
    pub fn with_seq_config<Sc2>(&self, seq_config: Sc2) -> (r: SequencerConfig<DaAddress, Address, Sc2>)
        ensures
            r.automatic_batch_production == self.automatic_batch_production,
            r.max_allowed_node_distance_behind == self.max_allowed_node_distance_behind,
            r.dropped_tx_ttl_secs == self.dropped_tx_ttl_secs,
            cloned(self.da_address, r.da_address),
            cloned(self.rollup_address, r.rollup_address),
            r.admin_addresses@.len() == self.admin_addresses@.len(),
            forall|i: int|
                0 <= i < self.admin_addresses@.len() ==> cloned(
                    self.admin_addresses@[i],
                    #[trigger] r.admin_addresses@[i],
                ),
            r.sequencer_kind_config == seq_config,
            r.max_batch_size_bytes == self.max_batch_size_bytes,
            r.max_concurrent_blobs == self.max_concurrent_blobs,
    {
        SequencerConfig {
            automatic_batch_production: self.automatic_batch_production,
            dropped_tx_ttl_secs: self.dropped_tx_ttl_secs,
            da_address: self.da_address.clone(),
            rollup_address: self.rollup_address.clone(),
            max_allowed_node_distance_behind: self.max_allowed_node_distance_behind,
            admin_addresses: self.admin_addresses.clone(),
            max_batch_size_bytes: self.max_batch_size_bytes,
            max_concurrent_blobs: self.max_concurrent_blobs,
            sequencer_kind_config: seq_config,
        }
    }
}

impl<DaAddress, Address> SequencerConfig<DaAddress, Address, SequencerKindConfig> {
    /// Whether the sequencer is a preferred one.
    pub fn is_preferred_sequencer(&self) -> (r: bool)
        ensures
            r == (self.sequencer_kind_config is Preferred),
    {
        match self.sequencer_kind_config {
            SequencerKindConfig::Preferred(_) => true,
            SequencerKindConfig::Standard(_) => false,
        }
    }
}

} // verus!
