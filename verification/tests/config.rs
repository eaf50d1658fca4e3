use sov_sequencer::config::{
    default_automatic_batch_production, default_db_event_channel_size,
    default_events_channel_size, default_ideal_lag_behind_finalized_slot,
    default_sequencer_dropped_tx_ttl_secs, PreferredBatchBuilderConfig, PreferredSequencerConfig,
    SequencerConfig, SequencerKindConfig,
};
use sov_sequencer::preferred::decisions::RecoveryStrategy;
use sov_sequencer::standard::batch_builder::StdBatchBuilderConfig;

#[test]
fn defaults() {
    assert!(default_automatic_batch_production());
    assert_eq!(default_sequencer_dropped_tx_ttl_secs(), 60);
    assert_eq!(default_ideal_lag_behind_finalized_slot(), 10);
    assert_eq!(default_events_channel_size(), 10_000);
    assert_eq!(default_db_event_channel_size(), 10_000);
    let c = PreferredSequencerConfig::default();
    assert_eq!(c.minimum_profit_per_tx, 0);
    assert_eq!(c.recovery_strategy, RecoveryStrategy::DoNotRecover);
    assert_eq!(c.batch_execution_time_limit_millis, 6_000);
    assert_eq!(c.postgres_connection_string, None);
    assert_eq!(PreferredBatchBuilderConfig::default().minimum_profit_per_tx, 0);
    assert!(matches!(SequencerKindConfig::default(), SequencerKindConfig::Preferred(_)));
}

fn config(kind: SequencerKindConfig) -> SequencerConfig<u8, u16, SequencerKindConfig> {
    SequencerConfig {
        automatic_batch_production: true,
        max_allowed_node_distance_behind: 5,
        dropped_tx_ttl_secs: 60,
        da_address: 1,
        rollup_address: 2,
        admin_addresses: vec![3, 4],
        sequencer_kind_config: kind,
        max_batch_size_bytes: 1000,
        max_concurrent_blobs: 16,
    }
}

#[test]
fn kind_of_sequencer() {
    assert!(config(SequencerKindConfig::Preferred(PreferredSequencerConfig::default())).is_preferred_sequencer());
    assert!(!config(SequencerKindConfig::Standard(StdBatchBuilderConfig::default())).is_preferred_sequencer());
}

#[test]
fn replacing_the_kind_keeps_the_rest() {
    let c = config(SequencerKindConfig::Standard(StdBatchBuilderConfig::default()));
    let d = c.with_seq_config(PreferredBatchBuilderConfig { minimum_profit_per_tx: 5 });
    assert_eq!(d.sequencer_kind_config.minimum_profit_per_tx, 5);
    assert_eq!(d.admin_addresses, vec![3, 4]);
    assert_eq!((d.da_address, d.rollup_address), (1, 2));
    assert_eq!(d.max_batch_size_bytes, 1000);
    assert_eq!(d.max_concurrent_blobs, 16);
    assert_eq!(d.max_allowed_node_distance_behind, 5);
}
