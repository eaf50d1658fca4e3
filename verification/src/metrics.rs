//! The measurements the sequencer reports, in the line protocol of Telegraf.
use vstd::prelude::*;
use vstd::string::*;

use crate::errors::{decimal, decimal_text};

verus! {

/// What one update of the preferred sequencer's state measured.
#[derive(Debug)]
pub struct PreferredSequencerUpdateStateMetrics {
    pub duration: std::time::Duration,
    pub lock_duration: std::time::Duration,
    pub batches_count: u64,
    pub transactions_count: u64,
    pub in_progress_batch: bool,
}

/// The name of the measurement of a state update.
pub open spec fn update_state_measurement_name() -> Seq<char> {
    "sov_rollup_preferred_sequencer_update_state"@
}

/// The text of a boolean, as `Display` writes it.
pub open spec fn bool_text(b: bool) -> Seq<char> {
    if b {
        "true"@
    } else {
        "false"@
    }
}

/// The line of a state update measurement, with its durations in whole
/// milliseconds.
pub open spec fn update_state_line(
    duration_ms: nat,
    lock_duration_ms: nat,
    batches_count: nat,
    transactions_count: nat,
    in_progress_batch: bool,
) -> Seq<char> {
    update_state_measurement_name() + " duration_ms="@ + decimal(duration_ms)
        + ",lock_duration_ms="@ + decimal(lock_duration_ms) + ",batches_count="@ + decimal(
        batches_count,
    ) + ",transactions_count="@ + decimal(transactions_count) + ",in_progress_batch="@
        + bool_text(in_progress_batch)
}

impl PreferredSequencerUpdateStateMetrics {
    /// The name of the measurement.
    pub fn measurement_name(&self) -> (r: &'static str)
        ensures
            r@ == update_state_measurement_name(),
    {
        "sov_rollup_preferred_sequencer_update_state"
    }

    /// The measurement in the line protocol, given its durations in whole
    /// milliseconds.
    pub fn telegraf_line(&self, duration_ms: u128, lock_duration_ms: u128) -> (r: String)
        ensures
            r@ == update_state_line(
                duration_ms as nat,
                lock_duration_ms as nat,
                self.batches_count as nat,
                self.transactions_count as nat,
                self.in_progress_batch,
            ),
    {
        let line = self.measurement_name().to_owned();
        let line = line.concat(" duration_ms=");
        let line = line.concat(decimal_text(duration_ms).as_str());
        let line = line.concat(",lock_duration_ms=");
        let line = line.concat(decimal_text(lock_duration_ms).as_str());
        let line = line.concat(",batches_count=");
        let line = line.concat(decimal_text(self.batches_count as u128).as_str());
        let line = line.concat(",transactions_count=");
        let line = line.concat(decimal_text(self.transactions_count as u128).as_str());
        let line = line.concat(",in_progress_batch=");
        if self.in_progress_batch {
            line.concat("true")
        } else {
            line.concat("false")
        }
    }
}

/// The inline measurement of the current sequence number.
pub fn sequence_number_fields(sequence_number: u64) -> (r: String)
    ensures
        r@ == "current_sequence_number="@ + decimal(sequence_number as nat),
{
    let s = "current_sequence_number=".to_owned();
    s.concat(decimal_text(sequence_number as u128).as_str())
}

/// The inline measurement of the size of the batch in progress.
pub fn in_progress_batch_size_fields(num_txs: u64) -> (r: String)
    ensures
        r@ == "num_txs="@ + decimal(num_txs as nat),
{
    let s = "num_txs=".to_owned();
    s.concat(decimal_text(num_txs as u128).as_str())
}

} // verus!
