//! What the preferred batch does with a transaction once the runtime ran
//! it: keep it, or revert it and tell the submitter why.
use vstd::prelude::*;

use crate::errors::RejectReason;

verus! {

/// The fate of a transaction the runtime ran for the preferred batch.
#[derive(Debug, Clone, Copy, PartialEq, Eq, Structural)]
pub enum PostTxDecision {
    /// Commit the transaction and report its receipt.
    Commit,
    /// Revert the transaction, whose execution failed, and report its
    /// receipt.
    RevertFailed,
    /// Revert the transaction and report the rejection.
    Reject(RejectReason),
}

/// Decides the fate of a transaction: one the batch had no gas left to run
/// is rejected as such; a failed one is reverted; a successful one whose
/// reward, net of the penalty, is below the profit threshold is rejected;
/// any other one is committed.
pub fn post_tx_decision(executed: bool, successful: bool, reward: u128, penalty: u128, tx_profit_threshold: u128) -> (r:
    PostTxDecision)
    ensures
        r == if !executed {
            PostTxDecision::Reject(RejectReason::SequencerOutOfGas)
        } else if !successful {
            PostTxDecision::RevertFailed
        } else if penalty > reward || reward - penalty < tx_profit_threshold {
            PostTxDecision::Reject(
                RejectReason::InsufficientReward {
                    expected: tx_profit_threshold,
                    found: if reward >= penalty {
                        (reward - penalty) as u128
                    } else {
                        0
                    },
                },
            )
        } else {
            PostTxDecision::Commit
        },
{
    if !executed {
        return PostTxDecision::Reject(RejectReason::SequencerOutOfGas);
    }
    if !successful {
        return PostTxDecision::RevertFailed;
    }
    let net = reward.saturating_sub(penalty);
    if penalty > reward || net < tx_profit_threshold {
        return PostTxDecision::Reject(
            RejectReason::InsufficientReward { expected: tx_profit_threshold, found: net },
        );
    }
    PostTxDecision::Commit
}

/// A transaction whose sender may not send its call through the sequencer
/// is rejected before it runs.
pub fn pre_flight_rejection(sender_is_allowed: bool) -> (r: Option<RejectReason>)
    ensures
        r == if sender_is_allowed {
            None::<RejectReason>
        } else {
            Some(RejectReason::SenderMustBeAdmin)
        },
{
    if sender_is_allowed {
        None
    } else {
        Some(RejectReason::SenderMustBeAdmin)
    }
}

} // verus!
