//! Watches how far the sequencer has run ahead of its node.
use vstd::prelude::*;

use crate::types::SequencerNotReadyDetails;

verus! {

/// The slot numbers of the sequencer and of its node, and how far apart they
/// may drift.
#[derive(Debug)]
pub struct NodeDeltaWatcher {
    /// The slot the sequencer builds on.
    pub sequencer_slot_number: u64,
    /// The slot the node has processed.
    pub node_slot_number: u64,
    /// The largest distance the sequencer may run ahead of its node.
    pub max_delta: u64,
}

impl NodeDeltaWatcher {
    /// A watcher at the genesis slot for both, with the given limit.
    pub fn new(max_delta: u64) -> (r: Self)
        ensures
            r.sequencer_slot_number == 0,
            r.node_slot_number == 0,
            r.max_delta == max_delta,
    {
        NodeDeltaWatcher { sequencer_slot_number: 0, node_slot_number: 0, max_delta }
    }

    /// Refuses when the sequencer is `max_delta` slots or more ahead of its
    /// node; a node ahead of the sequencer is fine.
    pub fn check_delta(&self) -> (r: Result<(), SequencerNotReadyDetails>)
        ensures
            self.sequencer_slot_number < self.node_slot_number ==> r is Ok,
            self.sequencer_slot_number >= self.node_slot_number ==> {
                let delta = self.sequencer_slot_number - self.node_slot_number;
                if delta >= self.max_delta {
                    r == Err::<(), SequencerNotReadyDetails>(
                        SequencerNotReadyDetails::WaitingOnNode {
                            current_node_slot_number: self.node_slot_number,
                            current_sequencer_slot_number: self.sequencer_slot_number,
                            current_delta: delta as u64,
                            max_allowed_delta: self.max_delta,
                        },
                    )
                } else {
                    r is Ok
                }
            },
    {
        let seq_slot_num = self.sequencer_slot_number;
        let node_slot_num = self.node_slot_number;
        if seq_slot_num < node_slot_num {
            return Ok(());
        }
        let delta = seq_slot_num - node_slot_num;
        if delta >= self.max_delta {
            Err(
                SequencerNotReadyDetails::WaitingOnNode {
                    current_node_slot_number: node_slot_num,
                    current_sequencer_slot_number: seq_slot_num,
                    current_delta: delta,
                    max_allowed_delta: self.max_delta,
                },
            )
        } else {
            Ok(())
        }
    }
}

} // verus!
