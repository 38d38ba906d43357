//! `determinism.replay.v1` (pre-release): replay requests.

use vstd::prelude::*;

verus! {

/// A request to replay an experiment up to one of its nodes.
#[derive(Clone, Debug, Default, PartialEq, Eq)]
pub struct SubmitReplayJobRequest {
    pub experiment_id: String,
    pub target_node_id: u64,
    pub verify_only: bool,
}

} // verus!
