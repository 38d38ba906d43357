//! `determinism.replay.agent.v1` (pre-release): replay agent messages.

use vstd::prelude::*;

verus! {

/// The answer of a replay agent to a ping.
#[derive(Clone, Debug, Default, PartialEq, Eq)]
pub struct PingResponse {
    pub version: String,
    pub hypervisor_reachable: bool,
}

} // verus!
