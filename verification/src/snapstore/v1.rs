//! `determinism.snapstore.v1` (pre-release): snapshot store records.

use vstd::prelude::*;

verus! {

/// What the snapshot store records of an exploration node.
#[derive(Clone, Debug, Default, PartialEq, Eq)]
pub struct NodeMeta {
    pub experiment_id: String,
    pub node_id: u64,
    pub parent_id: Option<u64>,
    pub snapshot_ref: Vec<u8>,
    pub input_log_id: Vec<u8>,
}

/// A request to store a snapshot manifest.
#[derive(Clone, Debug, Default, PartialEq, Eq)]
pub struct PutSnapshotRequest {
    pub manifest: Vec<u8>,
}

} // verus!
