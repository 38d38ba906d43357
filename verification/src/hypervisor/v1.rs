//! `determinism.hypervisor.v1` (pre-release): hypervisor handles.

use vstd::prelude::*;

verus! {

/// A reference to a hypervisor snapshot.
#[derive(Clone, Debug, Default, PartialEq, Eq)]
pub struct SnapshotRef {
    pub hash: Vec<u8>,
}

/// A lease on a hypervisor slot.
#[derive(Clone, Debug, Default, PartialEq, Eq)]
pub struct Lease {
    pub slot_id: u64,
    pub token: Vec<u8>,
}

/// The KVM capabilities a hypervisor host offers.
#[derive(Clone, Debug, Default, PartialEq, Eq)]
pub struct KvmCaps {
    pub user_space_msr: bool,
    pub msr_filter: bool,
    pub dirty_ring: bool,
    pub immediate_exit: bool,
    pub no_in_kernel_irqchip: bool,
}

} // verus!
