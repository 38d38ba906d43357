//! Shared contract types of the determinism services, together with the
//! descriptor canonicalisation and comparison logic used to check that two
//! protobuf schema trees describe the same API.

pub mod common;
pub mod controlplane;
pub mod descriptor_eq;
pub mod hypervisor;
pub mod inputsynth;
pub mod observatory;
pub mod proto_enum;
pub mod replay;
pub mod scorer;
pub mod scratch;
pub mod snapstore;

use vstd::prelude::*;

verus! {

/// Release tag of the protobuf contracts carried by this crate.
pub const PROTO_VERSION: &'static str = "proto-v0.2.0";

} // verus!
