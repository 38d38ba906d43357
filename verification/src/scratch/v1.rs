//! `determinism.scratch.v1`: the scratch family used to rehearse promotions.

use vstd::prelude::*;

verus! {

/// A request to promote a value.
#[derive(Clone, Debug, Default, PartialEq, Eq)]
pub struct PromoteRequest {
    pub value: String,
}

} // verus!
