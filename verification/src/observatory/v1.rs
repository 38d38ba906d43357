//! `determinism.observatory.v1` (pre-release): observatory events.

use vstd::prelude::*;
use crate::proto_enum::ProtoEnum;

verus! {

/// One event published to the observatory.
#[derive(Clone, Debug, Default, PartialEq, Eq)]
pub struct EventEnvelope {
    pub run_id: String,
    pub seq: u64,
    pub source_service: String,
    pub event_type: String,
    pub payload_json: String,
}

/// The service that published an event.
#[derive(Clone, Copy, Debug, Default, PartialEq, Eq, Hash, PartialOrd, Ord)]
pub enum SourceService {
    #[default]
    Unspecified,
    ExplorationOrchestrator,
    DeterminismHypervisor,
    StateScorer,
    ReplayRenderer,
    ControlPlane,
    GuestSdk,
}

impl ProtoEnum for SourceService {
    open spec fn number(self) -> i32 {
        match self {
            SourceService::Unspecified => 0,
            SourceService::ExplorationOrchestrator => 1,
            SourceService::DeterminismHypervisor => 2,
            SourceService::StateScorer => 3,
            SourceService::ReplayRenderer => 4,
            SourceService::ControlPlane => 5,
            SourceService::GuestSdk => 6,
        }
    }

    open spec fn variant_of(v: i32) -> Option<SourceService> {
        if v == 0 {
            Some(SourceService::Unspecified)
        } else if v == 1 {
            Some(SourceService::ExplorationOrchestrator)
        } else if v == 2 {
            Some(SourceService::DeterminismHypervisor)
        } else if v == 3 {
            Some(SourceService::StateScorer)
        } else if v == 4 {
            Some(SourceService::ReplayRenderer)
        } else if v == 5 {
            Some(SourceService::ControlPlane)
        } else if v == 6 {
            Some(SourceService::GuestSdk)
        } else {
            None
        }
    }

    fn value(&self) -> (r: i32)
        ensures
            r == *self as i32,
    {
        match self {
            SourceService::Unspecified => 0,
            SourceService::ExplorationOrchestrator => 1,
            SourceService::DeterminismHypervisor => 2,
            SourceService::StateScorer => 3,
            SourceService::ReplayRenderer => 4,
            SourceService::ControlPlane => 5,
            SourceService::GuestSdk => 6,
        }
    }

    fn from_value(v: i32) -> (r: Option<SourceService>)
        ensures
            r matches Some(e) ==> e as i32 == v,
            forall|e: SourceService| e as i32 == v ==> r == Some(e),
    {
        if v == 0 {
            Some(SourceService::Unspecified)
        } else if v == 1 {
            Some(SourceService::ExplorationOrchestrator)
        } else if v == 2 {
            Some(SourceService::DeterminismHypervisor)
        } else if v == 3 {
            Some(SourceService::StateScorer)
        } else if v == 4 {
            Some(SourceService::ReplayRenderer)
        } else if v == 5 {
            Some(SourceService::ControlPlane)
        } else if v == 6 {
            Some(SourceService::GuestSdk)
        } else {
            None
        }
    }

    proof fn lemma_number_round_trip(e: SourceService) {
    }

    proof fn lemma_variant_of_number(v: i32) {
    }
}

/// The wire number of each variant of `SourceService` is the number it is declared
/// with, and a number reads back as the variant declared with it, any other
/// number as none.
pub proof fn lemma_source_service_wire_numbers()
    ensures
        forall|e: SourceService| #[trigger] e.number() == e as i32 && SourceService::variant_of(e as i32) == Some(e),
        forall|n: i32| #[trigger] SourceService::variant_of(n) matches Some(e) ==> e as i32 == n,
{
}
} // verus!
