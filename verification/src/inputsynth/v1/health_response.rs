//! `determinism.inputsynth.v1.HealthResponse`: nested types.

use vstd::prelude::*;
use crate::proto_enum::ProtoEnum;

verus! {

/// The serving state reported by a health check.
#[derive(Clone, Copy, Debug, Default, PartialEq, Eq, Hash, PartialOrd, Ord)]
pub enum Status {
    #[default]
    Unspecified,
    Serving,
    Degraded,
    NotServing,
}

impl ProtoEnum for Status {
    open spec fn number(self) -> i32 {
        match self {
            Status::Unspecified => 0,
            Status::Serving => 1,
            Status::Degraded => 2,
            Status::NotServing => 3,
        }
    }

    open spec fn variant_of(v: i32) -> Option<Status> {
        if v == 0 {
            Some(Status::Unspecified)
        } else if v == 1 {
            Some(Status::Serving)
        } else if v == 2 {
            Some(Status::Degraded)
        } else if v == 3 {
            Some(Status::NotServing)
        } else {
            None
        }
    }

    fn value(&self) -> (r: i32)
        ensures
            r == *self as i32,
    {
        match self {
            Status::Unspecified => 0,
            Status::Serving => 1,
            Status::Degraded => 2,
            Status::NotServing => 3,
        }
    }

    fn from_value(v: i32) -> (r: Option<Status>)
        ensures
            r matches Some(e) ==> e as i32 == v,
            forall|e: Status| e as i32 == v ==> r == Some(e),
    {
        if v == 0 {
            Some(Status::Unspecified)
        } else if v == 1 {
            Some(Status::Serving)
        } else if v == 2 {
            Some(Status::Degraded)
        } else if v == 3 {
            Some(Status::NotServing)
        } else {
            None
        }
    }

    proof fn lemma_number_round_trip(e: Status) {
    }

    proof fn lemma_variant_of_number(v: i32) {
    }
}

/// The wire number of each variant of `Status` is the number it is declared
/// with, and a number reads back as the variant declared with it, any other
/// number as none.
pub proof fn lemma_status_wire_numbers()
    ensures
        forall|e: Status| #[trigger] e.number() == e as i32 && Status::variant_of(e as i32) == Some(e),
        forall|n: i32| #[trigger] Status::variant_of(n) matches Some(e) ==> e as i32 == n,
{
}
} // verus!
