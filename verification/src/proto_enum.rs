//! Protobuf enumerations: every variant is carried on the wire as a fixed
//! `i32`, and a known number reads back as its variant.

use vstd::prelude::*;

verus! {

/// An enumeration with a stable wire number for each variant.
pub trait ProtoEnum: Sized {
    /// The wire number of a variant.
    spec fn number(self) -> i32;

    /// The variant that carries wire number `v`, if any does.
    spec fn variant_of(v: i32) -> Option<Self>;

    /// The wire number of this variant.
    fn value(&self) -> (r: i32)
        ensures
            r == self.number(),
    ;

    /// The variant with wire number `v`, or `None` for an unknown number.
    fn from_value(v: i32) -> (r: Option<Self>)
        ensures
            r == Self::variant_of(v),
    ;

    /// Reading back the number of a variant gives that variant.
    proof fn lemma_number_round_trip(e: Self)
        ensures
            Self::variant_of(e.number()) == Some(e),
    ;

    /// A number that reads as a variant is that variant's number.
    proof fn lemma_variant_of_number(v: i32)
        ensures
            Self::variant_of(v) matches Some(e) ==> e.number() == v,
    ;
}

} // verus!
