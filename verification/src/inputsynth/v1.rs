//! `determinism.inputsynth.v1`: the input synthesizer's wire constants.

pub mod health_response;

use vstd::prelude::*;
use crate::proto_enum::ProtoEnum;

verus! {

/// The version of the burst wire format.
pub const BURST_FORMAT_VERSION: u32 = 1;

/// The kind of input model a burst is proposed for.
#[derive(Clone, Copy, Debug, Default, PartialEq, Eq, Hash, PartialOrd, Ord)]
pub enum ModelKind {
    #[default]
    Unspecified,
    Pad,
    EventGrammar,
}

impl ProtoEnum for ModelKind {
    open spec fn number(self) -> i32 {
        match self {
            ModelKind::Unspecified => 0,
            ModelKind::Pad => 1,
            ModelKind::EventGrammar => 2,
        }
    }

    open spec fn variant_of(v: i32) -> Option<ModelKind> {
        if v == 0 {
            Some(ModelKind::Unspecified)
        } else if v == 1 {
            Some(ModelKind::Pad)
        } else if v == 2 {
            Some(ModelKind::EventGrammar)
        } else {
            None
        }
    }

    fn value(&self) -> (r: i32)
        ensures
            r == *self as i32,
    {
        match self {
            ModelKind::Unspecified => 0,
            ModelKind::Pad => 1,
            ModelKind::EventGrammar => 2,
        }
    }

    fn from_value(v: i32) -> (r: Option<ModelKind>)
        ensures
            r matches Some(e) ==> e as i32 == v,
            forall|e: ModelKind| e as i32 == v ==> r == Some(e),
    {
        if v == 0 {
            Some(ModelKind::Unspecified)
        } else if v == 1 {
            Some(ModelKind::Pad)
        } else if v == 2 {
            Some(ModelKind::EventGrammar)
        } else {
            None
        }
    }

    proof fn lemma_number_round_trip(e: ModelKind) {
    }

    proof fn lemma_variant_of_number(v: i32) {
    }
}

/// The wire number of each variant of `ModelKind` is the number it is declared
/// with, and a number reads back as the variant declared with it, any other
/// number as none.
pub proof fn lemma_model_kind_wire_numbers()
    ensures
        forall|e: ModelKind| #[trigger] e.number() == e as i32 && ModelKind::variant_of(e as i32) == Some(e),
        forall|n: i32| #[trigger] ModelKind::variant_of(n) matches Some(e) ==> e as i32 == n,
{
}

/// The generator that produced a burst.
#[derive(Clone, Copy, Debug, Default, PartialEq, Eq, Hash, PartialOrd, Ord)]
pub enum GeneratorKind {
    #[default]
    Unspecified,
    WeightedRandom,
    Macro,
    Mutation,
    Policy,
}

impl ProtoEnum for GeneratorKind {
    open spec fn number(self) -> i32 {
        match self {
            GeneratorKind::Unspecified => 0,
            GeneratorKind::WeightedRandom => 1,
            GeneratorKind::Macro => 2,
            GeneratorKind::Mutation => 3,
            GeneratorKind::Policy => 4,
        }
    }

    open spec fn variant_of(v: i32) -> Option<GeneratorKind> {
        if v == 0 {
            Some(GeneratorKind::Unspecified)
        } else if v == 1 {
            Some(GeneratorKind::WeightedRandom)
        } else if v == 2 {
            Some(GeneratorKind::Macro)
        } else if v == 3 {
            Some(GeneratorKind::Mutation)
        } else if v == 4 {
            Some(GeneratorKind::Policy)
        } else {
            None
        }
    }

    fn value(&self) -> (r: i32)
        ensures
            r == *self as i32,
    {
        match self {
            GeneratorKind::Unspecified => 0,
            GeneratorKind::WeightedRandom => 1,
            GeneratorKind::Macro => 2,
            GeneratorKind::Mutation => 3,
            GeneratorKind::Policy => 4,
        }
    }

    fn from_value(v: i32) -> (r: Option<GeneratorKind>)
        ensures
            r matches Some(e) ==> e as i32 == v,
            forall|e: GeneratorKind| e as i32 == v ==> r == Some(e),
    {
        if v == 0 {
            Some(GeneratorKind::Unspecified)
        } else if v == 1 {
            Some(GeneratorKind::WeightedRandom)
        } else if v == 2 {
            Some(GeneratorKind::Macro)
        } else if v == 3 {
            Some(GeneratorKind::Mutation)
        } else if v == 4 {
            Some(GeneratorKind::Policy)
        } else {
            None
        }
    }

    proof fn lemma_number_round_trip(e: GeneratorKind) {
    }

    proof fn lemma_variant_of_number(v: i32) {
    }
}

/// The wire number of each variant of `GeneratorKind` is the number it is declared
/// with, and a number reads back as the variant declared with it, any other
/// number as none.
pub proof fn lemma_generator_kind_wire_numbers()
    ensures
        forall|e: GeneratorKind| #[trigger] e.number() == e as i32 && GeneratorKind::variant_of(e as i32) == Some(e),
        forall|n: i32| #[trigger] GeneratorKind::variant_of(n) matches Some(e) ==> e as i32 == n,
{
}

/// The kind of YAML document loaded into the synthesizer.
#[derive(Clone, Copy, Debug, Default, PartialEq, Eq, Hash, PartialOrd, Ord)]
pub enum DocumentKind {
    #[default]
    Unspecified,
    MacroPack,
    ExperimentConfig,
    EventGrammar,
}

impl ProtoEnum for DocumentKind {
    open spec fn number(self) -> i32 {
        match self {
            DocumentKind::Unspecified => 0,
            DocumentKind::MacroPack => 1,
            DocumentKind::ExperimentConfig => 2,
            DocumentKind::EventGrammar => 3,
        }
    }

    open spec fn variant_of(v: i32) -> Option<DocumentKind> {
        if v == 0 {
            Some(DocumentKind::Unspecified)
        } else if v == 1 {
            Some(DocumentKind::MacroPack)
        } else if v == 2 {
            Some(DocumentKind::ExperimentConfig)
        } else if v == 3 {
            Some(DocumentKind::EventGrammar)
        } else {
            None
        }
    }

    fn value(&self) -> (r: i32)
        ensures
            r == *self as i32,
    {
        match self {
            DocumentKind::Unspecified => 0,
            DocumentKind::MacroPack => 1,
            DocumentKind::ExperimentConfig => 2,
            DocumentKind::EventGrammar => 3,
        }
    }

    fn from_value(v: i32) -> (r: Option<DocumentKind>)
        ensures
            r matches Some(e) ==> e as i32 == v,
            forall|e: DocumentKind| e as i32 == v ==> r == Some(e),
    {
        if v == 0 {
            Some(DocumentKind::Unspecified)
        } else if v == 1 {
            Some(DocumentKind::MacroPack)
        } else if v == 2 {
            Some(DocumentKind::ExperimentConfig)
        } else if v == 3 {
            Some(DocumentKind::EventGrammar)
        } else {
            None
        }
    }

    proof fn lemma_number_round_trip(e: DocumentKind) {
    }

    proof fn lemma_variant_of_number(v: i32) {
    }
}

/// The wire number of each variant of `DocumentKind` is the number it is declared
/// with, and a number reads back as the variant declared with it, any other
/// number as none.
pub proof fn lemma_document_kind_wire_numbers()
    ensures
        forall|e: DocumentKind| #[trigger] e.number() == e as i32 && DocumentKind::variant_of(e as i32) == Some(e),
        forall|n: i32| #[trigger] DocumentKind::variant_of(n) matches Some(e) ==> e as i32 == n,
{
}
} // verus!
