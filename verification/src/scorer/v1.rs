//! `determinism.scorer.v1`: the state scorer's wire constants.

use vstd::prelude::*;
use crate::proto_enum::ProtoEnum;

verus! {

/// Whether scored states are inserted into the archive.
#[derive(Clone, Copy, Debug, Default, PartialEq, Eq, Hash, PartialOrd, Ord)]
pub enum ArchiveUpdateMode {
    #[default]
    Unspecified,
    ScoreAndInsert,
    ScoreOnly,
}

impl ProtoEnum for ArchiveUpdateMode {
    open spec fn number(self) -> i32 {
        match self {
            ArchiveUpdateMode::Unspecified => 0,
            ArchiveUpdateMode::ScoreAndInsert => 1,
            ArchiveUpdateMode::ScoreOnly => 2,
        }
    }

    open spec fn variant_of(v: i32) -> Option<ArchiveUpdateMode> {
        if v == 0 {
            Some(ArchiveUpdateMode::Unspecified)
        } else if v == 1 {
            Some(ArchiveUpdateMode::ScoreAndInsert)
        } else if v == 2 {
            Some(ArchiveUpdateMode::ScoreOnly)
        } else {
            None
        }
    }

    fn value(&self) -> (r: i32)
        ensures
            r == *self as i32,
    {
        match self {
            ArchiveUpdateMode::Unspecified => 0,
            ArchiveUpdateMode::ScoreAndInsert => 1,
            ArchiveUpdateMode::ScoreOnly => 2,
        }
    }

    fn from_value(v: i32) -> (r: Option<ArchiveUpdateMode>)
        ensures
            r matches Some(e) ==> e as i32 == v,
            forall|e: ArchiveUpdateMode| e as i32 == v ==> r == Some(e),
    {
        if v == 0 {
            Some(ArchiveUpdateMode::Unspecified)
        } else if v == 1 {
            Some(ArchiveUpdateMode::ScoreAndInsert)
        } else if v == 2 {
            Some(ArchiveUpdateMode::ScoreOnly)
        } else {
            None
        }
    }

    proof fn lemma_number_round_trip(e: ArchiveUpdateMode) {
    }

    proof fn lemma_variant_of_number(v: i32) {
    }
}

/// The wire number of each variant of `ArchiveUpdateMode` is the number it is declared
/// with, and a number reads back as the variant declared with it, any other
/// number as none.
pub proof fn lemma_archive_update_mode_wire_numbers()
    ensures
        forall|e: ArchiveUpdateMode| #[trigger] e.number() == e as i32 && ArchiveUpdateMode::variant_of(e as i32) == Some(e),
        forall|n: i32| #[trigger] ArchiveUpdateMode::variant_of(n) matches Some(e) ==> e as i32 == n,
{
}

/// The pixel layout of a framebuffer.
#[derive(Clone, Copy, Debug, Default, PartialEq, Eq, Hash, PartialOrd, Ord)]
pub enum PixelFormat {
    #[default]
    Unspecified,
    Rgb888,
    Rgb555Le,
    Gray8,
    Xrgb8888,
}

impl ProtoEnum for PixelFormat {
    open spec fn number(self) -> i32 {
        match self {
            PixelFormat::Unspecified => 0,
            PixelFormat::Rgb888 => 1,
            PixelFormat::Rgb555Le => 2,
            PixelFormat::Gray8 => 3,
            PixelFormat::Xrgb8888 => 4,
        }
    }

    open spec fn variant_of(v: i32) -> Option<PixelFormat> {
        if v == 0 {
            Some(PixelFormat::Unspecified)
        } else if v == 1 {
            Some(PixelFormat::Rgb888)
        } else if v == 2 {
            Some(PixelFormat::Rgb555Le)
        } else if v == 3 {
            Some(PixelFormat::Gray8)
        } else if v == 4 {
            Some(PixelFormat::Xrgb8888)
        } else {
            None
        }
    }

    fn value(&self) -> (r: i32)
        ensures
            r == *self as i32,
    {
        match self {
            PixelFormat::Unspecified => 0,
            PixelFormat::Rgb888 => 1,
            PixelFormat::Rgb555Le => 2,
            PixelFormat::Gray8 => 3,
            PixelFormat::Xrgb8888 => 4,
        }
    }

    fn from_value(v: i32) -> (r: Option<PixelFormat>)
        ensures
            r matches Some(e) ==> e as i32 == v,
            forall|e: PixelFormat| e as i32 == v ==> r == Some(e),
    {
        if v == 0 {
            Some(PixelFormat::Unspecified)
        } else if v == 1 {
            Some(PixelFormat::Rgb888)
        } else if v == 2 {
            Some(PixelFormat::Rgb555Le)
        } else if v == 3 {
            Some(PixelFormat::Gray8)
        } else if v == 4 {
            Some(PixelFormat::Xrgb8888)
        } else {
            None
        }
    }

    proof fn lemma_number_round_trip(e: PixelFormat) {
    }

    proof fn lemma_variant_of_number(v: i32) {
    }
}

/// The wire number of each variant of `PixelFormat` is the number it is declared
/// with, and a number reads back as the variant declared with it, any other
/// number as none.
pub proof fn lemma_pixel_format_wire_numbers()
    ensures
        forall|e: PixelFormat| #[trigger] e.number() == e as i32 && PixelFormat::variant_of(e as i32) == Some(e),
        forall|n: i32| #[trigger] PixelFormat::variant_of(n) matches Some(e) ==> e as i32 == n,
{
}

/// Why one item of a scoring batch failed.
#[derive(Clone, Copy, Debug, Default, PartialEq, Eq, Hash, PartialOrd, Ord)]
pub enum ItemErrorKind {
    #[default]
    Unspecified,
    FeatureLenMismatch,
    DecodeFailed,
    FbMetaMismatch,
    FbDecompressFailed,
    FbRefUnsupported,
}

impl ProtoEnum for ItemErrorKind {
    open spec fn number(self) -> i32 {
        match self {
            ItemErrorKind::Unspecified => 0,
            ItemErrorKind::FeatureLenMismatch => 1,
            ItemErrorKind::DecodeFailed => 2,
            ItemErrorKind::FbMetaMismatch => 3,
            ItemErrorKind::FbDecompressFailed => 4,
            ItemErrorKind::FbRefUnsupported => 5,
        }
    }

    open spec fn variant_of(v: i32) -> Option<ItemErrorKind> {
        if v == 0 {
            Some(ItemErrorKind::Unspecified)
        } else if v == 1 {
            Some(ItemErrorKind::FeatureLenMismatch)
        } else if v == 2 {
            Some(ItemErrorKind::DecodeFailed)
        } else if v == 3 {
            Some(ItemErrorKind::FbMetaMismatch)
        } else if v == 4 {
            Some(ItemErrorKind::FbDecompressFailed)
        } else if v == 5 {
            Some(ItemErrorKind::FbRefUnsupported)
        } else {
            None
        }
    }

    fn value(&self) -> (r: i32)
        ensures
            r == *self as i32,
    {
        match self {
            ItemErrorKind::Unspecified => 0,
            ItemErrorKind::FeatureLenMismatch => 1,
            ItemErrorKind::DecodeFailed => 2,
            ItemErrorKind::FbMetaMismatch => 3,
            ItemErrorKind::FbDecompressFailed => 4,
            ItemErrorKind::FbRefUnsupported => 5,
        }
    }

    fn from_value(v: i32) -> (r: Option<ItemErrorKind>)
        ensures
            r matches Some(e) ==> e as i32 == v,
            forall|e: ItemErrorKind| e as i32 == v ==> r == Some(e),
    {
        if v == 0 {
            Some(ItemErrorKind::Unspecified)
        } else if v == 1 {
            Some(ItemErrorKind::FeatureLenMismatch)
        } else if v == 2 {
            Some(ItemErrorKind::DecodeFailed)
        } else if v == 3 {
            Some(ItemErrorKind::FbMetaMismatch)
        } else if v == 4 {
            Some(ItemErrorKind::FbDecompressFailed)
        } else if v == 5 {
            Some(ItemErrorKind::FbRefUnsupported)
        } else {
            None
        }
    }

    proof fn lemma_number_round_trip(e: ItemErrorKind) {
    }

    proof fn lemma_variant_of_number(v: i32) {
    }
}

/// The wire number of each variant of `ItemErrorKind` is the number it is declared
/// with, and a number reads back as the variant declared with it, any other
/// number as none.
pub proof fn lemma_item_error_kind_wire_numbers()
    ensures
        forall|e: ItemErrorKind| #[trigger] e.number() == e as i32 && ItemErrorKind::variant_of(e as i32) == Some(e),
        forall|n: i32| #[trigger] ItemErrorKind::variant_of(n) matches Some(e) ==> e as i32 == n,
{
}

/// The serving state of the scorer.
#[derive(Clone, Copy, Debug, Default, PartialEq, Eq, Hash, PartialOrd, Ord)]
pub enum ServingStatus {
    #[default]
    Unspecified,
    Serving,
    NotServing,
}

impl ProtoEnum for ServingStatus {
    open spec fn number(self) -> i32 {
        match self {
            ServingStatus::Unspecified => 0,
            ServingStatus::Serving => 1,
            ServingStatus::NotServing => 2,
        }
    }

    open spec fn variant_of(v: i32) -> Option<ServingStatus> {
        if v == 0 {
            Some(ServingStatus::Unspecified)
        } else if v == 1 {
            Some(ServingStatus::Serving)
        } else if v == 2 {
            Some(ServingStatus::NotServing)
        } else {
            None
        }
    }

    fn value(&self) -> (r: i32)
        ensures
            r == *self as i32,
    {
        match self {
            ServingStatus::Unspecified => 0,
            ServingStatus::Serving => 1,
            ServingStatus::NotServing => 2,
        }
    }

    fn from_value(v: i32) -> (r: Option<ServingStatus>)
        ensures
            r matches Some(e) ==> e as i32 == v,
            forall|e: ServingStatus| e as i32 == v ==> r == Some(e),
    {
        if v == 0 {
            Some(ServingStatus::Unspecified)
        } else if v == 1 {
            Some(ServingStatus::Serving)
        } else if v == 2 {
            Some(ServingStatus::NotServing)
        } else {
            None
        }
    }

    proof fn lemma_number_round_trip(e: ServingStatus) {
    }

    proof fn lemma_variant_of_number(v: i32) {
    }
}

/// The wire number of each variant of `ServingStatus` is the number it is declared
/// with, and a number reads back as the variant declared with it, any other
/// number as none.
pub proof fn lemma_serving_status_wire_numbers()
    ensures
        forall|e: ServingStatus| #[trigger] e.number() == e as i32 && ServingStatus::variant_of(e as i32) == Some(e),
        forall|n: i32| #[trigger] ServingStatus::variant_of(n) matches Some(e) ==> e as i32 == n,
{
}
} // verus!
