use determinism_proto::controlplane::v1::{OnGoal, PolicyKind, PruneAction, SchedMode};
use determinism_proto::inputsynth::v1::{health_response, DocumentKind, GeneratorKind, ModelKind};
use determinism_proto::observatory::v1::SourceService;
use determinism_proto::proto_enum::ProtoEnum;
use determinism_proto::scorer::v1::{ArchiveUpdateMode, ItemErrorKind, PixelFormat, ServingStatus};

#[test]
fn inputsynth_v1_enum_numeric_values_are_stable() {
    assert_eq!(ModelKind::Unspecified as i32, 0);
    assert_eq!(ModelKind::Pad as i32, 1);
    assert_eq!(ModelKind::EventGrammar as i32, 2);

    assert_eq!(GeneratorKind::Unspecified as i32, 0);
    assert_eq!(GeneratorKind::WeightedRandom as i32, 1);
    assert_eq!(GeneratorKind::Macro as i32, 2);
    assert_eq!(GeneratorKind::Mutation as i32, 3);
    assert_eq!(GeneratorKind::Policy as i32, 4);

    assert_eq!(DocumentKind::Unspecified as i32, 0);
    assert_eq!(DocumentKind::MacroPack as i32, 1);
    assert_eq!(DocumentKind::ExperimentConfig as i32, 2);
    assert_eq!(DocumentKind::EventGrammar as i32, 3);

    assert_eq!(health_response::Status::Unspecified as i32, 0);
    assert_eq!(health_response::Status::Serving as i32, 1);
    assert_eq!(health_response::Status::Degraded as i32, 2);
    assert_eq!(health_response::Status::NotServing as i32, 3);
}

#[test]
fn source_service_variants_carry_documented_values() {
    assert_eq!(SourceService::Unspecified as i32, 0);
    assert_eq!(SourceService::ExplorationOrchestrator as i32, 1);
    assert_eq!(SourceService::DeterminismHypervisor as i32, 2);
    assert_eq!(SourceService::StateScorer as i32, 3);
    assert_eq!(SourceService::ReplayRenderer as i32, 4);
    assert_eq!(SourceService::ControlPlane as i32, 5);
    assert_eq!(SourceService::GuestSdk as i32, 6);
}

#[test]
fn scorer_v1_enum_numeric_values_are_stable() {
    assert_eq!(ArchiveUpdateMode::Unspecified as i32, 0);
    assert_eq!(ArchiveUpdateMode::ScoreAndInsert as i32, 1);
    assert_eq!(ArchiveUpdateMode::ScoreOnly as i32, 2);

    assert_eq!(PixelFormat::Unspecified as i32, 0);
    assert_eq!(PixelFormat::Rgb888 as i32, 1);
    assert_eq!(PixelFormat::Rgb555Le as i32, 2);
    assert_eq!(PixelFormat::Gray8 as i32, 3);
    assert_eq!(PixelFormat::Xrgb8888 as i32, 4);

    assert_eq!(ItemErrorKind::Unspecified as i32, 0);
    assert_eq!(ItemErrorKind::FeatureLenMismatch as i32, 1);
    assert_eq!(ItemErrorKind::DecodeFailed as i32, 2);
    assert_eq!(ItemErrorKind::FbMetaMismatch as i32, 3);
    assert_eq!(ItemErrorKind::FbDecompressFailed as i32, 4);
    assert_eq!(ItemErrorKind::FbRefUnsupported as i32, 5);

    assert_eq!(ServingStatus::Unspecified as i32, 0);
    assert_eq!(ServingStatus::Serving as i32, 1);
    assert_eq!(ServingStatus::NotServing as i32, 2);
}

#[test]
fn controlplane_enum_numeric_values_are_stable() {
    assert_eq!(PruneAction::Exhausted as i32, 0);
    assert_eq!(PruneAction::Drop as i32, 1);
    assert_eq!(OnGoal::Stop as i32, 0);
    assert_eq!(OnGoal::Continue as i32, 1);
    assert_eq!(PolicyKind::Softmax as i32, 0);
    assert_eq!(PolicyKind::Ucb as i32, 1);
    assert_eq!(PolicyKind::Staged as i32, 2);
    assert_eq!(SchedMode::Fast as i32, 0);
    assert_eq!(SchedMode::Deterministic as i32, 1);
}

#[test]
fn wire_numbers_agree_with_declaration_order() {
    assert_eq!(PolicyKind::Staged.value(), PolicyKind::Staged as i32);
    assert_eq!(SourceService::GuestSdk.value(), 6);
    assert_eq!(ItemErrorKind::FbRefUnsupported.value(), 5);
    assert_eq!(health_response::Status::NotServing.value(), 3);
    assert_eq!(SchedMode::Deterministic.value(), 1);
}

#[test]
fn wire_numbers_read_back_as_their_variants() {
    for kind in [PolicyKind::Softmax, PolicyKind::Ucb, PolicyKind::Staged] {
        assert_eq!(PolicyKind::from_value(kind.value()), Some(kind));
    }
    for status in [ServingStatus::Unspecified, ServingStatus::Serving, ServingStatus::NotServing] {
        assert_eq!(ServingStatus::from_value(status.value()), Some(status));
    }
    assert_eq!(PixelFormat::from_value(4), Some(PixelFormat::Xrgb8888));
    assert_eq!(GeneratorKind::from_value(3), Some(GeneratorKind::Mutation));
    assert_eq!(DocumentKind::from_value(2), Some(DocumentKind::ExperimentConfig));
    assert_eq!(ModelKind::from_value(1), Some(ModelKind::Pad));
    assert_eq!(ArchiveUpdateMode::from_value(2), Some(ArchiveUpdateMode::ScoreOnly));
    assert_eq!(OnGoal::from_value(1), Some(OnGoal::Continue));
    assert_eq!(PruneAction::from_value(0), Some(PruneAction::Exhausted));
    assert_eq!(SourceService::from_value(5), Some(SourceService::ControlPlane));
}

#[test]
fn unknown_wire_numbers_read_as_none() {
    assert_eq!(PolicyKind::from_value(3), None);
    assert_eq!(PolicyKind::from_value(-1), None);
    assert_eq!(SourceService::from_value(7), None);
    assert_eq!(health_response::Status::from_value(4), None);
    assert_eq!(ItemErrorKind::from_value(i32::MAX), None);
}

#[test]
fn defaults_are_the_zero_variants() {
    assert_eq!(PruneAction::default(), PruneAction::Exhausted);
    assert_eq!(OnGoal::default(), OnGoal::Stop);
    assert_eq!(PolicyKind::default(), PolicyKind::Softmax);
    assert_eq!(SchedMode::default(), SchedMode::Fast);
    assert_eq!(SourceService::default().value(), 0);
}
