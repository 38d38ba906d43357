use determinism_proto::inputsynth::v1::BURST_FORMAT_VERSION;
use determinism_proto::PROTO_VERSION;

#[test]
fn exposes_proto_tag_matching_crate_version() {
    let crate_version = "0.2.0";
    assert_eq!(PROTO_VERSION, format!("proto-v{}", crate_version));
}

#[test]
fn burst_version_is_stable() {
    assert_eq!(BURST_FORMAT_VERSION, 1);
}
