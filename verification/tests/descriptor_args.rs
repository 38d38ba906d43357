use determinism_proto::descriptor_eq::args::{parse_args, ArgError};

fn words(list: &[&str]) -> Vec<String> {
    list.iter().map(|w| w.to_string()).collect()
}

#[test]
fn all_four_options_in_any_order() {
    let (owner, control) = parse_args(&words(&[
        "--control-file",
        "scratch.proto",
        "--owner-root",
        "owner/proto",
        "--control-root",
        "proto",
        "--owner-file",
        "determinism/scratch/v1/scratch.proto",
    ]))
    .unwrap();
    assert_eq!(owner.root, "owner/proto");
    assert_eq!(owner.file, "determinism/scratch/v1/scratch.proto");
    assert_eq!(control.root, "proto");
    assert_eq!(control.file, "scratch.proto");
}

#[test]
fn a_later_value_replaces_an_earlier_one() {
    let (owner, _) = parse_args(&words(&[
        "--owner-root", "first", "--owner-file", "a.proto", "--control-root", "c",
        "--control-file", "b.proto", "--owner-root", "second",
    ]))
    .unwrap();
    assert_eq!(owner.root, "second");
}

#[test]
fn an_option_without_a_value_is_refused() {
    let error = parse_args(&words(&["--owner-root", "r", "--owner-file"])).unwrap_err();
    assert_eq!(error.message(), "missing value for --owner-file");
    let error = parse_args(&words(&["--bogus"])).unwrap_err();
    assert_eq!(error.message(), "missing value for --bogus");
}

#[test]
fn an_unknown_option_is_refused() {
    let error = parse_args(&words(&["--owner-root", "r", "--verbose", "yes"])).unwrap_err();
    assert!(matches!(error, ArgError::UnknownArgument(ref w) if w == "--verbose"));
    assert_eq!(error.message(), "unknown argument: --verbose");
}

#[test]
fn every_option_is_required_in_turn() {
    let error = parse_args(&words(&[])).unwrap_err();
    assert_eq!(error.message(), "--owner-root is required");
    let error = parse_args(&words(&["--owner-root", "r"])).unwrap_err();
    assert_eq!(error.message(), "--owner-file is required");
    let error = parse_args(&words(&["--owner-root", "r", "--owner-file", "f"])).unwrap_err();
    assert_eq!(error.message(), "--control-root is required");
    let error = parse_args(&words(&["--owner-root", "r", "--owner-file", "f", "--control-root", "c"]))
        .unwrap_err();
    assert!(matches!(error, ArgError::MissingControlFile));
    assert_eq!(error.message(), "--control-file is required");
}

#[test]
fn the_first_bad_pair_decides_the_error() {
    let error = parse_args(&words(&["--verbose", "x", "--owner-root"])).unwrap_err();
    assert_eq!(error.message(), "unknown argument: --verbose");
    let error = parse_args(&words(&["--owner-root", "r", "--owner-file", "f", "--quiet"])).unwrap_err();
    assert_eq!(error.message(), "missing value for --quiet");
}
