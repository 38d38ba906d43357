use determinism_proto::descriptor_eq::canonical::canonicalize;
use determinism_proto::descriptor_eq::compare::{
    check_equivalent, check_relative_proto_file, files_match, first_differing_file,
    load_descriptor_set, relative_file_verdict, sets_equivalent,
};
use determinism_proto::descriptor_eq::model::{DescriptorError, DescriptorFile, DescriptorSet};
use determinism_proto::descriptor_eq::report::{descriptor_listing, diff_report};
use prost::Message;
use prost_types::field_descriptor_proto::Type;
use prost_types::source_code_info::Location;
use prost_types::{
    DescriptorProto, FieldDescriptorProto, FileDescriptorProto, FileDescriptorSet, SourceCodeInfo,
};

fn field(name: &str, number: i32, kind: Type) -> FieldDescriptorProto {
    let mut field = FieldDescriptorProto {
        name: Some(name.to_owned()),
        number: Some(number),
        ..Default::default()
    };
    field.set_type(kind);
    field
}

fn proto_file(name: Option<&str>, deps: &[&str], field_kind: Type) -> FileDescriptorProto {
    FileDescriptorProto {
        name: name.map(|n| n.to_owned()),
        package: Some("determinism.scratch.v1".to_owned()),
        dependency: deps.iter().map(|d| d.to_string()).collect(),
        message_type: vec![DescriptorProto {
            name: Some("PromoteRequest".to_owned()),
            field: vec![field("value", 1, field_kind)],
            ..Default::default()
        }],
        syntax: Some("proto3".to_owned()),
        ..Default::default()
    }
}

fn with_source_info(mut file: FileDescriptorProto, line: i32) -> FileDescriptorProto {
    file.source_code_info = Some(SourceCodeInfo {
        location: vec![Location {
            path: vec![4, 0],
            span: vec![line, 0, 12],
            ..Default::default()
        }],
    });
    file
}

fn load(files: Vec<FileDescriptorProto>) -> DescriptorSet {
    let bytes = FileDescriptorSet { file: files }.encode_to_vec();
    load_descriptor_set(&bytes).expect("valid descriptor set")
}

fn names(set: &DescriptorSet) -> Vec<Option<String>> {
    set.files.iter().map(|f| f.name.clone()).collect()
}

const STRING: Type = Type::String;
const INT64: Type = Type::Int64;

#[test]
fn loading_splits_each_file() {
    let set = load(vec![with_source_info(proto_file(Some("a.proto"), &["b.proto"], STRING), 3)]);
    assert_eq!(set.files.len(), 1);
    let file = &set.files[0];
    assert_eq!(file.name.as_deref(), Some("a.proto"));
    assert_eq!(file.package.as_deref(), Some("determinism.scratch.v1"));
    assert_eq!(file.dependency, vec!["b.proto".to_owned()]);
    assert_eq!(file.message_count, 1);
    assert_eq!(file.enum_count, 0);
    assert_eq!(file.service_count, 0);
    assert!(file.source_info.is_some());
    let rest = FileDescriptorProto::decode(file.body.as_slice()).unwrap();
    assert_eq!(rest.name, None);
    assert!(rest.dependency.is_empty());
    assert_eq!(rest.source_code_info, None);
    assert_eq!(rest.message_type.len(), 1);
}

#[test]
fn loading_refuses_bytes_that_are_not_a_descriptor_set() {
    match load_descriptor_set(&[0x0a, 0x05, 0x01]) {
        Err(DescriptorError::Decode(text)) => {
            assert!(text.starts_with("failed to decode Protobuf message"));
            assert_eq!(DescriptorError::Decode(text.clone()).message(), text);
        }
        other => panic!("unexpected result: {:?}", other),
    }
}

#[test]
fn canonicalize_renames_the_root_drops_locations_and_sorts() {
    let mut set = load(vec![
        with_source_info(proto_file(Some("z.proto"), &["owner.proto"], STRING), 1),
        with_source_info(proto_file(Some("owner.proto"), &["a.proto"], STRING), 2),
        proto_file(Some("a.proto"), &[], STRING),
    ]);
    canonicalize(&mut set, "owner.proto", "control.proto").unwrap();
    assert_eq!(
        names(&set),
        vec![
            Some("a.proto".to_owned()),
            Some("control.proto".to_owned()),
            Some("z.proto".to_owned())
        ]
    );
    assert!(set.files.iter().all(|f| f.source_info.is_none()));
    assert_eq!(set.files[2].dependency, vec!["control.proto".to_owned()]);
    assert_eq!(set.files[1].dependency, vec!["a.proto".to_owned()]);
}

#[test]
fn canonicalize_twice_changes_nothing() {
    let mut set = load(vec![
        proto_file(Some("b.proto"), &["root.proto"], STRING),
        proto_file(Some("root.proto"), &[], STRING),
    ]);
    canonicalize(&mut set, "root.proto", "canon.proto").unwrap();
    let once = names(&set);
    let deps: Vec<Vec<String>> = set.files.iter().map(|f| f.dependency.clone()).collect();
    canonicalize(&mut set, "canon.proto", "canon.proto").unwrap();
    assert_eq!(names(&set), once);
    let again: Vec<Vec<String>> = set.files.iter().map(|f| f.dependency.clone()).collect();
    assert_eq!(again, deps);
}

#[test]
fn canonicalize_orders_names_by_code_point() {
    let mut set = load(vec![
        proto_file(Some("b.proto"), &[], STRING),
        proto_file(Some("B.proto"), &[], STRING),
        proto_file(Some("a/b.proto"), &[], STRING),
        proto_file(Some("a.proto"), &[], STRING),
        proto_file(Some("é.proto"), &[], STRING),
    ]);
    canonicalize(&mut set, "a.proto", "a.proto").unwrap();
    assert_eq!(
        names(&set),
        vec![
            Some("B.proto".to_owned()),
            Some("a.proto".to_owned()),
            Some("a/b.proto".to_owned()),
            Some("b.proto".to_owned()),
            Some("é.proto".to_owned())
        ]
    );
}

#[test]
fn canonicalize_refuses_a_file_without_a_name() {
    let mut set = load(vec![
        with_source_info(proto_file(Some("root.proto"), &[], STRING), 1),
        proto_file(None, &[], STRING),
        with_source_info(proto_file(Some("late.proto"), &[], STRING), 5),
    ]);
    let error = canonicalize(&mut set, "root.proto", "canon.proto").unwrap_err();
    assert!(matches!(error, DescriptorError::FileWithoutName));
    assert_eq!(error.message(), "descriptor file has no name");
    // The files up to the faulty one are rewritten, the rest untouched.
    assert_eq!(set.files[0].name.as_deref(), Some("canon.proto"));
    assert!(set.files[0].source_info.is_none());
    assert!(set.files[2].source_info.is_some());
}

#[test]
fn canonicalize_refuses_duplicate_names() {
    let mut set = load(vec![
        proto_file(Some("root.proto"), &[], STRING),
        proto_file(Some("x.proto"), &[], STRING),
        proto_file(Some("x.proto"), &[], STRING),
    ]);
    let error = canonicalize(&mut set, "root.proto", "root.proto").unwrap_err();
    assert_eq!(error.message(), "duplicate descriptor file name: x.proto");
}

#[test]
fn canonicalize_refuses_a_rename_onto_an_existing_name() {
    let mut set = load(vec![
        proto_file(Some("owner.proto"), &[], STRING),
        proto_file(Some("control.proto"), &[], STRING),
    ]);
    let error = canonicalize(&mut set, "owner.proto", "control.proto").unwrap_err();
    match error {
        DescriptorError::DuplicateFileName(name) => assert_eq!(name, "control.proto"),
        other => panic!("unexpected error: {:?}", other),
    }
}

#[test]
fn canonicalize_refuses_a_missing_root() {
    let mut set = load(vec![
        with_source_info(proto_file(Some("z.proto"), &[], STRING), 1),
        proto_file(Some("a.proto"), &[], STRING),
    ]);
    let error = canonicalize(&mut set, "owner.proto", "control.proto").unwrap_err();
    assert_eq!(error.message(), "root descriptor not found: owner.proto");
    assert_eq!(names(&set), vec![Some("z.proto".to_owned()), Some("a.proto".to_owned())]);
    assert!(set.files[0].source_info.is_none());
}

#[test]
fn sets_that_differ_in_root_name_and_locations_are_equivalent() {
    let mut owner = load(vec![
        with_source_info(proto_file(Some("owner/scratch.proto"), &["shared.proto"], STRING), 7),
        proto_file(Some("shared.proto"), &[], INT64),
    ]);
    let mut control = load(vec![
        proto_file(Some("shared.proto"), &[], INT64),
        with_source_info(proto_file(Some("scratch.proto"), &["shared.proto"], STRING), 9),
    ]);
    assert!(check_equivalent(&mut owner, &mut control, "owner/scratch.proto", "scratch.proto").is_ok());
    assert!(sets_equivalent(&owner, &control));
    assert!(sets_equivalent(&control, &owner));
    assert_eq!(first_differing_file(&owner, &control), None);
}

#[test]
fn a_changed_field_type_is_a_difference() {
    let mut owner = load(vec![proto_file(Some("scratch.proto"), &[], INT64)]);
    let mut control = load(vec![proto_file(Some("scratch.proto"), &[], STRING)]);
    let error = check_equivalent(&mut owner, &mut control, "scratch.proto", "scratch.proto").unwrap_err();
    assert!(matches!(error, DescriptorError::SetsDiffer));
    assert_eq!(error.message(), "canonical descriptor sets differ");
    assert_eq!(first_differing_file(&owner, &control), Some(0));
    assert!(!files_match(&owner.files[0], &control.files[0]));
}

#[test]
fn a_missing_import_is_a_difference() {
    let mut owner = load(vec![
        proto_file(Some("a.proto"), &["b.proto"], STRING),
        proto_file(Some("b.proto"), &[], STRING),
    ]);
    let mut control = load(vec![proto_file(Some("a.proto"), &["b.proto"], STRING)]);
    let error = check_equivalent(&mut owner, &mut control, "a.proto", "a.proto").unwrap_err();
    assert!(matches!(error, DescriptorError::SetsDiffer));
    assert_eq!(first_differing_file(&owner, &control), None);
}

#[test]
fn the_owner_fault_is_reported_first() {
    let mut owner = load(vec![proto_file(Some("x.proto"), &[], STRING)]);
    let mut control = load(vec![proto_file(None, &[], STRING)]);
    let error = check_equivalent(&mut owner, &mut control, "missing.proto", "x.proto").unwrap_err();
    assert_eq!(error.message(), "root descriptor not found: missing.proto");
    assert_eq!(control.files[0].name, None);
}

#[test]
fn a_file_matches_an_identical_copy_only() {
    let set = load(vec![
        proto_file(Some("a.proto"), &[], STRING),
        proto_file(Some("a.proto"), &[], STRING),
        proto_file(Some("a.proto"), &[], INT64),
    ]);
    assert!(files_match(&set.files[0], &set.files[1]));
    assert!(!files_match(&set.files[0], &set.files[2]));
    let mut renamed = load(vec![proto_file(Some("b.proto"), &[], STRING)]);
    assert!(!files_match(&set.files[0], &renamed.files[0]));
    renamed.files[0].name = Some("a.proto".to_owned());
    assert!(files_match(&set.files[0], &renamed.files[0]));
}

#[test]
fn hand_built_files_compare_by_their_parts() {
    let file = |body: Vec<u8>| DescriptorFile {
        name: Some("a.proto".to_owned()),
        package: None,
        dependency: vec![],
        source_info: Some(vec![1, 2]),
        message_count: 0,
        enum_count: 0,
        service_count: 0,
        body,
    };
    assert!(files_match(&file(vec![]), &file(vec![])));
    let empty = FileDescriptorProto::default().encode_to_vec();
    assert!(files_match(&file(empty), &file(vec![])));
}

#[test]
fn proto_files_must_be_relative() {
    assert!(check_relative_proto_file("determinism/scratch/v1/scratch.proto").is_ok());
    let error = check_relative_proto_file("/abs/scratch.proto").unwrap_err();
    assert_eq!(
        error.message(),
        "proto file arguments must be relative to their include roots"
    );
}

#[test]
fn absolute_names_are_refused_and_others_accepted() {
    assert!(matches!(relative_file_verdict(true), Err(DescriptorError::AbsoluteProtoFile)));
    assert!(relative_file_verdict(false).is_ok());
    assert!(check_relative_proto_file("").is_ok());
    assert!(check_relative_proto_file("scratch.proto").is_ok());
}

#[test]
fn reordered_sets_canonicalize_alike() {
    let files = || {
        vec![
            proto_file(Some("b.proto"), &["root.proto"], STRING),
            proto_file(Some("root.proto"), &[], INT64),
            proto_file(Some("a.proto"), &[], STRING),
        ]
    };
    let mut forward = load(files());
    let mut reversed = load(files().into_iter().rev().collect());
    canonicalize(&mut forward, "root.proto", "canon.proto").unwrap();
    canonicalize(&mut reversed, "root.proto", "canon.proto").unwrap();
    assert_eq!(names(&forward), names(&reversed));
    assert!(sets_equivalent(&forward, &reversed));
}

#[test]
fn the_diff_report_lists_both_sets_and_shows_the_first_difference() {
    let mut owner = load(vec![proto_file(Some("scratch.proto"), &[], INT64)]);
    let mut control = load(vec![proto_file(Some("scratch.proto"), &[], STRING)]);
    assert!(check_equivalent(&mut owner, &mut control, "scratch.proto", "scratch.proto").is_err());
    let report = diff_report(&owner, &control);
    let mut owner_proto = proto_file(Some("scratch.proto"), &[], INT64);
    let mut control_proto = proto_file(Some("scratch.proto"), &[], STRING);
    owner_proto.source_code_info = None;
    control_proto.source_code_info = None;
    let expected = format!(
        "owner descriptors:\n{}\ncontrol-plane descriptors:\n{}\nfirst differing owner file:\n{:#?}\nfirst differing control file:\n{:#?}\n",
        descriptor_listing(&owner),
        descriptor_listing(&control),
        owner_proto,
        control_proto
    );
    assert_eq!(report, expected);
}

#[test]
fn the_diff_report_without_a_differing_pair_only_lists() {
    let owner = load(vec![
        proto_file(Some("a.proto"), &["b.proto"], STRING),
        proto_file(Some("b.proto"), &[], STRING),
    ]);
    let control = load(vec![proto_file(Some("a.proto"), &["b.proto"], STRING)]);
    let report = diff_report(&owner, &control);
    assert_eq!(
        report,
        format!(
            "owner descriptors:\n{}\ncontrol-plane descriptors:\n{}\n",
            descriptor_listing(&owner),
            descriptor_listing(&control)
        )
    );
    assert!(report.contains("- b.proto package=determinism.scratch.v1 messages=1"));
}
