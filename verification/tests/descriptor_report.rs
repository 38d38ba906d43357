use determinism_proto::descriptor_eq::model::{DescriptorFile, DescriptorSet};
use determinism_proto::descriptor_eq::report::{descriptor_listing, summary};

fn file(name: Option<&str>, package: Option<&str>, deps: &[&str], counts: (usize, usize, usize)) -> DescriptorFile {
    DescriptorFile {
        name: name.map(|n| n.to_owned()),
        package: package.map(|p| p.to_owned()),
        dependency: deps.iter().map(|d| d.to_string()).collect(),
        source_info: None,
        message_count: counts.0,
        enum_count: counts.1,
        service_count: counts.2,
        body: Vec::new(),
    }
}

#[test]
fn summary_names_the_file_and_counts_its_definitions() {
    let f = file(Some("a.proto"), Some("pkg.v1"), &["b.proto", "c \"q\".proto"], (2, 1, 0));
    assert_eq!(
        summary(&f),
        format!(
            "- a.proto package=pkg.v1 messages=2 enums=1 services=0 dependencies={:?}",
            vec!["b.proto", "c \"q\".proto"]
        )
    );
}

#[test]
fn summary_marks_missing_name_and_package() {
    let f = file(None, None, &[], (0, 0, 0));
    assert_eq!(
        summary(&f),
        "- <unnamed> package=<none> messages=0 enums=0 services=0 dependencies=[]"
    );
}

#[test]
fn summary_counts_are_decimal() {
    let f = file(Some("x.proto"), Some("p"), &[], (1234, 10, 907));
    assert_eq!(
        summary(&f),
        "- x.proto package=p messages=1234 enums=10 services=907 dependencies=[]"
    );
}

#[test]
fn listing_puts_one_summary_per_line() {
    let set = DescriptorSet {
        files: vec![
            file(Some("a.proto"), Some("p"), &[], (1, 0, 0)),
            file(Some("b.proto"), None, &["a.proto"], (0, 2, 1)),
        ],
    };
    assert_eq!(
        descriptor_listing(&set),
        "- a.proto package=p messages=1 enums=0 services=0 dependencies=[]\n- b.proto package=<none> messages=0 enums=2 services=1 dependencies=[\"a.proto\"]"
    );
    assert_eq!(descriptor_listing(&DescriptorSet { files: vec![] }), "");
}
