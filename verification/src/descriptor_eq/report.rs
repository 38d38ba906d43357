//! Human-readable text about descriptor sets and comparison failures.

use vstd::prelude::*;
use crate::descriptor_eq::model::{
    DescriptorError, DescriptorFault, DescriptorFile, DescriptorSet, FileModel,
};
use crate::descriptor_eq::compare::{
    file_matches, first_differing_file, first_mismatch_from, lemma_first_mismatch_at,
    lemma_no_mismatch_from,
};
use crate::descriptor_eq::outside::{
    debug_names, debug_text_of_names, pretty_descriptor_text, pretty_file,
};
use crate::descriptor_eq::text::{decimal, decimal_text};

verus! {

/// `text`, or `fallback` when there is none.
pub open spec fn text_or(text: Option<Seq<char>>, fallback: Seq<char>) -> Seq<char> {
    match text {
        Some(t) => t,
        None => fallback,
    }
}

/// The one-line summary of a file: its name, package, numbers of messages,
/// enums and services, and its imports.
pub open spec fn summary_text(f: FileModel) -> Seq<char> {
    summary_head(f) + debug_text_of_names(f.dependency)
}

/// The summary of a file up to its import list.
pub open spec fn summary_head(f: FileModel) -> Seq<char> {
    "- "@ + text_or(f.name, "<unnamed>"@) + " package="@ + text_or(f.package, "<none>"@)
        + " messages="@ + decimal_text(f.message_count) + " enums="@ + decimal_text(f.enum_count)
        + " services="@ + decimal_text(f.service_count) + " dependencies="@
}

/// The import list of `f` is written on one line, as `[]` when there is no
/// import.
pub open spec fn imports_on_one_line(f: FileModel) -> bool {
    &&& f.dependency.len() == 0 ==> debug_text_of_names(f.dependency) == "[]"@
    &&& forall|i: int|
        0 <= i < debug_text_of_names(f.dependency).len() ==> #[trigger] debug_text_of_names(f.dependency)[i] != '\n'
}

/// The summaries of the files, one per line.
pub open spec fn listing_text(files: Seq<FileModel>) -> Seq<char>
    decreases files.len(),
{
    if files.len() == 0 {
        Seq::empty()
    } else if files.len() == 1 {
        summary_text(files[0])
    } else {
        listing_text(files.drop_last()) + "\n"@ + summary_text(files.last())
    }
}

/// The text that reports a fault.
pub open spec fn fault_message(fault: DescriptorFault) -> Seq<char> {
    match fault {
        DescriptorFault::FileWithoutName => "descriptor file has no name"@,
        DescriptorFault::DuplicateFileName(name) => "duplicate descriptor file name: "@ + name,
        DescriptorFault::RootNotFound(name) => "root descriptor not found: "@ + name,
        DescriptorFault::SetsDiffer => "canonical descriptor sets differ"@,
        DescriptorFault::Decode(text) => text,
        DescriptorFault::AbsoluteProtoFile => "proto file arguments must be relative to their include roots"@,
    }
}

fn append_name(s: &mut String, name: &Option<String>, fallback: &str)
    ensures
        final(s)@ == old(s)@ + text_or(name.deep_view(), fallback@),
{
    match name {
        Some(n) => s.append(n.as_str()),
        None => s.append(fallback),
    }
}

/// The one-line summary of a file. Its import list is written on one line,
/// as `[]` when there is no import.
pub fn summary(file: &DescriptorFile) -> (r: String)
    ensures
        r@ == summary_text(file@),
        file@.dependency.len() == 0 ==> r@ == summary_head(file@) + "[]"@,
        forall|i: int| summary_head(file@).len() <= i < r@.len() ==> r@[i] != '\n',
        imports_on_one_line(file@),
{
    let mut s = String::new();
    s.append("- ");
    append_name(&mut s, &file.name, "<unnamed>");
    s.append(" package=");
    append_name(&mut s, &file.package, "<none>");
    s.append(" messages=");
    let messages = decimal(file.message_count);
    s.append(messages.as_str());
    s.append(" enums=");
    let enums = decimal(file.enum_count);
    s.append(enums.as_str());
    s.append(" services=");
    let services = decimal(file.service_count);
    s.append(services.as_str());
    s.append(" dependencies=");
    let ghost head = s@;
    assert(head =~= summary_head(file@));
    let deps = debug_names(&file.dependency);
    s.append(deps.as_str());
    assert(s@ =~= summary_text(file@));
    assert forall|i: int| head.len() <= i < s@.len() implies s@[i] != '\n' by {
        assert(s@[i] == deps@[i - head.len()]);
    }
    assert(imports_on_one_line(file@));
    s
}

/// The summaries of the files of `set`, one per line.
pub fn descriptor_listing(set: &DescriptorSet) -> (r: String)
    ensures
        r@ == listing_text(set@),
        forall|k: int| 0 <= k < set@.len() ==> #[trigger] imports_on_one_line(set@[k]),
{
    let mut s = String::new();
    let mut i: usize = 0;
    assert(set@.take(0) =~= Seq::<FileModel>::empty());
    while i < set.files.len()
        invariant
            i <= set.files@.len(),
            s@ == listing_text(set@.take(i as int)),
            forall|k: int| 0 <= k < i ==> #[trigger] imports_on_one_line(set@[k]),
        decreases set.files@.len() - i,
    {
        let line = summary(&set.files[i]);
        proof {
            assert(set.files@[i as int]@ == set@[i as int]);
            let next = set@.take(i + 1);
            assert(next.drop_last() =~= set@.take(i as int));
            assert(next.last() == set.files@[i as int]@);
            if i == 0 {
                assert(next =~= seq![set@[0]]);
            }
        }
        if i > 0 {
            s.append("\n");
        }
        s.append(line.as_str());
        i = i + 1;
    }
    assert(set@.take(set.files@.len() as int) =~= set@);
    s
}

/// The report of two sets that differ: the listing of each set, then the
/// first pair of files at the same position that differ, if any, each part
/// under its heading and ended by a line break.
pub open spec fn diff_report_text(owner: Seq<FileModel>, control: Seq<FileModel>) -> Seq<char> {
    "owner descriptors:\n"@ + listing_text(owner) + "\n"@ + "control-plane descriptors:\n"@
        + listing_text(control) + "\n"@ + match first_mismatch_from(owner, control, 0) {
        Some(i) => "first differing owner file:\n"@ + pretty_descriptor_text(owner[i]) + "\n"@
            + "first differing control file:\n"@ + pretty_descriptor_text(control[i]) + "\n"@,
        None => Seq::empty(),
    }
}

/// The listings of both sets, each under its heading and ended by a line
/// break.
pub open spec fn listings_part(owner: Seq<FileModel>, control: Seq<FileModel>) -> Seq<char> {
    "owner descriptors:\n"@ + listing_text(owner) + "\n"@ + "control-plane descriptors:\n"@
        + listing_text(control) + "\n"@
}

/// The difference report shows the first pair of files, at a position that
/// both sets have, that do not match: the owner's file, then the control
/// file, whatever the lengths of the two sets. When the files match at every
/// position that both sets have, the report holds only the two listings.
pub proof fn lemma_diff_report_shows_first_difference(owner: Seq<FileModel>, control: Seq<FileModel>)
    ensures
        forall|j: int|
            0 <= j < owner.len() && j < control.len() && !file_matches(#[trigger] owner[j], control[j])
                && (forall|m: int| 0 <= m < j ==> file_matches(#[trigger] owner[m], control[m]))
                ==> diff_report_text(owner, control) == listings_part(owner, control)
                + "first differing owner file:\n"@ + pretty_descriptor_text(owner[j]) + "\n"@
                + "first differing control file:\n"@ + pretty_descriptor_text(control[j]) + "\n"@,
        (forall|m: int| 0 <= m < owner.len() && m < control.len() ==> file_matches(#[trigger] owner[m], control[m]))
            ==> diff_report_text(owner, control) == listings_part(owner, control),
{
    assert forall|j: int|
        0 <= j < owner.len() && j < control.len() && !file_matches(#[trigger] owner[j], control[j])
            && (forall|m: int| 0 <= m < j ==> file_matches(#[trigger] owner[m], control[m]))
            implies diff_report_text(owner, control) == listings_part(owner, control)
            + "first differing owner file:\n"@ + pretty_descriptor_text(owner[j]) + "\n"@
            + "first differing control file:\n"@ + pretty_descriptor_text(control[j]) + "\n"@ by {
        lemma_first_mismatch_at(owner, control, 0, j);
        assert(diff_report_text(owner, control) =~= listings_part(owner, control)
            + "first differing owner file:\n"@ + pretty_descriptor_text(owner[j]) + "\n"@
            + "first differing control file:\n"@ + pretty_descriptor_text(control[j]) + "\n"@);
    }
    if forall|m: int| 0 <= m < owner.len() && m < control.len() ==> file_matches(#[trigger] owner[m], control[m]) {
        lemma_no_mismatch_from(owner, control, 0);
        assert(diff_report_text(owner, control) =~= listings_part(owner, control));
    }
}

/// The report printed when two canonical sets differ.
pub fn diff_report(owner: &DescriptorSet, control: &DescriptorSet) -> (r: String)
    ensures
        r@ == diff_report_text(owner@, control@),
        forall|j: int|
            0 <= j < owner@.len() && j < control@.len() && !file_matches(#[trigger] owner@[j], control@[j])
                && (forall|m: int| 0 <= m < j ==> file_matches(#[trigger] owner@[m], control@[m]))
                ==> r@ == listings_part(owner@, control@) + "first differing owner file:\n"@
                + pretty_descriptor_text(owner@[j]) + "\n"@ + "first differing control file:\n"@
                + pretty_descriptor_text(control@[j]) + "\n"@,
        forall|k: int| 0 <= k < owner@.len() ==> #[trigger] imports_on_one_line(owner@[k]),
        forall|k: int| 0 <= k < control@.len() ==> #[trigger] imports_on_one_line(control@[k]),
{
    let mut s = "owner descriptors:\n".to_owned();
    let owner_listing = descriptor_listing(owner);
    s.append(owner_listing.as_str());
    s.append("\n");
    s.append("control-plane descriptors:\n");
    let control_listing = descriptor_listing(control);
    s.append(control_listing.as_str());
    s.append("\n");
    let ghost head = s@;
    match first_differing_file(owner, control) {
        Some(i) => {
            s.append("first differing owner file:\n");
            let owner_file = pretty_file(&owner.files[i]);
            s.append(owner_file.as_str());
            s.append("\n");
            s.append("first differing control file:\n");
            let control_file = pretty_file(&control.files[i]);
            s.append(control_file.as_str());
            s.append("\n");
            assert(owner.files@[i as int]@ == owner@[i as int]);
            assert(control.files@[i as int]@ == control@[i as int]);
        },
        None => {
            assert(s@ =~= head + Seq::<char>::empty());
        },
    }
    assert(s@ =~= diff_report_text(owner@, control@));
    proof {
        lemma_diff_report_shows_first_difference(owner@, control@);
    }
    s
}

impl DescriptorError {
    /// The text that reports this error.
    pub fn message(&self) -> (r: String)
        ensures
            r@ == fault_message(self@),
    {
        match self {
            DescriptorError::FileWithoutName => "descriptor file has no name".to_owned(),
            DescriptorError::DuplicateFileName(name) => {
                let mut s = "duplicate descriptor file name: ".to_owned();
                s.append(name.as_str());
                s
            },
            DescriptorError::RootNotFound(name) => {
                let mut s = "root descriptor not found: ".to_owned();
                s.append(name.as_str());
                s
            },
            DescriptorError::SetsDiffer => "canonical descriptor sets differ".to_owned(),
            DescriptorError::Decode(text) => text.clone(),
            DescriptorError::AbsoluteProtoFile => "proto file arguments must be relative to their include roots".to_owned(),
        }
    }
}

} // verus!
