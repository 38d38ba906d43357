//! Loading, comparing and describing descriptor sets.

use vstd::prelude::*;
use crate::descriptor_eq::canonical::canonicalize;
use crate::descriptor_eq::model::{
    canonical_outcome, DescriptorError, DescriptorFault, DescriptorFile, DescriptorSet, FileModel,
};
use crate::descriptor_eq::outside::{
    bodies_match, decode_descriptor_files, decoded_descriptor_set, descriptor_bodies_match,
    path_is_absolute, plainly_relative,
};
use crate::descriptor_eq::text::same_text;

verus! {

/// Whether two files are equal as descriptors: same name, same imports,
/// same source locations, and the same remaining descriptor content.
pub open spec fn file_matches(a: FileModel, b: FileModel) -> bool {
    &&& a.name == b.name
    &&& a.dependency == b.dependency
    &&& a.source_info == b.source_info
    &&& descriptor_bodies_match(a.body, b.body)
}

/// Whether two descriptor sets are equal file by file.
pub open spec fn sets_match(a: Seq<FileModel>, b: Seq<FileModel>) -> bool {
    &&& a.len() == b.len()
    &&& forall|i: int| 0 <= i < a.len() ==> file_matches(#[trigger] a[i], b[i])
}

fn same_name(a: &Option<String>, b: &Option<String>) -> (r: bool)
    ensures
        r == (a.deep_view() == b.deep_view()),
{
    match (a, b) {
        (None, None) => true,
        (Some(x), Some(y)) => same_text(x.as_str(), y.as_str()),
        _ => false,
    }
}

fn same_names(a: &Vec<String>, b: &Vec<String>) -> (r: bool)
    ensures
        r == (a.deep_view() == b.deep_view()),
{
    if a.len() != b.len() {
        assert(a.deep_view().len() != b.deep_view().len());
        return false;
    }
    let mut i: usize = 0;
    while i < a.len()
        invariant
            a@.len() == b@.len(),
            i <= a@.len(),
            forall|j: int| 0 <= j < i ==> (#[trigger] a@[j])@ == b@[j]@,
        decreases a@.len() - i,
    {
        if !same_text(a[i].as_str(), b[i].as_str()) {
            assert(a.deep_view()[i as int] != b.deep_view()[i as int]);
            return false;
        }
        i = i + 1;
    }
    assert(a.deep_view() =~= b.deep_view());
    true
}

fn same_bytes(a: &Vec<u8>, b: &Vec<u8>) -> (r: bool)
    ensures
        r == (a@ == b@),
{
    if a.len() != b.len() {
        return false;
    }
    let mut i: usize = 0;
    while i < a.len()
        invariant
            a@.len() == b@.len(),
            i <= a@.len(),
            forall|j: int| 0 <= j < i ==> a@[j] == b@[j],
        decreases a@.len() - i,
    {
        if a[i] != b[i] {
            return false;
        }
        i = i + 1;
    }
    assert(a@ =~= b@);
    true
}

fn same_source_info(a: &Option<Vec<u8>>, b: &Option<Vec<u8>>) -> (r: bool)
    ensures
        r == (a.deep_view() == b.deep_view()),
{
    match (a, b) {
        (None, None) => true,
        (Some(x), Some(y)) => {
            let r = same_bytes(x, y);
            assert(x.deep_view() =~= x@);
            assert(y.deep_view() =~= y@);
            r
        },
        _ => false,
    }
}

/// Whether two files are equal as descriptors.
pub fn files_match(a: &DescriptorFile, b: &DescriptorFile) -> (r: bool)
    ensures
        r == file_matches(a@, b@),
        r == file_matches(b@, a@),
        r ==> a@.name == b@.name && a@.dependency == b@.dependency && a@.source_info == b@.source_info,
{
    same_name(&a.name, &b.name) && same_names(&a.dependency, &b.dependency) && same_source_info(
        &a.source_info,
        &b.source_info,
    ) && bodies_match(a.body.as_slice(), b.body.as_slice())
}

/// Matching sets have the same number of files, and the files at each
/// position carry the same name, the same import list, in the same order,
/// and the same source locations.
pub proof fn lemma_matching_sets_agree(a: Seq<FileModel>, b: Seq<FileModel>)
    requires
        sets_match(a, b),
    ensures
        a.len() == b.len(),
        forall|i: int|
            0 <= i < a.len() ==> #[trigger] a[i].name == b[i].name && a[i].dependency == b[i].dependency
                && a[i].source_info == b[i].source_info,
{
    assert forall|i: int| 0 <= i < a.len() implies #[trigger] a[i].name == b[i].name && a[i].dependency
        == b[i].dependency && a[i].source_info == b[i].source_info by {
        assert(file_matches(a[i], b[i]));
    }
}

/// Whether two descriptor sets are equal file by file. The answer does not
/// depend on which set comes first.
pub fn sets_equivalent(a: &DescriptorSet, b: &DescriptorSet) -> (r: bool)
    ensures
        r == sets_match(a@, b@),
        r == sets_match(b@, a@),
{
    if a.files.len() != b.files.len() {
        return false;
    }
    let mut i: usize = 0;
    while i < a.files.len()
        invariant
            a.files@.len() == b.files@.len(),
            i <= a.files@.len(),
            forall|j: int| 0 <= j < i ==> file_matches(#[trigger] a@[j], b@[j]),
            forall|j: int| 0 <= j < i ==> file_matches(#[trigger] b@[j], a@[j]),
        decreases a.files@.len() - i,
    {
        if !files_match(&a.files[i], &b.files[i]) {
            assert(!file_matches(a@[i as int], b@[i as int]));
            return false;
        }
        i = i + 1;
    }
    true
}

/// The first position from `i` on, within the shorter of the two sets, at
/// which their files differ.
pub open spec fn first_mismatch_from(a: Seq<FileModel>, b: Seq<FileModel>, i: int) -> Option<int>
    decreases a.len() - i,
{
    if i < 0 || i >= a.len() || i >= b.len() {
        None
    } else if !file_matches(a[i], b[i]) {
        Some(i)
    } else {
        first_mismatch_from(a, b, i + 1)
    }
}

/// The search from `i` finds `j` when the files at `j`, within both sets,
/// differ and those from `i` up to `j` match.
pub proof fn lemma_first_mismatch_at(a: Seq<FileModel>, b: Seq<FileModel>, i: int, j: int)
    requires
        0 <= i <= j,
        j < a.len(),
        j < b.len(),
        !file_matches(a[j], b[j]),
        forall|m: int| i <= m < j ==> file_matches(#[trigger] a[m], b[m]),
    ensures
        first_mismatch_from(a, b, i) == Some(j),
    decreases j - i,
{
    if i < j {
        assert(file_matches(a[i], b[i]));
        lemma_first_mismatch_at(a, b, i + 1, j);
    }
}

/// The search from `i` finds nothing when the files match at every position
/// from `i` on that both sets have.
pub proof fn lemma_no_mismatch_from(a: Seq<FileModel>, b: Seq<FileModel>, i: int)
    requires
        0 <= i,
        forall|m: int| i <= m < a.len() && m < b.len() ==> file_matches(#[trigger] a[m], b[m]),
    ensures
        first_mismatch_from(a, b, i) is None,
    decreases a.len() - i,
{
    if i < a.len() && i < b.len() {
        assert(file_matches(a[i], b[i]));
        lemma_no_mismatch_from(a, b, i + 1);
    }
}

/// The index of the first position, within the shorter of the two sets, at
/// which their files differ; `None` if there is none.
pub fn first_differing_file(owner: &DescriptorSet, control: &DescriptorSet) -> (r: Option<usize>)
    ensures
        match r {
            Some(i) => {
                &&& i < owner@.len()
                &&& i < control@.len()
                &&& !file_matches(owner@[i as int], control@[i as int])
                &&& forall|j: int| 0 <= j < i ==> file_matches(#[trigger] owner@[j], control@[j])
            },
            None => forall|j: int|
                0 <= j < owner@.len() && j < control@.len() ==> file_matches(
                    #[trigger] owner@[j],
                    control@[j],
                ),
        },
        match r {
            Some(i) => first_mismatch_from(owner@, control@, 0) == Some(i as int),
            None => first_mismatch_from(owner@, control@, 0) is None,
        },
{
    let mut i: usize = 0;
    while i < owner.files.len() && i < control.files.len()
        invariant
            i <= owner.files@.len(),
            i <= control.files@.len(),
            forall|j: int| 0 <= j < i ==> file_matches(#[trigger] owner@[j], control@[j]),
            first_mismatch_from(owner@, control@, 0) == first_mismatch_from(owner@, control@, i as int),
        decreases owner.files@.len() - i,
    {
        if !files_match(&owner.files[i], &control.files[i]) {
            return Some(i);
        }
        i = i + 1;
    }
    None
}

/// Canonicalises both sets and compares them: the `owner` set with its root
/// file `owner_file` renamed to `control_file`, the `control` set with its
/// root file `control_file`. The first failure stops the work; two
/// well-formed sets that are not equal give `SetsDiffer`.
pub fn check_equivalent(
    owner: &mut DescriptorSet,
    control: &mut DescriptorSet,
    owner_file: &str,
    control_file: &str,
) -> (r: Result<(), DescriptorError>)
    ensures
        match canonical_outcome(old(owner)@, owner_file@, control_file@) {
            Err((files, fault)) => {
                &&& r matches Err(e) && e@ == fault
                &&& final(owner)@ == files
                &&& final(control)@ == old(control)@
            },
            Ok(owner_files) => {
                &&& final(owner)@ == owner_files
                &&& match canonical_outcome(old(control)@, control_file@, control_file@) {
                    Err((files, fault)) => r matches Err(e) && e@ == fault && final(control)@
                        == files,
                    Ok(control_files) => {
                        &&& final(control)@ == control_files
                        &&& sets_match(owner_files, control_files) ==> r is Ok
                        &&& !sets_match(owner_files, control_files) ==> (r matches Err(e) && e@
                            == DescriptorFault::SetsDiffer)
                    },
                }
            },
        },
        r is Ok ==> final(owner)@.len() == final(control)@.len() && forall|i: int|
            0 <= i < final(owner)@.len() ==> #[trigger] final(owner)@[i].name == final(control)@[i].name
                && final(owner)@[i].dependency == final(control)@[i].dependency,
{
    canonicalize(owner, owner_file, control_file)?;
    canonicalize(control, control_file, control_file)?;
    if !sets_equivalent(owner, control) {
        return Err(DescriptorError::SetsDiffer);
    }
    proof {
        lemma_matching_sets_agree(owner@, control@);
    }
    Ok(())
}

/// Decodes the bytes of a compiled descriptor set.
pub fn load_descriptor_set(bytes: &[u8]) -> (r: Result<DescriptorSet, DescriptorError>)
    ensures
        match decoded_descriptor_set(bytes@) {
            Ok(files) => r matches Ok(set) && set@ == files,
            Err(text) => r matches Err(e) && e@ == DescriptorFault::Decode(text),
        },
{
    match decode_descriptor_files(bytes) {
        Ok(files) => Ok(DescriptorSet { files }),
        Err(text) => Err(DescriptorError::Decode(text)),
    }
}

/// The verdict on a `.proto` file name, given whether the platform reads it
/// as an absolute path: absolute names are refused.
pub fn relative_file_verdict(file_is_absolute: bool) -> (r: Result<(), DescriptorError>)
    ensures
        r is Err <==> file_is_absolute,
        r matches Err(e) ==> e@ == DescriptorFault::AbsoluteProtoFile,
{
    if file_is_absolute {
        Err(DescriptorError::AbsoluteProtoFile)
    } else {
        Ok(())
    }
}

/// Refuses a `.proto` file named by an absolute path: files are named
/// relative to their include root. A name that no platform reads as absolute
/// (no leading separator, no drive prefix) is always accepted; for the other
/// names the platform's `Path::is_absolute` decides.
pub fn check_relative_proto_file(file: &str) -> (r: Result<(), DescriptorError>)
    ensures
        plainly_relative(file@) ==> r is Ok,
        r matches Err(e) ==> e@ == DescriptorFault::AbsoluteProtoFile,
{
    relative_file_verdict(path_is_absolute(file))
}

} // verus!
