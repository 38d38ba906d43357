//! The descriptor data the comparison works on, its mathematical model, and
//! the specification of canonicalisation.

use vstd::prelude::*;
use crate::descriptor_eq::text::chars_lt;

verus! {

/// One compiled `.proto` file, split into the parts that canonicalisation
/// reads or rewrites and an opaque remainder.
///
/// `body` is the protobuf encoding of the file's `FileDescriptorProto` with
/// its `name`, `dependency` and `source_code_info` fields cleared, and
/// `source_info` is the encoding of its `source_code_info`, if present.
/// `package` and the three counts repeat, for reporting, what `body` holds.
#[derive(Debug)]
pub struct DescriptorFile {
    pub name: Option<String>,
    pub package: Option<String>,
    pub dependency: Vec<String>,
    pub source_info: Option<Vec<u8>>,
    pub message_count: usize,
    pub enum_count: usize,
    pub service_count: usize,
    pub body: Vec<u8>,
}

/// The mathematical model of a [`DescriptorFile`].
pub struct FileModel {
    pub name: Option<Seq<char>>,
    pub package: Option<Seq<char>>,
    pub dependency: Seq<Seq<char>>,
    pub source_info: Option<Seq<u8>>,
    pub message_count: nat,
    pub enum_count: nat,
    pub service_count: nat,
    pub body: Seq<u8>,
}

impl View for DescriptorFile {
    type V = FileModel;

    open spec fn view(&self) -> FileModel {
        FileModel {
            name: self.name.deep_view(),
            package: self.package.deep_view(),
            dependency: self.dependency.deep_view(),
            source_info: self.source_info.deep_view(),
            message_count: self.message_count as nat,
            enum_count: self.enum_count as nat,
            service_count: self.service_count as nat,
            body: self.body@,
        }
    }
}

/// A compiled descriptor set: the files of a `.proto` file and of its
/// import closure.
#[derive(Debug)]
pub struct DescriptorSet {
    pub files: Vec<DescriptorFile>,
}

/// The models of a sequence of files.
pub open spec fn files_view(files: Seq<DescriptorFile>) -> Seq<FileModel> {
    Seq::new(files.len(), |i: int| files[i]@)
}

impl View for DescriptorSet {
    type V = Seq<FileModel>;

    open spec fn view(&self) -> Seq<FileModel> {
        files_view(self.files@)
    }
}

/// Why a descriptor set could not be canonicalised or compared.
#[derive(Debug)]
pub enum DescriptorError {
    /// A file of the set has no name.
    FileWithoutName,
    /// Two files of the set carry this name once the root file is renamed.
    DuplicateFileName(String),
    /// No file of the set carries the root file name given.
    RootNotFound(String),
    /// The canonical sets are not equal.
    SetsDiffer,
    /// The descriptor bytes are not a valid encoded descriptor set.
    Decode(String),
    /// A `.proto` file was named by an absolute path.
    AbsoluteProtoFile,
}

/// The mathematical model of a [`DescriptorError`].
pub enum DescriptorFault {
    FileWithoutName,
    DuplicateFileName(Seq<char>),
    RootNotFound(Seq<char>),
    SetsDiffer,
    Decode(Seq<char>),
    AbsoluteProtoFile,
}

impl View for DescriptorError {
    type V = DescriptorFault;

    open spec fn view(&self) -> DescriptorFault {
        match self {
            DescriptorError::FileWithoutName => DescriptorFault::FileWithoutName,
            DescriptorError::DuplicateFileName(n) => DescriptorFault::DuplicateFileName(n@),
            DescriptorError::RootNotFound(n) => DescriptorFault::RootNotFound(n@),
            DescriptorError::SetsDiffer => DescriptorFault::SetsDiffer,
            DescriptorError::Decode(m) => DescriptorFault::Decode(m@),
            DescriptorError::AbsoluteProtoFile => DescriptorFault::AbsoluteProtoFile,
        }
    }
}

/// The order of files by name: a missing name comes first, names go by
/// code point.
pub open spec fn name_lt(a: Option<Seq<char>>, b: Option<Seq<char>>) -> bool {
    match (a, b) {
        (None, Some(_)) => true,
        (Some(x), Some(y)) => chars_lt(x, y),
        _ => false,
    }
}

/// `text`, with `from` replaced by `to`.
pub open spec fn renamed(text: Seq<char>, from: Seq<char>, to: Seq<char>) -> Seq<char> {
    if text == from {
        to
    } else {
        text
    }
}

/// A file as canonicalisation leaves it: source locations dropped, and the
/// root file `source` renamed to `canonical`, both as the file's own name and
/// wherever it is imported.
pub open spec fn canonical_file(f: FileModel, source: Seq<char>, canonical: Seq<char>) -> FileModel {
    FileModel {
        name: match f.name {
            Some(n) => Some(renamed(n, source, canonical)),
            None => None,
        },
        package: f.package,
        dependency: f.dependency.map_values(|d: Seq<char>| renamed(d, source, canonical)),
        source_info: None,
        message_count: f.message_count,
        enum_count: f.enum_count,
        service_count: f.service_count,
        body: f.body,
    }
}

/// The files, with the first `k` of them canonicalised.
pub open spec fn canonical_prefix(
    files: Seq<FileModel>,
    source: Seq<char>,
    canonical: Seq<char>,
    k: int,
) -> Seq<FileModel> {
    Seq::new(
        files.len(),
        |i: int|
            if i < k {
                canonical_file(files[i], source, canonical)
            } else {
                files[i]
            },
    )
}

/// The name that file `i` carries once canonicalised.
pub open spec fn canonical_name(
    files: Seq<FileModel>,
    source: Seq<char>,
    canonical: Seq<char>,
    i: int,
) -> Option<Seq<char>> {
    canonical_file(files[i], source, canonical).name
}

/// The first file, from index `i` on, whose canonical name is missing or
/// repeats that of an earlier file, with the fault it causes.
pub open spec fn first_fault(
    files: Seq<FileModel>,
    source: Seq<char>,
    canonical: Seq<char>,
    i: int,
) -> Option<(int, DescriptorFault)>
    decreases files.len() - i,
{
    if i < 0 || i >= files.len() {
        None
    } else {
        let n = canonical_name(files, source, canonical, i);
        if n is None {
            Some((i, DescriptorFault::FileWithoutName))
        } else if exists|j: int| 0 <= j < i && canonical_name(files, source, canonical, j) == n {
            Some((i, DescriptorFault::DuplicateFileName(n->0)))
        } else {
            first_fault(files, source, canonical, i + 1)
        }
    }
}

/// Whether some file is named `name`.
pub open spec fn has_file_named(files: Seq<FileModel>, name: Seq<char>) -> bool {
    exists|i: int| 0 <= i < files.len() && files[i].name == Some(name)
}

/// `s` with `x` inserted after every file whose name does not come after
/// `x`'s.
pub open spec fn insert_by_name(s: Seq<FileModel>, x: FileModel) -> Seq<FileModel>
    decreases s.len(),
{
    if s.len() == 0 {
        seq![x]
    } else if name_lt(x.name, s[0].name) {
        seq![x] + s
    } else {
        seq![s[0]] + insert_by_name(s.drop_first(), x)
    }
}

/// The files stably sorted by name.
pub open spec fn sort_by_name(s: Seq<FileModel>) -> Seq<FileModel>
    decreases s.len(),
{
    if s.len() == 0 {
        Seq::empty()
    } else {
        insert_by_name(sort_by_name(s.drop_last()), s.last())
    }
}

/// What canonicalising the files with root file `source` mapped to
/// `canonical` gives: the canonical, name-sorted files; or the fault
/// together with the files as they are left when it is found.
pub open spec fn canonical_outcome(
    files: Seq<FileModel>,
    source: Seq<char>,
    canonical: Seq<char>,
) -> Result<Seq<FileModel>, (Seq<FileModel>, DescriptorFault)> {
    match first_fault(files, source, canonical, 0) {
        Some((k, fault)) => Err((canonical_prefix(files, source, canonical, k + 1), fault)),
        None => {
            let all = canonical_prefix(files, source, canonical, files.len() as int);
            if has_file_named(files, source) {
                Ok(sort_by_name(all))
            } else {
                Err((all, DescriptorFault::RootNotFound(source)))
            }
        },
    }
}

} // verus!
