//! The calls into `prost`, `prost-types` and `std` that the descriptor logic
//! rests on. Their contracts are trusted: each states what the called code
//! does, over names for results that only that code computes.

use prost::Message;
use vstd::prelude::*;
use crate::descriptor_eq::model::{files_view, DescriptorFile, FileModel};

verus! {

/// What decoding `bytes` as a protobuf `FileDescriptorSet` yields: its files,
/// each split as [`DescriptorFile`] describes; or the text of the decode
/// error.
pub uninterp spec fn decoded_descriptor_set(bytes: Seq<u8>) -> Result<Seq<FileModel>, Seq<char>>;

/// Calls `prost_types::FileDescriptorSet::decode` (through `prost::Message`)
/// on `bytes` and splits each file: its `name`, `dependency` and
/// `source_code_info` taken out, `package` and the numbers of messages, enums
/// and services copied, and the rest re-encoded with `encode_to_vec`. A
/// decode error is rendered with its `Display` text. Claimed: the result is
/// the named result for `bytes`.
#[verifier::external_body]
pub(crate) fn decode_descriptor_files(bytes: &[u8]) -> (r: Result<Vec<DescriptorFile>, String>)
    ensures
        match r {
            Ok(files) => decoded_descriptor_set(bytes@) == Ok::<Seq<FileModel>, Seq<char>>(files_view(files@)),
            Err(text) => decoded_descriptor_set(bytes@) == Err::<Seq<FileModel>, Seq<char>>(text@),
        },
{
    let set = prost_types::FileDescriptorSet::decode(bytes).map_err(|e| e.to_string())?;
    Ok(set.file.into_iter().map(|mut f| DescriptorFile {
        name: f.name.take(),
        package: f.package.clone(),
        dependency: std::mem::take(&mut f.dependency),
        source_info: f.source_code_info.take().map(|info| info.encode_to_vec()),
        message_count: f.message_type.len(),
        enum_count: f.enum_type.len(),
        service_count: f.service.len(),
        body: f.encode_to_vec(),
    }).collect())
}

/// Whether `a` and `b` decode to equal `prost_types::FileDescriptorProto`
/// results (both the same message, or both the same decode error).
pub uninterp spec fn descriptor_bodies_match(a: Seq<u8>, b: Seq<u8>) -> bool;

/// Calls `prost_types::FileDescriptorProto::decode` on both byte strings and
/// compares the two results with the derived `==`. Claimed: the result is
/// the named result for the two byte strings, and it does not depend on their
/// order (the derived `==` compares field by field, and every field's `==`,
/// floating-point ones included, is symmetric).
#[verifier::external_body]
pub(crate) fn bodies_match(a: &[u8], b: &[u8]) -> (r: bool)
    ensures
        r == descriptor_bodies_match(a@, b@),
        r == descriptor_bodies_match(b@, a@),
{
    prost_types::FileDescriptorProto::decode(a) == prost_types::FileDescriptorProto::decode(b)
}

/// The `Debug` rendering of a list of strings, as `format!("{:?}", ..)`
/// writes it for a `Vec<String>`.
pub uninterp spec fn debug_text_of_names(names: Seq<Seq<char>>) -> Seq<char>;

/// Formats `names` with `{:?}`. Claimed: the result is the named result for
/// the names' texts; an empty list renders as `[]` (a list is written through
/// `Formatter::debug_list`, its entries between `[` and `]`); and the text
/// holds no line break (without `#` the list is written on one line, and a
/// string's `Debug` writes each character through `char::escape_debug`,
/// which writes a line feed as `\n`).
#[verifier::external_body]
pub(crate) fn debug_names(names: &Vec<String>) -> (r: String)
    ensures
        r@ == debug_text_of_names(names.deep_view()),
        names@.len() == 0 ==> r@ == "[]"@,
        forall|i: int| 0 <= i < r@.len() ==> r@[i] != '\n',
{
    format!("{:?}", names)
}

/// The pretty `Debug` rendering (`{:#?}`) of the `FileDescriptorProto`
/// that a file was split from.
pub uninterp spec fn pretty_descriptor_text(file: FileModel) -> Seq<char>;

/// Puts a file back together as a `prost_types::FileDescriptorProto` (its
/// `body` decoded with `Message::decode`, an empty message if that fails;
/// `name` and `dependency` set; `source_code_info` decoded from
/// `source_info`) and formats it with `{:#?}`. Claimed: the result is the
/// named result for the file.
#[verifier::external_body]
pub(crate) fn pretty_file(file: &DescriptorFile) -> (r: String)
    ensures
        r@ == pretty_descriptor_text(file@),
{
    let mut proto = prost_types::FileDescriptorProto::decode(file.body.as_slice()).unwrap_or_default();
    proto.name = file.name.clone();
    proto.dependency = file.dependency.clone();
    proto.source_code_info = file.source_info.as_ref().and_then(
        |bytes| prost_types::SourceCodeInfo::decode(bytes.as_slice()).ok(),
    );
    format!("{:#?}", proto)
}

/// Whether no supported platform can read `path` as absolute: it does not
/// start with a separator (`/` or `\`) and has no drive prefix (`X:`).
pub open spec fn plainly_relative(path: Seq<char>) -> bool {
    &&& (path.len() == 0 || (path[0] != '/' && path[0] != '\\'))
    &&& (path.len() < 2 || path[1] != ':')
}

/// Calls `std::path::Path::is_absolute` on `file`. What counts as absolute
/// differs between platforms (on Unix a path that starts with the root, on
/// Windows one with a prefix and a root), so only what holds on every one is
/// claimed: a path with neither a leading separator nor a drive prefix is not
/// absolute. Which of the other paths are absolute is left unsaid.
#[verifier::external_body]
pub(crate) fn path_is_absolute(file: &str) -> (r: bool)
    ensures
        plainly_relative(file@) ==> !r,
{
    std::path::Path::new(file).is_absolute()
}

} // verus!
