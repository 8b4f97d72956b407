//! Node types that go together: the container of a file type, the file type
//! inside a container, and the container named by a file extension.

use vstd::prelude::*;
use vstd::utf8::encode_utf8;
use crate::enums::FileType;
use crate::text::{ascii_ci_eq, eq_ignore_ascii_case, str_bytes};

verus! {

/// The container that holds files of this type.
pub open spec fn dir_from_file_spec(t: FileType) -> FileType {
    match t {
        FileType::File => FileType::Dir,
        FileType::FileZip => FileType::Zip,
        FileType::FileSevenZip => FileType::SevenZip,
        _ => FileType::Zip,
    }
}

/// The type of the files inside a container of this type.
pub open spec fn file_from_dir_spec(t: FileType) -> FileType {
    match t {
        FileType::Dir => FileType::File,
        FileType::Zip => FileType::FileZip,
        FileType::SevenZip => FileType::FileSevenZip,
        _ => FileType::Zip,
    }
}

/// The container type an extension names: ".7z" and ".zip" (any ASCII case)
/// name archives; anything else a plain file.
pub open spec fn from_extension_spec(ext: Seq<char>) -> FileType {
    if ascii_ci_eq(encode_utf8(ext), seq![0x2eu8, 0x37u8, 0x7au8]) {
        FileType::SevenZip
    } else if ascii_ci_eq(encode_utf8(ext), seq![0x2eu8, 0x7au8, 0x69u8, 0x70u8]) {
        FileType::Zip
    } else {
        FileType::File
    }
}

/// The container that holds files of this type.
pub fn dir_from_file(file_type: FileType) -> (r: FileType)
    ensures
        r == dir_from_file_spec(file_type),
{
    match file_type {
        FileType::File => FileType::Dir,
        FileType::FileZip => FileType::Zip,
        FileType::FileSevenZip => FileType::SevenZip,
        _ => FileType::Zip,
    }
}

/// The type of the files inside a container of this type.
pub fn file_from_dir(file_type: FileType) -> (r: FileType)
    ensures
        r == file_from_dir_spec(file_type),
{
    match file_type {
        FileType::Dir => FileType::File,
        FileType::Zip => FileType::FileZip,
        FileType::SevenZip => FileType::FileSevenZip,
        _ => FileType::Zip,
    }
}

/// True for the archive types.
pub fn is_compressed_dir(file_type: FileType) -> (r: bool)
    ensures
        r == (file_type == FileType::Zip || file_type == FileType::SevenZip),
{
    file_type == FileType::Zip || file_type == FileType::SevenZip
}

/// The container type an extension names.
pub fn from_extension(ext: &str) -> (r: FileType)
    ensures
        r == from_extension_spec(ext@),
{
    let b = str_bytes(ext);
    let seven: [u8; 3] = [0x2e, 0x37, 0x7a];
    let zip: [u8; 4] = [0x2e, 0x7a, 0x69, 0x70];
    assert(seven@ =~= seq![0x2eu8, 0x37u8, 0x7au8]);
    assert(zip@ =~= seq![0x2eu8, 0x7au8, 0x69u8, 0x70u8]);
    if eq_ignore_ascii_case(b, &seven) {
        FileType::SevenZip
    } else if eq_ignore_ascii_case(b, &zip) {
        FileType::Zip
    } else {
        FileType::File
    }
}

/// A file type and its container go back and forth: the container of the
/// files inside a directory or archive is that directory or archive type.
pub proof fn law_container_round_trip(t: FileType)
    requires
        t == FileType::Dir || t == FileType::Zip || t == FileType::SevenZip,
    ensures
        dir_from_file_spec(file_from_dir_spec(t)) == t,
{
}

} // verus!
