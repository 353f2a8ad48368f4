//! The directories of a storage.

use vstd::prelude::*;

verus! {

/// A path of the file system.
#[verifier::external_type_specification]
#[verifier::external_body]
pub struct ExPathBuf(std::path::PathBuf);

/// The bytes of a path, as the platform encodes it.
pub uninterp spec fn path_bytes(path: std::path::PathBuf) -> Seq<u8>;

/// The text is the name of one file or directory, in ASCII: no separator, no drive, neither the
/// directory itself nor the one above it.
pub open spec fn is_name(text: Seq<char>) -> bool {
    &&& text.len() > 0
    &&& !(text.len() == 1 && text[0] == '.')
    &&& !(text.len() == 2 && text[0] == '.' && text[1] == '.')
    &&& forall|i: int|
        0 <= i < text.len() ==> (#[trigger] text[i]) as u32 <= 127 && text[i] != '/' && text[i]
            != '\\' && text[i] != ':'
}

/// The bytes of a text in ASCII.
pub open spec fn ascii(text: Seq<char>) -> Seq<u8> {
    text.map_values(|c: char| c as u8)
}

/// The byte separates the components of a path, on some platform.
pub open spec fn is_separator(byte: u8) -> bool {
    byte == '/' as u8 || byte == '\\' as u8
}

/// The path starts with what marks a verbatim path on Windows, which is put in normal form when it
/// is extended.
pub open spec fn is_verbatim(path: Seq<u8>) -> bool {
    &&& path.len() >= 4
    &&& is_separator(path[0])
    &&& is_separator(path[1])
    &&& path[2] == '?' as u8
    &&& is_separator(path[3])
}

/// A path extended by a name: the name stands behind the path, with a separator between them unless
/// the path is empty or ends with one. Which of the two separators it is, and whether a backslash
/// or the colon behind a drive at the end of the path counts as one, depends on the platform.
pub open spec fn is_extended(path: Seq<u8>, name: Seq<u8>, extended: Seq<u8>) -> bool {
    let bare = extended == path + name;
    let separated = extended == path.push('/' as u8) + name || extended == path.push('\\' as u8)
        + name;
    if path.len() == 0 || path.last() == '/' as u8 {
        bare
    } else if path.last() == '\\' as u8 || path.last() == ':' as u8 {
        bare || separated
    } else {
        separated
    }
}

/// `std::path::Path::join` with a name: the path extended by the name. What becomes of a verbatim
/// path is left unsaid.
#[verifier::external_body]
fn join_name(path: &std::path::PathBuf, name: &str) -> (joined: std::path::PathBuf)
    requires
        is_name(name@),
    ensures
        !is_verbatim(path_bytes(*path)) ==> is_extended(
            path_bytes(*path),
            ascii(name@),
            path_bytes(joined),
        ),
{
    path.join(name)
}

/// The directory of the payload storage of a segment.
pub fn storage_dir(segment_path: &std::path::PathBuf) -> (path: std::path::PathBuf)
    ensures
        !is_verbatim(path_bytes(*segment_path)) ==> is_extended(
            path_bytes(*segment_path),
            ascii("payload_storage"@),
            path_bytes(path),
        ),
{
    proof {
        reveal_strlit("payload_storage");
    }
    join_name(segment_path, "payload_storage")
}

/// The path starts with two separators, as those of shares and devices do on Windows.
pub open spec fn is_shared(path: Seq<u8>) -> bool {
    path.len() >= 2 && is_separator(path[0]) && is_separator(path[1])
}

/// The path ends with the name of a file or directory, and no dot stands behind its last slash.
pub open spec fn has_plain_name(path: Seq<u8>) -> bool {
    &&& path.len() > 0
    &&& !is_separator(path.last())
    &&& path.last() != ':' as u8
    &&& !is_shared(path)
    &&& forall|i: int|
        0 <= i < path.len() && #[trigger] path[i] == '.' as u8 ==> exists|j: int|
            i < j < path.len() && #[trigger] path[j] == '/' as u8
}

/// `std::path::Path::with_extension`: a path whose name has no extension gets the extension, behind
/// a dot. What becomes of other paths is left unsaid.
#[verifier::external_body]
fn with_extension(path: &std::path::PathBuf, extension: &str) -> (extended: std::path::PathBuf)
    requires
        is_name(extension@),
    ensures
        has_plain_name(path_bytes(*path)) ==> path_bytes(extended) == path_bytes(*path).push(
            '.' as u8,
        ) + ascii(extension@),
{
    path.with_extension(extension)
}

/// The directory that a storage is moved aside to while another one takes its place.
pub fn old_dir(base_path: &std::path::PathBuf) -> (path: std::path::PathBuf)
    ensures
        has_plain_name(path_bytes(*base_path)) ==> path_bytes(path) == path_bytes(*base_path).push(
            '.' as u8,
        ) + ascii("lz4_old"@),
{
    proof {
        reveal_strlit("lz4_old");
    }
    with_extension(base_path, "lz4_old")
}

/// The path is that of a plain name in a directory: the working directory, the root, or one whose
/// own path ends plainly.
pub open spec fn is_child(directory: Seq<u8>, name: Seq<u8>, path: Seq<u8>) -> bool {
    &&& name.len() > 0
    &&& forall|i: int|
        0 <= i < name.len() ==> !is_separator(#[trigger] name[i]) && name[i] != ':' as u8 && name[i]
            != '.' as u8
    &&& if directory.len() == 0 {
        path == name
    } else if directory == seq!['/' as u8] {
        path == directory + name
    } else {
        &&& !is_separator(directory.last())
        &&& directory.last() != ':' as u8
        &&& directory.last() != '.' as u8
        &&& !is_shared(directory)
        &&& path == directory.push('/' as u8) + name
    }
}

/// `std::path::Path::parent`: the directory that a path stands in, and none for the empty path.
/// What it is for paths that end otherwise than with a plain name is left unsaid.
#[verifier::external_body]
fn parent(path: &std::path::PathBuf) -> (directory: Option<std::path::PathBuf>)
    ensures
        forall|parent: Seq<u8>, name: Seq<u8>| #[trigger]
            is_child(parent, name, path_bytes(*path)) ==> directory is Some && path_bytes(
                directory->0,
            ) == parent,
        path_bytes(*path).len() == 0 ==> directory is None,
{
    path.parent().map(|directory| directory.to_path_buf())
}

/// `std::path::PathBuf::from` for a text in ASCII: the path with these bytes.
#[verifier::external_body]
fn path_from(text: &str) -> (path: std::path::PathBuf)
    requires
        forall|i: int| 0 <= i < text@.len() ==> (#[trigger] text@[i]) as u32 <= 127,
    ensures
        path_bytes(path) == ascii(text@),
{
    std::path::PathBuf::from(text)
}

/// The directory that a storage stands in, or the working directory if it has none.
pub fn parent_dir(base_path: &std::path::PathBuf) -> (path: std::path::PathBuf)
    ensures
        forall|directory: Seq<u8>, name: Seq<u8>| #[trigger]
            is_child(directory, name, path_bytes(*base_path)) ==> path_bytes(path) == directory,
        path_bytes(*base_path).len() == 0 ==> path_bytes(path) == ascii("."@),
{
    proof {
        reveal_strlit(".");
    }
    match parent(base_path) {
        Some(directory) => directory,
        None => path_from("."),
    }
}

}
