//! Paths of the file system, as far as the library reads them.
//!
//! What the standard library's path functions answer depends on the platform that the library is
//! built for, and on nothing else than the path.

use std::path::Prefix::{DeviceNS, Disk, Verbatim, VerbatimDisk, VerbatimUNC, UNC};
use std::path::{Component, PathBuf};
use vstd::prelude::*;

verus! {

/// `std::path::PathBuf`, an owned path. Nothing inside it is visible here.
#[verifier::external_type_specification]
#[verifier::external_body]
pub struct ExPathBuf(PathBuf);

/// What a path holds: the bytes of its platform string.
pub uninterp spec fn path_bytes(p: PathBuf) -> Seq<u8>;

/// The text of a path's last component.
pub uninterp spec fn file_name_text(bytes: Seq<u8>) -> Option<Seq<char>>;

/// The text of a whole path.
pub uninterp spec fn path_text(bytes: Seq<u8>) -> Seq<char>;

/// The components of a path: what kind each one is, and its bytes.
pub uninterp spec fn path_parts(bytes: Seq<u8>) -> Seq<(u8, Seq<u8>)>;

/// The prefix of a path, where it has one: what kind it is, its drive, its name and its share.
pub uninterp spec fn path_prefix(bytes: Seq<u8>) -> Option<(u8, u8, Seq<u8>, Seq<u8>)>;

/// Whether a path says where to start.
pub uninterp spec fn absolute(bytes: Seq<u8>) -> bool;

/// A path with another one behind it.
pub uninterp spec fn joined(base: Seq<u8>, tail: Seq<u8>) -> Seq<u8>;

/// A path without its last component.
pub uninterp spec fn parent_bytes(bytes: Seq<u8>) -> Option<Seq<u8>>;

/// A component of a path. Components order first by kind, then by bytes; a prefix orders by what
/// [`PathPrefix`] says of it.
pub struct PathPart {
    pub kind: u8,
    pub name: Vec<u8>,
}

/// The prefix of a path, as platforms with drives and shares have it: its kind, the letter of its
/// drive or zero, and its name and its share, which may be empty.
pub struct PathPrefix {
    pub kind: u8,
    pub drive: u8,
    pub name: Vec<u8>,
    pub share: Vec<u8>,
}

/// What an optional prefix says.
pub open spec fn prefix_view(prefix: Option<PathPrefix>) -> Option<(u8, u8, Seq<u8>, Seq<u8>)> {
    match prefix {
        Some(p) => Some((p.kind, p.drive, p.name@, p.share@)),
        None => None,
    }
}

/// What a list of components says.
pub open spec fn parts_view(parts: Seq<PathPart>) -> Seq<(u8, Seq<u8>)> {
    parts.map_values(|part: PathPart| (part.kind, part.name@))
}

/// An optional text, as characters.
pub open spec fn text_view(text: Option<String>) -> Option<Seq<char>> {
    match text {
        Some(s) => Some(s@),
        None => None,
    }
}

/// `Path::file_name`, with what is not Unicode in it replaced (`OsStr::to_string_lossy`). The
/// result is a function of the path; which component comes last is left to the name.
#[verifier::external_body]
pub(crate) fn file_name(p: &PathBuf) -> (name: Option<String>)
    ensures
        text_view(name) == file_name_text(path_bytes(*p)),
{
    p.file_name().map(|name| name.to_string_lossy().into_owned())
}

/// `Path::to_string_lossy`: the path as text, with what is not Unicode in it replaced. The result
/// is a function of the path; how bytes become characters is left to the name.
#[verifier::external_body]
pub(crate) fn full_text(p: &PathBuf) -> (text: String)
    ensures
        text@ == path_text(path_bytes(*p)),
{
    p.to_string_lossy().into_owned()
}

/// `Path::components`: the components of a path, from its start. The result is a function of the
/// path; how a path falls into components is left to the name. The kinds are numbered in the
/// order in which `Component` lists them, with room for the kinds of prefixes at the front.
#[verifier::external_body]
pub(crate) fn components(p: &PathBuf) -> (parts: Vec<PathPart>)
    ensures
        parts_view(parts@) == path_parts(path_bytes(*p)),
{
    p.components().map(|part| {
        let kind = match part {
            Component::Prefix(_) => 0,
            Component::RootDir => 6,
            Component::CurDir => 7,
            Component::ParentDir => 8,
            Component::Normal(_) => 9,
        };
        PathPart { kind, name: part.as_os_str().as_encoded_bytes().to_vec() }
    }).collect()
}

/// `PrefixComponent::kind` of a path that starts with a prefix. The result is a function of the
/// path; how a prefix is read, and that the case of a drive letter does not count, is left to the
/// name. The kinds are numbered in the order in which `Prefix` lists them.
#[verifier::external_body]
pub(crate) fn prefix(p: &PathBuf) -> (prefix: Option<PathPrefix>)
    ensures
        prefix_view(prefix) == path_prefix(path_bytes(*p)),
{
    let none = "".as_ref();
    let Component::Prefix(prefix) = p.components().next()? else { return None };
    let (kind, drive, a, b) = match prefix.kind() {
        Verbatim(a) => (0, 0, a, none),
        VerbatimUNC(a, b) => (1, 0, a, b),
        VerbatimDisk(d) => (2, d, none, none),
        DeviceNS(a) => (3, 0, a, none),
        UNC(a, b) => (4, 0, a, b),
        Disk(d) => (5, d, none, none),
    };
    let (name, share) = (a.as_encoded_bytes().to_vec(), b.as_encoded_bytes().to_vec());
    Some(PathPrefix { kind, drive, name, share })
}

/// `PathBuf::from` a text: the path holds the text in UTF-8, and reads as that text again.
#[verifier::external_body]
pub(crate) fn path_from(text: &str) -> (p: PathBuf)
    ensures
        path_bytes(p) == vstd::utf8::encode_utf8(text@),
        path_text(path_bytes(p)) == text@,
{
    PathBuf::from(text)
}

/// `Path::is_absolute`. The result is a function of the path; which paths are absolute is left to
/// the name.
#[verifier::external_body]
pub(crate) fn is_absolute(p: &PathBuf) -> (yes: bool)
    ensures
        yes == absolute(path_bytes(*p)),
{
    p.is_absolute()
}

/// `Path::join`. The result is a function of both paths; an absolute path replaces the one before
/// it. What else stands between the two is left to the name.
#[verifier::external_body]
pub(crate) fn join(base: &PathBuf, tail: &PathBuf) -> (p: PathBuf)
    ensures
        path_bytes(p) == joined(path_bytes(*base), path_bytes(*tail)),
        absolute(path_bytes(*tail)) ==> path_bytes(p) == path_bytes(*tail),
{
    base.join(tail)
}

/// The content of an optional path.
pub open spec fn path_view(p: Option<PathBuf>) -> Option<Seq<u8>> {
    match p {
        Some(p) => Some(path_bytes(p)),
        None => None,
    }
}

/// `Path::parent`. The result is a function of the path; what is left of it is left to the name.
#[verifier::external_body]
pub(crate) fn parent(p: &PathBuf) -> (up: Option<PathBuf>)
    ensures
        path_view(up) == parent_bytes(path_bytes(*p)),
{
    p.parent().map(|up| up.to_path_buf())
}

/// `PathBuf::clone`: the copy holds what the path holds.
pub assume_specification[ <PathBuf as Clone>::clone ](p: &PathBuf) -> (copy: PathBuf)
    ensures
        path_bytes(copy) == path_bytes(*p),
;

} // verus!
