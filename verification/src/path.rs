//! Paths and other text in the encoding of the operating system.
use std::path::PathBuf;
use vstd::prelude::*;
use vstd::utf8::encode_utf8;
use vstd::utf8::valid_utf8;

verus! {

/// [`std::path::PathBuf`]: text in the encoding of the operating system.
#[verifier::external_type_specification]
#[verifier::external_body]
pub struct ExPathBuf(PathBuf);

/// The bytes that a path holds, as `OsStr::as_encoded_bytes` gives them: those
/// of UTF-8 where the path is Unicode text.
pub uninterp spec fn path_bytes(path: PathBuf) -> Seq<u8>;

/// The bytes of what `Path::strip_prefix` leaves of a path when the base is
/// taken off its front, or `None` where the path is not below the base.
pub uninterp spec fn stripped_path(path: Seq<u8>, base: Seq<u8>) -> Option<Seq<u8>>;

/// How `Path::display` shows a path.
pub uninterp spec fn displayed_path(path: Seq<u8>) -> Seq<char>;

/// `PathBuf::from`, of a string: a path that holds the string as it is.
#[verifier::external_body]
pub(crate) fn os_text(text: &str) -> (path: PathBuf)
    ensures
        path_bytes(path) == encode_utf8(text@),
{
    PathBuf::from(text)
}

/// `OsString::push`: the bytes of the second text are put behind those of the
/// first, with nothing between them. That the first one is Unicode is asked
/// because two texts that are not can fuse where they meet.
#[verifier::external_body]
pub(crate) fn push_os(text: &mut PathBuf, tail: &PathBuf)
    requires
        valid_utf8(path_bytes(*old(text))),
    ensures
        path_bytes(*final(text)) == path_bytes(*old(text)) + path_bytes(*tail),
{
    text.as_mut_os_string().push(tail);
}

/// `Path::strip_prefix`: what is left of the path is a function of the two
/// paths. Which paths are below which base depends on how the target that the
/// program is built for separates the parts of a path; of that nothing is said.
#[verifier::external_body]
pub(crate) fn strip_prefix(path: &PathBuf, base: &PathBuf) -> (rest: Option<PathBuf>)
    ensures
        match rest {
            Some(rest) => stripped_path(path_bytes(*path), path_bytes(*base)) == Some(
                path_bytes(rest),
            ),
            None => stripped_path(path_bytes(*path), path_bytes(*base)) is None,
        },
{
    match path.strip_prefix(base) {
        Ok(rest) => Some(rest.to_path_buf()),
        Err(_) => None,
    }
}

/// `Path::display`: a path that is Unicode text is shown as it is. Of others
/// only this is said, that they are always shown in the same way.
#[verifier::external_body]
pub(crate) fn display_path(path: &PathBuf) -> (shown: String)
    ensures
        shown@ == displayed_path(path_bytes(*path)),
        forall|text: Seq<char>| #[trigger]
            encode_utf8(text) == path_bytes(*path) ==> shown@ == text,
{
    path.display().to_string()
}

/// The first path comes before the second one in the order of `Path`.
pub uninterp spec fn path_precedes(a: Seq<u8>, b: Seq<u8>) -> bool;

/// `<` of `PathBuf`: whether the first path comes before the second one, in the
/// order of [`Ord`] for paths. Where it does, the second does not come before the
/// first; and whatever the second comes before, the first comes before too, and
/// that does not come before the first. Which order that is, part by part of the
/// paths, is not said.
#[verifier::external_body]
pub(crate) fn precedes(a: &PathBuf, b: &PathBuf) -> (before: bool)
    ensures
        before == path_precedes(path_bytes(*a), path_bytes(*b)),
        before ==> !path_precedes(path_bytes(*b), path_bytes(*a)),
        before ==> forall|c: PathBuf|
            path_precedes(path_bytes(*b), #[trigger] path_bytes(c)) ==> path_precedes(
                path_bytes(*a),
                path_bytes(c),
            ) && !path_precedes(path_bytes(c), path_bytes(*a)),
{
    a < b
}

} // verus!
