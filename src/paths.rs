//! The path operations that the index and the image lookup rely on.
use vstd::prelude::*;

use camino::Utf8Path;

verus! {

/// The last component of a path, when it has one that is not `..`.
pub uninterp spec fn path_file_name(p: Seq<char>) -> Option<Seq<char>>;

/// The file name without its final extension.
pub uninterp spec fn path_file_stem(p: Seq<char>) -> Option<Seq<char>>;

/// The part of the file name after its final `.`.
pub uninterp spec fn path_extension(p: Seq<char>) -> Option<Seq<char>>;

/// `rel` adjoined to `base`: an absolute `rel` replaces `base`; otherwise a
/// `/` separates the two unless `base` is empty or already ends in one.
pub open spec fn path_join(base: Seq<char>, rel: Seq<char>) -> Seq<char> {
    if rel.len() > 0 && rel[0] == '/' {
        rel
    } else if base.len() == 0 || base.last() == '/' {
        base + rel
    } else {
        base + seq!['/'] + rel
    }
}

/// The path with its extension replaced by (or extended with) `ext`.
pub uninterp spec fn path_with_extension(p: Seq<char>, ext: Seq<char>) -> Seq<char>;

/// Relies on camino's `Utf8Path::file_name`.
#[verifier::external_body]
pub(crate) fn file_name(p: &str) -> (r: Option<String>)
    ensures
        match path_file_name(p@) {
            Some(n) => r is Some && r->Some_0@ == n,
            None => r is None,
        },
{
    Utf8Path::new(p).file_name().map(|s| s.to_string())
}

/// Relies on camino's `Utf8Path::file_stem`.
#[verifier::external_body]
pub(crate) fn file_stem(p: &str) -> (r: Option<String>)
    ensures
        match path_file_stem(p@) {
            Some(n) => r is Some && r->Some_0@ == n,
            None => r is None,
        },
{
    Utf8Path::new(p).file_stem().map(|s| s.to_string())
}

/// Relies on camino's `Utf8Path::extension`.
#[verifier::external_body]
pub(crate) fn extension(p: &str) -> (r: Option<String>)
    ensures
        match path_extension(p@) {
            Some(n) => r is Some && r->Some_0@ == n,
            None => r is None,
        },
{
    Utf8Path::new(p).extension().map(|s| s.to_string())
}

/// Relies on camino's `Utf8Path::join`, which is std's `Path::join` on Unix.
#[verifier::external_body]
pub(crate) fn join(base: &str, rel: &str) -> (r: String)
    ensures
        r@ == path_join(base@, rel@),
{
    Utf8Path::new(base).join(rel).into_string()
}

/// Relies on camino's `Utf8Path::with_extension`, which panics when the
/// extension holds a path separator.
#[verifier::external_body]
pub(crate) fn with_extension(p: &str, ext: &str) -> (r: String)
    requires
        !ext@.contains('/'),
    ensures
        r@ == path_with_extension(p@, ext@),
{
    Utf8Path::new(p).with_extension(ext).into_string()
}

} // verus!
