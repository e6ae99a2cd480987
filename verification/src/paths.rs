//! File paths, held as text, and the parts of `std::path::Path` that the site
//! takes them apart and puts them together with.
use vstd::prelude::*;
use std::path::Path;
use crate::text::split;

verus! {

/// The pieces of the path `p` between its `/`s, the empty one after a final `/`
/// left out.
pub open spec fn path_pieces(p: Seq<char>) -> Seq<Seq<char>> {
    let ps = split(p, seq!['/']);
    if ps.last().len() == 0 {
        ps.drop_last()
    } else {
        ps
    }
}

/// A relative path written plainly: not empty, and each of its pieces is
/// neither empty nor `.`. So it does not begin with `/` and has no two `/` side
/// by side, and `Path` reads its pieces, in order, as its components.
pub open spec fn plain_path(p: Seq<char>) -> bool {
    &&& p.len() > 0
    &&& forall|i: int|
        0 <= i < path_pieces(p).len() ==> #[trigger] path_pieces(p)[i].len() > 0
            && path_pieces(p)[i] != seq!['.']
}

/// The last component of the path `p`, as `Path::file_name` finds it.
pub uninterp spec fn file_name_of(p: Seq<char>) -> Option<Seq<char>>;

/// The file name of the path `p` without its extension, as `Path::file_stem` finds it.
pub uninterp spec fn file_stem_of(p: Seq<char>) -> Option<Seq<char>>;

/// The extension of the file name of the path `p`, as `Path::extension` finds it.
pub uninterp spec fn extension_of(p: Seq<char>) -> Option<Seq<char>>;

/// Whether the path `p` begins with the components of the path `base`, as
/// `Path::starts_with` decides it.
pub uninterp spec fn path_starts_with(p: Seq<char>, base: Seq<char>) -> bool;

/// The path `p` joined onto the path `base`, as `Path::join` builds it.
pub uninterp spec fn joined_path(base: Seq<char>, p: Seq<char>) -> Seq<char>;

/// The path `p` with the extension of its file name set to `ext`, as
/// `Path::with_extension` builds it.
pub uninterp spec fn path_with_extension(p: Seq<char>, ext: Seq<char>) -> Seq<char>;

/// Calls `Path::file_name` on `p`. Trusted: the result is the one named by
/// `file_name_of`; for a plain relative path whose last piece is not `..`, it is
/// that last piece, as `Path::file_name` documents (the final component, where
/// it is a normal one).
#[verifier::external_body]
pub(crate) fn file_name(p: &str) -> (r: Option<String>)
    ensures
        r is Some <==> file_name_of(p@) is Some,
        r matches Some(n) ==> file_name_of(p@) == Some(n@),
        plain_path(p@) && path_pieces(p@).last() != seq!['.', '.'] ==> r is Some && r.unwrap()@
            == path_pieces(p@).last(),
{
    match Path::new(p).file_name() {
        Some(n) => Some(n.to_string_lossy().into_owned()),
        None => None,
    }
}

/// Calls `Path::file_stem` on `p`. Trusted: the result is the one named by
/// `file_stem_of`, and there is a stem wherever there is an extension (both are
/// taken from the file name, and `Path::extension` is `None` where there is none).
#[verifier::external_body]
pub(crate) fn file_stem(p: &str) -> (r: Option<String>)
    ensures
        r is Some <==> file_stem_of(p@) is Some,
        r matches Some(n) ==> file_stem_of(p@) == Some(n@),
        extension_of(p@) is Some ==> r is Some,
{
    match Path::new(p).file_stem() {
        Some(n) => Some(n.to_string_lossy().into_owned()),
        None => None,
    }
}

/// Calls `Path::extension` on `p`. Trusted: the result is the one named by
/// `extension_of`.
#[verifier::external_body]
pub(crate) fn extension(p: &str) -> (r: Option<String>)
    ensures
        r is Some <==> extension_of(p@) is Some,
        r matches Some(n) ==> extension_of(p@) == Some(n@),
{
    match Path::new(p).extension() {
        Some(n) => Some(n.to_string_lossy().into_owned()),
        None => None,
    }
}

/// Calls `Path::starts_with` on `p` and `base`. Trusted: the result is the one
/// named by `path_starts_with`; for two plain relative paths, it is whether the
/// pieces of `base` are the first pieces of `p`, as `Path::starts_with`
/// documents (only whole components match).
#[verifier::external_body]
pub(crate) fn starts_with(p: &str, base: &str) -> (r: bool)
    ensures
        r == path_starts_with(p@, base@),
        plain_path(p@) && plain_path(base@) ==> r == path_pieces(base@).is_prefix_of(
            path_pieces(p@),
        ),
{
    Path::new(p).starts_with(base)
}

/// Calls `Path::join` on `base` and `p`. Trusted: the result is the one named by
/// `joined_path`; as `PathBuf::push` documents, an absolute `p` (one that begins
/// with `/`) replaces `base`, and a relative one is appended to a non-empty
/// `base` with a `/` between them unless `base` already ends with one.
#[verifier::external_body]
pub(crate) fn join(base: &str, p: &str) -> (r: String)
    ensures
        r@ == joined_path(base@, p@),
        p@.len() > 0 && p@[0] == '/' ==> r@ == p@,
        !(p@.len() > 0 && p@[0] == '/') && base@.len() > 0 && base@.last() == '/' ==> r@ == base@
            + p@,
        !(p@.len() > 0 && p@[0] == '/') && base@.len() > 0 && base@.last() != '/' ==> r@ == base@
            + seq!['/'] + p@,
{
    Path::new(base).join(p).to_string_lossy().into_owned()
}

/// Calls `Path::with_extension` on `p`. Trusted: the result is the one named by
/// `path_with_extension`. `PathBuf::set_extension` panics on an extension that
/// holds a path separator, so `ext` holds none.
#[verifier::external_body]
pub(crate) fn with_extension(p: &str, ext: &str) -> (r: String)
    requires
        !ext@.contains('/'),
    ensures
        r@ == path_with_extension(p@, ext@),
{
    Path::new(p).with_extension(ext).to_string_lossy().into_owned()
}

} // verus!
