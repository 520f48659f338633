//! File paths as text: extensions and the display form of absolute paths.
use vstd::prelude::*;

use crate::numbers::{eq_ignore_case, text_eq_ignore_case};
use crate::shell::text_eq;

verus! {

/// What `Path::extension` gives for the path `path`: the part of the file
/// name after its last `.`, if any.
pub uninterp spec fn path_extension(path: Seq<char>) -> Option<Seq<char>>;

/// What `Path::with_extension` gives for the path `path` and extension `ext`.
pub uninterp spec fn path_with_extension(path: Seq<char>, ext: Seq<char>) -> Seq<char>;

/// Calls `Path::extension` on `path`; the result is `path_extension(path)`.
#[verifier::external_body]
fn extension_of(path: &str) -> (r: Option<String>)
    ensures
        match r {
            Some(x) => path_extension(path@) == Some(x@),
            None => path_extension(path@) is None,
        },
{
    match std::path::Path::new(path).extension() {
        Some(x) => Some(x.to_string_lossy().into_owned()),
        None => None,
    }
}

/// An extension that holds no path separator (`/`, nor `\`, which is one on
/// some systems); `Path::with_extension` panics on any other.
pub open spec fn plain_extension(ext: Seq<char>) -> bool {
    forall|i: int| 0 <= i < ext.len() ==> ext[i] != '/' && ext[i] != '\\'
}

/// Calls `Path::with_extension` on `path`; the result is `path_with_extension(path, ext)`.
/// The extension must hold no path separator, on which the call panics.
#[verifier::external_body]
fn path_with_ext(path: &str, ext: &str) -> (r: String)
    requires
        plain_extension(ext@),
    ensures
        r@ == path_with_extension(path@, ext@),
{
    std::path::Path::new(path).with_extension(ext).to_string_lossy().into_owned()
}

/// Replace (or append) a file extension, keeping the file stem.
pub fn with_extension(path: &str, ext: &str) -> (r: String)
    requires
        plain_extension(ext@),
    ensures
        r@ == path_with_extension(path@, ext@),
{
    path_with_ext(path, ext)
}

/// Whether the file name of `path` has the extension `ext`, ignoring ASCII case.
pub fn has_extension(path: &str, ext: &str) -> (b: bool)
    ensures
        b == (path_extension(path@) is Some && eq_ignore_case(path_extension(path@)->0, ext@)),
{
    match extension_of(path) {
        Some(x) => text_eq_ignore_case(x.as_str(), ext),
        None => false,
    }
}

/// Whether `path` names a sample model file: its extension is exactly `txt`.
pub fn is_sample_file(path: &str) -> (b: bool)
    ensures
        b == (path_extension(path@) == Some("txt"@)),
{
    match extension_of(path) {
        Some(x) => text_eq(x.as_str(), "txt"),
        None => false,
    }
}

/// The prefix `\\?\` that marks a verbatim path.
pub open spec fn verbatim_prefix() -> Seq<char> {
    seq!['\\', '\\', '?', '\\']
}

/// `s` without a leading verbatim-path prefix.
pub open spec fn strip_verbatim_spec(s: Seq<char>) -> Seq<char> {
    if s.len() >= 4 && s.take(4) == verbatim_prefix() {
        s.skip(4)
    } else {
        s
    }
}

/// Drop the `\\?\` prefix that a canonical path has on some systems, so the
/// path can be handed to a shell command.
pub fn strip_verbatim_prefix(s: &str) -> (r: &str)
    ensures
        r@ == strip_verbatim_spec(s@),
{
    let n = s.unicode_len();
    if n >= 4 {
        let a = s.get_char(0);
        let b = s.get_char(1);
        let c = s.get_char(2);
        let d = s.get_char(3);
        if a == '\\' && b == '\\' && c == '?' && d == '\\' {
            assert(s@.take(4) =~= verbatim_prefix());
            let r = s.substring_char(4, n);
            assert(r@ =~= s@.skip(4));
            return r;
        }
        assert(s@.take(4)[0] == a && s@.take(4)[1] == b && s@.take(4)[2] == c && s@.take(4)[3] == d);
    }
    s
}

} // verus!
