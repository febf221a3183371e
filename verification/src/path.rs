//! The path operations the library needs, as `std::path::Path` computes
//! them on Unix. Paths are held as UTF-8 text throughout the library.

use crate::text::{chars_of, push_char, push_str};
use vstd::prelude::*;

verus! {

/// `Path::parent` of `p`, as text.
pub uninterp spec fn path_parent(p: Seq<char>) -> Option<Seq<char>>;

/// `Path::file_stem` of `p`, as text.
pub uninterp spec fn path_file_stem(p: Seq<char>) -> Option<Seq<char>>;

/// `Path::file_name` of `p`, as text.
pub uninterp spec fn path_file_name(p: Seq<char>) -> Option<Seq<char>>;

/// `Path::join` of `base` and `tail` on Unix: an absolute tail replaces the
/// base; otherwise the tail follows the base, after a `/` unless the base
/// is empty or already ends with one.
pub open spec fn path_join(base: Seq<char>, tail: Seq<char>) -> Seq<char> {
    if tail.len() > 0 && tail[0] == '/' {
        tail
    } else if base.len() == 0 || base.last() == '/' {
        base + tail
    } else {
        base + seq!['/'] + tail
    }
}

/// Calls `std::path::Path::parent`. The contract only names the result:
/// the parent of a UTF-8 path, taken at `/` boundaries, is UTF-8, so the
/// lossless text of the parent is returned.
#[verifier::external_body]
pub(crate) fn parent_of(p: &str) -> (r: Option<String>)
    ensures
        r matches Some(s) ==> path_parent(p@) == Some(s@),
        r is None ==> path_parent(p@) is None,
{
    std::path::Path::new(p).parent().map(|q| q.to_string_lossy().into_owned())
}

/// Calls `std::path::Path::file_stem`; the contract names the result.
#[verifier::external_body]
pub(crate) fn file_stem_of(p: &str) -> (r: Option<String>)
    ensures
        r matches Some(s) ==> path_file_stem(p@) == Some(s@),
        r is None ==> path_file_stem(p@) is None,
{
    std::path::Path::new(p).file_stem().map(|q| q.to_string_lossy().into_owned())
}

/// Calls `std::path::Path::file_name`; the contract names the result.
#[verifier::external_body]
pub(crate) fn file_name_of(p: &str) -> (r: Option<String>)
    ensures
        r matches Some(s) ==> path_file_name(p@) == Some(s@),
        r is None ==> path_file_name(p@) is None,
{
    std::path::Path::new(p).file_name().map(|q| q.to_string_lossy().into_owned())
}

/// `base` joined with `tail`, as `Path::join` joins them on Unix.
pub(crate) fn join_paths(base: &str, tail: &str) -> (r: String)
    ensures
        r@ == path_join(base@, tail@),
{
    let b = chars_of(base);
    let t = chars_of(tail);
    if t.len() > 0 && t[0] == '/' {
        return tail.to_owned();
    }
    let mut r = String::new();
    push_str(&mut r, base);
    if b.len() > 0 && b[b.len() - 1] != '/' {
        push_char(&mut r, '/');
    }
    push_str(&mut r, tail);
    proof {
        if !(base@.len() == 0 || base@.last() == '/') {
            assert(base@.push('/') =~= base@ + seq!['/']);
        }
    }
    r
}

} // verus!
