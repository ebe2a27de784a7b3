//! File system paths, as far as the library builds and compares them.

use std::path::{Path, PathBuf};
use vstd::prelude::*;
use vstd::utf8::encode_utf8;

verus! {

/// A borrowed path of the standard library.
#[verifier::external_type_specification]
#[verifier::external_body]
pub struct ExPath(std::path::Path);

/// An owned path of the standard library.
#[verifier::external_type_specification]
#[verifier::external_body]
pub struct ExPathBuf(std::path::PathBuf);

/// The bytes that a borrowed path holds.
pub uninterp spec fn path_bytes(path: &Path) -> Seq<u8>;

/// The bytes that an owned path holds.
pub uninterp spec fn path_buf_bytes(path: PathBuf) -> Seq<u8>;

/// The bytes of a path that another part was joined to.
pub uninterp spec fn joined_bytes(base: Seq<u8>, part: Seq<char>) -> Seq<u8>;

/// The bytes of a path that several parts were joined to, one after the other.
pub open spec fn joined_all(base: Seq<u8>, parts: Seq<Seq<char>>) -> Seq<u8>
    decreases parts.len(),
{
    if parts.len() == 0 {
        base
    } else {
        joined_bytes(joined_all(base, parts.drop_last()), parts.last())
    }
}

/// Calls `Path::join`. Claimed: on the platform that the program is built for, the
/// joined path depends on the path and the part alone. How the platform separates the
/// two, and what it makes of a part that is a whole path itself, is not said.
#[verifier::external_body]
fn join_part(base: &Path, part: &str) -> (path: PathBuf)
    ensures
        path_buf_bytes(path) == joined_bytes(path_bytes(base), part@),
{
    base.join(part)
}

/// Calls `PathBuf::as_path`. Claimed: the borrowed path holds what the owned one
/// does.
#[verifier::external_body]
fn borrow_path(path: &PathBuf) -> (borrowed: &Path)
    ensures
        path_bytes(borrowed) == path_buf_bytes(*path),
{
    path.as_path()
}

/// Calls `PathBuf::from` for a text. Claimed: the path holds the text's UTF-8 bytes.
#[verifier::external_body]
pub(crate) fn path_from(text: &str) -> (path: PathBuf)
    ensures
        path_buf_bytes(path) == encode_utf8(text@),
{
    PathBuf::from(text)
}

/// Calls `OsStr::is_empty` for a path. Claimed: a path is empty exactly if it holds
/// no bytes.
#[verifier::external_body]
pub(crate) fn is_empty_path(path: &PathBuf) -> (empty: bool)
    ensures
        empty == (path_buf_bytes(*path).len() == 0),
{
    path.as_os_str().is_empty()
}

/// `PathBuf::clone`. Claimed: the copy is the same path.
pub assume_specification[ <PathBuf as Clone>::clone ](path: &PathBuf) -> (copy: PathBuf)
    ensures
        copy == *path,
;

/// Joins a part and then some more to a path, one after the other.
pub fn join_all(base: &Path, first: &str, more: &[&str]) -> (path: PathBuf)
    ensures
        path_buf_bytes(path) == joined_all(path_bytes(base), seq![first@] + more.deep_view()),
{
    let ghost all = seq![first@] + more.deep_view();
    let mut path = join_part(base, first);
    proof {
        reveal_with_fuel(joined_all, 2);
        assert(all.take(1) =~= seq![first@]);
        assert(all.take(1).drop_last() =~= Seq::empty());
    }
    let mut i: usize = 0;
    while i < more.len()
        invariant
            i <= more@.len(),
            all == seq![first@] + more.deep_view(),
            path_buf_bytes(path) == joined_all(path_bytes(base), all.take(i + 1)),
        decreases more@.len() - i,
    {
        assert(all.take(i + 2).drop_last() =~= all.take(i + 1));
        path = join_part(borrow_path(&path), more[i]);
        i += 1;
    }
    assert(all.take(i + 1) =~= all);
    path
}

} // verus!
