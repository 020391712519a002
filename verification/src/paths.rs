//! File system paths, as far as the library builds them: an owned copy of a
//! root, and components pushed onto it.

use vstd::prelude::*;

use std::path::{Path, PathBuf};

verus! {

#[verifier::external_type_specification]
#[verifier::external_body]
pub struct ExPath(Path);

#[verifier::external_type_specification]
#[verifier::external_body]
pub struct ExPathBuf(PathBuf);

/// The owned path `Path::to_path_buf` makes of `p`.
pub uninterp spec fn owned_path(p: &Path) -> PathBuf;

/// The path `PathBuf::push` leaves after pushing `part` onto `path`.
pub uninterp spec fn pushed(path: PathBuf, part: Seq<char>) -> PathBuf;

/// `p.to_path_buf()`.
#[verifier::external_body]
pub(crate) fn path_to_buf(p: &Path) -> (r: PathBuf)
    ensures
        r == owned_path(p),
{
    p.to_path_buf()
}

/// `path.push(part)`.
#[verifier::external_body]
pub(crate) fn path_push(path: &mut PathBuf, part: &str)
    ensures
        *final(path) == pushed(*old(path), part@),
{
    path.push(part)
}

/// `base` with each of `parts` pushed onto it in turn.
pub open spec fn pushed_all(base: PathBuf, parts: Seq<Seq<char>>) -> PathBuf
    decreases parts.len(),
{
    if parts.len() == 0 {
        base
    } else {
        pushed(pushed_all(base, parts.drop_last()), parts.last())
    }
}

} // verus!
