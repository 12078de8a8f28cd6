//! Paths as text. The library sees every path as an absolute path in canonical
//! spelling, its components separated by `/`; whoever lists the files on disk
//! brings them into that form.

use vstd::prelude::*;
use crate::text::{after_last, before_last, chars_of, starts_with, text_after_last, text_before_last};

verus! {

/// The last component of a path: what follows its last `/`.
pub open spec fn file_name(path: Seq<char>) -> Seq<char> {
    after_last(path, '/')
}

/// The folder that holds a path: what stands before its last `/`.
pub open spec fn parent(path: Seq<char>) -> Seq<char> {
    before_last(path, '/')
}

/// Whether `path` is `base` or lies below it, component by component:
/// `/a/bc` is not inside `/a/b`.
pub open spec fn is_inside(path: Seq<char>, base: Seq<char>) -> bool {
    base.is_prefix_of(path) && (base.len() == 0 || base.len() == path.len() || base.last() == '/'
        || path[base.len() as int] == '/')
}

/// The last component of `path`.
pub fn file_name_of(path: &str) -> (r: String)
    ensures
        r@ == file_name(path@),
{
    text_after_last(path, '/')
}

/// The folder that holds `path`.
pub fn parent_of(path: &str) -> (r: String)
    ensures
        r@ == parent(path@),
{
    text_before_last(path, '/')
}

/// Whether `path` is `base` or lies below it.
pub fn path_is_inside(path: &str, base: &str) -> (r: bool)
    ensures
        r == is_inside(path@, base@),
{
    if !starts_with(path, base) {
        return false;
    }
    let p = chars_of(path);
    let b = chars_of(base);
    let n: usize = b.len();
    n == 0 || n == p.len() || b[n - 1] == '/' || p[n] == '/'
}

} // verus!
