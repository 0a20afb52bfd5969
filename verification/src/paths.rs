//! Where the package catalog lives on disk: the system-wide locations and
//! the per-user locations under a home directory.

pub mod global;
pub mod local;

use vstd::prelude::*;
use vstd::string::StringExecFns;

verus! {

/// How joining a relative part onto a base path behaves: an absolute part
/// replaces the base, otherwise the part is appended behind exactly one
/// separator.
pub open spec fn join_path_spec(base: Seq<char>, part: Seq<char>) -> Seq<char> {
    if part.len() > 0 && part[0] == '/' {
        part
    } else if base.len() > 0 && base.last() == '/' {
        base + part
    } else {
        base + "/"@ + part
    }
}

/// Joins a relative part onto a base path, per [`join_path_spec`].
pub fn join_path(base: &str, part: &str) -> (r: String)
    ensures
        r@ == join_path_spec(base@, part@),
{
    let part_chars = crate::strutil::to_chars(part);
    let base_chars = crate::strutil::to_chars(base);
    if part_chars.len() > 0 && part_chars[0] == '/' {
        return part.to_owned();
    }
    let mut r = base.to_owned();
    if !(base_chars.len() > 0 && base_chars[base_chars.len() - 1] == '/') {
        r.append("/");
    }
    r.append(part);
    r
}

} // verus!
