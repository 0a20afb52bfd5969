//! The system-wide catalog locations.

use vstd::prelude::*;
use crate::paths::{join_path, join_path_spec};

verus! {

/// The system-wide package list file.
pub fn packageslist_filepath() -> (r: String)
    ensures
        r@ == join_path_spec("/etc/ipkg/packages/"@, "/list.yaml"@),
{
    join_path(packages_dirpath().as_str(), "/list.yaml")
}

/// The system-wide package directory.
pub fn packages_dirpath() -> (r: String)
    ensures
        r@ == "/etc/ipkg/packages/"@,
{
    "/etc/ipkg/packages/".to_owned()
}

} // verus!
