//! The per-user catalog locations under a home directory.  The caller
//! supplies the home directory; looking it up in the environment is the
//! surrounding application's business.

use vstd::prelude::*;
use crate::paths::{join_path, join_path_spec};

verus! {

/// The user's own configuration directory, `.ipkg` under the home.
pub fn ipkg_path(home: &str) -> (r: String)
    ensures
        r@ == join_path_spec(home@, ".ipkg"@),
{
    join_path(home, ".ipkg")
}

/// The user's package list file.
pub fn packageslist_filepath(home: &str) -> (r: String)
    ensures
        r@ == join_path_spec(
            join_path_spec(join_path_spec(home@, ".ipkg"@), "packages"@),
            "list.yaml"@,
        ),
{
    join_path(packages_dirpath(home).as_str(), "list.yaml")
}

/// The user's package directory.
pub fn packages_dirpath(home: &str) -> (r: String)
    ensures
        r@ == join_path_spec(join_path_spec(home@, ".ipkg"@), "packages"@),
{
    join_path(ipkg_path(home).as_str(), "packages")
}

/// The user's cache directory.
pub fn cache_path(home: &str) -> (r: String)
    ensures
        r@ == join_path_spec(join_path_spec(home@, ".ipkg"@), "caches"@),
{
    join_path(ipkg_path(home).as_str(), "caches")
}

} // verus!
