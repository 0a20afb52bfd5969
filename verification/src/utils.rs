//! Small helpers around user identity.

use vstd::prelude::*;
use vstd::string::StringExecFns;

verus! {

/// Builds the author address `username@hostname.local` from the given user
/// and host names.
pub fn generate_email_address(username: &str, hostname: &str) -> (r: String)
    ensures
        r@ == username@ + "@"@ + hostname@ + ".local"@,
{
    let mut r = username.to_owned();
    r.append("@");
    r.append(hostname);
    r.append(".local");
    proof {
        assert(r@ =~= username@ + "@"@ + hostname@ + ".local"@);
    }
    r
}

} // verus!
