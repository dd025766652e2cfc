//! Defaults of the server configuration.

use vstd::prelude::*;
use vstd::string::StringExecFns;

verus! {

/// Default bind address.
pub fn default_host() -> (r: String)
    ensures
        r@ == "0.0.0.0"@,
{
    String::from_str("0.0.0.0")
}

/// Default port.
pub fn default_port() -> (r: u16)
    ensures
        r == 3010,
{
    3010
}

/// Default allowed CORS origins.
pub fn default_allowed_origins() -> (r: String)
    ensures
        r@ == "*"@,
{
    String::from_str("*")
}

} // verus!
