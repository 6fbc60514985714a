//! App-wide constants and the backend base URL.

use vstd::prelude::*;

verus! {

pub const KEYCHAIN_SERVICE: &'static str = "com.markitel.helper";
pub const KEYCHAIN_USER_ACCOUNT: &'static str = "markitel-bridge-key";
pub const DEEP_LINK_SCHEME: &'static str = "markitel";

/// The base URL of the Markitel backend: the `MARKITEL_API_BASE` setting
/// when it is set, else `https://markitel.com`.
pub fn api_base_from(setting: Option<String>) -> (r: String)
    ensures
        r@ == match setting {
            Some(s) => s@,
            None => "https://markitel.com"@,
        },
{
    match setting {
        Some(s) => s,
        None => String::from_str("https://markitel.com"),
    }
}

} // verus!
