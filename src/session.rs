//! Settings of the browser session that follow from the command line and the
//! environment.
use vstd::prelude::*;

verus! {

/// Which browser executable to launch: the override when one is set, else the
/// platform's default path when it exists, else none (the automation library's
/// own lookup applies).
pub fn resolve_executable(
    override_path: Option<String>,
    default_path: Option<String>,
    default_exists: bool,
) -> (r: Option<String>)
    ensures
        override_path is Some ==> r == override_path,
        override_path is None && default_path is Some && default_exists ==> r == default_path,
        override_path is None && (default_path is None || !default_exists) ==> r is None,
{
    match override_path {
        Some(p) => Some(p),
        None => if default_exists {
            default_path
        } else {
            None
        },
    }
}

/// A per-wait timeout given in seconds, in milliseconds; capped at the largest
/// `u64`.
pub fn timeout_ms_from_secs(secs: u64) -> (r: u64)
    ensures
        secs * 1000 <= u64::MAX ==> r == secs * 1000,
        secs * 1000 > u64::MAX ==> r == u64::MAX,
{
    if secs > u64::MAX / 1000 {
        u64::MAX
    } else {
        secs * 1000
    }
}

} // verus!
