//! Stack canary.

use vstd::prelude::*;

verus! {

/// The value every protected function keeps between its locals and its return
/// address. No byte of it is zero.
pub const SECURITY_COOKIE: u64 = 0x595F_D4A3_E8C7_2B16;

/// Whether the canary that a function finds when it returns is intact. If it
/// is not, the stack was overwritten and the system must halt.
pub fn __security_check_cookie(cookie: u64) -> (r: bool)
    ensures
        r == (cookie == SECURITY_COOKIE),
{
    cookie == SECURITY_COOKIE
}

} // verus!
