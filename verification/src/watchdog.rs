//! Hardware watchdog.

use vstd::prelude::*;

verus! {

/// Writing here starts the watchdog, or starts its countdown anew.
pub const WDT_ENABLE: u16 = 0x441;

/// Writing here stops the watchdog.
pub const WDT_DISABLE: u16 = 0x443;

/// Longest timeout in seconds.
pub const WDT_MAX_SEC: u8 = 30;

/// Timeout in seconds that stands for the value `index`: 30 seconds for 0, two
/// seconds less for each step.
pub open spec fn timeout_of(index: int) -> int {
    30 - 2 * index
}

/// The value for the shortest timeout that is not shorter than `desired_sec`,
/// or for the longest one if there is none.
pub fn timeout_index(desired_sec: u8) -> (r: u8)
    ensures
        r <= 15,
        desired_sec <= WDT_MAX_SEC ==> timeout_of(r as int) >= desired_sec && (forall|i: int|
            #![trigger timeout_of(i)]
            0 <= i <= 15 && timeout_of(i) >= desired_sec ==> timeout_of(r as int) <= timeout_of(i)),
        desired_sec > WDT_MAX_SEC ==> r == 0,
{
    if desired_sec > WDT_MAX_SEC {
        return 0;
    }
    (30 - desired_sec) / 2
}

/// Port and value that start the watchdog with the given timeout.
pub fn init(timeout_sec: u8) -> (r: (u16, u8))
    ensures
        r.0 == WDT_ENABLE,
        r.1 <= 15,
        timeout_sec <= WDT_MAX_SEC ==> timeout_sec <= timeout_of(r.1 as int) <= timeout_sec + 1,
        timeout_sec > WDT_MAX_SEC ==> r.1 == 0,
{
    let index: u8 = timeout_index(timeout_sec);
    proof {
        if timeout_sec <= WDT_MAX_SEC {
            assert(timeout_of((30 - timeout_sec) / 2) >= timeout_sec);
        }
    }
    (WDT_ENABLE, index)
}

/// Port and value that start the countdown anew.
pub fn kick() -> (r: (u16, u8))
    ensures
        r == (WDT_ENABLE, 0u8),
{
    (WDT_ENABLE, 0)
}

/// Port and value that stop the watchdog.
pub fn disable() -> (r: (u16, u8))
    ensures
        r == (WDT_DISABLE, 0u8),
{
    (WDT_DISABLE, 0)
}

/// The values from 0 to 15 stand for the even numbers of seconds from 30 down to
/// 0, so that every timeout up to 30 seconds is met to within one second.
pub proof fn law_timeouts_are_two_seconds_apart(index: int)
    ensures
        timeout_of(index) - timeout_of(index + 1) == 2,
        index == 0 ==> timeout_of(index) == 30,
        index == 15 ==> timeout_of(index) == 0,
{
}

} // verus!
