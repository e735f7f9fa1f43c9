//! How many processing objects are alive. Together with the number of explicit
//! locks this decides whether the library may be unloaded.

use vstd::prelude::*;

verus! {

/// Counts a new object; the result is the new number.
pub fn increment(count: &mut u32) -> (r: u32)
    requires
        *old(count) < u32::MAX,
    ensures
        *final(count) == *old(count) + 1,
        r == *final(count),
{
    *count = *count + 1;
    *count
}

/// Counts an object that is gone; the result is the new number.
pub fn decrement(count: &mut u32) -> (r: u32)
    requires
        *old(count) > 0,
    ensures
        *final(count) == *old(count) - 1,
        r == *final(count),
{
    *count = *count - 1;
    *count
}

/// The number of objects.
pub fn get(count: &u32) -> (r: u32)
    ensures
        r == *count,
{
    *count
}

/// Whether there is no object.
pub fn is_zero(count: &u32) -> (r: bool)
    ensures
        r == (*count == 0),
{
    get(count) == 0
}

/// Starts over with no object.
pub fn reset_for_test(count: &mut u32)
    ensures
        *final(count) == 0,
{
    *count = 0;
}

} // verus!
