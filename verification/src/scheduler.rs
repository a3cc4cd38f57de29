//! When the schedules are brought up to date.

use vstd::prelude::*;

verus! {

/// The hour of the day at which the schedules are brought up to date.
pub const UPDATE_HOUR: u32 = 2;

/// Tells whether the schedules are to be brought up to date at the given
/// local time: in the first minute of the hour of the update.
pub fn update_is_due(hour: u32, minute: u32) -> (due: bool)
    ensures
        due == (hour == UPDATE_HOUR && minute < 1),
{
    hour == UPDATE_HOUR && minute < 1
}

} // verus!
