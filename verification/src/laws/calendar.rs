//! Days and years.

use vstd::prelude::*;
use crate::calendar;

verus! {

/// A day holds eighty-six thousand four hundred seconds, and the first begins with second
/// zero: each second lies in its day and in no other.
pub proof fn a_second_lies_in_its_day(secs: int, day: int)
    ensures
        calendar::day_of(secs) == day <==> day * 86_400 <= secs < (day + 1) * 86_400,
{
}

/// Whether a year is a leap year.
pub open spec fn is_leap(year: int) -> bool {
    year % 4 == 0 && (year % 100 != 0 || year % 400 == 0)
}

/// The first day of 1970 is day zero, and each year is as long as the calendar says.
pub proof fn years_are_as_long_as_they_are(year: int)
    ensures
        calendar::first_day(1970) == 0,
        calendar::first_day(year + 1) - calendar::first_day(year) == (if is_leap(year) {
            366int
        } else {
            365
        }),
{
    let y = year - 1;
    assert((y + 1) / 4 - y / 4 == if (y + 1) % 4 == 0 { 1int } else { 0 });
    assert((y + 1) / 100 - y / 100 == if (y + 1) % 100 == 0 { 1int } else { 0 });
    assert((y + 1) / 400 - y / 400 == if (y + 1) % 400 == 0 { 1int } else { 0 });
}

} // verus!
