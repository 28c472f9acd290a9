//! Days and years of the proleptic Gregorian calendar, in UTC.

use vstd::prelude::*;

verus! {

/// The day of a moment, counted from the first of January 1970.
pub open spec fn day_of(secs: int) -> int {
    secs / 86_400
}

/// The first day of a year, counted from the first of January 1970: a year has 365
/// days, and one more if it divides by four, but not by a hundred unless by four
/// hundred.
pub open spec fn first_day(year: int) -> int {
    365 * (year - 1970) + (year - 1) / 4 - (year - 1) / 100 + (year - 1) / 400 - 477
}

/// The day of a moment, counted from the first of January 1970.
pub fn utc_day(secs: i64) -> (r: i64)
    ensures
        r == day_of(secs as int),
{
    if secs >= 0 {
        secs / 86_400
    } else {
        -((-(secs + 1)) / 86_400) - 1
    }
}

/// `a / b` rounded down.
fn floor_div(a: i64, b: i64) -> (r: i64)
    requires
        b == 4 || b == 100 || b == 400 || b == 146_097,
    ensures
        r == a as int / b as int,
{
    if a >= 0 {
        a / b
    } else {
        -((-(a + 1)) / b) - 1
    }
}

fn first_day_of(year: i64) -> (r: i64)
    requires
        -0x1000_0000_0000 <= year <= 0x1000_0000_0000,
    ensures
        r == first_day(year as int),
{
    365 * (year - 1970) + floor_div(year - 1, 4) - floor_div(year - 1, 100) + floor_div(
        year - 1,
        400,
    ) - 477
}

/// The moment at which the year of `now` began.
pub fn year_start_secs(now: i64) -> (r: i64)
    requires
        now >= i64::MIN + 400 * 86_400,
    ensures
        exists|year: int|
            r == #[trigger] first_day(year) * 86_400 && first_day(year) <= day_of(now as int)
                < first_day(year + 1),
{
    let day = utc_day(now);
    let cycle = floor_div(day + 719_162, 146_097);
    let mut year: i64 = cycle * 400 + 1;
    assert(first_day(year as int) == 146_097 * cycle - 719_162);
    let mut next = first_day_of(year + 1);
    while next <= day
        invariant
            day == day_of(now as int),
            next == first_day(year + 1),
            first_day(year as int) <= day,
            first_day(year as int) >= -0x1000_0000_0000 * 360,
            -0x800_0000_0000 <= year <= 0x800_0000_0000 + (first_day(year as int) - day),
        decreases day - first_day(year as int),
    {
        year = year + 1;
        next = first_day_of(year + 1);
    }
    let begin = first_day_of(year);
    begin * 86_400
}

} // verus!
