//! The calendar of a simulated year: 365 days of 24 hours, counted from
//! hour 0 of the first of January.

use vstd::prelude::*;

verus! {

/// Hours in the simulated year; every hourly series has this length.
pub const HOURS_PER_YEAR: usize = 8760;

/// Months in a year.
pub const MONTHS_PER_YEAR: usize = 12;

/// Days in the simulated year.
pub const DAYS_PER_YEAR: usize = 365;

/// The first hour of the day in which a car can charge "during the day".
pub const DAY_WINDOW_START: usize = 6;

/// The hour of the day at which charging "during the day" ends.
pub const DAY_WINDOW_END: usize = 18;

/// Days of the month with number `month`, January being 0, in a year that is
/// no leap year.
pub open spec fn days_in_month(month: int) -> int {
    if month == 1 {
        28
    } else if month == 3 || month == 5 || month == 8 || month == 10 {
        30
    } else {
        31
    }
}

/// Days of the year that lie before the month with number `month`.
pub open spec fn days_before_month(month: int) -> int
    decreases month,
{
    if month <= 0 {
        0
    } else {
        days_before_month(month - 1) + days_in_month(month - 1)
    }
}

/// Hours of the month with number `month`.
pub open spec fn hours_in_month(month: int) -> int {
    24 * days_in_month(month)
}

/// The hour of the year with which the month with number `month` starts.
pub open spec fn month_start_hour(month: int) -> int {
    24 * days_before_month(month)
}

/// The twelve months fill the year: the first starts with hour 0, each
/// starts where the one before it ends, and the last ends with the year.
pub proof fn lemma_months_fill_the_year()
    ensures
        month_start_hour(0) == 0,
        forall|month: int|
            0 <= month < MONTHS_PER_YEAR ==> #[trigger] month_start_hour(month + 1)
                == month_start_hour(month) + hours_in_month(month),
        month_start_hour(12) == HOURS_PER_YEAR,
        days_before_month(12) == DAYS_PER_YEAR,
{
    reveal_with_fuel(days_before_month, 13);
}

/// The number of days of a month, January being month 0.
pub fn month_days(month: usize) -> (days: usize)
    requires
        month < MONTHS_PER_YEAR,
    ensures
        days == days_in_month(month as int),
{
    if month == 1 {
        28
    } else if month == 3 || month == 5 || month == 8 || month == 10 {
        30
    } else {
        31
    }
}

/// The hours of a month as a range of the hours of the year: the first
/// hour of the month, and the first hour after it.
pub fn month_hour_range(month: usize) -> (range: (usize, usize))
    requires
        month < MONTHS_PER_YEAR,
    ensures
        range.0 == month_start_hour(month as int),
        range.1 == month_start_hour(month as int) + hours_in_month(month as int),
        range.1 == month_start_hour(month as int + 1),
        range.0 < range.1 <= HOURS_PER_YEAR,
{
    let mut start: usize = 0;
    let mut m: usize = 0;
    proof {
        reveal_with_fuel(days_before_month, 13);
    }
    while m < month
        invariant
            m <= month < MONTHS_PER_YEAR,
            start == month_start_hour(m as int),
        decreases month - m,
    {
        proof {
            reveal_with_fuel(days_before_month, 13);
        }
        start = start + 24 * month_days(m);
        m += 1;
    }
    (start, start + 24 * month_days(month))
}

/// The month, January being 0, in which the hour `hour` of the year lies.
pub fn month_of_hour(hour: usize) -> (month: usize)
    requires
        hour < HOURS_PER_YEAR,
    ensures
        month < MONTHS_PER_YEAR,
        month_start_hour(month as int) <= hour < month_start_hour(month as int + 1),
{
    let mut month: usize = 0;
    proof {
        reveal_with_fuel(days_before_month, 13);
    }
    while month < 11 && hour >= month_hour_range(month).1
        invariant
            month <= 11,
            month_start_hour(month as int) <= hour < HOURS_PER_YEAR,
        decreases 11 - month,
    {
        month += 1;
    }
    proof {
        reveal_with_fuel(days_before_month, 13);
    }
    month
}

/// The month in which the day with number `day` lies, the first of January
/// being day 0. A day past the end of the year counts as a day of January.
pub open spec fn month_of_day(day: int) -> int
    recommends
        0 <= day,
{
    if day >= DAYS_PER_YEAR {
        0
    } else {
        choose|month: int|
            0 <= month < MONTHS_PER_YEAR && (#[trigger] days_before_month(month)) <= day
                < days_before_month(month + 1)
    }
}

/// The day of the month, counted from 1, of the day with number `day`. A
/// day past the end of the year goes on counting after the year.
pub open spec fn day_of_month(day: int) -> int
    recommends
        0 <= day,
{
    if day >= DAYS_PER_YEAR {
        day - DAYS_PER_YEAR + 1
    } else {
        day - days_before_month(month_of_day(day)) + 1
    }
}

/// The three-letter English name of the month with number `month`.
pub open spec fn month_abbreviation_text(month: int) -> Seq<char> {
    if month == 0 {
        "Jan"@
    } else if month == 1 {
        "Feb"@
    } else if month == 2 {
        "Mar"@
    } else if month == 3 {
        "Apr"@
    } else if month == 4 {
        "May"@
    } else if month == 5 {
        "Jun"@
    } else if month == 6 {
        "Jul"@
    } else if month == 7 {
        "Aug"@
    } else if month == 8 {
        "Sep"@
    } else if month == 9 {
        "Oct"@
    } else if month == 10 {
        "Nov"@
    } else {
        "Dec"@
    }
}

/// The decimal digit `digit`, as text.
pub open spec fn digit_text(digit: int) -> Seq<char> {
    if digit == 0 {
        "0"@
    } else if digit == 1 {
        "1"@
    } else if digit == 2 {
        "2"@
    } else if digit == 3 {
        "3"@
    } else if digit == 4 {
        "4"@
    } else if digit == 5 {
        "5"@
    } else if digit == 6 {
        "6"@
    } else if digit == 7 {
        "7"@
    } else if digit == 8 {
        "8"@
    } else {
        "9"@
    }
}

/// The number `n` written in decimal digits, without leading zeros.
pub open spec fn decimal_text(n: nat) -> Seq<char>
    decreases n,
{
    if n < 10 {
        digit_text(n as int)
    } else {
        decimal_text(n / 10) + digit_text((n % 10) as int)
    }
}

/// The date of the day with number `day`, as text: the month's name, a
/// space and the day of the month.
pub open spec fn date_text(day: int) -> Seq<char>
    recommends
        0 <= day,
{
    month_abbreviation_text(month_of_day(day)) + " "@ + decimal_text(day_of_month(day) as nat)
}

/// The three-letter English name of a month, January being month 0.
pub fn month_abbreviation(month: usize) -> (name: &'static str)
    requires
        month < MONTHS_PER_YEAR,
    ensures
        name@ == month_abbreviation_text(month as int),
{
    if month == 0 {
        "Jan"
    } else if month == 1 {
        "Feb"
    } else if month == 2 {
        "Mar"
    } else if month == 3 {
        "Apr"
    } else if month == 4 {
        "May"
    } else if month == 5 {
        "Jun"
    } else if month == 6 {
        "Jul"
    } else if month == 7 {
        "Aug"
    } else if month == 8 {
        "Sep"
    } else if month == 9 {
        "Oct"
    } else if month == 10 {
        "Nov"
    } else {
        "Dec"
    }
}

/// One decimal digit as text.
fn digit(value: usize) -> (text: &'static str)
    requires
        value < 10,
    ensures
        text@ == digit_text(value as int),
{
    if value == 0 {
        "0"
    } else if value == 1 {
        "1"
    } else if value == 2 {
        "2"
    } else if value == 3 {
        "3"
    } else if value == 4 {
        "4"
    } else if value == 5 {
        "5"
    } else if value == 6 {
        "6"
    } else if value == 7 {
        "7"
    } else if value == 8 {
        "8"
    } else {
        "9"
    }
}

/// Writes a number in decimal digits.
pub fn decimal(n: usize) -> (text: String)
    ensures
        text@ == decimal_text(n as nat),
    decreases n,
{
    if n < 10 {
        digit(n).to_owned()
    } else {
        let mut text = decimal(n / 10);
        text.append(digit(n % 10));
        text
    }
}

/// The month and the day of the month of a day of the year.
pub fn month_and_day(day: usize) -> (date: (usize, usize))
    ensures
        date.0 == month_of_day(day as int),
        date.1 == day_of_month(day as int),
        date.0 < MONTHS_PER_YEAR,
        date.1 >= 1,
{
    let mut remaining_days = day;
    let mut month: usize = 0;
    proof {
        reveal_with_fuel(days_before_month, 13);
    }
    if day >= DAYS_PER_YEAR {
        return (0, day - DAYS_PER_YEAR + 1);
    }
    while month < 11 && remaining_days >= month_days(month)
        invariant
            month <= 11,
            day < DAYS_PER_YEAR,
            remaining_days == day - days_before_month(month as int),
            days_before_month(month as int) <= day,
        decreases 11 - month,
    {
        proof {
            reveal_with_fuel(days_before_month, 13);
        }
        remaining_days -= month_days(month);
        month += 1;
    }
    proof {
        reveal_with_fuel(days_before_month, 13);
        let m = month as int;
        assert(days_before_month(m) <= day < days_before_month(m + 1));
        let chosen = month_of_day(day as int);
        assert(0 <= chosen < 12 && days_before_month(chosen) <= day < days_before_month(
            chosen + 1,
        ));
        assert(chosen == m);
    }
    (month, remaining_days + 1)
}

/// Converts a day number to a readable date string.
pub fn get_date_string(day: usize) -> (text: String)
    ensures
        text@ == date_text(day as int),
{
    let (month, day_of_month) = month_and_day(day);
    let mut text = month_abbreviation(month).to_owned();
    text.append(" ");
    let number = decimal(day_of_month);
    text.append(number.as_str());
    text
}

/// The hours of a day as a range of the hours of the year: the first hour
/// of the day, and the first hour after it.
pub fn day_hour_range(day: usize) -> (range: (usize, usize))
    requires
        day < DAYS_PER_YEAR,
    ensures
        range.0 == 24 * day,
        range.1 == range.0 + 24,
        range.1 <= HOURS_PER_YEAR,
{
    (24 * day, 24 * day + 24)
}

/// Whether the hour `hour` of the year lies in the day window: from 6
/// o'clock up to, and without, 18 o'clock.
pub open spec fn in_day_window(hour: int) -> bool {
    DAY_WINDOW_START <= hour % 24 < DAY_WINDOW_END
}

/// Whether an hour of the year is an hour of the day, and no hour of the
/// night.
pub fn is_day_hour(hour: usize) -> (r: bool)
    ensures
        r == in_day_window(hour as int),
{
    let hour_of_day = hour % 24;
    DAY_WINDOW_START <= hour_of_day && hour_of_day < DAY_WINDOW_END
}

/// Whether an hourly series has the length of the simulated year.
pub fn is_full_year(length: usize) -> (r: bool)
    ensures
        r == (length == HOURS_PER_YEAR),
{
    length == HOURS_PER_YEAR
}

} // verus!
