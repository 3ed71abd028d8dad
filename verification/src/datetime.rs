//! UTC timestamps, as Unix seconds.
use crate::text::chars_of;
use vstd::prelude::*;

verus! {

/// A decimal digit.
pub open spec fn is_digit(c: char) -> bool {
    '0' <= c <= '9'
}

/// Whether a run of characters is made of decimal digits.
pub open spec fn all_digits(field: Seq<char>) -> bool {
    forall|i: int| 0 <= i < field.len() ==> is_digit(#[trigger] field[i])
}

/// The number that a run of decimal digits stands for.
pub open spec fn number(field: Seq<char>) -> int
    decreases field.len(),
{
    if field.len() == 0 {
        0
    } else {
        10 * number(field.drop_last()) + (field.last() as int - 48)
    }
}

/// The Gregorian leap years.
pub open spec fn leap_year(year: int) -> bool {
    year % 4 == 0 && (year % 100 != 0 || year % 400 == 0)
}

/// The number of days of a month; zero outside the twelve months.
pub open spec fn month_length(year: int, month: int) -> int {
    if month == 2 {
        if leap_year(year) {
            29
        } else {
            28
        }
    } else if month == 4 || month == 6 || month == 9 || month == 11 {
        30
    } else if 1 <= month <= 12 {
        31
    } else {
        0
    }
}

/// The number of days of a year that come before a month.
pub open spec fn days_before_month(year: int, month: int) -> int
    decreases month,
{
    if month <= 1 {
        0
    } else {
        days_before_month(year, month - 1) + month_length(year, month - 1)
    }
}

/// The number of days from the first day of year 0 to the first day of a year.
pub open spec fn days_before_year(year: int) -> int {
    365 * year + (year + 3) / 4 - (year + 99) / 100 + (year + 399) / 400
}

/// The number of days from 1 January 1970 to a day of the Gregorian calendar.
pub open spec fn civil_day(year: int, month: int, day: int) -> int {
    days_before_year(year) + days_before_month(year, month) + day - 1 - days_before_year(1970)
}

/// A date of the Gregorian calendar.
pub open spec fn valid_date(year: int, month: int, day: int) -> bool {
    1 <= month <= 12 && 1 <= day <= month_length(year, month)
}

/// The Unix seconds of an instant, in a count without leap seconds.
pub open spec fn unix_seconds(
    year: int,
    month: int,
    day: int,
    hour: int,
    minute: int,
    second: int,
) -> int {
    86_400 * civil_day(year, month, day) + 3_600 * hour + 60 * minute + second
}

/// The day count starts at the epoch and steps by one from each day to the next: within a month,
/// from the last day of a month to the first of the next, and from the last day of a year to the
/// first of the next.
pub proof fn law_calendar(year: int, month: int, day: int)
    requires
        valid_date(year, month, day),
    ensures
        civil_day(1970, 1, 1) == 0,
        civil_day(year, month, day + 1) == civil_day(year, month, day) + 1,
        day == month_length(year, month) && month < 12 ==> civil_day(year, month + 1, 1)
            == civil_day(year, month, day) + 1,
        day == month_length(year, month) && month == 12 ==> civil_day(year + 1, 1, 1) == civil_day(
            year,
            month,
            day,
        ) + 1,
{
    lemma_year_length(year);
}

/// A year has the days of its months.
proof fn lemma_year_length(year: int)
    ensures
        days_before_year(year + 1) == days_before_year(year) + days_before_month(year, 12) + 31,
{
    lemma_month_table(year);
    lemma_leap_days(year);
    lemma_leap_days(year + 1);
}

proof fn lemma_months_grow(year: int, m1: int, m2: int)
    requires
        1 <= m1 < m2 <= 12,
    ensures
        days_before_month(year, m1) + month_length(year, m1) <= days_before_month(year, m2),
    decreases m2,
{
    if m1 < m2 - 1 {
        lemma_months_grow(year, m1, m2 - 1);
    }
}

proof fn lemma_years_grow(y1: int, y2: int)
    requires
        y1 < y2,
    ensures
        days_before_year(y1 + 1) <= days_before_year(y2),
    decreases y2 - y1,
{
    if y1 + 1 < y2 {
        lemma_years_grow(y1, y2 - 1);
        lemma_year_length(y2 - 1);
        lemma_months_grow(y2 - 1, 1, 12);
    }
}

/// A later date has a greater day count.
pub proof fn law_dates_are_ordered(y1: int, m1: int, d1: int, y2: int, m2: int, d2: int)
    requires
        valid_date(y1, m1, d1),
        valid_date(y2, m2, d2),
        y1 < y2 || (y1 == y2 && (m1 < m2 || (m1 == m2 && d1 < d2))),
    ensures
        civil_day(y1, m1, d1) < civil_day(y2, m2, d2),
{
    if y1 < y2 {
        lemma_years_grow(y1, y2);
        lemma_year_length(y1);
        if m1 < 12 {
            lemma_months_grow(y1, m1, 12);
        }
        if 1 < m2 {
            lemma_months_grow(y2, 1, m2);
        }
    } else if m1 < m2 {
        lemma_months_grow(y1, m1, m2);
    }
}

/// The days before each month.
proof fn lemma_month_table(year: int)
    ensures
        ({
            let leap: int = if leap_year(year) {
                1
            } else {
                0
            };
            &&& days_before_month(year, 1) == 0
            &&& days_before_month(year, 2) == 31
            &&& days_before_month(year, 3) == 59 + leap
            &&& days_before_month(year, 4) == 90 + leap
            &&& days_before_month(year, 5) == 120 + leap
            &&& days_before_month(year, 6) == 151 + leap
            &&& days_before_month(year, 7) == 181 + leap
            &&& days_before_month(year, 8) == 212 + leap
            &&& days_before_month(year, 9) == 243 + leap
            &&& days_before_month(year, 10) == 273 + leap
            &&& days_before_month(year, 11) == 304 + leap
            &&& days_before_month(year, 12) == 334 + leap
        }),
{
    assert(days_before_month(year, 1) == 0);
    assert(days_before_month(year, 2) == 31);
    assert(days_before_month(year, 3) == 59 + if leap_year(year) { 1int } else { 0 });
    assert(days_before_month(year, 4) == days_before_month(year, 3) + 31);
    assert(days_before_month(year, 5) == days_before_month(year, 4) + 30);
    assert(days_before_month(year, 6) == days_before_month(year, 5) + 31);
    assert(days_before_month(year, 7) == days_before_month(year, 6) + 30);
    assert(days_before_month(year, 8) == days_before_month(year, 7) + 31);
    assert(days_before_month(year, 9) == days_before_month(year, 8) + 31);
    assert(days_before_month(year, 10) == days_before_month(year, 9) + 30);
    assert(days_before_month(year, 11) == days_before_month(year, 10) + 31);
    assert(days_before_month(year, 12) == days_before_month(year, 11) + 30);
}

proof fn lemma_fourths(year: int)
    ensures
        (year + 3) / 4 == (year - 1) / 4 + 1,
        year % 4 == 0 ==> (year + 3) / 4 == year / 4,
        year % 4 != 0 ==> (year + 3) / 4 == year / 4 + 1,
{
}

proof fn lemma_hundredths(year: int)
    ensures
        (year + 99) / 100 == (year - 1) / 100 + 1,
        year % 100 == 0 ==> (year + 99) / 100 == year / 100,
        year % 100 != 0 ==> (year + 99) / 100 == year / 100 + 1,
        year % 100 == 0 ==> year % 4 == 0,
{
}

proof fn lemma_four_hundredths(year: int)
    ensures
        (year + 399) / 400 == (year - 1) / 400 + 1,
        year % 400 == 0 ==> (year + 399) / 400 == year / 400,
        year % 400 != 0 ==> (year + 399) / 400 == year / 400 + 1,
        year % 400 == 0 ==> year % 100 == 0,
{
}

/// How the leap days before a year relate to whole multiples in it.
proof fn lemma_leap_days(year: int)
    ensures
        days_before_year(year) == 365 * year + (year - 1) / 4 - (year - 1) / 100 + (year - 1) / 400
            + 1,
        days_before_year(year) + (if leap_year(year) {
            1int
        } else {
            0
        }) == 365 * year + year / 4 - year / 100 + year / 400 + 1,
{
    lemma_fourths(year);
    lemma_hundredths(year);
    lemma_four_hundredths(year);
}

/// The year of an era and the era, from a year.
proof fn lemma_era(y: int, era: int)
    requires
        era == y / 400,
    ensures
        ({
            let yoe = y - 400 * era;
            &&& 0 <= yoe < 400
            &&& 146_097 * era + 365 * yoe + yoe / 4 - yoe / 100 == 365 * y + y / 4 - y / 100 + y
                / 400
        }),
{
    let yoe = y - 400 * era;
    lemma_whole_centuries(era, yoe);
    assert(y == 400 * era + yoe);
}

proof fn lemma_whole_centuries(era: int, yoe: int)
    requires
        0 <= yoe < 400,
    ensures
        (400 * era + yoe) / 4 == 100 * era + yoe / 4,
        (400 * era + yoe) / 100 == 4 * era + yoe / 100,
{
}

/// Whether a number fits in a signed 64-bit integer.
pub open spec fn fits(n: int) -> bool {
    i64::MIN <= n <= i64::MAX
}

/// A fifth of a number, rounded towards zero.
pub open spec fn fifth(n: int) -> int {
    if n >= 0 {
        n / 5
    } else {
        -((-n) / 5)
    }
}

/// The year to which a month belongs where years start in March.
pub open spec fn march_year(year: int, month: int) -> int {
    if month <= 2 {
        year - 1
    } else {
        year
    }
}

/// The number of a month in a year that starts in March.
pub open spec fn march_month(month: int) -> int {
    if month > 2 {
        month - 3
    } else {
        month + 9
    }
}

/// The number of days from the start of its March year to a day. A day or a month beyond the last
/// one rolls forward.
pub open spec fn march_year_day(month: int, day: int) -> int {
    fifth(153 * march_month(month) + 2) + day - 1
}

/// The number of days from 1 January 1970 to a day of a March year.
pub open spec fn march_day(year: int, month: int, day: int) -> int {
    let y = march_year(year, month);
    365 * y + y / 4 - y / 100 + y / 400 + march_year_day(month, day) - 719_468
}

/// The Unix seconds of an instant of a March year.
pub open spec fn march_seconds(
    year: int,
    month: int,
    day: int,
    hour: int,
    minute: int,
    second: int,
) -> int {
    86_400 * march_day(year, month, day) + 3_600 * hour + 60 * minute + second
}

/// For the twelve months, the day count of March years is that of the calendar, whatever the day.
pub proof fn law_march_years(year: int, month: int, day: int)
    requires
        1 <= month <= 12,
    ensures
        march_day(year, month, day) == civil_day(year, month, day),
{
    lemma_month_table(year);
    lemma_leap_days(year);
}

/// Whether every step of the count of days fits in a signed 64-bit integer: the year, the day of
/// the year, the day of the four-century era, and the era.
pub open spec fn day_steps_fit(year: int, month: int, day: int) -> bool {
    let y = march_year(year, month);
    let months = 153 * march_month(month);
    let era = y / 400;
    let yoe = y - 400 * era;
    let doe = 365 * yoe + yoe / 4 - yoe / 100 + march_year_day(month, day);
    &&& fits(y)
    &&& y < 0 ==> fits(y - 399)
    &&& fits(months)
    &&& fits(months + 2)
    &&& fits(fifth(months + 2) + day)
    &&& fits(march_year_day(month, day))
    &&& fits(doe)
    &&& fits(146_097 * era)
    &&& fits(146_097 * era + doe)
    &&& fits(march_day(year, month, day))
}

/// Whether every step of the computation of [`march_seconds`], in the order of [`civil_to_unix`],
/// fits in a signed 64-bit integer.
pub open spec fn steps_fit(
    year: int,
    month: int,
    day: int,
    hour: int,
    minute: int,
    second: int,
) -> bool {
    let days = march_day(year, month, day);
    &&& day_steps_fit(year, month, day)
    &&& fits(86_400 * days)
    &&& fits(3_600 * hour)
    &&& fits(86_400 * days + 3_600 * hour)
    &&& fits(60 * minute)
    &&& fits(86_400 * days + 3_600 * hour + 60 * minute)
    &&& fits(march_seconds(year, month, day, hour, minute, second))
}

/// The shape `YYYY-MM-DDThh:mm:ssZ`, with an optional fraction of digits after the seconds.
pub open spec fn timestamp_shape(text: Seq<char>) -> bool {
    &&& text.len() >= 20
    &&& all_digits(text.subrange(0, 4))
    &&& text[4] == '-'
    &&& all_digits(text.subrange(5, 7))
    &&& text[7] == '-'
    &&& all_digits(text.subrange(8, 10))
    &&& text[10] == 'T'
    &&& all_digits(text.subrange(11, 13))
    &&& text[13] == ':'
    &&& all_digits(text.subrange(14, 16))
    &&& text[16] == ':'
    &&& seconds_shape(text.subrange(17, text.len() - 1))
    &&& text.last() == 'Z'
}

/// Two digits, with an optional fraction: a point and at least one digit.
pub open spec fn seconds_shape(field: Seq<char>) -> bool {
    &&& field.len() >= 2
    &&& all_digits(field.subrange(0, 2))
    &&& field.len() == 2 || (field.len() >= 4 && field[2] == '.' && all_digits(
        field.subrange(3, field.len() as int),
    ))
}

/// The instant that a timestamp names, where it has the shape of one and names a date of the
/// calendar and a time of the day. The second 60 is taken, the fraction is dropped.
pub open spec fn instant_of(text: Seq<char>) -> Option<int> {
    let year = number(text.subrange(0, 4));
    let month = number(text.subrange(5, 7));
    let day = number(text.subrange(8, 10));
    let hour = number(text.subrange(11, 13));
    let minute = number(text.subrange(14, 16));
    let second = number(text.subrange(17, 19));
    if timestamp_shape(text) && valid_date(year, month, day) && hour <= 23 && minute <= 59 && second
        <= 60 {
        Some(unix_seconds(year, month, day, hour, minute, second))
    } else {
        None
    }
}

/// The bound of a number of `n` digits.
pub open spec fn power_10(n: nat) -> int
    decreases n,
{
    if n == 0 {
        1
    } else {
        10 * power_10((n - 1) as nat)
    }
}

proof fn lemma_number_bound(field: Seq<char>)
    requires
        all_digits(field),
    ensures
        0 <= number(field) < power_10(field.len()),
    decreases field.len(),
{
    if field.len() > 0 {
        assert(all_digits(field.drop_last())) by {
            assert forall|i: int| 0 <= i < field.len() - 1 implies is_digit(
                #[trigger] field.drop_last()[i],
            ) by {
                assert(is_digit(field[i]));
            }
        }
        lemma_number_bound(field.drop_last());
        assert(is_digit(field[field.len() - 1]));
    }
}

fn divides_4(year: i64) -> (out: bool)
    ensures
        out == (year as int % 4 == 0),
{
    year % 4 == 0
}

fn divides_100(year: i64) -> (out: bool)
    ensures
        out == (year as int % 100 == 0),
{
    year % 100 == 0
}

fn divides_400(year: i64) -> (out: bool)
    ensures
        out == (year as int % 400 == 0),
{
    year % 400 == 0
}

/// Whether a year is a leap year.
pub fn is_leap_year(year: i64) -> (out: bool)
    ensures
        out == leap_year(year as int),
{
    divides_4(year) && (!divides_100(year) || divides_400(year))
}

/// The number of days of a month; nothing outside the twelve months.
pub fn days_in_month(year: i64, month: i64) -> (out: Option<i64>)
    ensures
        out == (if 1 <= month <= 12 {
            Some(month_length(year as int, month as int) as i64)
        } else {
            None
        }),
{
    match month {
        1 | 3 | 5 | 7 | 8 | 10 | 12 => Some(31),
        4 | 6 | 9 | 11 => Some(30),
        2 => if is_leap_year(year) {
            Some(29)
        } else {
            Some(28)
        },
        _ => None,
    }
}

fn fifth_of(n: i64) -> (out: i64)
    ensures
        out == fifth(n as int),
{
    n / 5
}

/// The number of days from the start of its March year to a day; nothing where a step of the
/// computation does not fit.
fn day_of_march_year(month: i64, day: i64) -> (out: Option<i64>)
    ensures
        ({
            let months = 153 * march_month(month as int);
            match out {
                Some(doy) => {
                    &&& fits(months)
                    &&& fits(months + 2)
                    &&& fits(fifth(months + 2) + day)
                    &&& doy == march_year_day(month as int, day as int)
                },
                None => !(fits(months) && fits(months + 2) && fits(fifth(months + 2) + day) && fits(
                    march_year_day(month as int, day as int),
                )),
            }
        }),
{
    let mp: i64 = if month > 2 {
        month - 3
    } else {
        month + 9
    };
    let months: i64 = match mp.checked_mul(153) {
        Some(months) => months,
        None => {
            return None;
        },
    };
    let shifted: i64 = match months.checked_add(2) {
        Some(shifted) => shifted,
        None => {
            return None;
        },
    };
    let after: i64 = match fifth_of(shifted).checked_add(day) {
        Some(after) => after,
        None => {
            return None;
        },
    };
    after.checked_sub(1)
}

/// The number of days from 1 January 1970 to a day; nothing where a step of the computation does
/// not fit.
fn civil_to_days(year: i64, month: i64, day: i64) -> (out: Option<i64>)
    ensures
        out == (if day_steps_fit(year as int, month as int, day as int) {
            Some(march_day(year as int, month as int, day as int) as i64)
        } else {
            None
        }),
{
    let y: i64 = if month <= 2 {
        match year.checked_sub(1) {
            Some(y) => y,
            None => {
                return None;
            },
        }
    } else {
        year
    };
    let floor: i64 = if y >= 0 {
        y
    } else {
        match y.checked_sub(399) {
            Some(floor) => floor,
            None => {
                return None;
            },
        }
    };
    let era: i64 = floor / 400;
    assert(era == y as int / 400);
    proof {
        lemma_era(y as int, era as int);
    }
    let yoe: i64 = y - era * 400;
    let doy: i64 = match day_of_march_year(month, day) {
        Some(doy) => doy,
        None => {
            return None;
        },
    };
    let years: i64 = yoe * 365 + yoe / 4 - yoe / 100;
    let doe: i64 = match years.checked_add(doy) {
        Some(doe) => doe,
        None => {
            return None;
        },
    };
    let era_days: i64 = match era.checked_mul(146_097) {
        Some(era_days) => era_days,
        None => {
            return None;
        },
    };
    let all_days: i64 = match era_days.checked_add(doe) {
        Some(all_days) => all_days,
        None => {
            return None;
        },
    };
    assert(all_days - 719_468 == march_day(year as int, month as int, day as int));
    all_days.checked_sub(719_468)
}

/// The Unix seconds of an instant; nothing where a step of the computation does not fit. A day or a
/// month beyond the last one rolls forward.
pub fn civil_to_unix(
    year: i64,
    month: i64,
    day: i64,
    hour: i64,
    minute: i64,
    second: i64,
) -> (out: Option<i64>)
    ensures
        out == (if steps_fit(
            year as int,
            month as int,
            day as int,
            hour as int,
            minute as int,
            second as int,
        ) {
            Some(
                march_seconds(
                    year as int,
                    month as int,
                    day as int,
                    hour as int,
                    minute as int,
                    second as int,
                ) as i64,
            )
        } else {
            None
        }),
        1 <= month <= 12 ==> (out matches Some(seconds) ==> seconds == unix_seconds(
            year as int,
            month as int,
            day as int,
            hour as int,
            minute as int,
            second as int,
        )),
{
    proof {
        if 1 <= month <= 12 {
            law_march_years(year as int, month as int, day as int);
        }
    }
    let days: i64 = match civil_to_days(year, month, day) {
        Some(days) => days,
        None => {
            return None;
        },
    };
    let at_day: i64 = match days.checked_mul(86_400) {
        Some(at_day) => at_day,
        None => {
            return None;
        },
    };
    let hours: i64 = match hour.checked_mul(3_600) {
        Some(hours) => hours,
        None => {
            return None;
        },
    };
    let at_hour: i64 = match at_day.checked_add(hours) {
        Some(at_hour) => at_hour,
        None => {
            return None;
        },
    };
    let minutes: i64 = match minute.checked_mul(60) {
        Some(minutes) => minutes,
        None => {
            return None;
        },
    };
    let at_minute: i64 = match at_hour.checked_add(minutes) {
        Some(at_minute) => at_minute,
        None => {
            return None;
        },
    };
    at_minute.checked_add(second)
}

/// What stands in front is no greater than the whole.
proof fn lemma_number_grows(field: Seq<char>, n: int)
    requires
        all_digits(field),
        0 <= n <= field.len(),
    ensures
        0 <= number(field.take(n)) <= number(field),
    decreases field.len(),
{
    lemma_number_bound(field);
    if n == field.len() {
        assert(field.take(n) =~= field);
    } else {
        let shorter = field.drop_last();
        assert(is_digit(field[field.len() - 1]));
        assert forall|i: int| 0 <= i < shorter.len() implies is_digit(#[trigger] shorter[i]) by {
            assert(is_digit(field[i]));
        }
        lemma_number_grows(shorter, n);
        lemma_number_bound(shorter);
        assert(shorter.take(n) =~= field.take(n));
    }
}

/// Read a field of exactly `width` decimal digits, at least one; nothing where the number does not
/// fit.
pub fn parse_fixed_width(field: &[char], width: usize) -> (out: Option<i64>)
    ensures
        out == (if width > 0 && field@.len() == width && all_digits(field@) && fits(number(field@)) {
            Some(number(field@) as i64)
        } else {
            None
        }),
        out matches Some(n) ==> n == number(field@) && 0 <= n < power_10(width as nat),
        0 < width <= 18 && field@.len() == width && all_digits(field@) ==> out is Some,
{
    proof {
        if width <= 18 && field@.len() == width && all_digits(field@) {
            lemma_number_bound(field@);
            assert(power_10(width as nat) <= 1_000_000_000_000_000_000) by {
                reveal_with_fuel(power_10, 19);
            }
        }
    }
    if field.len() != width || width == 0 {
        return None;
    }
    let mut value: i64 = 0;
    let mut i: usize = 0;
    while i < width
        invariant
            i <= width,
            width == field@.len(),
            value == number(field@.take(i as int)),
            forall|j: int| 0 <= j < i ==> is_digit(#[trigger] field@[j]),
            width <= 18 && all_digits(field@) ==> fits(number(field@)),
        decreases width - i,
    {
        let c = field[i];
        if c < '0' || c > '9' {
            assert(!is_digit(field@[i as int]));
            return None;
        }
        let digit: i64 = c as i64 - 48;
        proof {
            assert(field@.take(i as int + 1).drop_last() =~= field@.take(i as int));
            assert(number(field@.take(i as int + 1)) == 10 * value + digit);
            if all_digits(field@) {
                lemma_number_grows(field@, i as int);
                lemma_number_grows(field@, i as int + 1);
            }
        }
        value = match value.checked_mul(10) {
            Some(tens) => match tens.checked_add(digit) {
                Some(next) => next,
                None => {
                    return None;
                },
            },
            None => {
                return None;
            },
        };
        i += 1;
    }
    assert(field@.take(width as int) =~= field@);
    proof {
        lemma_number_bound(field@);
    }
    Some(value)
}

/// Whether a run of characters is made of decimal digits.
fn is_all_digits(field: &[char]) -> (out: bool)
    ensures
        out == all_digits(field@),
{
    let mut i: usize = 0;
    while i < field.len()
        invariant
            i <= field@.len(),
            forall|j: int| 0 <= j < i ==> is_digit(#[trigger] field@[j]),
        decreases field@.len() - i,
    {
        if field[i] < '0' || field[i] > '9' {
            assert(!is_digit(field@[i as int]));
            return false;
        }
        i += 1;
    }
    true
}

/// Read the seconds field: two digits, and an optional fraction that is checked and dropped.
pub fn parse_seconds_field(field: &[char]) -> (out: Option<i64>)
    ensures
        out == (if seconds_shape(field@) {
            Some(number(field@.subrange(0, 2)) as i64)
        } else {
            None
        }),
        out matches Some(n) ==> n == number(field@.subrange(0, 2)) && 0 <= n < 100,
{
    if field.len() < 2 {
        return None;
    }
    if field.len() > 2 {
        if field.len() < 4 || field[2] != '.' {
            return None;
        }
        if !is_all_digits(vstd::slice::slice_subrange(field, 3, field.len())) {
            return None;
        }
    }
    assert(power_10(2) == 100) by {
        reveal_with_fuel(power_10, 3);
    }
    parse_fixed_width(vstd::slice::slice_subrange(field, 0, 2), 2)
}

/// The checked steps of a four-digit year stay far inside 64 bits.
proof fn lemma_four_digit_years(
    year: int,
    month: int,
    day: int,
    hour: int,
    minute: int,
    second: int,
)
    requires
        0 <= year < 10_000,
        valid_date(year, month, day),
        0 <= hour <= 23,
        0 <= minute <= 59,
        0 <= second <= 60,
    ensures
        steps_fit(year, month, day, hour, minute, second),
{
    law_march_years(year, month, day);
}

/// The instant of a timestamp fits in 64 bits.
pub(crate) proof fn lemma_instant_in_range(text: Seq<char>)
    requires
        instant_of(text) is Some,
    ensures
        fits(instant_of(text)->Some_0),
{
    let year = number(text.subrange(0, 4));
    let month = number(text.subrange(5, 7));
    let day = number(text.subrange(8, 10));
    assert(power_10(4) == 10_000 && power_10(2) == 100) by {
        reveal_with_fuel(power_10, 5);
    }
    lemma_number_bound(text.subrange(0, 4));
    lemma_number_bound(text.subrange(11, 13));
    lemma_number_bound(text.subrange(14, 16));
    assert(text.subrange(17, text.len() - 1).subrange(0, 2) =~= text.subrange(17, 19));
    lemma_number_bound(text.subrange(17, 19));
    lemma_four_digit_years(
        year,
        month,
        day,
        number(text.subrange(11, 13)),
        number(text.subrange(14, 16)),
        number(text.subrange(17, 19)),
    );
    law_march_years(year, month, day);
}

/// Read a timestamp in UTC as Unix seconds; nothing for any other text.
pub fn parse_rfc3339_utc(s: &str) -> (out: Option<i64>)
    ensures
        match out {
            Some(seconds) => instant_of(s@) == Some(seconds as int),
            None => instant_of(s@) is None,
        },
{
    let text = chars_of(s);
    let len: usize = text.len();
    if len < 20 || text[4] != '-' || text[7] != '-' || text[10] != 'T' || text[13] != ':'
        || text[16] != ':' || text[len - 1] != 'Z' {
        return None;
    }
    assert(power_10(4) == 10_000 && power_10(2) == 100) by {
        reveal_with_fuel(power_10, 5);
    }
    let all = text.as_slice();
    let year: i64 = match parse_fixed_width(vstd::slice::slice_subrange(all, 0, 4), 4) {
        Some(year) => year,
        None => {
            return None;
        },
    };
    let month: i64 = match parse_fixed_width(vstd::slice::slice_subrange(all, 5, 7), 2) {
        Some(month) => month,
        None => {
            return None;
        },
    };
    let day: i64 = match parse_fixed_width(vstd::slice::slice_subrange(all, 8, 10), 2) {
        Some(day) => day,
        None => {
            return None;
        },
    };
    let hour: i64 = match parse_fixed_width(vstd::slice::slice_subrange(all, 11, 13), 2) {
        Some(hour) => hour,
        None => {
            return None;
        },
    };
    let minute: i64 = match parse_fixed_width(vstd::slice::slice_subrange(all, 14, 16), 2) {
        Some(minute) => minute,
        None => {
            return None;
        },
    };
    let second: i64 = match parse_seconds_field(vstd::slice::slice_subrange(all, 17, len - 1)) {
        Some(second) => second,
        None => {
            return None;
        },
    };
    assert(s@.subrange(17, s@.len() - 1).subrange(0, 2) =~= s@.subrange(17, 19));
    let last_day: i64 = match days_in_month(year, month) {
        Some(last_day) => last_day,
        None => {
            return None;
        },
    };
    if hour > 23 || minute > 59 || second > 60 || day < 1 || day > last_day {
        return None;
    }
    proof {
        lemma_four_digit_years(
            year as int,
            month as int,
            day as int,
            hour as int,
            minute as int,
            second as int,
        );
    }
    civil_to_unix(year, month, day, hour, minute, second)
}

} // verus!
