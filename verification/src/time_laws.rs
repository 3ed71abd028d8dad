//! What holds of the calendar and of timestamps.
use crate::datetime::{
    civil_to_unix, days_in_month, is_leap_year, law_calendar, law_march_years, month_length, number,
    parse_rfc3339_utc, valid_date,
};
use vstd::prelude::*;

verus! {

/// A year has a leap day where four divides it, but not where a hundred does, unless four hundred
/// does too; and the months have 28, 29, 30 or 31 days.
pub proof fn law_lengths_of_months(year: i64, month: i64, leap: bool, out: Option<i64>)
    requires
        call_ensures(is_leap_year, (year,), leap),
        call_ensures(days_in_month, (year, month), out),
    ensures
        year as int % 4 != 0 ==> !leap,
        year as int % 4 == 0 && year as int % 100 != 0 ==> leap,
        year as int % 100 == 0 && year as int % 400 != 0 ==> !leap,
        year as int % 400 == 0 ==> leap,
        month == 1 || month == 3 || month == 5 || month == 7 || month == 8 || month == 10 || month
            == 12 ==> out == Some(31i64),
        month == 4 || month == 6 || month == 9 || month == 11 ==> out == Some(30i64),
        month == 2 && leap ==> out == Some(29i64),
        month == 2 && !leap ==> out == Some(28i64),
        !(1 <= month <= 12) ==> out is None,
{
}

/// Whether six numbers are a date of the calendar and a time of the day, in a year of at most four
/// digits.
pub open spec fn is_moment(
    year: i64,
    month: i64,
    day: i64,
    hour: i64,
    minute: i64,
    second: i64,
) -> bool {
    0 <= year <= 9999 && valid_date(year as int, month as int, day as int) && 0 <= hour <= 23 && 0
        <= minute <= 59 && 0 <= second <= 60
}

proof fn lemma_moment_fits(
    year: i64,
    month: i64,
    day: i64,
    hour: i64,
    minute: i64,
    second: i64,
)
    requires
        0 <= year <= 9999,
        1 <= month <= 12,
        1 <= day <= 31,
        0 <= hour <= 23,
        0 <= minute <= 59,
        0 <= second <= 60,
    ensures
        crate::datetime::steps_fit(
            year as int,
            month as int,
            day as int,
            hour as int,
            minute as int,
            second as int,
        ),
{
}

/// Every moment has an instant; the first of 1970 is the instant zero.
pub proof fn law_moments_have_instants(
    year: i64,
    month: i64,
    day: i64,
    hour: i64,
    minute: i64,
    second: i64,
    out: Option<i64>,
)
    requires
        is_moment(year, month, day, hour, minute, second),
        call_ensures(civil_to_unix, (year, month, day, hour, minute, second), out),
    ensures
        out is Some,
        year == 1970 && month == 1 && day == 1 && hour == 0 && minute == 0 && second == 0 ==> out
            == Some(0i64),
{
    lemma_moment_fits(year, month, day, hour, minute, second);
    law_calendar(year as int, month as int, day as int);
}

/// Within a day an instant moves on with the hour, the minute and the second.
pub proof fn law_instants_move_within_a_day(
    year: i64,
    month: i64,
    day: i64,
    hour: i64,
    minute: i64,
    second: i64,
    out: Option<i64>,
    midnight: Option<i64>,
)
    requires
        is_moment(year, month, day, hour, minute, second),
        call_ensures(civil_to_unix, (year, month, day, hour, minute, second), out),
        call_ensures(civil_to_unix, (year, month, day, 0i64, 0i64, 0i64), midnight),
    ensures
        out is Some && midnight is Some,
        out->Some_0 == midnight->Some_0 + 3600 * hour + 60 * minute + second,
{
    lemma_moment_fits(year, month, day, hour, minute, second);
    lemma_moment_fits(year, month, day, 0, 0, 0);
}

/// Whether a date is the day after another: the next of its month, the first of the next month, or
/// the first of the next year.
pub open spec fn is_next_day(y1: i64, m1: i64, d1: i64, y2: i64, m2: i64, d2: i64) -> bool {
    ||| y2 == y1 && m2 == m1 && d2 == d1 + 1
    ||| y2 == y1 && m2 == m1 + 1 && d2 == 1 && d1 == month_length(y1 as int, m1 as int)
    ||| y2 == y1 + 1 && m1 == 12 && m2 == 1 && d1 == 31 && d2 == 1
}

/// From the midnight of a day to that of the next an instant moves on by a day's seconds.
pub proof fn law_instants_move_from_day_to_day(
    y1: i64,
    m1: i64,
    d1: i64,
    y2: i64,
    m2: i64,
    d2: i64,
    first: Option<i64>,
    second: Option<i64>,
)
    requires
        is_moment(y1, m1, d1, 0, 0, 0),
        is_moment(y2, m2, d2, 0, 0, 0),
        is_next_day(y1, m1, d1, y2, m2, d2),
        call_ensures(civil_to_unix, (y1, m1, d1, 0i64, 0i64, 0i64), first),
        call_ensures(civil_to_unix, (y2, m2, d2, 0i64, 0i64, 0i64), second),
    ensures
        first is Some && second is Some,
        second->Some_0 == first->Some_0 + 86_400,
{
    lemma_moment_fits(y1, m1, d1, 0, 0, 0);
    lemma_moment_fits(y2, m2, d2, 0, 0, 0);
    law_calendar(y1 as int, m1 as int, d1 as int);
}

/// The number of two digits at a place of a text.
pub open spec fn two_digits(text: Seq<char>, at: int) -> int {
    10 * (text[at] as int - 48) + (text[at + 1] as int - 48)
}

/// The number of four digits at the start of a text.
pub open spec fn first_four_digits(text: Seq<char>) -> int {
    1000 * (text[0] as int - 48) + 100 * (text[1] as int - 48) + 10 * (text[2] as int - 48) + (
    text[3] as int - 48)
}

/// Whether characters of a text are decimal digits, from one place up to another.
pub open spec fn digits_at(text: Seq<char>, from: int, to: int) -> bool {
    forall|i: int| from <= i < to ==> '0' <= #[trigger] text[i] <= '9'
}

/// Whether a text is written as a UTC timestamp: date, `T`, time, an optional fraction of a second,
/// and `Z`.
pub open spec fn is_written_as_timestamp(text: Seq<char>) -> bool {
    &&& text.len() >= 20
    &&& digits_at(text, 0, 4) && text[4] == '-' && digits_at(text, 5, 7) && text[7] == '-'
    &&& digits_at(text, 8, 10) && text[10] == 'T' && digits_at(text, 11, 13) && text[13] == ':'
    &&& digits_at(text, 14, 16) && text[16] == ':' && digits_at(text, 17, 19)
    &&& text[text.len() - 1] == 'Z'
    &&& text.len() > 20 ==> text.len() >= 22 && text[19] == '.' && digits_at(
        text,
        20,
        text.len() - 1,
    )
}

proof fn lemma_two_digits(text: Seq<char>, at: int)
    requires
        0 <= at,
        at + 2 <= text.len(),
    ensures
        number(text.subrange(at, at + 2)) == two_digits(text, at),
        crate::datetime::all_digits(text.subrange(at, at + 2)) <==> digits_at(text, at, at + 2),
{
    let field = text.subrange(at, at + 2);
    assert(field[0] == text[at] && field[1] == text[at + 1]);
    assert(field.drop_last().drop_last() =~= Seq::<char>::empty());
    reveal_with_fuel(number, 3);
    if crate::datetime::all_digits(field) {
        assert forall|i: int| at <= i < at + 2 implies '0' <= #[trigger] text[i] <= '9' by {
            assert(field[i - at] == text[i]);
        }
    }
}

proof fn lemma_four_digits(text: Seq<char>)
    requires
        4 <= text.len(),
    ensures
        number(text.subrange(0, 4)) == first_four_digits(text),
        crate::datetime::all_digits(text.subrange(0, 4)) <==> digits_at(text, 0, 4),
{
    let field = text.subrange(0, 4);
    let three = field.drop_last();
    let two = three.drop_last();
    let one = two.drop_last();
    assert(one.drop_last() =~= Seq::<char>::empty());
    assert(number(one) == 10 * number(one.drop_last()) + (text[0] as int - 48));
    assert(number(two) == 10 * number(one) + (text[1] as int - 48));
    assert(number(three) == 10 * number(two) + (text[2] as int - 48));
    assert(number(field) == 10 * number(three) + (text[3] as int - 48));
    if crate::datetime::all_digits(field) {
        assert forall|i: int| 0 <= i < 4 implies '0' <= #[trigger] text[i] <= '9' by {
            assert(field[i] == text[i]);
        }
    }
}

/// A timestamp is read exactly where a text is written as one and names a date of the calendar and
/// a time of the day, and it is read as the instant of the date and the time it names.
pub proof fn law_timestamps_name_instants(
    text: &str,
    year: i64,
    month: i64,
    day: i64,
    hour: i64,
    minute: i64,
    second: i64,
    instant: Option<i64>,
    out: Option<i64>,
)
    requires
        is_written_as_timestamp(text@) ==> {
            &&& year == first_four_digits(text@)
            &&& month == two_digits(text@, 5)
            &&& day == two_digits(text@, 8)
            &&& hour == two_digits(text@, 11)
            &&& minute == two_digits(text@, 14)
            &&& second == two_digits(text@, 17)
        },
        call_ensures(civil_to_unix, (year, month, day, hour, minute, second), instant),
        call_ensures(parse_rfc3339_utc, (text,), out),
    ensures
        !is_written_as_timestamp(text@) ==> out is None,
        is_written_as_timestamp(text@) ==> (out is Some <==> is_moment(
            year,
            month,
            day,
            hour,
            minute,
            second,
        )),
        out is Some ==> out == instant,
{
    let all = text@;
    if all.len() >= 20 {
        lemma_four_digits(all);
        lemma_two_digits(all, 5);
        lemma_two_digits(all, 8);
        lemma_two_digits(all, 11);
        lemma_two_digits(all, 14);
        lemma_two_digits(all, 17);
        let field = all.subrange(17, all.len() - 1);
        assert(field.subrange(0, 2) =~= all.subrange(17, 19));
        if all.len() >= 22 {
            let fraction = field.subrange(3, field.len() as int);
            assert(field[2] == all[19]);
            if crate::datetime::all_digits(fraction) {
                assert forall|i: int| 20 <= i < all.len() - 1 implies '0' <= #[trigger] all[i]
                    <= '9' by {
                    assert(fraction[i - 20] == all[i]);
                }
            }
        }
        assert(crate::datetime::timestamp_shape(all) <==> is_written_as_timestamp(all));
    }
    if is_written_as_timestamp(all) {
        assert('0' <= all[0] <= '9' && '0' <= all[1] <= '9' && '0' <= all[2] <= '9' && '0' <= all[3]
            <= '9');
        assert('0' <= all[11] <= '9' && '0' <= all[12] <= '9');
        assert('0' <= all[14] <= '9' && '0' <= all[15] <= '9');
        assert('0' <= all[17] <= '9' && '0' <= all[18] <= '9');
        if is_moment(year, month, day, hour, minute, second) {
            lemma_moment_fits(year, month, day, hour, minute, second);
            law_march_years(year as int, month as int, day as int);
        }
    }
}

} // verus!
