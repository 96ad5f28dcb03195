//! Calendar dates and how they are written.
use vstd::prelude::*;

use crate::text;

verus! {

/// Does the year have a 29th of February?
pub open spec fn is_leap_year(year: int) -> bool {
    year % 4 == 0 && (year % 100 != 0 || year % 400 == 0)
}

/// How many days the month has.
pub open spec fn days_in_month(year: int, month: int) -> int {
    if month == 2 {
        if is_leap_year(year) {
            29
        } else {
            28
        }
    } else if month == 4 || month == 6 || month == 9 || month == 11 {
        30
    } else {
        31
    }
}

/// Is there such a day, in a year that dates can be computed for?
pub open spec fn is_date(year: int, month: int, day: int) -> bool {
    &&& -262143 <= year <= 262142
    &&& 1 <= month <= 12
    &&& 1 <= day <= days_in_month(year, month)
}

/// How many days the months before `month` have.
pub open spec fn days_before_month(year: int, month: int) -> int
    decreases month,
{
    if month <= 1 {
        0
    } else {
        days_before_month(year, month - 1) + days_in_month(year, month - 1)
    }
}

/// The number of a day, counted from the first of January of the year 1, which is day 1.
pub open spec fn day_number(year: int, month: int, day: int) -> int {
    365 * (year - 1) + (year - 1) / 4 - (year - 1) / 100 + (year - 1) / 400 + days_before_month(
        year,
        month,
    ) + day
}

/// The short name of a day of the week; day 1 of the calendar was a Monday.
pub open spec fn weekday_name(day_number: int) -> Seq<char> {
    let weekday = day_number % 7;
    if weekday == 0 {
        "Sun"@
    } else if weekday == 1 {
        "Mon"@
    } else if weekday == 2 {
        "Tue"@
    } else if weekday == 3 {
        "Wed"@
    } else if weekday == 4 {
        "Thu"@
    } else if weekday == 5 {
        "Fri"@
    } else {
        "Sat"@
    }
}

/// The short name of a month.
pub open spec fn month_name(month: int) -> Seq<char> {
    if month == 1 {
        "Jan"@
    } else if month == 2 {
        "Feb"@
    } else if month == 3 {
        "Mar"@
    } else if month == 4 {
        "Apr"@
    } else if month == 5 {
        "May"@
    } else if month == 6 {
        "Jun"@
    } else if month == 7 {
        "Jul"@
    } else if month == 8 {
        "Aug"@
    } else if month == 9 {
        "Sep"@
    } else if month == 10 {
        "Oct"@
    } else if month == 11 {
        "Nov"@
    } else {
        "Dec"@
    }
}

/// A number below 100 with two digits.
pub open spec fn two_digits(n: int) -> Seq<char> {
    seq![text::digit_char((n / 10) as nat), text::digit_char((n % 10) as nat)]
}

/// A date as weekday, day, month and year of the century.
pub open spec fn date_text(year: int, month: int, day: int) -> Seq<char> {
    weekday_name(day_number(year, month, day)) + " "@ + two_digits(day) + " "@ + month_name(month)
        + " "@ + two_digits(year % 100)
}

/// How dates are written.
pub const DATE_FORMAT: &'static str = "%a %d %b %y";

/// `chrono::NaiveDate::from_ymd_opt`, which gives a date if there is such a day and the year is
/// in range, and `chrono::NaiveDate::format` on that date. The format `%a %d %b %y` stands for
/// the short English name of the weekday, the day in two digits, the short English name of the
/// month and the year modulo 100 in two digits.
#[verifier::external_body]
fn format_ymd(year: i32, month: u32, day: u32, format: &str) -> (r: Option<String>)
    requires
        format@ == "%a %d %b %y"@,
    ensures
        r is Some == is_date(year as int, month as int, day as int),
        r matches Some(s) ==> s@ == date_text(year as int, month as int, day as int),
{
    chrono::NaiveDate::from_ymd_opt(year, month, day).map(|date| date.format(format).to_string())
}

/// The date as it is written in mails, if there is such a day.
pub fn format_day(year: i32, month: u32, day: u32) -> (r: Option<String>)
    ensures
        r is Some == is_date(year as int, month as int, day as int),
        r matches Some(s) ==> s@ == date_text(year as int, month as int, day as int),
{
    format_ymd(year, month, day, DATE_FORMAT)
}

// ---- laws on what dates are ----

/// A year has 365 days, a leap year 366, and these are the days of its twelve months.
proof fn lemma_days_of_a_year(year: int)
    ensures
        days_before_month(year, 13) == if is_leap_year(year) {
            366int
        } else {
            365
        },
{
    reveal_with_fuel(days_before_month, 13);
}

/// The days are numbered without a gap: after a day comes the next of the month, after the last
/// of a month the first of the next, and after the last of a year the first of the next.
pub proof fn law_day_follows_day(year: int, month: int, day: int)
    requires
        is_date(year, month, day),
    ensures
        day < days_in_month(year, month) ==> day_number(year, month, day + 1) == day_number(
            year,
            month,
            day,
        ) + 1,
        day == days_in_month(year, month) && month < 12 ==> day_number(year, month + 1, 1)
            == day_number(year, month, day) + 1,
        day == 31 && month == 12 ==> day_number(year + 1, 1, 1) == day_number(year, month, day) + 1,
        day_number(1, 1, 1) == 1,
{
    lemma_days_of_a_year(year);
    assert(days_before_month(year, 13) == days_before_month(year, 12) + 31);
    let y = year - 1;
    assert(year / 4 - y / 4 == if year % 4 == 0 {
        1int
    } else {
        0
    });
    assert(year / 100 - y / 100 == if year % 100 == 0 {
        1int
    } else {
        0
    });
    assert(year / 400 - y / 400 == if year % 400 == 0 {
        1int
    } else {
        0
    });
}

/// A date is written exactly if there is such a day: three letters for the weekday, two digits for
/// the day, three letters for the month and two digits for the year in its century, with a blank
/// between them.
pub proof fn law_date_is_written_in_its_parts(year: i32, month: u32, day: u32, r: Option<String>)
    requires
        call_ensures(format_day, (year, month, day), r),
    ensures
        r is Some <==> {
            &&& -262143 <= year <= 262142
            &&& 1 <= month <= 12
            &&& 1 <= day <= 31
            &&& month == 4 || month == 6 || month == 9 || month == 11 ==> day <= 30
            &&& month == 2 ==> day <= 29
            &&& month == 2 && !(year % 4 == 0 && (year % 100 != 0 || year % 400 == 0)) ==> day <= 28
        },
        r matches Some(s) ==> {
            &&& s@.len() == 13
            &&& s@[3] == ' ' && s@[6] == ' ' && s@[10] == ' '
            &&& '0' <= s@[4] <= '9' && '0' <= s@[5] <= '9'
            &&& 10 * (s@[4] as int - '0' as int) + (s@[5] as int - '0' as int) == day
            &&& '0' <= s@[11] <= '9' && '0' <= s@[12] <= '9'
            &&& 10 * (s@[11] as int - '0' as int) + (s@[12] as int - '0' as int) == year as int
                % 100
            &&& s@.subrange(7, 10) == month_name(month as int)
            &&& s@.subrange(0, 3) == weekday_name(
                day_number(year as int, month as int, day as int),
            )
        },
{
    if let Some(s) = r {
        lemma_names_are_short(day_number(year as int, month as int, day as int), month as int);
        reveal_strlit(" ");
        assert(0 <= year as int % 100 < 100);
        assert(s@.subrange(7, 10) =~= month_name(month as int));
        assert(s@.subrange(0, 3) =~= weekday_name(
            day_number(year as int, month as int, day as int),
        ));
    }
}

proof fn lemma_names_are_short(day_number: int, month: int)
    ensures
        weekday_name(day_number).len() == 3,
        month_name(month).len() == 3,
{
    reveal_strlit("Sun");
    reveal_strlit("Mon");
    reveal_strlit("Tue");
    reveal_strlit("Wed");
    reveal_strlit("Thu");
    reveal_strlit("Fri");
    reveal_strlit("Sat");
    reveal_strlit("Jan");
    reveal_strlit("Feb");
    reveal_strlit("Mar");
    reveal_strlit("Apr");
    reveal_strlit("May");
    reveal_strlit("Jun");
    reveal_strlit("Jul");
    reveal_strlit("Aug");
    reveal_strlit("Sep");
    reveal_strlit("Oct");
    reveal_strlit("Nov");
    reveal_strlit("Dec");
}

} // verus!
