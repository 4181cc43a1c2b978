//! The time on the wall, and how file names carry it.

use crate::number;
use chrono::{NaiveDate, NaiveDateTime};
use vstd::prelude::*;

verus! {

pub open spec fn is_leap_year(year: int) -> bool {
    year % 4 == 0 && (year % 100 != 0 || year % 400 == 0)
}

pub open spec fn days_in_month(year: int, month: int) -> int {
    if month == 2 {
        if is_leap_year(year) {
            29
        } else {
            28
        }
    } else if month == 4 || month == 6 || month == 9 || month == 11 {
        30
    } else {
        31
    }
}

/// These numbers are a date of the calendar that chrono covers, and a time of day.
pub open spec fn is_local_time(
    year: i32,
    month: u32,
    day: u32,
    hour: u32,
    minute: u32,
    second: u32,
) -> bool {
    &&& -262_143 <= year <= 262_142
    &&& 1 <= month <= 12
    &&& 1 <= day <= days_in_month(year as int, month as int)
    &&& hour < 24
    &&& minute < 60
    &&& second < 60
}

/// A number below a hundred in two digits.
pub open spec fn two_digits(n: nat) -> Seq<char> {
    seq![number::digit_char(n / 10), number::digit_char(n % 10)]
}

/// A number with zeros in front up to four digits.
pub open spec fn four_digits(n: nat) -> Seq<char> {
    if n < 10 {
        "000"@ + number::decimal(n)
    } else if n < 100 {
        "00"@ + number::decimal(n)
    } else if n < 1000 {
        "0"@ + number::decimal(n)
    } else {
        number::decimal(n)
    }
}

/// A year in at least four digits, with a sign outside the years 0 to 9999.
pub open spec fn year_text(year: int) -> Seq<char> {
    if year < 0 {
        "-"@ + four_digits((-year) as nat)
    } else if year > 9999 {
        "+"@ + four_digits(year as nat)
    } else {
        four_digits(year as nat)
    }
}

/// Year, month, day, hour, minute and second with hyphens between them.
pub open spec fn hyphenated(year: i32, month: u32, day: u32, hour: u32, minute: u32, second: u32) -> Seq<
    char,
> {
    year_text(year as int) + "-"@ + two_digits(month as nat) + "-"@ + two_digits(day as nat) + "-"@
        + two_digits(hour as nat) + "-"@ + two_digits(minute as nat) + "-"@ + two_digits(second as nat)
}

/// `NaiveDateTime::format` with this pattern writes year, month, day, hour, minute and second,
/// all but the year in two digits, with hyphens between them.
#[verifier::external_body]
fn format_date_time(
    year: i32,
    month: u32,
    day: u32,
    hour: u32,
    minute: u32,
    second: u32,
    pattern: &str,
) -> (r: String)
    requires
        is_local_time(year, month, day, hour, minute, second),
        pattern@ == "%Y-%m-%d-%H-%M-%S"@,
    ensures
        r@ == hyphenated(year, month, day, hour, minute, second),
{
    let date = NaiveDate::from_ymd_opt(year, month, day).unwrap();
    let time: NaiveDateTime = date.and_hms_opt(hour, minute, second).unwrap();
    time.format(pattern).to_string()
}

/// A date and a time of day, to the second, in whatever zone the clock shows.
#[derive(Debug, Clone, Copy)]
pub struct LocalTime {
    year: i32,
    month: u32,
    day: u32,
    hour: u32,
    minute: u32,
    second: u32,
}

impl LocalTime {
    #[verifier::type_invariant]
    spec fn covered(self) -> bool {
        is_local_time(self.year, self.month, self.day, self.hour, self.minute, self.second)
    }

    /// The time with hyphens between its numbers.
    pub closed spec fn text(self) -> Seq<char> {
        hyphenated(self.year, self.month, self.day, self.hour, self.minute, self.second)
    }

    /// The time that these numbers make, if there is such a date and chrono covers it.
    pub fn new(year: i32, month: u32, day: u32, hour: u32, minute: u32, second: u32) -> (r: Option<
        LocalTime,
    >)
        ensures
            r is Some <==> is_local_time(year, month, day, hour, minute, second),
            r matches Some(time) ==> time.text() == hyphenated(year, month, day, hour, minute, second),
    {
        if year < -262_143 || year > 262_142 || month < 1 || month > 12 || day < 1 {
            return None;
        }
        if hour >= 24 || minute >= 60 || second >= 60 {
            return None;
        }
        // Adding a multiple of 400 years keeps the leap years and makes the remainders those of
        // a positive number.
        let shifted: i32 = year + 262_400;
        let leap: bool = shifted % 4 == 0 && (shifted % 100 != 0 || shifted % 400 == 0);
        let last: u32 = if month == 2 {
            if leap {
                29
            } else {
                28
            }
        } else if month == 4 || month == 6 || month == 9 || month == 11 {
            30
        } else {
            31
        };
        if day > last {
            return None;
        }
        Some(LocalTime { year, month, day, hour, minute, second })
    }

    /// The time with hyphens between its numbers.
    pub fn hyphenated_text(&self) -> (r: String)
        ensures
            r@ == self.text(),
    {
        proof {
            use_type_invariant(self);
        }
        format_date_time(
            self.year,
            self.month,
            self.day,
            self.hour,
            self.minute,
            self.second,
            "%Y-%m-%d-%H-%M-%S",
        )
    }
}

proof fn lemma_four_digits(n: nat)
    requires
        n <= 9999,
    ensures
        four_digits(n) == seq![
            number::digit_char(n / 1000),
            number::digit_char(n / 100 % 10),
            number::digit_char(n / 10 % 10),
            number::digit_char(n % 10),
        ],
{
    reveal_with_fuel(number::decimal, 4);
    reveal_strlit("0");
    reveal_strlit("00");
    reveal_strlit("000");
    assert(number::digit_char(0) == '0');
    assert(n / 10 / 10 == n / 100 && n / 100 / 10 == n / 1000);
    assert(four_digits(n) =~= seq![
        number::digit_char(n / 1000),
        number::digit_char(n / 100 % 10),
        number::digit_char(n / 10 % 10),
        number::digit_char(n % 10),
    ]);
}

/// A time of the years 0 to 9999 is written as nineteen characters: four digits of the year, then
/// month, day, hour, minute and second in two digits each, with hyphens between them.
pub proof fn law_time_in_nineteen_characters(
    year: i32,
    month: u32,
    day: u32,
    hour: u32,
    minute: u32,
    second: u32,
)
    requires
        is_local_time(year, month, day, hour, minute, second),
        0 <= year <= 9999,
    ensures
        ({
            let t = hyphenated(year, month, day, hour, minute, second);
            &&& t.len() == 19
            &&& t[4] == '-' && t[7] == '-' && t[10] == '-' && t[13] == '-' && t[16] == '-'
            &&& (t[0] as int - 48) * 1000 + (t[1] as int - 48) * 100 + (t[2] as int - 48) * 10 + (t[3] as int - 48)
                == year
            &&& (t[5] as int - 48) * 10 + (t[6] as int - 48) == month
            &&& (t[8] as int - 48) * 10 + (t[9] as int - 48) == day
            &&& (t[11] as int - 48) * 10 + (t[12] as int - 48) == hour
            &&& (t[14] as int - 48) * 10 + (t[15] as int - 48) == minute
            &&& (t[17] as int - 48) * 10 + (t[18] as int - 48) == second
            &&& forall|i: int| 0 <= i < 19 ==> '0' <= #[trigger] t[i] <= '9' || t[i] == '-'
        }),
{
    reveal_strlit("-");
    lemma_four_digits(year as nat);
    let n = year as nat;
    assert(n == n / 1000 * 1000 + n / 100 % 10 * 100 + n / 10 % 10 * 10 + n % 10);
}

/// The calendar: every month has the days up to the 28th; the 29th is missing only in February of
/// years that four does not divide, or a hundred does and four hundred does not; the 30th is
/// missing in February, the 31st in four months more, and there is no 32nd.
pub proof fn law_calendar(year: i32, month: u32, day: u32, hour: u32, minute: u32, second: u32)
    requires
        -262_143 <= year <= 262_142,
        1 <= month <= 12,
        hour < 24,
        minute < 60,
        second < 60,
    ensures
        1 <= day <= 28 ==> is_local_time(year, month, day, hour, minute, second),
        day == 29 ==> (is_local_time(year, month, day, hour, minute, second) <==> month != 2 || (year as int % 400
            == 0 || year as int % 4 == 0 && year as int % 100 != 0)),
        day == 30 ==> (is_local_time(year, month, day, hour, minute, second) <==> month != 2),
        day == 31 ==> (is_local_time(year, month, day, hour, minute, second) <==> month == 1 || month == 3 || month
            == 5 || month == 7 || month == 8 || month == 10 || month == 12),
        day == 0 || day > 31 ==> !is_local_time(year, month, day, hour, minute, second),
{
}

} // verus!
