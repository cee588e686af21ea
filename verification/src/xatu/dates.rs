//! Gregorian calendar dates.

use crate::text::{
    all_digits, is_digit, lemma_last_piece, lemma_only_piece, lemma_padded_is_read, padded,
    parse_unsigned, pieces, push_padded, split, texts, unsigned_value,
};
use crate::xatu::error::XatuError;
use vstd::prelude::*;

verus! {

/// A calendar date in UTC.
#[derive(Clone, Copy, Debug, PartialEq, Eq, Structural)]
pub struct XatuDate {
    pub year: u16,
    pub month: u8,
    pub day: u8,
}

pub open spec fn is_leap(year: int) -> bool {
    year % 400 == 0 || (year % 4 == 0 && year % 100 != 0)
}

/// Days of a month, or none where there is no such month.
pub open spec fn month_days(year: int, month: int) -> int {
    if month == 4 || month == 6 || month == 9 || month == 11 {
        30
    } else if month == 2 {
        if is_leap(year) {
            29
        } else {
            28
        }
    } else if 1 <= month <= 12 {
        31
    } else {
        0
    }
}

/// Days from the first day of the first year to the first day of a year.
pub open spec fn year_start(year: int) -> int {
    365 * (year - 1) + (year - 1) / 4 - (year - 1) / 100 + (year - 1) / 400
}

/// Days from the first day of a year to the first day of a month.
pub open spec fn month_start(year: int, month: int) -> int
    decreases month,
{
    if month <= 1 {
        0
    } else {
        month_start(year, month - 1) + month_days(year, month - 1)
    }
}

/// Days from the first day of the first year to the start of the Unix epoch.
pub open spec fn epoch_ordinal() -> int {
    719162
}

/// The last day that a date can name, in days since the epoch.
pub open spec fn last_day_number() -> int {
    year_start(65536) - 1 - epoch_ordinal()
}

impl XatuDate {
    /// The date exists.
    pub open spec fn valid(self) -> bool {
        &&& self.year >= 1
        &&& 1 <= self.month <= 12
        &&& 1 <= self.day <= month_days(self.year as int, self.month as int)
    }

    /// Days from the first day of the first year to this date.
    pub open spec fn ordinal(self) -> int {
        year_start(self.year as int) + month_start(self.year as int, self.month as int) + self.day
            - 1
    }

    /// Days from the Unix epoch to this date.
    pub open spec fn day_number(self) -> int {
        self.ordinal() - epoch_ordinal()
    }

    /// Year first, then month, then day.
    pub open spec fn before(self, other: XatuDate) -> bool {
        ||| self.year < other.year
        ||| self.year == other.year && self.month < other.month
        ||| self.year == other.year && self.month == other.month && self.day < other.day
    }

    /// The following calendar date, unless the year would overflow.
    pub open spec fn spec_next(self) -> Option<XatuDate> {
        if self.day < month_days(self.year as int, self.month as int) {
            made(self.year as int, self.month as int, self.day + 1)
        } else if self.month < 12 {
            made(self.year as int, self.month + 1, 1)
        } else {
            made(self.year + 1, 1, 1)
        }
    }

    /// Creates a Gregorian calendar date.
    pub fn new(year: u16, month: u8, day: u8) -> (outcome: Result<XatuDate, XatuError>)
        ensures
            outcome == (match made(year as int, month as int, day as int) {
                Some(date) => Ok::<XatuDate, XatuError>(date),
                None => Err(XatuError::Date),
            }),
    {
        if year == 0 || month == 0 || month > 12 || day == 0 || day > days_in_month(year, month) {
            Err(XatuError::Date)
        } else {
            Ok(XatuDate { year, month, day })
        }
    }

    /// Returns the following calendar date.
    pub fn next(self) -> (outcome: Result<XatuDate, XatuError>)
        ensures
            outcome == (match self.spec_next() {
                Some(date) => Ok::<XatuDate, XatuError>(date),
                None => Err(XatuError::Date),
            }),
    {
        let days: u8 = days_in_month(self.year, self.month);
        if self.day < days {
            XatuDate::new(self.year, self.month, self.day + 1)
        } else if self.month < 12 {
            XatuDate::new(self.year, self.month + 1, 1)
        } else {
            match self.year.checked_add(1) {
                Some(year) => XatuDate::new(year, 1, 1),
                None => Err(XatuError::Date),
            }
        }
    }

    /// Whether this date comes before another.
    pub fn is_before(self, other: XatuDate) -> (earlier: bool)
        ensures
            earlier == self.before(other),
    {
        self.year < other.year || (self.year == other.year && (self.month < other.month || (
        self.month == other.month && self.day < other.day)))
    }
}

/// The date with these numbers, where there is one.
pub open spec fn made(year: int, month: int, day: int) -> Option<XatuDate> {
    if 1 <= year <= 65535 && 1 <= month <= 12 && 1 <= day <= month_days(year, month) {
        Some(XatuDate { year: year as u16, month: month as u8, day: day as u8 })
    } else {
        None
    }
}

fn days_in_month(year: u16, month: u8) -> (days: u8)
    ensures
        days == month_days(year as int, month as int),
{
    if month == 4 || month == 6 || month == 9 || month == 11 {
        30
    } else if month == 2 {
        if year % 400 == 0 || (year % 4 == 0 && year % 100 != 0) {
            29
        } else {
            28
        }
    } else if 1 <= month && month <= 12 {
        31
    } else {
        0
    }
}

proof fn lemma_months(year: int)
    ensures
        month_start(year, 1) == 0,
        month_start(year, 2) == 31,
        month_start(year, 3) == 59 + if is_leap(year) { 1int } else { 0 },
        month_start(year, 4) == month_start(year, 3) + 31,
        month_start(year, 5) == month_start(year, 3) + 61,
        month_start(year, 6) == month_start(year, 3) + 92,
        month_start(year, 7) == month_start(year, 3) + 122,
        month_start(year, 8) == month_start(year, 3) + 153,
        month_start(year, 9) == month_start(year, 3) + 184,
        month_start(year, 10) == month_start(year, 3) + 214,
        month_start(year, 11) == month_start(year, 3) + 245,
        month_start(year, 12) == month_start(year, 3) + 275,
        month_start(year, 13) == month_start(year, 3) + 306,
{
    reveal_with_fuel(month_start, 14);
}

proof fn lemma_fourth_years(year: int)
    ensures
        year / 4 == (year - 1) / 4 + if year % 4 == 0 { 1int } else { 0 },
{
}

proof fn lemma_hundredth_years(year: int)
    ensures
        year / 100 == (year - 1) / 100 + if year % 100 == 0 { 1int } else { 0 },
        year % 100 == 0 ==> year % 4 == 0,
{
}

proof fn lemma_four_hundredth_years(year: int)
    ensures
        year / 400 == (year - 1) / 400 + if year % 400 == 0 { 1int } else { 0 },
        year % 400 == 0 ==> year % 100 == 0,
{
}

proof fn lemma_year_step(year: int)
    ensures
        year_start(year + 1) == year_start(year) + month_start(year, 13),
{
    lemma_fourth_years(year);
    lemma_hundredth_years(year);
    lemma_four_hundredth_years(year);
    assert(month_start(year, 13) == 365 + if is_leap(year) { 1int } else { 0 }) by {
        lemma_months(year);
    }
}

proof fn lemma_years_ascend(first: int, second: int)
    requires
        first <= second,
    ensures
        year_start(first) + 365 * (second - first) <= year_start(second),
    decreases second - first,
{
    if first < second {
        lemma_years_ascend(first, second - 1);
        lemma_year_step(second - 1);
        lemma_months(second - 1);
    }
}

/// The following date is one day later, and every date has one but the last
/// day of the last year.
pub proof fn law_next_is_one_day_later(date: XatuDate)
    requires
        date.valid(),
    ensures
        match date.spec_next() {
            Some(next) => next.valid() && next.ordinal() == date.ordinal() + 1,
            None => date == (XatuDate { year: 65535, month: 12, day: 31 }),
        },
{
    let year = date.year as int;
    lemma_months(year);
    lemma_months(year + 1);
    lemma_year_step(year);
    if date.day == month_days(year, date.month as int) && date.month < 12 {
        reveal_with_fuel(month_start, 2);
    }
}

/// Dates are ordered as their days are, and no two dates name one day.
pub proof fn law_ordinal_orders_dates(left: XatuDate, right: XatuDate)
    requires
        left.valid(),
        right.valid(),
    ensures
        left.before(right) <==> left.ordinal() < right.ordinal(),
        left == right <==> left.ordinal() == right.ordinal(),
{
    lemma_within_year(left);
    lemma_within_year(right);
    lemma_months(left.year as int);
    if left.year < right.year {
        lemma_years_ascend(left.year + 1, right.year as int);
        lemma_year_step(left.year as int);
    } else if right.year < left.year {
        lemma_years_ascend(right.year + 1, left.year as int);
        lemma_year_step(right.year as int);
    }
}

proof fn lemma_within_year(date: XatuDate)
    requires
        date.valid(),
    ensures
        year_start(date.year as int) <= date.ordinal() < year_start(date.year + 1),
{
    lemma_months(date.year as int);
    lemma_year_step(date.year as int);
}

/// Days from the first of March of a year divisible by four hundred to the
/// first of March some years later.
spec fn march_start(years: int) -> int {
    365 * years + years / 4 - years / 100 + years / 400
}

/// Days of an era less the leap days before each.
spec fn common_days(day: int) -> int {
    day - day / 1460 + day / 36524 - day / 146096
}

proof fn lemma_common_days_ascend(first: int, second: int)
    requires
        0 <= first <= second <= 146096,
    ensures
        common_days(first) <= common_days(second),
{
    assert(second / 1460 - first / 1460 <= second - first);
    assert(first / 36524 - first / 146096 <= second / 36524 - second / 146096) by {
        assert(second / 146096 == 1 ==> second / 36524 == 4);
        assert(first / 36524 <= 3 || first == 146096);
        assert(first / 36524 <= second / 36524);
    }
}

proof fn lemma_common_days_of_year(years: int)
    requires
        0 <= years <= 399,
    ensures
        common_days(march_start(years)) == 365 * years,
{
    let day = march_start(years);
    let quarter = years / 4;
    let rest = years % 4;
    let century = years / 100;
    let within = years % 100;
    assert(years / 400 == 0);
    assert(day == 1460 * quarter + (quarter + 365 * rest - century));
    assert(0 <= quarter + 365 * rest - century < 1460);
    assert(day / 1460 == quarter);
    assert(years / 4 == 25 * century + within / 4);
    assert(day == 36524 * century + (365 * within + within / 4));
    assert(0 <= 365 * within + within / 4 < 36524);
    assert(day / 36524 == century);
    assert(0 <= day < 146096);
}

proof fn lemma_last_day_of_year(years: int)
    requires
        1 <= years <= 400,
    ensures
        common_days(march_start(years) - 1) <= 365 * years - 1,
{
    let day = march_start(years) - 1;
    if years == 400 {
        assert(day == 146096);
    } else {
        let quarter = years / 4;
        let rest = years % 4;
        let century = years / 100;
        let within = years % 100;
        assert(years / 400 == 0);
        assert(day == 1460 * quarter + (quarter + 365 * rest - century - 1));
        assert(0 <= quarter + 365 * rest - century - 1 < 1460) by {
            if rest == 0 {
                assert(quarter >= 1);
                assert(century < quarter);
            }
        }
        assert(day / 1460 == quarter);
        assert(years / 4 == 25 * century + within / 4);
        assert(day == 36524 * century + (365 * within + within / 4 - 1));
        assert(day / 36524 <= century);
        assert(0 <= day < 146096);
    }
}

/// The year of an era that a day falls into.
proof fn lemma_year_of_era(day: int)
    requires
        0 <= day <= 146096,
    ensures
        0 <= common_days(day) / 365 <= 399,
        march_start(common_days(day) / 365) <= day < march_start(common_days(day) / 365 + 1),
{
    let years = common_days(day) / 365;
    lemma_common_days_ascend(0, day);
    lemma_common_days_ascend(day, 146096);
    assert(common_days(0) == 0);
    assert(common_days(146096) == 145999);
    if day < march_start(years) {
        lemma_last_day_of_year(years);
        lemma_common_days_ascend(day, march_start(years) - 1);
    }
    if day >= march_start(years + 1) {
        if years == 399 {
            assert(march_start(400) == 146097);
        } else {
            lemma_common_days_of_year(years + 1);
            lemma_common_days_ascend(march_start(years + 1), day);
        }
    }
}

proof fn lemma_march_start(era: int, years: int)
    requires
        0 <= era,
        0 <= years <= 400,
    ensures
        year_start(400 * era + years + 1) == 146097 * era + march_start(years),
{
    let all = 400 * era + years;
    assert(all / 4 == 100 * era + years / 4);
    assert(all / 100 == 4 * era + years / 100);
    assert(all / 400 == era + years / 400);
}

/// Days from the first of March to the first of a later month.
spec fn march_offset(months: int) -> int {
    (153 * months + 2) / 5
}

proof fn lemma_month_of_march_year(day: int)
    requires
        0 <= day <= 365,
    ensures
        0 <= (5 * day + 2) / 153 <= 11,
        march_offset((5 * day + 2) / 153) <= day < march_offset((5 * day + 2) / 153 + 1),
{
}

/// The year, the month and the day that the reckoning from March gives.
proof fn lemma_from_march(march_year: int, day_of_year: int, months: int)
    requires
        0 <= march_year,
        0 <= day_of_year < year_start(march_year + 2) - year_start(march_year + 1),
        0 <= months <= 11,
        march_offset(months) <= day_of_year < march_offset(months + 1),
    ensures
        ({
            let month = if months < 10 { months + 3 } else { months - 9 };
            let year = if month <= 2 { march_year + 1 } else { march_year };
            let day = day_of_year - march_offset(months) + 1;
            &&& 1 <= month <= 12
            &&& 1 <= day <= month_days(year, month)
            &&& year_start(year) + month_start(year, month) + day - 1 == year_start(march_year + 1)
                - 306 + day_of_year
        }),
{
    lemma_months(march_year);
    lemma_months(march_year + 1);
    lemma_year_step(march_year);
    lemma_year_step(march_year + 1);
    assert(march_offset(0) == 0 && march_offset(1) == 31 && march_offset(2) == 61 && march_offset(3)
        == 92 && march_offset(4) == 122 && march_offset(5) == 153 && march_offset(6) == 184
        && march_offset(7) == 214 && march_offset(8) == 245 && march_offset(9) == 275
        && march_offset(10) == 306 && march_offset(11) == 337);
    if months == 0 {
    } else if months == 1 {
    } else if months == 2 {
    } else if months == 3 {
    } else if months == 4 {
    } else if months == 5 {
    } else if months == 6 {
    } else if months == 7 {
    } else if months == 8 {
    } else if months == 9 {
    } else if months == 10 {
    } else {
    }
}

/// How far a day is into its year from March.
proof fn lemma_day_of_march_year(era: int, day_of_era: int, years: int)
    requires
        0 <= era,
        0 <= years <= 399,
        march_start(years) <= day_of_era < march_start(years + 1),
    ensures
        0 <= day_of_era - march_start(years) < year_start(400 * era + years + 2) - year_start(
            400 * era + years + 1,
        ),
        146097 * era + day_of_era == year_start(400 * era + years + 1) + (day_of_era - march_start(
            years,
        )),
        day_of_era - march_start(years) <= 365,
{
    lemma_march_start(era, years);
    lemma_march_start(era, years + 1);
    lemma_year_step(400 * era + years + 1);
    lemma_months(400 * era + years + 1);
}

impl XatuDate {
    /// Converts a Unix timestamp to its UTC calendar date.
    pub fn from_unix_seconds(timestamp: u64) -> (outcome: Result<XatuDate, XatuError>)
        ensures
            match outcome {
                Ok(date) => date.valid() && date.day_number() == timestamp as int / 86400,
                Err(error) => error == XatuError::Date && timestamp as int / 86400
                    > last_day_number(),
            },
    {
        let days: u64 = timestamp / 86400;
        let shifted: u64 = days + 719468;
        let era: u64 = shifted / 146097;
        let day_of_era: u64 = shifted % 146097;
        proof {
            lemma_common_days_ascend(0, day_of_era as int);
            lemma_year_of_era(day_of_era as int);
        }
        let year_of_era: u64 = (day_of_era - day_of_era / 1460 + day_of_era / 36524 - day_of_era
            / 146096) / 365;
        let march_year: u64 = year_of_era + era * 400;
        proof {
            assert(year_of_era as int / 400 == 0);
            lemma_day_of_march_year(era as int, day_of_era as int, year_of_era as int);
        }
        let day_of_year: u64 = day_of_era - (365 * year_of_era + year_of_era / 4 - year_of_era
            / 100);
        let month_prime: u64 = (5 * day_of_year + 2) / 153;
        proof {
            lemma_month_of_march_year(day_of_year as int);
            lemma_from_march(march_year as int, day_of_year as int, month_prime as int);
        }
        let day: u64 = day_of_year - (153 * month_prime + 2) / 5 + 1;
        let month: u64 = if month_prime < 10 {
            month_prime + 3
        } else {
            month_prime - 9
        };
        let year: u64 = if month <= 2 {
            march_year + 1
        } else {
            march_year
        };
        proof {
            lemma_year_bounds(year as int, month as int, day as int);
        }
        if year > 65535 {
            return Err(XatuError::Date);
        }
        XatuDate::new(year as u16, month as u8, day as u8)
    }
}

/// The date that a text writes: year, month and day, with a hyphen between.
pub open spec fn parsed_date(text: Seq<char>) -> Option<XatuDate> {
    let parts = pieces(text, '-');
    if parts.len() != 3 {
        None
    } else {
        match (
            unsigned_value(parts[0], 65535),
            unsigned_value(parts[1], 255),
            unsigned_value(parts[2], 255),
        ) {
            (Some(year), Some(month), Some(day)) => made(year as int, month as int, day as int),
            _ => None,
        }
    }
}

impl XatuDate {
    /// The year in four digits, the month and the day in two.
    pub open spec fn spec_text(self) -> Seq<char> {
        padded(self.year as nat, 4) + seq!['-'] + padded(self.month as nat, 2) + seq!['-']
            + padded(self.day as nat, 2)
    }

    pub fn text(self) -> (text: String)
        ensures
            text@ == self.spec_text(),
    {
        let mut text: String = String::new();
        push_padded(&mut text, self.year as u64, 4);
        text.append("-");
        push_padded(&mut text, self.month as u64, 2);
        text.append("-");
        push_padded(&mut text, self.day as u64, 2);
        proof {
            reveal_strlit("-");
            assert("-"@ =~= seq!['-']);
            assert(text@ =~= self.spec_text());
        }
        text
    }

    /// Reads a date.
    pub fn parse(text: &str) -> (outcome: Result<XatuDate, XatuError>)
        ensures
            outcome == (match parsed_date(text@) {
                Some(date) => Ok::<XatuDate, XatuError>(date),
                None => Err(XatuError::Date),
            }),
    {
        let parts: Vec<String> = split(text, '-');
        proof {
            assert(texts(parts@).len() == parts@.len());
        }
        if parts.len() != 3 {
            return Err(XatuError::Date);
        }
        proof {
            assert(texts(parts@)[0] == parts@[0]@ && texts(parts@)[1] == parts@[1]@ && texts(
                parts@,
            )[2] == parts@[2]@);
        }
        let year: u64 = match parse_unsigned(parts[0].as_str(), 65535) {
            Some(year) => year,
            None => {
                return Err(XatuError::Date);
            },
        };
        let month: u64 = match parse_unsigned(parts[1].as_str(), 255) {
            Some(month) => month,
            None => {
                return Err(XatuError::Date);
            },
        };
        let day: u64 = match parse_unsigned(parts[2].as_str(), 255) {
            Some(day) => day,
            None => {
                return Err(XatuError::Date);
            },
        };
        XatuDate::new(year as u16, month as u8, day as u8)
    }
}

impl core::str::FromStr for XatuDate {
    type Err = XatuError;

    fn from_str(value: &str) -> (outcome: Result<XatuDate, XatuError>)
        ensures
            outcome == (match parsed_date(value@) {
                Some(date) => Ok::<XatuDate, XatuError>(date),
                None => Err(XatuError::Date),
            }),
    {
        XatuDate::parse(value)
    }
}

/// Printing a valid date and reading it back gives the date.
pub proof fn law_date_text_round_trip(date: XatuDate)
    requires
        date.valid(),
    ensures
        parsed_date(date.spec_text()) == Some(date),
{
    let year = padded(date.year as nat, 4);
    let month = padded(date.month as nat, 2);
    let day = padded(date.day as nat, 2);
    lemma_padded_is_read(date.year as nat, 4, 65535);
    lemma_padded_is_read(date.month as nat, 2, 255);
    lemma_padded_is_read(date.day as nat, 2, 255);
    lemma_no_hyphen(year);
    lemma_no_hyphen(month);
    lemma_no_hyphen(day);
    lemma_only_piece(year, '-');
    lemma_last_piece(year, month, '-');
    lemma_last_piece(year + seq!['-'] + month, day, '-');
    assert(pieces(date.spec_text(), '-') =~= seq![year, month, day]);
}

proof fn lemma_no_hyphen(text: Seq<char>)
    requires
        all_digits(text),
    ensures
        !text.contains('-'),
{
    if text.contains('-') {
        let i = choose|i: int| 0 <= i < text.len() && text[i] == '-';
        assert(is_digit(text[i]));
    }
}

proof fn lemma_year_bounds(year: int, month: int, day: int)
    requires
        year >= 0,
        1 <= month <= 12,
        1 <= day <= month_days(year, month),
        year_start(year) + month_start(year, month) + day - 1 >= epoch_ordinal(),
    ensures
        year >= 1970,
        year > 65535 ==> year_start(year) + month_start(year, month) + day - 1 - epoch_ordinal()
            > last_day_number(),
{
    lemma_months(year);
    if year < 1970 {
        lemma_years_ascend(year + 1, 1970);
        lemma_year_step(year);
        assert(year_start(1970) == epoch_ordinal());
    }
    if year > 65535 {
        lemma_years_ascend(65536, year);
    }
}

} // verus!
