//! Points in time, as plain numbers. The clock and the calendar are `chrono`'s.

use vstd::prelude::*;
use vstd::string::*;

use crate::text;

verus! {

/// The first second that the calendar can express: the start of the year 262144 BCE.
pub const FIRST_SECOND: i64 = -8_334_601_228_800;

/// The last second that the calendar can express: the end of the year 262142.
pub const LAST_SECOND: i64 = 8_210_266_876_799;

/// The time of day: hours, minutes and seconds.
pub const CLOCK: &'static str = "%H:%M:%S";

/// Date and time of day.
pub const DATE_AND_CLOCK: &'static str = "%Y-%m-%d %H:%M:%S";

/// Date and time of day to the millisecond, marked as universal time.
pub const ISO_MILLISECONDS: &'static str = "%Y-%m-%dT%H:%M:%S%.3fZ";

/// A point in universal time.
#[derive(Debug, Clone, Copy, PartialEq, Eq, Structural)]
pub struct Timestamp {
    /// Seconds since the start of 1970.
    pub secs: i64,
    /// Nanoseconds within the second.
    pub nanos: u32,
}

/// A point in time as a local clock shows it.
#[derive(Debug, Clone, Copy, PartialEq, Eq, Structural)]
pub struct LocalTime {
    pub at: Timestamp,
    /// Seconds by which the local clock is ahead of universal time.
    pub offset_secs: i32,
}

impl Timestamp {
    /// Whether the calendar can express this point in time.
    pub open spec fn valid(self) -> bool {
        &&& FIRST_SECOND <= self.secs <= LAST_SECOND
        &&& self.nanos < 1_000_000_000
    }

    /// Whether this point in time is not before the other.
    pub open spec fn not_before(self, other: Timestamp) -> bool {
        self.secs > other.secs || (self.secs == other.secs && self.nanos >= other.nanos)
    }

    /// Whether this point in time is not before the other.
    pub fn is_not_before(&self, other: &Timestamp) -> (res: bool)
        ensures
            res == self.not_before(*other),
    {
        self.secs > other.secs || (self.secs == other.secs && self.nanos >= other.nanos)
    }

    /// The current time.
    pub fn now() -> (res: Timestamp)
        ensures
            res.valid(),
            res.secs >= 0,
    {
        utc_now()
    }
}

impl LocalTime {
    /// Whether the calendar can express this point in time and its distance from universal time.
    pub open spec fn valid(self) -> bool {
        &&& self.at.valid()
        &&& -86_400 < self.offset_secs < 86_400
    }
}

/// The local time that is universal time.
pub open spec fn universal(at: Timestamp) -> LocalTime {
    LocalTime { at, offset_secs: 0 }
}

/// The text that `chrono` makes of a point in time, in a time zone at a fixed distance from
/// universal time, after a pattern of its `strftime` language.
pub uninterp spec fn strftime(
    secs: i64,
    nanos: u32,
    offset_secs: i32,
    pattern: Seq<char>,
) -> Seq<char>;

/// A local time written after a pattern.
pub open spec fn time_text(time: LocalTime, pattern: Seq<char>) -> Seq<char> {
    strftime(time.at.secs, time.at.nanos, time.offset_secs, pattern)
}

/// A day of the Gregorian calendar, which is taken to have applied always.
pub struct Date {
    pub year: int,
    pub month: int,
    pub day: int,
}

/// Whether a year has 366 days.
pub open spec fn is_leap_year(year: int) -> bool {
    year % 4 == 0 && (year % 100 != 0 || year % 400 == 0)
}

/// How many days there are from the start of the year 0 to the start of a later year.
pub open spec fn days_before_year(year: int) -> int {
    365 * year + (year + 3) / 4 - (year + 99) / 100 + (year + 399) / 400
}

/// How many days of a year come before a month.
pub open spec fn days_before_month(year: int, month: int) -> int {
    let leap_day: int = if is_leap_year(year) {
        1
    } else {
        0
    };
    if month <= 1 {
        0
    } else if month == 2 {
        31
    } else if month == 3 {
        59 + leap_day
    } else if month == 4 {
        90 + leap_day
    } else if month == 5 {
        120 + leap_day
    } else if month == 6 {
        151 + leap_day
    } else if month == 7 {
        181 + leap_day
    } else if month == 8 {
        212 + leap_day
    } else if month == 9 {
        243 + leap_day
    } else if month == 10 {
        273 + leap_day
    } else if month == 11 {
        304 + leap_day
    } else if month == 12 {
        334 + leap_day
    } else {
        365 + leap_day
    }
}

impl Date {
    /// Whether there is such a day, from the year 0 on.
    pub open spec fn valid(self) -> bool {
        &&& 0 <= self.year
        &&& 1 <= self.month <= 12
        &&& 1 <= self.day <= days_before_month(self.year, self.month + 1) - days_before_month(
            self.year,
            self.month,
        )
    }

    /// How many days there are from the start of 1970 to this day.
    pub open spec fn number(self) -> int {
        days_before_year(self.year) + days_before_month(self.year, self.month) + self.day - 1
            - 719_528
    }

    /// Whether this is the day with the given number.
    pub open spec fn is_on(self, number: int) -> bool {
        self.valid() && self.number() == number
    }

    /// The day as text: `yyyy-mm-dd`.
    pub open spec fn text(self) -> Seq<char> {
        two_digits(self.year / 100) + two_digits(self.year % 100) + seq!['-'] + two_digits(
            self.month,
        ) + seq!['-'] + two_digits(self.day)
    }
}

/// The second that a local clock shows.
pub open spec fn local_second(time: LocalTime) -> int {
    time.at.secs + time.offset_secs
}

/// Whether a local clock shows a year from 0 to 9999.
pub open spec fn has_common_year(time: LocalTime) -> bool {
    -62_167_219_200 <= local_second(time) < 253_402_300_800
}

/// The day with the given number.
pub open spec fn date_on(number: int) -> Date {
    choose|date: Date| date.is_on(number)
}

/// The day that a local clock shows, as text.
pub open spec fn date_text(time: LocalTime) -> Seq<char> {
    date_on(local_second(time) / 86_400).text()
}

/// What a local clock shows, with the date: `yyyy-mm-dd hh:mm:ss` in the years from 0 to 9999.
pub open spec fn date_and_clock_text(time: LocalTime) -> Seq<char> {
    if has_common_year(time) {
        date_text(time) + seq![' '] + clock_text(time)
    } else {
        time_text(time, DATE_AND_CLOCK@)
    }
}

/// A point in universal time to the millisecond: `yyyy-mm-ddThh:mm:ss.mmmZ` in the years from 0 to
/// 9999.
pub open spec fn iso_text(at: Timestamp) -> Seq<char> {
    let time = universal(at);
    if has_common_year(time) {
        let millis = at.nanos as int / 1_000_000;
        date_text(time) + seq!['T'] + clock_text(time) + seq![
            '.',
            text::digit(millis / 100),
            text::digit(millis / 10 % 10),
            text::digit(millis % 10),
            'Z',
        ]
    } else {
        time_text(time, ISO_MILLISECONDS@)
    }
}

proof fn lemma_years_follow(a: int, b: int)
    requires
        0 <= a < b,
    ensures
        days_before_year(a) + days_before_month(a, 13) <= days_before_year(b),
        b == a + 1 ==> days_before_year(a) + days_before_month(a, 13) == days_before_year(b),
    decreases b - a,
{
    if b > a + 1 {
        lemma_years_follow(a, b - 1);
        lemma_years_follow(b - 1, b);
    }
}

/// No two dates are the same day.
pub proof fn law_dates_are_unique(a: Date, b: Date)
    requires
        a.valid(),
        b.valid(),
        a.number() == b.number(),
    ensures
        a == b,
{
    if a.year < b.year {
        lemma_years_follow(a.year, b.year);
    } else if b.year < a.year {
        lemma_years_follow(b.year, a.year);
    }
}

proof fn lemma_year_of(n: int, from: int) -> (year: int)
    requires
        0 <= from,
        days_before_year(from) <= n,
    ensures
        from <= year,
        days_before_year(year) <= n < days_before_year(year + 1),
    decreases n - days_before_year(from),
{
    lemma_years_follow(from, from + 1);
    if n < days_before_year(from + 1) {
        from
    } else {
        lemma_year_of(n, from + 1)
    }
}

proof fn lemma_month_of(year: int, n: int) -> (month: int)
    requires
        0 <= n < days_before_month(year, 13),
    ensures
        1 <= month <= 12,
        days_before_month(year, month) <= n < days_before_month(year, month + 1),
{
    if n < days_before_month(year, 2) {
        1
    } else if n < days_before_month(year, 3) {
        2
    } else if n < days_before_month(year, 4) {
        3
    } else if n < days_before_month(year, 5) {
        4
    } else if n < days_before_month(year, 6) {
        5
    } else if n < days_before_month(year, 7) {
        6
    } else if n < days_before_month(year, 8) {
        7
    } else if n < days_before_month(year, 9) {
        8
    } else if n < days_before_month(year, 10) {
        9
    } else if n < days_before_month(year, 11) {
        10
    } else if n < days_before_month(year, 12) {
        11
    } else {
        12
    }
}

/// A local clock that shows a year from 0 to 9999 shows a date.
pub proof fn law_every_day_has_a_date(time: LocalTime) -> (date: Date)
    requires
        has_common_year(time),
    ensures
        date.is_on(local_second(time) / 86_400),
        date.year <= 9999,
        date_text(time) == date.text(),
{
    let number = local_second(time) / 86_400;
    let n = number + 719_528;
    let year = lemma_year_of(n, 0);
    lemma_years_follow(year, year + 1);
    let month = lemma_month_of(year, n - days_before_year(year));
    let day = n - days_before_year(year) - days_before_month(year, month) + 1;
    let date = Date { year, month, day };
    assert(date.is_on(number));
    if year > 9999 {
        if year > 10_000 {
            lemma_years_follow(10_000, year);
        }
    }
    law_dates_are_unique(date, date_on(number));
    date
}

/// Two digits for a number below a hundred.
pub open spec fn two_digits(n: int) -> Seq<char> {
    seq![text::digit(n / 10), text::digit(n % 10)]
}

/// What a local clock shows: `hh:mm:ss`.
pub open spec fn clock_text(time: LocalTime) -> Seq<char> {
    let second_of_day = (time.at.secs + time.offset_secs) % 86_400;
    two_digits(second_of_day / 3600) + seq![':'] + two_digits(second_of_day / 60 % 60) + seq![':']
        + two_digits(second_of_day % 60)
}

/// `chrono::Utc::now`: the system clock, which stands at or after the start of 1970 and within
/// the calendar. It panics where the system clock stands before 1970. Which time it is, nothing
/// says.
#[verifier::external_body]
fn utc_now() -> (res: Timestamp)
    ensures
        res.valid(),
        res.secs >= 0,
{
    let now = chrono::Utc::now();
    Timestamp { secs: now.timestamp(), nanos: now.timestamp_subsec_nanos() }
}

/// `chrono::Local::now`: the system clock with the machine's current distance from universal
/// time, which is less than a day. It panics where the system clock stands before 1970. Which time
/// it is, and in which zone, nothing says.
#[verifier::external_body]
pub(crate) fn local_now() -> (res: LocalTime)
    ensures
        res.valid(),
        res.at.secs >= 0,
{
    let now = chrono::Local::now();
    LocalTime {
        at: Timestamp { secs: now.timestamp(), nanos: now.timestamp_subsec_nanos() },
        offset_secs: now.offset().local_minus_utc(),
    }
}

/// `DateTime - TimeDelta` of `chrono`, for a `TimeDelta` of whole seconds: the point in time that
/// many seconds earlier, or later where the number is negative. It panics where the calendar does
/// not reach the result.
#[verifier::external_body]
pub(crate) fn seconds_before(at: Timestamp, seconds: i64) -> (res: Timestamp)
    requires
        at.valid(),
        FIRST_SECOND <= at.secs - seconds <= LAST_SECOND,
    ensures
        res.secs == at.secs - seconds,
        res.nanos == at.nanos,
{
    let utc = chrono::DateTime::<chrono::Utc>::from_timestamp(at.secs, at.nanos).unwrap();
    let earlier = utc - chrono::TimeDelta::seconds(seconds);
    Timestamp { secs: earlier.timestamp(), nanos: earlier.timestamp_subsec_nanos() }
}

/// `chrono::DateTime::format`: the text of a point in time after one of the three patterns. Which
/// text that is, is said of the time of day and, in the years from 0 to 9999, of the date with the
/// time of day, with milliseconds cut off or without any. In other years the text of the date is but
/// named.
#[verifier::external_body]
pub(crate) fn format_time(time: LocalTime, pattern: &str) -> (res: String)
    requires
        time.valid(),
        pattern@ == CLOCK@ || pattern@ == DATE_AND_CLOCK@ || pattern@ == ISO_MILLISECONDS@,
    ensures
        res@ == strftime(time.at.secs, time.at.nanos, time.offset_secs, pattern@),
        pattern@ == CLOCK@ ==> res@ == clock_text(time),
        pattern@ == DATE_AND_CLOCK@ ==> res@ == date_and_clock_text(time),
        pattern@ == ISO_MILLISECONDS@ && time.offset_secs == 0 ==> res@ == iso_text(time.at),
{
    let zone = chrono::FixedOffset::east_opt(time.offset_secs).unwrap();
    let utc = chrono::DateTime::<chrono::Utc>::from_timestamp(time.at.secs, time.at.nanos);
    utc.unwrap().with_timezone(&zone).format(pattern).to_string()
}

/// A clock shows two digits each for hours, minutes and seconds, with colons between them; together
/// they are the seconds that have passed since midnight.
pub proof fn law_clock_text(time: LocalTime)
    ensures
        ({
            let s = clock_text(time);
            let value = |i: int| 10 * (s[i] as int - 48) + (s[i + 1] as int - 48);
            &&& s.len() == 8
            &&& s[2] == ':' && s[5] == ':'
            &&& 0 <= value(0) < 24 && 0 <= value(3) < 60 && 0 <= value(6) < 60
            &&& 3600 * value(0) + 60 * value(3) + value(6) == (time.at.secs + time.offset_secs)
                % 86_400
            &&& '0' <= s[0] <= '9' && '0' <= s[1] <= '9' && '0' <= s[3] <= '9'
            &&& '0' <= s[4] <= '9' && '0' <= s[6] <= '9' && '0' <= s[7] <= '9'
        }),
{
    let day = (time.at.secs + time.offset_secs) % 86_400;
    let s = clock_text(time);
    assert(0 <= day < 86_400);
    assert(s[0] == text::digit(day / 3600 / 10) && s[1] == text::digit(day / 3600 % 10));
    assert(s[3] == text::digit(day / 60 % 60 / 10) && s[4] == text::digit(day / 60 % 60 % 10));
    assert(s[6] == text::digit(day % 60 / 10) && s[7] == text::digit(day % 60 % 10));
}

/// A point in time is not before another exactly if at least as many nanoseconds have passed.
pub proof fn law_order_of_times(a: Timestamp, b: Timestamp)
    requires
        a.valid(),
        b.valid(),
    ensures
        a.not_before(b) <==> a.secs * 1_000_000_000 + a.nanos >= b.secs * 1_000_000_000 + b.nanos,
{
}

/// The days of a month.
pub open spec fn month_length(year: int, month: int) -> int {
    if month == 2 {
        if year % 400 == 0 || (year % 4 == 0 && year % 100 != 0) {
            29
        } else {
            28
        }
    } else if month == 4 || month == 6 || month == 9 || month == 11 {
        30
    } else {
        31
    }
}

/// Days are numbered one after the other, from the first of January 1970 on: by month after month of
/// 31, 30 or 28 days, with one more in February of a leap year, and year after year.
pub proof fn law_days_follow(date: Date)
    requires
        date.year >= 0,
        1 <= date.month <= 12,
        1 <= date.day <= month_length(date.year, date.month),
    ensures
        date.valid(),
        (Date { year: 1970, month: 1, day: 1 }).number() == 0,
        (Date { day: date.day + 1, ..date }).valid() <==> date.day < month_length(
            date.year,
            date.month,
        ),
        (Date { day: date.day + 1, ..date }).number() == date.number() + 1,
        date.day == month_length(date.year, date.month) && date.month < 12 ==> (Date {
            month: date.month + 1,
            day: 1,
            ..date
        }).number() == date.number() + 1,
        date.day == 31 && date.month == 12 ==> (Date { year: date.year + 1, month: 1, day: 1 }).number()
            == date.number() + 1,
{
    lemma_years_follow(date.year, date.year + 1);
}

/// A date is written with four digits for the year and two each for month and day, and hyphens
/// between them. With the time of day it is parted by a blank; a point in universal time has a `T`
/// there, and three digits of milliseconds, which are cut off, and a `Z` at its end.
pub proof fn law_date_texts(time: LocalTime, at: Timestamp)
    requires
        has_common_year(time),
        at.nanos < 1_000_000_000,
        has_common_year(LocalTime { at, offset_secs: 0 }),
    ensures
        ({
            let date = date_on((time.at.secs + time.offset_secs) / 86_400);
            let s = date_and_clock_text(time);
            let digit = |i: int| s[i] as int - 48;
            &&& date.valid()
            &&& date.number() == (time.at.secs + time.offset_secs) / 86_400
            &&& s.len() == 19
            &&& s[4] == '-' && s[7] == '-' && s[10] == ' '
            &&& 1000 * digit(0) + 100 * digit(1) + 10 * digit(2) + digit(3) == date.year
            &&& 10 * digit(5) + digit(6) == date.month
            &&& 10 * digit(8) + digit(9) == date.day
            &&& s.skip(11) == clock_text(time)
        }),
        ({
            let universal = LocalTime { at, offset_secs: 0 };
            let s = iso_text(at);
            let digit = |i: int| s[i] as int - 48;
            &&& s.len() == 24
            &&& s.take(10) == date_and_clock_text(universal).take(10)
            &&& s[10] == 'T' && s[19] == '.' && s[23] == 'Z'
            &&& s.subrange(11, 19) == clock_text(universal)
            &&& 0 <= at.nanos - 1_000_000 * (100 * digit(20) + 10 * digit(21) + digit(22))
                < 1_000_000
        }),
{
    let date = law_every_day_has_a_date(time);
    law_dates_are_unique(date, date_on((time.at.secs + time.offset_secs) / 86_400));
    law_clock_text(time);
    lemma_date_text(date);
    let s = date_and_clock_text(time);
    assert(s =~= date.text() + seq![' '] + clock_text(time));
    assert(s.skip(11) =~= clock_text(time));
    assert(forall|i: int| 0 <= i < 10 ==> s[i] == date.text()[i]);
    let universal = LocalTime { at, offset_secs: 0 };
    let other = law_every_day_has_a_date(universal);
    law_clock_text(universal);
    lemma_date_text(other);
    let t = iso_text(at);
    let millis = at.nanos as int / 1_000_000;
    let tail = seq![
        '.',
        text::digit(millis / 100),
        text::digit(millis / 10 % 10),
        text::digit(millis % 10),
        'Z',
    ];
    assert(t =~= other.text() + seq!['T'] + clock_text(universal) + tail);
    assert(t.take(10) =~= date_and_clock_text(universal).take(10));
    assert(t.subrange(11, 19) =~= clock_text(universal));
    assert(t[19] == tail[0] && t[20] == tail[1] && t[21] == tail[2] && t[22] == tail[3] && t[23]
        == tail[4]);
}

proof fn lemma_date_text(date: Date)
    requires
        date.valid(),
        date.year <= 9999,
    ensures
        ({
            let s = date.text();
            &&& s.len() == 10
            &&& s[4] == '-' && s[7] == '-'
            &&& 1000 * (s[0] as int - 48) + 100 * (s[1] as int - 48) + 10 * (s[2] as int - 48) + (
            s[3] as int - 48) == date.year
            &&& 10 * (s[5] as int - 48) + (s[6] as int - 48) == date.month
            &&& 10 * (s[8] as int - 48) + (s[9] as int - 48) == date.day
        }),
{
    let s = date.text();
    assert(s[0] == text::digit(date.year / 100 / 10) && s[1] == text::digit(date.year / 100 % 10));
    assert(s[2] == text::digit(date.year % 100 / 10) && s[3] == text::digit(date.year % 100 % 10));
    assert(s[5] == text::digit(date.month / 10) && s[6] == text::digit(date.month % 10));
    assert(s[8] == text::digit(date.day / 10) && s[9] == text::digit(date.day % 10));
    assert(date.day <= 31);
}

} // verus!
