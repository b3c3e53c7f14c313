//! A civil timestamp in UTC: how a count of seconds since 1970-01-01T00:00:00Z
//! splits into calendar fields, and the fixed-width text form
//! `YYYY-MM-DDThh:mm:ssZ`.
//!
//! The calendar is a simplified one: every fourth year counted from 1968 is a
//! leap year, with no exception for centuries.

use vstd::prelude::*;
use crate::decimal::{
    lemma_decimal_len,
    lemma_read_zero_padded,
    lemma_zero_padded_denotes,
    parse_unsigned,
    push_zero_padded,
    unsigned_literal,
    zero_padded,
};
use crate::text::{chars_of, slice, string_of};

verus! {

pub const SECONDS_IN_MINUTE: u64 = 60;

pub const SECONDS_IN_HOUR: u64 = 3600;

/// Every day has this many seconds: there are no leap seconds here.
pub const SECONDS_IN_DAY: u64 = 86400;

/// The first count of seconds that falls into the year 65536, which a
/// timestamp cannot hold.
pub const EPOCH_SECONDS_LIMIT: u64 = 2_005_990_358_400;

/// The calendar fields of a timestamp as plain numbers.
pub struct Civil {
    pub year: nat,
    pub month: nat,
    pub day: nat,
    pub hour: nat,
    pub minute: nat,
    pub second: nat,
}

/// A civil timestamp in UTC. It carries no time zone offset, and its fields
/// are not held to calendar ranges: a timestamp read from text holds the
/// numbers that the text gave.
#[derive(Clone, Copy, Debug, PartialEq, Eq)]
pub struct DateTime {
    years: u16,
    months: u8,
    days: u8,
    hours: u8,
    minutes: u8,
    seconds: u8,
}

/// Why a text is no timestamp.
#[derive(Clone, Copy, Debug, PartialEq, Eq)]
pub enum FormatError {
    /// The text has fewer than nineteen characters.
    TooShort,
    /// A separator is not the one that the text form has at its place, one
    /// of the six fields is not an unsigned number, or the text goes on
    /// after the seconds with anything but one `Z`.
    Malformed,
}

// ---------------------------------------------------------------------------
// The calendar
// ---------------------------------------------------------------------------

/// The simplified leap year rule: every fourth year, counted from 1968.
/// Century years are leap years too under this rule.
pub open spec fn is_leap(year: int) -> bool {
    (year - 1968) % 4 == 0
}

/// The length of a year in days.
pub open spec fn days_in_year(year: int) -> int {
    if is_leap(year) {
        366
    } else {
        365
    }
}

/// The length of a month, for months 1 to 12.
pub open spec fn month_length(leap: bool, month: int) -> int {
    if month == 2 {
        if leap {
            29
        } else {
            28
        }
    } else if month == 4 || month == 6 || month == 9 || month == 11 {
        30
    } else {
        31
    }
}

/// The length of a month of a year in days.
pub open spec fn days_in_month(year: int, month: int) -> int {
    month_length(is_leap(year), month)
}

/// The days from 1970-01-01 to the first day of `year`.
pub open spec fn days_before_year(year: int) -> int
    decreases year,
{
    if year <= 1970 {
        0
    } else {
        days_before_year(year - 1) + days_in_year(year - 1)
    }
}

/// The days from the first day of `year` to the first day of its month
/// `month`.
pub open spec fn days_before_month(year: int, month: int) -> int
    decreases month,
{
    if month <= 1 {
        0
    } else {
        days_before_month(year, month - 1) + days_in_month(year, month - 1)
    }
}

impl Civil {
    /// The timestamp with every field zero, which stands for "no reading".
    pub open spec fn zero() -> Civil {
        Civil { year: 0, month: 0, day: 0, hour: 0, minute: 0, second: 0 }
    }

    /// Whether the fields name a second of the calendar, from 1970 on.
    pub open spec fn is_calendar_date(self) -> bool {
        &&& self.year >= 1970
        &&& 1 <= self.month <= 12
        &&& 1 <= self.day <= days_in_month(self.year as int, self.month as int)
        &&& self.hour < 24
        &&& self.minute < 60
        &&& self.second < 60
    }

    /// The days from 1970-01-01 to the day of this timestamp.
    pub open spec fn epoch_days(self) -> int {
        days_before_year(self.year as int) + days_before_month(
            self.year as int,
            self.month as int,
        ) + self.day - 1
    }

    /// The seconds from 1970-01-01T00:00:00Z to this timestamp.
    pub open spec fn epoch_seconds(self) -> int {
        self.epoch_days() * 86400 + self.hour * 3600 + self.minute * 60 + self.second
    }

    /// Whether every field fits the width that the text form gives it.
    pub open spec fn fits_text(self) -> bool {
        &&& self.year <= 9999
        &&& self.month <= 99
        &&& self.day <= 99
        &&& self.hour <= 99
        &&& self.minute <= 99
        &&& self.second <= 99
    }

    /// Whether this timestamp is no later than `other`: the years decide,
    /// then the months, the days, the hours, the minutes and the seconds.
    pub open spec fn not_after(self, other: Civil) -> bool {
        if self.year != other.year {
            self.year < other.year
        } else if self.month != other.month {
            self.month < other.month
        } else if self.day != other.day {
            self.day < other.day
        } else if self.hour != other.hour {
            self.hour < other.hour
        } else if self.minute != other.minute {
            self.minute < other.minute
        } else {
            self.second <= other.second
        }
    }
}

impl View for DateTime {
    type V = Civil;

    closed spec fn view(&self) -> Civil {
        Civil {
            year: self.years as nat,
            month: self.months as nat,
            day: self.days as nat,
            hour: self.hours as nat,
            minute: self.minutes as nat,
            second: self.seconds as nat,
        }
    }
}

/// A closed form for the days before a year.
pub proof fn lemma_days_before_year(year: int)
    requires
        year >= 1970,
    ensures
        days_before_year(year) == 365 * (year - 1970) + (year - 1969) / 4,
    decreases year,
{
    if year > 1970 {
        lemma_days_before_year(year - 1);
    }
}

/// The days before each month of a year, and the year's length as their end.
pub proof fn lemma_days_before_month(year: int)
    ensures
        days_before_month(year, 1) == 0,
        days_before_month(year, 2) == 31,
        days_before_month(year, 3) == 31 + days_in_month(year, 2),
        days_before_month(year, 4) == 62 + days_in_month(year, 2),
        days_before_month(year, 5) == 92 + days_in_month(year, 2),
        days_before_month(year, 6) == 123 + days_in_month(year, 2),
        days_before_month(year, 7) == 153 + days_in_month(year, 2),
        days_before_month(year, 8) == 184 + days_in_month(year, 2),
        days_before_month(year, 9) == 215 + days_in_month(year, 2),
        days_before_month(year, 10) == 245 + days_in_month(year, 2),
        days_before_month(year, 11) == 276 + days_in_month(year, 2),
        days_before_month(year, 12) == 306 + days_in_month(year, 2),
        days_before_month(year, 13) == days_in_year(year),
{
    reveal_with_fuel(days_before_month, 14);
}

/// The day of a calendar date lies within its year.
pub proof fn lemma_day_within_year(t: Civil)
    requires
        t.is_calendar_date(),
    ensures
        days_before_year(t.year as int) <= t.epoch_days() < days_before_year(t.year as int + 1),
{
    lemma_days_before_month(t.year as int);
}

/// Later years start later: a year begins no earlier than the year before
/// it ends.
pub proof fn lemma_years_in_order(first: int, second: int)
    requires
        1970 <= first < second,
    ensures
        days_before_year(first + 1) <= days_before_year(second),
{
    lemma_days_before_year(first + 1);
    lemma_days_before_year(second);
}

/// No two calendar dates name the same second: the count of seconds since
/// 1970 tells the year, month, day, hour, minute and second.
pub proof fn lemma_epoch_seconds_injective(a: Civil, b: Civil)
    requires
        a.is_calendar_date(),
        b.is_calendar_date(),
        a.epoch_seconds() == b.epoch_seconds(),
    ensures
        a == b,
{
    lemma_day_within_year(a);
    lemma_day_within_year(b);
    let rest_a = a.hour * 3600 + a.minute * 60 + a.second;
    let rest_b = b.hour * 3600 + b.minute * 60 + b.second;
    assert(0 <= rest_a < 86400 && 0 <= rest_b < 86400);
    assert(a.epoch_days() == b.epoch_days());
    assert(rest_a == rest_b);
    assert(a.hour == b.hour);
    assert(a.minute == b.minute);
    assert(a.second == b.second);
    if a.year < b.year {
        lemma_years_in_order(a.year as int, b.year as int);
    }
    if b.year < a.year {
        lemma_years_in_order(b.year as int, a.year as int);
    }
    assert(a.year == b.year);
    lemma_days_before_month(a.year as int);
    assert(a.month == b.month);
    assert(a.day == b.day);
}

/// Time goes the way of the fields: of two calendar dates the one with the
/// smaller count of seconds is not after the other.
pub proof fn lemma_order_follows_time(a: Civil, b: Civil)
    requires
        a.is_calendar_date(),
        b.is_calendar_date(),
        a.epoch_seconds() <= b.epoch_seconds(),
    ensures
        a.not_after(b),
{
    lemma_day_within_year(a);
    lemma_day_within_year(b);
    if b.year < a.year {
        lemma_years_in_order(b.year as int, a.year as int);
    }
    assert(a.year <= b.year);
    if a.year == b.year {
        lemma_days_before_month(a.year as int);
        assert(a.epoch_days() <= b.epoch_days());
        assert(a.month <= b.month);
        if a.month == b.month {
            assert(a.day <= b.day);
        }
    }
}

// ---------------------------------------------------------------------------
// The text form
// ---------------------------------------------------------------------------

/// Whether the five places between the fields hold what the text form has
/// there: `-` after the year and after the month, `T` after the day, `:`
/// after the hour and after the minute.
pub open spec fn has_separators(s: Seq<char>) -> bool
    recommends
        s.len() >= 19,
{
    s[4] == '-' && s[7] == '-' && s[10] == 'T' && s[13] == ':' && s[16] == ':'
}

/// Whether a text of nineteen characters or more ends as a timestamp may:
/// with the seconds, or with one `Z` after them.
pub open spec fn ends_in_utc(s: Seq<char>) -> bool
    recommends
        s.len() >= 19,
{
    s.len() == 19 || (s.len() == 20 && s[19] == 'Z')
}

/// The text form of a timestamp: year, month, day, hour, minute and second,
/// zero-padded to 4, 2, 2, 2, 2 and 2 digits.
pub open spec fn format_iso8601(t: Civil) -> Seq<char> {
    zero_padded(t.year, 4) + seq!['-'] + zero_padded(t.month, 2) + seq!['-'] + zero_padded(
        t.day,
        2,
    ) + seq!['T'] + zero_padded(t.hour, 2) + seq![':'] + zero_padded(t.minute, 2) + seq![':']
        + zero_padded(t.second, 2) + seq!['Z']
}

/// What a text denotes as a timestamp. The text has the fixed layout
/// `YYYY-MM-DDThh:mm:ss`, with one `Z` after it or nothing: no other
/// separator, no fraction of a second and no other offset is taken. A text
/// of nineteen characters, without the `Z`, denotes the same timestamp as
/// with it. Each of the six fields must be an unsigned number; its value is
/// not held to a calendar range, so that a month 13 or an hour 99 is read as
/// it stands.
pub open spec fn parse_iso8601(s: Seq<char>) -> Result<Civil, FormatError> {
    if s.len() < 19 {
        Err(FormatError::TooShort)
    } else if !(has_separators(s) && ends_in_utc(s)) {
        Err(FormatError::Malformed)
    } else {
        match (
            unsigned_literal(s.subrange(0, 4), 0xFFFF),
            unsigned_literal(s.subrange(5, 7), 0xFF),
            unsigned_literal(s.subrange(8, 10), 0xFF),
            unsigned_literal(s.subrange(11, 13), 0xFF),
            unsigned_literal(s.subrange(14, 16), 0xFF),
            unsigned_literal(s.subrange(17, 19), 0xFF),
        ) {
            (Some(year), Some(month), Some(day), Some(hour), Some(minute), Some(second)) => Ok(
                Civil { year, month, day, hour, minute, second },
            ),
            _ => Err(FormatError::Malformed),
        }
    }
}

/// The text form has twenty characters where every field fits its width,
/// and its fields stand at their places.
pub proof fn lemma_format_layout(t: Civil)
    requires
        t.fits_text(),
    ensures
        format_iso8601(t).len() == 20,
        format_iso8601(t).subrange(0, 4) == zero_padded(t.year, 4),
        format_iso8601(t).subrange(5, 7) == zero_padded(t.month, 2),
        format_iso8601(t).subrange(8, 10) == zero_padded(t.day, 2),
        format_iso8601(t).subrange(11, 13) == zero_padded(t.hour, 2),
        format_iso8601(t).subrange(14, 16) == zero_padded(t.minute, 2),
        format_iso8601(t).subrange(17, 19) == zero_padded(t.second, 2),
        format_iso8601(t)[4] == '-',
        format_iso8601(t)[7] == '-',
        format_iso8601(t)[10] == 'T',
        format_iso8601(t)[13] == ':',
        format_iso8601(t)[16] == ':',
        format_iso8601(t)[19] == 'Z',
{
    lemma_decimal_len(t.year);
    lemma_decimal_len(t.month);
    lemma_decimal_len(t.day);
    lemma_decimal_len(t.hour);
    lemma_decimal_len(t.minute);
    lemma_decimal_len(t.second);
    lemma_zero_padded_denotes(t.year, 4);
    lemma_zero_padded_denotes(t.month, 2);
    lemma_zero_padded_denotes(t.day, 2);
    lemma_zero_padded_denotes(t.hour, 2);
    lemma_zero_padded_denotes(t.minute, 2);
    lemma_zero_padded_denotes(t.second, 2);
    let s = format_iso8601(t);
    assert(s.len() == 20);
    assert(s.subrange(0, 4) =~= zero_padded(t.year, 4));
    assert(s.subrange(5, 7) =~= zero_padded(t.month, 2));
    assert(s.subrange(8, 10) =~= zero_padded(t.day, 2));
    assert(s.subrange(11, 13) =~= zero_padded(t.hour, 2));
    assert(s.subrange(14, 16) =~= zero_padded(t.minute, 2));
    assert(s.subrange(17, 19) =~= zero_padded(t.second, 2));
}

/// Reading the text form of a timestamp gives the timestamp back, whenever
/// its fields fit the widths of the text form: a year of at most four digits
/// and two digits at most for each other field.
pub proof fn lemma_parse_format_civil(t: Civil)
    requires
        t.fits_text(),
    ensures
        parse_iso8601(format_iso8601(t)) == Ok::<Civil, FormatError>(t),
{
    lemma_format_layout(t);
    lemma_read_zero_padded(t.year, 4, 0xFFFF);
    lemma_read_zero_padded(t.month, 2, 0xFF);
    lemma_read_zero_padded(t.day, 2, 0xFF);
    lemma_read_zero_padded(t.hour, 2, 0xFF);
    lemma_read_zero_padded(t.minute, 2, 0xFF);
    lemma_read_zero_padded(t.second, 2, 0xFF);
}

/// Reading the text form of a timestamp gives the timestamp back, whenever
/// its fields fit the widths of the text form. A timestamp of the calendar
/// up to the year 9999 does.
pub proof fn lemma_parse_format(ts: DateTime)
    requires
        ts@.fits_text(),
    ensures
        parse_iso8601(format_iso8601(ts@)) == Ok::<Civil, FormatError>(ts@),
{
    lemma_parse_format_civil(ts@);
}

/// A calendar date up to the year 9999 fits the text form.
pub proof fn lemma_calendar_date_fits_text(t: Civil)
    requires
        t.is_calendar_date(),
        t.year <= 9999,
    ensures
        t.fits_text(),
{
}

// ---------------------------------------------------------------------------
// Executable functions
// ---------------------------------------------------------------------------

/// Whether `year` is a leap year under the simplified rule.
pub fn is_leap_year(year: u16) -> (r: bool)
    ensures
        r == is_leap(year as int),
{
    year % 4 == 0
}

fn month_days(leap: bool, month: u8) -> (r: u64)
    ensures
        r == month_length(leap, month as int),
{
    if month == 2 {
        if leap {
            29
        } else {
            28
        }
    } else if month == 4 || month == 6 || month == 9 || month == 11 {
        30
    } else {
        31
    }
}

/// Asks the host for the time with `std::time::SystemTime::now` and takes
/// the whole seconds since `UNIX_EPOCH` from `duration_since`. `None` where
/// the host's clock stands before 1970. Nothing is claimed of the number: it
/// differs from call to call.
#[verifier::external_body]
fn clock_reading() -> (elapsed: Option<u64>) {
    match std::time::SystemTime::now().duration_since(std::time::SystemTime::UNIX_EPOCH) {
        Ok(elapsed) => Some(elapsed.as_secs()),
        Err(_) => None,
    }
}

impl Default for DateTime {
    /// The timestamp with every field zero.
    fn default() -> (r: Self)
        ensures
            r@ == Civil::zero(),
    {
        DateTime { years: 0, months: 0, days: 0, hours: 0, minutes: 0, seconds: 0 }
    }
}

impl DateTime {
    /// A timestamp with the given fields, which are taken as they are.
    pub fn new(years: u16, months: u8, days: u8, hours: u8, minutes: u8, seconds: u8) -> (r: Self)
        ensures
            r@ == (Civil {
                year: years as nat,
                month: months as nat,
                day: days as nat,
                hour: hours as nat,
                minute: minutes as nat,
                second: seconds as nat,
            }),
    {
        DateTime { years, months, days, hours, minutes, seconds }
    }

    /// The year.
    pub fn year(&self) -> (r: u16)
        ensures
            r == self@.year,
    {
        self.years
    }

    /// The month, from 1 in a calendar date.
    pub fn month(&self) -> (r: u8)
        ensures
            r == self@.month,
    {
        self.months
    }

    /// The day of the month, from 1 in a calendar date.
    pub fn day(&self) -> (r: u8)
        ensures
            r == self@.day,
    {
        self.days
    }

    /// The hour of the day.
    pub fn hour(&self) -> (r: u8)
        ensures
            r == self@.hour,
    {
        self.hours
    }

    /// The minute of the hour.
    pub fn minute(&self) -> (r: u8)
        ensures
            r == self@.minute,
    {
        self.minutes
    }

    /// The second of the minute.
    pub fn second(&self) -> (r: u8)
        ensures
            r == self@.second,
    {
        self.seconds
    }

    /// Whether this timestamp is no later than `other`.
    pub fn not_after(&self, other: &DateTime) -> (r: bool)
        ensures
            r == self@.not_after(other@),
    {
        if self.years != other.years {
            self.years < other.years
        } else if self.months != other.months {
            self.months < other.months
        } else if self.days != other.days {
            self.days < other.days
        } else if self.hours != other.hours {
            self.hours < other.hours
        } else if self.minutes != other.minutes {
            self.minutes < other.minutes
        } else {
            self.seconds <= other.seconds
        }
    }

    /// The calendar date and time of day that lie `secs` seconds after
    /// 1970-01-01T00:00:00Z. There is one such date and no other, as
    /// `lemma_epoch_seconds_injective` says. The count must lie before the
    /// year 65536.
    pub fn from_epoch_seconds(secs: u64) -> (r: Self)
        requires
            secs < EPOCH_SECONDS_LIMIT,
        ensures
            r@.is_calendar_date(),
            r@.epoch_seconds() == secs,
    {
        let mut pool: u64 = secs;
        let mut years: u16 = 1970;
        proof {
            lemma_days_before_year(65536);
        }
        loop
            invariant
                1970 <= years <= 65535,
                secs < EPOCH_SECONDS_LIMIT,
                days_before_year(65536) == 23_217_481,
                days_before_year(years as int) * 86400 + pool == secs,
            ensures
                pool < days_in_year(years as int) * 86400,
            decreases pool,
        {
            let year_seconds: u64 = if is_leap_year(years) {
                366 * SECONDS_IN_DAY
            } else {
                365 * SECONDS_IN_DAY
            };
            if pool < year_seconds {
                break ;
            }
            proof {
                if years == 65535 {
                    assert(days_before_year(65536) == days_before_year(65535) + days_in_year(
                        65535,
                    ));
                }
            }
            pool -= year_seconds;
            years += 1;
        }
        let leap = is_leap_year(years);
        let mut months: u8 = 1;
        proof {
            lemma_days_before_month(years as int);
        }
        while months < 12 && pool >= month_days(leap, months) * SECONDS_IN_DAY
            invariant
                1 <= months <= 12,
                leap == is_leap(years as int),
                (days_before_year(years as int) + days_before_month(years as int, months as int))
                    * 86400 + pool == secs,
                pool < (days_before_month(years as int, 13) - days_before_month(
                    years as int,
                    months as int,
                )) * 86400,
            decreases 12 - months,
        {
            pool -= month_days(leap, months) * SECONDS_IN_DAY;
            months += 1;
        }
        proof {
            if months == 12 {
                assert(days_before_month(years as int, 13) == days_before_month(years as int, 12)
                    + days_in_month(years as int, 12));
            }
        }
        let days: u64 = pool / SECONDS_IN_DAY + 1;
        pool = pool % SECONDS_IN_DAY;
        let hours: u64 = pool / SECONDS_IN_HOUR;
        pool = pool % SECONDS_IN_HOUR;
        let minutes: u64 = pool / SECONDS_IN_MINUTE;
        pool = pool % SECONDS_IN_MINUTE;
        DateTime {
            years,
            months,
            days: days as u8,
            hours: hours as u8,
            minutes: minutes as u8,
            seconds: pool as u8,
        }
    }

    /// The timestamp for a reading of the clock. A reading that failed, or one
    /// beyond the last year that a timestamp can hold, gives the timestamp
    /// with every field zero.
    pub fn from_clock(reading: Option<u64>) -> (r: Self)
        ensures
            match reading {
                Some(secs) if secs < EPOCH_SECONDS_LIMIT => r@.is_calendar_date()
                    && r@.epoch_seconds() == secs,
                _ => r@ == Civil::zero(),
            },
    {
        match reading {
            Some(secs) => {
                if secs < EPOCH_SECONDS_LIMIT {
                    DateTime::from_epoch_seconds(secs)
                } else {
                    DateTime::default()
                }
            },
            None => DateTime::default(),
        }
    }

    /// The current time in UTC. Where the host's clock cannot be read the
    /// result is the timestamp with every field zero, which callers have to
    /// tolerate; any other result is a calendar date.
    pub fn now() -> (r: Self)
        ensures
            r@ == Civil::zero() || (r@.is_calendar_date() && r@.epoch_seconds()
                < EPOCH_SECONDS_LIMIT),
    {
        DateTime::from_clock(clock_reading())
    }

    /// Appends the text form of this timestamp to `out`.
    pub fn write_iso8601(&self, out: &mut Vec<char>)
        ensures
            final(out)@ == old(out)@ + format_iso8601(self@),
    {
        let ghost base = out@;
        let ghost t = self@;
        push_zero_padded(out, self.years as u64, 4);
        out.push('-');
        let ghost date = zero_padded(t.year, 4) + seq!['-'];
        assert(out@ =~= base + date);
        push_zero_padded(out, self.months as u64, 2);
        out.push('-');
        let ghost date = date + zero_padded(t.month, 2) + seq!['-'];
        assert(out@ =~= base + date);
        push_zero_padded(out, self.days as u64, 2);
        out.push('T');
        let ghost date = date + zero_padded(t.day, 2) + seq!['T'];
        assert(out@ =~= base + date);
        push_zero_padded(out, self.hours as u64, 2);
        out.push(':');
        let ghost date = date + zero_padded(t.hour, 2) + seq![':'];
        assert(out@ =~= base + date);
        push_zero_padded(out, self.minutes as u64, 2);
        out.push(':');
        let ghost date = date + zero_padded(t.minute, 2) + seq![':'];
        assert(out@ =~= base + date);
        push_zero_padded(out, self.seconds as u64, 2);
        out.push('Z');
        let ghost date = date + zero_padded(t.second, 2) + seq!['Z'];
        assert(out@ =~= base + date);
        assert(date == format_iso8601(t));
    }

    /// The text form of this timestamp, `YYYY-MM-DDThh:mm:ssZ`.
    pub fn to_iso8601(&self) -> (text: String)
        ensures
            text@ == format_iso8601(self@),
    {
        let mut out: Vec<char> = Vec::new();
        self.write_iso8601(&mut out);
        assert(out@ =~= format_iso8601(self@));
        string_of(&out)
    }

    /// Reads a timestamp from its text form, given as characters.
    pub fn from_chars(s: &Vec<char>) -> (r: Result<Self, FormatError>)
        ensures
            match r {
                Ok(t) => parse_iso8601(s@) == Ok::<Civil, FormatError>(t@),
                Err(e) => parse_iso8601(s@) == Err::<Civil, FormatError>(e),
            },
    {
        if s.len() < 19 {
            return Err(FormatError::TooShort);
        }
        if !(s[4] == '-' && s[7] == '-' && s[10] == 'T' && s[13] == ':' && s[16] == ':') {
            return Err(FormatError::Malformed);
        }
        if !(s.len() == 19 || (s.len() == 20 && s[19] == 'Z')) {
            return Err(FormatError::Malformed);
        }
        let year = parse_unsigned(&slice(s, 0, 4), 0xFFFF);
        let month = parse_unsigned(&slice(s, 5, 7), 0xFF);
        let day = parse_unsigned(&slice(s, 8, 10), 0xFF);
        let hour = parse_unsigned(&slice(s, 11, 13), 0xFF);
        let minute = parse_unsigned(&slice(s, 14, 16), 0xFF);
        let second = parse_unsigned(&slice(s, 17, 19), 0xFF);
        match (year, month, day, hour, minute, second) {
            (Some(year), Some(month), Some(day), Some(hour), Some(minute), Some(second)) => Ok(
                DateTime {
                    years: year as u16,
                    months: month as u8,
                    days: day as u8,
                    hours: hour as u8,
                    minutes: minute as u8,
                    seconds: second as u8,
                },
            ),
            _ => Err(FormatError::Malformed),
        }
    }

    /// Reads a timestamp from its text form, `YYYY-MM-DDThh:mm:ssZ`. The
    /// `Z` may be left out; nothing else may differ from the layout.
    pub fn from_iso8601(iso8601: &str) -> (r: Result<Self, FormatError>)
        ensures
            match r {
                Ok(t) => parse_iso8601(iso8601@) == Ok::<Civil, FormatError>(t@),
                Err(e) => parse_iso8601(iso8601@) == Err::<Civil, FormatError>(e),
            },
    {
        let chars = chars_of(iso8601);
        DateTime::from_chars(&chars)
    }
}

} // verus!
