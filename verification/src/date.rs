use crate::errors::Error;
use vstd::prelude::*;

verus! {

/// The seconds of a week.
pub const SECONDS_PER_WEEK: i64 = 604_800;

/// From the Sunday before the epoch to the epoch, in seconds: four days.
pub const EPOCH_INTO_WEEK: i64 = 345_600;

/// An instant, as whole seconds since the first of January 1970, 00:00:00 UTC.
/// No time zone is kept.
#[derive(Debug, Clone, Copy, PartialEq, Eq, PartialOrd, Ord, Hash, Structural)]
pub struct Date {
    pub secs: i64,
}

/// A date that a query may leave out.
#[derive(Debug, Clone, Copy, PartialEq, Eq, Structural)]
pub enum OptionalDate {
    Date(Date),
    Unspecified,
}

/// The instant that chrono's `DateTime::parse_from_str` reads from `text` by
/// `format`, in seconds since the epoch; `None` where it refuses the text.
pub uninterp spec fn zoned_timestamp(text: Seq<char>, format: Seq<char>) -> Option<i64>;

/// The instant that chrono's `NaiveDateTime::parse_from_str` reads from `text`
/// by `format`, taken as UTC, in seconds since the epoch; `None` where it
/// refuses the text.
pub uninterp spec fn naive_timestamp(text: Seq<char>, format: Seq<char>) -> Option<i64>;

/// The instant at which chrono's `TimeZone::with_ymd_and_hms` places a
/// calendar date and a time of day of UTC, in seconds since the epoch; `None`
/// where it has no such date or time.
pub uninterp spec fn civil_timestamp(
    year: i32,
    month: u32,
    day: u32,
    hour: u32,
    minute: u32,
    second: u32,
) -> Option<i64>;

/// Calls chrono's `DateTime::parse_from_str`, which wants the text to state
/// its offset from UTC, and takes the instant's `timestamp`. Nothing is
/// claimed but that the outcome is the one named `zoned_timestamp`.
#[verifier::external_body]
fn read_zoned(text: &str, format: &str) -> (secs: Option<i64>)
    ensures
        secs == zoned_timestamp(text@, format@),
{
    match chrono::DateTime::parse_from_str(text, format) {
        Ok(at) => Some(at.timestamp()),
        Err(_) => None,
    }
}

/// Calls chrono's `NaiveDateTime::parse_from_str`, which reads a date and a
/// time of day without offset, and takes the `timestamp` of that time in UTC.
/// Nothing is claimed but that the outcome is the one named `naive_timestamp`.
#[verifier::external_body]
fn read_naive(text: &str, format: &str) -> (secs: Option<i64>)
    ensures
        secs == naive_timestamp(text@, format@),
{
    match chrono::NaiveDateTime::parse_from_str(text, format) {
        Ok(at) => Some(at.and_utc().timestamp()),
        Err(_) => None,
    }
}

/// Calls chrono's `TimeZone::with_ymd_and_hms` for UTC, which places a
/// calendar date and a time of day, and takes the instant's `timestamp`.
/// Nothing is claimed but that the outcome is the one named `civil_timestamp`.
#[verifier::external_body]
fn read_civil(year: i32, month: u32, day: u32, hour: u32, minute: u32, second: u32) -> (secs:
    Option<i64>)
    ensures
        secs == civil_timestamp(year, month, day, hour, minute, second),
{
    match chrono::TimeZone::with_ymd_and_hms(&chrono::Utc, year, month, day, hour, minute, second) {
        chrono::LocalResult::Single(at) => Some(at.timestamp()),
        chrono::LocalResult::Ambiguous(_, _) => None,
        chrono::LocalResult::None => None,
    }
}

/// The date that two readings of one text give: the reading with an offset
/// where there is one, else the reading without.
pub open spec fn resolved(zoned: Option<i64>, naive: Option<i64>) -> Result<Date, Error> {
    match zoned {
        Some(secs) => Ok(Date { secs }),
        None => match naive {
            Some(secs) => Ok(Date { secs }),
            None => Err(Error::UnresolvableDate),
        },
    }
}

/// What reading `text` by `format` gives: the instant that the text means
/// where it states its offset from UTC, else the text taken as UTC.
pub open spec fn read_by(text: Seq<char>, format: Seq<char>) -> Result<Date, Error> {
    resolved(zoned_timestamp(text, format), naive_timestamp(text, format))
}

/// The first of two readings where it gave a date, else the second.
pub open spec fn first_of(first: Result<Date, Error>, second: Result<Date, Error>) -> Result<
    Date,
    Error,
> {
    match first {
        Ok(date) => Ok(date),
        Err(_) => second,
    }
}

/// The start of the week that `secs` lies in: the latest Sunday, 00:00:00
/// UTC, that is not after it.
pub open spec fn week_start(secs: int) -> int {
    secs - (secs + EPOCH_INTO_WEEK) % (SECONDS_PER_WEEK as int)
}

impl Date {
    /// The date `secs` seconds after the epoch.
    pub fn from_timestamp(secs: i64) -> (date: Date)
        ensures
            date.secs == secs,
    {
        Date { secs }
    }

    /// Seconds since the epoch.
    pub fn timestamp(&self) -> (secs: i64)
        ensures
            secs == self.secs,
    {
        self.secs
    }

    /// Chooses between two readings of one text.
    pub fn resolve(zoned: Option<i64>, naive: Option<i64>) -> (date: Result<Date, Error>)
        ensures
            date == resolved(zoned, naive),
    {
        match zoned {
            Some(secs) => Ok(Date { secs }),
            None => match naive {
                Some(secs) => Ok(Date { secs }),
                None => Err(Error::UnresolvableDate),
            },
        }
    }

    /// The first of two readings where it gave a date, else the second.
    pub fn first_of(first: Result<Date, Error>, second: Result<Date, Error>) -> (date: Result<
        Date,
        Error,
    >)
        ensures
            date == first_of(first, second),
    {
        match first {
            Ok(date) => Ok(date),
            Err(_) => second,
        }
    }

    /// Reads `text` by `format`. A text that states its offset from UTC gives
    /// the instant it means; one without is taken as UTC.
    pub fn from_format(text: &str, format: &str) -> (date: Result<Date, Error>)
        ensures
            date == read_by(text@, format@),
    {
        Date::resolve(read_zoned(text, format), read_naive(text, format))
    }

    /// The given calendar date and time of day of UTC, where there is such a date.
    pub fn ymd_hms(year: i32, month: u32, day: u32, hour: u32, minute: u32, second: u32) -> (date:
        Option<Date>)
        ensures
            date == (match civil_timestamp(year, month, day, hour, minute, second) {
                Some(secs) => Some(Date { secs }),
                None => None,
            }),
    {
        match read_civil(year, month, day, hour, minute, second) {
            Some(secs) => Some(Date { secs }),
            None => None,
        }
    }

    /// Whether this date is before `other`.
    pub fn is_before(&self, other: &Date) -> (before: bool)
        ensures
            before == (self.secs < other.secs),
    {
        self.secs < other.secs
    }

    /// The start of this date's week, unless it lies before the earliest date.
    pub fn start_of_week(&self) -> (start: Option<Date>)
        ensures
            start == (if week_start(self.secs as int) >= i64::MIN {
                Some(Date { secs: week_start(self.secs as int) as i64 })
            } else {
                None
            }),
    {
        let shifted: i128 = self.secs as i128 + EPOCH_INTO_WEEK as i128;
        let week: i128 = SECONDS_PER_WEEK as i128;
        let into_week: i128 = if shifted >= 0 {
            shifted % week
        } else {
            let back: i128 = (-shifted) % week;
            if back == 0 {
                0
            } else {
                week - back
            }
        };
        let start: i128 = self.secs as i128 - into_week;
        if start >= i64::MIN as i128 {
            Some(Date { secs: start as i64 })
        } else {
            None
        }
    }

    /// This date moved by `weeks` weeks, backwards where `weeks` is negative,
    /// unless that lies outside the dates there are.
    pub fn checked_add_weeks(&self, weeks: i64) -> (moved: Option<Date>)
        ensures
            moved == (if i64::MIN <= self.secs + weeks * SECONDS_PER_WEEK <= i64::MAX {
                Some(Date { secs: (self.secs + weeks * SECONDS_PER_WEEK) as i64 })
            } else {
                None
            }),
    {
        assert(-0x8000_0000_0000_0000 * 604_800 <= weeks * 604_800 <= 0x8000_0000_0000_0000
            * 604_800) by (nonlinear_arith)
            requires
                -0x8000_0000_0000_0000 <= weeks <= 0x8000_0000_0000_0000,
        ;
        let moved: i128 = self.secs as i128 + (weeks as i128) * (SECONDS_PER_WEEK as i128);
        if moved >= i64::MIN as i128 && moved <= i64::MAX as i128 {
            Some(Date { secs: moved as i64 })
        } else {
            None
        }
    }
}

impl OptionalDate {
    /// The start of a range: the date given, else the earliest date there is.
    pub open spec fn start_date(self) -> Date {
        match self {
            OptionalDate::Date(date) => date,
            OptionalDate::Unspecified => Date { secs: i64::MIN },
        }
    }

    /// The end of a range: the date given, else `last_date`.
    pub open spec fn end_date(self, last_date: Date) -> Date {
        match self {
            OptionalDate::Date(date) => date,
            OptionalDate::Unspecified => last_date,
        }
    }

    /// The start of a range: the date given, else the earliest date there is.
    pub fn as_start(&self) -> (start: Date)
        ensures
            start == self.start_date(),
    {
        match *self {
            OptionalDate::Date(date) => date,
            OptionalDate::Unspecified => Date { secs: i64::MIN },
        }
    }

    /// The end of a range: the date given, else the last date of the data.
    pub fn as_end(&self, last_date: Date) -> (end: Date)
        ensures
            end == self.end_date(last_date),
    {
        match *self {
            OptionalDate::Date(date) => date,
            OptionalDate::Unspecified => last_date,
        }
    }
}

} // verus!
