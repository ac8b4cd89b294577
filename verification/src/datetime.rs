//! Local dates and times (chrono's `NaiveDateTime`) as plain values.
use vstd::prelude::*;

verus! {

/// Largest number of seconds from 1970-01-01 00:00:00 that a local date and
/// time can be away (chrono's dates span the years -262143 to 262142).
pub const MAX_TIMESTAMP_SECS: i64 = 10_000_000_000_000;

/// A local date and time (no time zone), as chrono's `NaiveDateTime` holds
/// it: whole seconds from 1970-01-01 00:00:00 and the nanoseconds past them
/// (up to 1_999_999_999, the part past 10^9 marking a leap second).
#[derive(Clone, Copy, Debug)]
pub struct LocalDateTime {
    pub secs: i64,
    pub nanos: u32,
}

impl LocalDateTime {
    /// The value is one that a date of chrono's range gives.
    pub open spec fn wf(self) -> bool {
        &&& -MAX_TIMESTAMP_SECS <= self.secs <= MAX_TIMESTAMP_SECS
        &&& self.nanos < 2_000_000_000
    }

    /// A key that orders date and times as chrono orders them: by date,
    /// then second of the day, then the fraction (a leap second, whose
    /// fraction is 10^9 or more, comes after the rest of its second and
    /// before the next one).
    pub open spec fn order_key(self) -> int {
        self.secs * 2_000_000_000 + self.nanos
    }

    /// `order_key`, computed.
    pub fn ordering_key(&self) -> (k: i128)
        requires
            self.wf(),
        ensures
            k == self.order_key(),
    {
        self.secs as i128 * 2_000_000_000 + self.nanos as i128
    }

    /// The second of the day (0 to 86399) of the time.
    pub open spec fn second_of_day(self) -> int {
        (self.secs as int) % 86400
    }

    /// Nanoseconds from `earlier` to `self` as chrono's
    /// `NaiveDateTime::signed_duration_since` counts them: the difference of
    /// the seconds and of the fractions, and one second more (less) when the
    /// later (earlier) of the two times of day is a leap second.
    pub open spec fn nanos_since(self, earlier: LocalDateTime) -> int {
        let adjust = if self.second_of_day() > earlier.second_of_day() && earlier.nanos >= 1_000_000_000 {
            1
        } else if self.second_of_day() < earlier.second_of_day() && self.nanos >= 1_000_000_000 {
            -1
        } else {
            0
        };
        (self.secs - earlier.secs + adjust) * 1_000_000_000 + self.nanos - earlier.nanos
    }

    /// Whole milliseconds from `earlier` to `self`, rounded toward zero
    /// (chrono's `TimeDelta::num_milliseconds`).
    pub open spec fn millis_since_spec(self, earlier: LocalDateTime) -> int {
        let d = self.nanos_since(earlier);
        if d >= 0 {
            d / 1_000_000
        } else {
            -((-d) / 1_000_000)
        }
    }

    /// Whole milliseconds from `earlier` to `self` (rounded toward zero).
    pub fn millis_since(&self, earlier: &LocalDateTime) -> (ms: i64)
        requires
            self.wf(),
            earlier.wf(),
        ensures
            ms == self.millis_since_spec(*earlier),
            -20_000_000_000_010_000 <= ms <= 20_000_000_000_010_000,
    {
        let sa: u64 = (self.secs + 17_280_000_000_000) as u64 % 86400;
        let sb: u64 = (earlier.secs + 17_280_000_000_000) as u64 % 86400;
        proof {
            vstd::arithmetic::div_mod::lemma_mod_multiples_vanish(200_000_000, self.secs as int, 86400);
            vstd::arithmetic::div_mod::lemma_mod_multiples_vanish(200_000_000, earlier.secs as int, 86400);
        }
        let adjust: i128 = if sa > sb && earlier.nanos >= 1_000_000_000 {
            1
        } else if sa < sb && self.nanos >= 1_000_000_000 {
            -1
        } else {
            0
        };
        let d: i128 = (self.secs as i128 - earlier.secs as i128 + adjust) * 1_000_000_000 + self.nanos as i128
            - earlier.nanos as i128;
        assert(-20_000_000_000_010_000_000_000 <= d <= 20_000_000_000_010_000_000_000);
        assert(0 <= d ==> d / 1_000_000 <= 20_000_000_000_010_000) by (nonlinear_arith)
            requires
                d <= 20_000_000_000_010_000_000_000,
        ;
        assert(d < 0 ==> (-d) / 1_000_000 <= 20_000_000_000_010_000) by (nonlinear_arith)
            requires
                -20_000_000_000_010_000_000_000 <= d,
        ;
        let ms: i128 = if d >= 0 {
            d / 1_000_000
        } else {
            -((-d) / 1_000_000)
        };
        ms as i64
    }
}

/// What `chrono::NaiveDateTime::parse_from_str(text, format)` gives, as the
/// seconds and nanoseconds from 1970-01-01 00:00:00 of the parsed date and
/// time, or `None` when parsing fails.
pub uninterp spec fn chrono_parse(text: Seq<char>, format: Seq<char>) -> Option<(i64, u32)>;

/// Calls `chrono::NaiveDateTime::parse_from_str` (chrono 0.4) and turns the
/// result into seconds (`and_utc().timestamp()`) and nanoseconds
/// (`timestamp_subsec_nanos()`).  chrono's source keeps years within
/// -262143..=262142 and nanoseconds below 2_000_000_000, which bounds both.
/// Which texts parse to which instants is not stated here: it is the named result.
#[verifier::external_body]
fn chrono_parse_from_str(text: &str, format: &str) -> (r: Option<(i64, u32)>)
    ensures
        r == chrono_parse(text@, format@),
        r matches Some((s, n)) ==> -MAX_TIMESTAMP_SECS <= s <= MAX_TIMESTAMP_SECS && n < 2_000_000_000,
{
    chrono::NaiveDateTime::parse_from_str(text, format).ok().map(
        |dt| {
            let u = dt.and_utc();
            (u.timestamp(), u.timestamp_subsec_nanos())
        },
    )
}

/// Parses `text` with the chrono `format`.
pub fn parse_with_format(text: &str, format: &str) -> (r: Option<LocalDateTime>)
    ensures
        r matches Some(dt) ==> dt.wf() && chrono_parse(text@, format@) == Some((dt.secs, dt.nanos)),
        r is None ==> chrono_parse(text@, format@) is None,
{
    match chrono_parse_from_str(text, format) {
        Some((secs, nanos)) => Some(LocalDateTime { secs, nanos }),
        None => None,
    }
}

/// Day number that chrono gives the date `year-month-day` (January 1 of
/// year 1 being day 1), or `None` if there is no such date.
pub uninterp spec fn chrono_days_from_ce(year: i32, month: u32, day: u32) -> Option<i32>;

/// Calls `chrono::NaiveDate::from_ymd_opt` (chrono 0.4) and turns the date
/// into its day number (`Datelike::num_days_from_ce`).  chrono's source
/// keeps years within -262143..=262142, so day numbers stay within
/// ±100_000_000.  Which dates exist and their numbers are the named result.
#[verifier::external_body]
fn chrono_days_from_ymd(year: i32, month: u32, day: u32) -> (r: Option<i32>)
    ensures
        r == chrono_days_from_ce(year, month, day),
        r matches Some(d) ==> -100_000_000 <= d <= 100_000_000,
{
    chrono::NaiveDate::from_ymd_opt(year, month, day).map(|d| chrono::Datelike::num_days_from_ce(&d))
}

/// chrono's day number of 1970-01-01.
pub const UNIX_EPOCH_DAY: i64 = 719_163;

/// The local date and time at `hour:min:sec` on the day with chrono day
/// number `days`: chrono's `and_hms_opt` accepts an hour below 24 and a
/// minute and second below 60, and counts seconds from 1970-01-01 as
/// `(days - 719163) * 86400` plus the seconds since midnight.
pub open spec fn at_hms(days: int, hour: int, min: int, sec: int) -> Option<LocalDateTime> {
    if hour < 24 && min < 60 && sec < 60 {
        Some(
            LocalDateTime {
                secs: ((days - UNIX_EPOCH_DAY) * 86400 + hour * 3600 + min * 60 + sec) as i64,
                nanos: 0,
            },
        )
    } else {
        None
    }
}

/// The local date and time `year-month-day hour:min:sec`, or `None` if it
/// does not exist.
pub open spec fn from_ymd_hms_spec(year: i32, month: u32, day: u32, hour: u32, min: u32, sec: u32) -> Option<
    LocalDateTime,
> {
    match chrono_days_from_ce(year, month, day) {
        Some(d) => at_hms(d as int, hour as int, min as int, sec as int),
        None => None,
    }
}

/// The local date and time `year-month-day hour:min:sec`, or `None` if the
/// date does not exist or the time is out of range.
pub fn from_ymd_hms(year: i32, month: u32, day: u32, hour: u32, min: u32, sec: u32) -> (r: Option<LocalDateTime>)
    ensures
        r == from_ymd_hms_spec(year, month, day, hour, min, sec),
        r matches Some(dt) ==> dt.wf(),
{
    match chrono_days_from_ymd(year, month, day) {
        Some(days) => datetime_at(days, hour, min, sec),
        None => None,
    }
}

/// The local date and time at `hour:min:sec` on the day with chrono day
/// number `days`, or `None` if the time is out of range.
pub fn datetime_at(days: i32, hour: u32, min: u32, sec: u32) -> (r: Option<LocalDateTime>)
    requires
        -100_000_000 <= days <= 100_000_000,
    ensures
        r == at_hms(days as int, hour as int, min as int, sec as int),
        r matches Some(dt) ==> dt.wf(),
{
    if hour < 24 && min < 60 && sec < 60 {
        let secs: i64 = (days as i64 - UNIX_EPOCH_DAY) * 86400 + hour as i64 * 3600 + min as i64 * 60 + sec as i64;
        Some(LocalDateTime { secs, nanos: 0 })
    } else {
        None
    }
}

} // verus!
