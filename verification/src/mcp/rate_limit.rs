//! When a rate limit ends, as a dialog on the screen says.
use crate::error::joined;
use crate::pattern;
use crate::text;
use crate::text::{chars_equal, parse_unsigned, push_decimal, to_chars};
use crate::time::{Duration, UnixTime};
use chrono::{Datelike, TimeZone};
use vstd::prelude::*;
use vstd::string::*;

verus! {

/// What the dialog says: `resets`, a time such as `2pm` or `2:30pm`, and a time zone in brackets.
pub const RESET_PATTERN: &'static str = r"resets (\d{1,2})(?::(\d{2}))?(am|pm) \(([^)]+)\)";

/// The number that a group of a match stands for in 32 bits without a sign.
pub open spec fn group_number(groups: Seq<Option<Seq<char>>>, i: int) -> Option<int> {
    if i < groups.len() {
        match groups[i] {
            Some(s) => text::unsigned_value(s, u32::MAX as int),
            None => None,
        }
    } else {
        None
    }
}

/// The text of a group of a match.
pub open spec fn group_text(groups: Seq<Option<Seq<char>>>, i: int) -> Option<Seq<char>> {
    if i < groups.len() {
        groups[i]
    } else {
        None
    }
}

/// An hour of a clock of twelve, as an hour of the day: twelve in the morning is midnight, twelve
/// in the afternoon is noon. None where it is neither morning nor afternoon, or beyond all hours.
pub open spec fn hour_of_day(hour: int, half: Seq<char>) -> Option<int> {
    if half == "am"@ {
        Some(
            if hour == 12 {
                0
            } else {
                hour
            },
        )
    } else if half == "pm"@ {
        if hour == 12 {
            Some(12)
        } else if hour + 12 <= u32::MAX {
            Some(hour + 12)
        } else {
            None
        }
    } else {
        None
    }
}

/// The hour of the day, the minute and the time zone that the groups of a match stand for. A
/// minute that is missing is zero.
pub open spec fn reset_of(groups: Seq<Option<Seq<char>>>) -> Option<(int, int, Seq<char>)> {
    match (group_number(groups, 1), group_text(groups, 3), group_text(groups, 4)) {
        (Some(hour), Some(half), Some(zone)) => match hour_of_day(hour, half) {
            Some(hour) => Some(
                (
                    hour,
                    match group_number(groups, 2) {
                        Some(minute) => minute,
                        None => 0,
                    },
                    zone,
                ),
            ),
            None => None,
        },
        _ => None,
    }
}

/// The view of a time that was read.
pub open spec fn reset_view(reset: Option<(u32, u32, String)>) -> Option<(int, int, Seq<char>)> {
    match reset {
        Some((hour, minute, zone)) => Some((hour as int, minute as int, zone@)),
        None => None,
    }
}

fn number_of(groups: &[Option<String>], i: usize) -> (n: Option<u32>)
    ensures
        match n {
            Some(n) => group_number(pattern::group_views(groups@), i as int) == Some(n as int),
            None => group_number(pattern::group_views(groups@), i as int) is None,
        },
{
    if i >= groups.len() {
        return None;
    }
    assert(pattern::group_views(groups@)[i as int] == text::optional_view(groups@[i as int]));
    match &groups[i] {
        Some(s) => {
            let chars = to_chars(s.as_str());
            match parse_unsigned(&chars, u32::MAX as u64) {
                Some(n) => Some(n as u32),
                None => None,
            }
        },
        None => None,
    }
}

fn text_of(groups: &[Option<String>], i: usize) -> (s: Option<&String>)
    ensures
        match s {
            Some(s) => group_text(pattern::group_views(groups@), i as int) == Some(s@),
            None => group_text(pattern::group_views(groups@), i as int) is None,
        },
{
    if i >= groups.len() {
        return None;
    }
    assert(pattern::group_views(groups@)[i as int] == text::optional_view(groups@[i as int]));
    match &groups[i] {
        Some(s) => Some(s),
        None => None,
    }
}

/// The hour of the day, the minute and the time zone that the groups of a match stand for.
pub fn read_reset(groups: &[Option<String>]) -> (reset: Option<(u32, u32, String)>)
    ensures
        reset_view(reset) == reset_of(pattern::group_views(groups@)),
{
    let hour = match number_of(groups, 1) {
        Some(n) => n,
        None => {
            return None;
        },
    };
    let half = match text_of(groups, 3) {
        Some(s) => to_chars(s.as_str()),
        None => {
            return None;
        },
    };
    let zone = match text_of(groups, 4) {
        Some(s) => s.clone(),
        None => {
            return None;
        },
    };
    let minute: u32 = match number_of(groups, 2) {
        Some(n) => n,
        None => 0,
    };
    if chars_equal(&half, "am") {
        let h: u32 = if hour == 12 {
            0
        } else {
            hour
        };
        Some((h, minute, zone))
    } else if chars_equal(&half, "pm") {
        if hour == 12 {
            Some((12, minute, zone))
        } else if hour <= u32::MAX - 12 {
            Some((hour + 12, minute, zone))
        } else {
            None
        }
    } else {
        None
    }
}

/// The hour of the day, the minute and the time zone at which a rate limit ends, where the screen
/// shows such a dialog.
pub fn parse_rate_limit_reset(screen: &str) -> (reset: Option<(u32, u32, String)>)
    ensures
        reset_view(reset) == match pattern::regex_captures(RESET_PATTERN@, screen@) {
            Some(groups) => reset_of(groups),
            None => None,
        },
{
    match pattern::captures(RESET_PATTERN, screen) {
        Some(groups) => read_reset(&groups),
        None => None,
    }
}

/// A day of a calendar.
#[derive(Debug, Clone, Copy, PartialEq, Eq, Structural)]
pub struct Date {
    pub year: i32,
    pub month: u32,
    pub day: u32,
}

/// Whether a text names a time zone, as `chrono_tz` reads it.
pub uninterp spec fn is_zone(zone: Seq<char>) -> bool;

/// The date in a time zone at a number of seconds since the beginning of 1970, as `chrono` and
/// `chrono_tz` reckon it; none where the text names no time zone.
pub uninterp spec fn date_in(zone: Seq<char>, secs: i64) -> Option<Date>;

/// The number of seconds since the beginning of 1970 at a time of a day in a time zone, as `chrono`
/// and `chrono_tz` reckon it; none where there is no such time or there are two, or where the text
/// names no time zone.
pub uninterp spec fn time_in(zone: Seq<char>, date: Date, hour: u32, minute: u32) -> Option<i64>;

/// Parses a text as a `chrono_tz::Tz`. The contract only names whether that works: it depends on
/// nothing but the text.
#[verifier::external_body]
fn zone_is_known(zone: &str) -> (known: bool)
    ensures
        known == is_zone(zone@),
{
    zone.parse::<chrono_tz::Tz>().is_ok()
}

/// Calls `chrono::DateTime::with_timezone` on a time since the beginning of 1970 and takes the
/// date. The contract names the result, which depends on nothing but the time zone and the time,
/// and says that there is one in every time zone: `chrono` reckons with years far beyond the
/// bounds.
#[verifier::external_body]
fn local_date(zone: &str, secs: i64) -> (date: Option<Date>)
    requires
        -UnixTime::LAST_SECS <= secs <= UnixTime::LAST_SECS,
    ensures
        date == date_in(zone@, secs),
        is_zone(zone@) ==> date is Some,
{
    let tz = zone.parse::<chrono_tz::Tz>().ok()?;
    let day = chrono::DateTime::from_timestamp(secs, 0)?.with_timezone(&tz).date_naive();
    let (year, month, day) = (day.year(), day.month(), day.day());
    Some(Date { year, month, day })
}

/// Calls `chrono::TimeZone::from_local_datetime` on a time of a day and takes the one result that
/// it may have. The contract names the result, which depends on nothing but the arguments, and
/// says that it lies within the years that `chrono` reckons with.
#[verifier::external_body]
fn local_time(zone: &str, date: Date, hour: u32, minute: u32) -> (secs: Option<i64>)
    ensures
        secs == time_in(zone@, date, hour, minute),
        secs matches Some(s) ==> -9_000_000_000_000 < s < 9_000_000_000_000,
{
    let tz = zone.parse::<chrono_tz::Tz>().ok()?;
    let day = chrono::NaiveDate::from_ymd_opt(date.year, date.month, date.day)?;
    let time = day.and_hms_opt(hour, minute, 0)?;
    tz.from_local_datetime(&time).single().map(|t| t.timestamp())
}

/// The whole seconds from a time until a point that comes up at a number of seconds, on the next
/// day where it has passed or is just now.
pub open spec fn seconds_until(reset: int, now: UnixTime) -> int {
    if reset <= now.secs {
        reset + 86_400 - now.secs - now.part()
    } else {
        reset - now.secs - now.part()
    }
}

/// The whole seconds until a point, and none where it has passed even a day later.
pub open spec fn wait_seconds(reset: int, now: UnixTime) -> int {
    if seconds_until(reset, now) < 0 {
        0
    } else {
        seconds_until(reset, now)
    }
}

/// A number with at least two digits.
pub open spec fn two_digits(n: int) -> Seq<char> {
    if n < 10 {
        "0"@ + text::decimal(n as nat)
    } else {
        text::decimal(n as nat)
    }
}

/// A time of a day, as hours and minutes.
pub open spec fn clock_text(hour: int, minute: int) -> Seq<char> {
    two_digits(hour) + ":"@ + two_digits(minute)
}

/// A time of a day, as hours and minutes.
pub fn clock(hour: u32, minute: u32) -> (s: String)
    ensures
        s@ == clock_text(hour as int, minute as int),
{
    let mut s = String::new();
    if hour < 10 {
        s.append("0");
    }
    push_decimal(&mut s, hour as u64);
    s.append(":");
    if minute < 10 {
        s.append("0");
    }
    push_decimal(&mut s, minute as u64);
    assert(s@ =~= clock_text(hour as int, minute as int));
    s
}

/// How long to wait until a point that comes up at a number of seconds since the beginning of
/// 1970, or a day later where it has passed, and some minutes more.
pub fn wait_until(reset: i64, now: UnixTime, safety_margin_minutes: u32) -> (d: Duration)
    requires
        -9_000_000_000_000 < reset < 9_000_000_000_000,
        now.wf(),
    ensures
        d.nanos == (wait_seconds(reset as int, now) + safety_margin_minutes * 60) * 1_000_000_000,
{
    let next: i64 = if reset <= now.secs {
        reset + 86_400
    } else {
        reset
    };
    let part: i64 = if now.nanos > 0 {
        1
    } else {
        0
    };
    let diff: i64 = next - now.secs - part;
    let secs: u64 = if diff < 0 {
        0
    } else {
        diff as u64
    };
    Duration::from_secs(secs + safety_margin_minutes as u64 * 60)
}

/// The seconds until a time of the day in a time zone, and some minutes more. Fails where there is
/// no such time zone, no such time, or no such time on that day.
pub open spec fn wait_of(hour: int, minute: int, zone: Seq<char>, margin: int, now: UnixTime) -> Result<
    int,
    Seq<char>,
> {
    let date = date_in(zone, now.secs)->0;
    if !is_zone(zone) {
        Err("Unknown timezone: "@ + zone)
    } else if hour >= 24 || minute >= 60 {
        Err("Invalid reset time "@ + clock_text(hour, minute))
    } else {
        match time_in(zone, date, hour as u32, minute as u32) {
            Some(reset) => Ok(wait_seconds(reset as int, now) + margin * 60),
            None => Err("Ambiguous or invalid local time for reset"@),
        }
    }
}

/// How long to wait until a time of the day in a time zone, and some minutes more. Fails where
/// there is no such time zone, no such time, or no such time on that day.
pub fn calculate_wait_duration(
    hour_24: u32,
    minute: u32,
    tz_str: &str,
    safety_margin_minutes: u32,
    now: UnixTime,
) -> (result: Result<Duration, String>)
    requires
        now.wf(),
    ensures
        match wait_of(
            hour_24 as int,
            minute as int,
            tz_str@,
            safety_margin_minutes as int,
            now,
        ) {
            Ok(secs) => result matches Ok(d) && d.nanos == secs * 1_000_000_000,
            Err(message) => result matches Err(e) && e@ == message,
        },
        result matches Ok(d) ==> d.nanos <= 0x1_0000_0000_0000 * 1_000_000_000,
{
    if !zone_is_known(tz_str) {
        return Err(joined("Unknown timezone: ", tz_str));
    }
    let date = match local_date(tz_str, now.secs) {
        Some(date) => date,
        None => {
            return Err(joined("Unknown timezone: ", tz_str));
        },
    };
    if hour_24 >= 24 || minute >= 60 {
        let time = clock(hour_24, minute);
        return Err(joined("Invalid reset time ", time.as_str()));
    }
    match local_time(tz_str, date, hour_24, minute) {
        Some(reset) => Ok(wait_until(reset, now, safety_margin_minutes)),
        None => Err("Ambiguous or invalid local time for reset".to_string()),
    }
}

/// A time of this day is never more than a day away: waiting for it and some minutes more takes no
/// longer than a day and those minutes.
pub proof fn law_the_wait_ends_within_a_day(reset: int, now: UnixTime)
    requires
        reset - now.secs <= 86_400,
    ensures
        0 <= wait_seconds(reset, now) <= 86_400,
{
}

/// A time of a clock of twelve hours, as an hour of the day: in the morning twelve counts as zero,
/// and in the afternoon it is twelve hours later.
pub proof fn law_hours_of_the_day(hour: int)
    requires
        1 <= hour <= 12,
    ensures
        hour_of_day(hour, "am"@) == Some(hour % 12),
        hour_of_day(hour, "pm"@) == Some(hour % 12 + 12),
{
    reveal_strlit("am");
    reveal_strlit("pm");
    assert("am"@[0] != "pm"@[0]);
}

/// The groups of a match are the hour, the minute, the half of the day and the time zone.
pub proof fn law_groups_of_a_match(
    whole: Option<Seq<char>>,
    hour: nat,
    minute: nat,
    zone: Seq<char>,
)
    requires
        1 <= hour <= 12,
        minute < 60,
    ensures
        reset_of(
            seq![whole, Some(text::decimal(hour)), Some(text::decimal(minute)), Some("am"@), Some(zone)],
        ) == Some((hour as int % 12, minute as int, zone)),
        reset_of(
            seq![whole, Some(text::decimal(hour)), Some(text::decimal(minute)), Some("pm"@), Some(zone)],
        ) == Some((hour as int % 12 + 12, minute as int, zone)),
        reset_of(seq![whole, Some(text::decimal(hour)), None, Some("pm"@), Some(zone)]) == Some(
            (hour as int % 12 + 12, 0int, zone),
        ),
{
    law_hours_of_the_day(hour as int);
    text::law_decimal_reads_back(hour);
    text::law_decimal_reads_back(minute);
    assert(text::is_digit(text::decimal(hour)[0]));
    assert(text::is_digit(text::decimal(minute)[0]));
    assert(text::unsigned_value(text::decimal(hour), u32::MAX as int) == Some(hour as int));
    assert(text::unsigned_value(text::decimal(minute), u32::MAX as int) == Some(minute as int));
}

/// The wait ends at the time that is meant, today if it is still to come and a day later if not; the
/// part of a second that has begun is not waited for.
pub proof fn law_the_wait_ends_at_the_reset(reset: int, now: UnixTime)
    requires
        now.wf(),
        reset + 86_400 > now.secs,
    ensures
        ({
            let end = if reset > now.secs {
                reset
            } else {
                reset + 86_400
            };
            let begun = if now.nanos > 0 {
                1int
            } else {
                0
            };
            wait_seconds(reset, now) == end - now.secs - begun
        }),
{
}

/// Each minute of the margin makes the wait a minute longer, and nothing else does.
pub proof fn law_margins_are_added(
    hour: int,
    minute: int,
    zone: Seq<char>,
    a: int,
    b: int,
    now: UnixTime,
)
    requires
        wait_of(hour, minute, zone, a, now) is Ok,
    ensures
        0 <= hour ==> hour < 24 && minute < 60,
        wait_of(hour, minute, zone, b, now) is Ok,
        wait_of(hour, minute, zone, b, now)->Ok_0 - wait_of(hour, minute, zone, a, now)->Ok_0 == (b
            - a) * 60,
{
}

/// A time of the day is written in four digits, the hour before the minute.
pub proof fn law_clocks_have_four_digits(hour: nat, minute: nat)
    requires
        hour < 24,
        minute < 60,
    ensures
        clock_text(hour as int, minute as int) == seq![
            text::digit_char(hour / 10),
            text::digit_char(hour % 10),
            ':',
            text::digit_char(minute / 10),
            text::digit_char(minute % 10),
        ],
{
    reveal_strlit("0");
    reveal_strlit(":");
    assert("0"@ =~= seq![text::digit_char(0)]);
    assert(":"@ =~= seq![':']);
    reveal_with_fuel(text::decimal, 2);
    assert(two_digits(hour as int) =~= seq![text::digit_char(hour / 10), text::digit_char(hour % 10)]);
    assert(two_digits(minute as int) =~= seq![
        text::digit_char(minute / 10),
        text::digit_char(minute % 10),
    ]);
}

} // verus!
