//! The time of day and the calendar.
use std::time::{Duration, SystemTime};
use vstd::prelude::*;
use crate::text::{signed_decimal, Text};

verus! {

/// `std::time::SystemTime`: a reading of the system's clock.
#[verifier::external_type_specification]
#[verifier::external_body]
pub struct ExSystemTime(SystemTime);

/// `SystemTime::now` reads the clock. What it says is open.
#[verifier::external_body]
fn reading() -> (r: SystemTime) {
    SystemTime::now()
}

/// `SystemTime::duration_since` the Unix epoch: nothing where the clock stands
/// before it. Which readings those are is not stated, as a reading is opaque.
#[verifier::external_body]
fn since_epoch(time: SystemTime) -> (r: Option<Duration>) {
    time.duration_since(std::time::UNIX_EPOCH).ok()
}

/// `Duration::as_secs` gives the whole seconds of a span of time. How many
/// they are is not stated, as a span is opaque.
pub assume_specification[ Duration::as_secs ](span: &Duration) -> (r: u64)
;

/// The Unix time that a reading of the clock stands for.
pub open spec fn unix_time(elapsed: Option<u64>) -> i64 {
    match elapsed {
        Some(seconds) => seconds as i64,
        None => 0,
    }
}

/// The Unix time that a reading of the clock stands for.
pub fn unix_seconds(elapsed: Option<u64>) -> (r: i64)
    ensures
        r == unix_time(elapsed),
{
    match elapsed {
        Some(seconds) => seconds as i64,
        None => 0,
    }
}

/// The current Unix time in seconds.
pub fn now() -> (r: i64)
    ensures
        exists|elapsed: Option<u64>| r == #[trigger] unix_time(elapsed),
{
    let elapsed: Option<u64> = match since_epoch(reading()) {
        Some(span) => Some(span.as_secs()),
        None => None,
    };
    unix_seconds(elapsed)
}

/// The layout of a full date.
pub open spec fn full_layout() -> Text {
    "%Y-%m-%d %H:%M"@
}

/// The layout of a short date.
pub open spec fn short_layout() -> Text {
    "%d %b %H:%M"@
}

/// The layout of a time of day.
pub open spec fn clock_layout() -> Text {
    "%H:%M:%S"@
}

/// The instants that the calendar covers, in Unix seconds.
pub open spec fn in_calendar(ts: int) -> bool {
    -377705023201 <= ts <= 253402207200
}

/// The distances from universal time that a time zone may have, in seconds.
pub open spec fn is_offset(offset: int) -> bool {
    -93599 <= offset <= 93599
}

/// The second of its day that an instant falls on, at a distance from
/// universal time.
pub open spec fn second_of_day(ts: i64, offset: i32) -> nat {
    ((ts + offset) % 86400) as nat
}

/// A number below a hundred in two digits.
pub open spec fn two_digits(n: nat) -> Text {
    seq![crate::text::digit(n / 10), crate::text::digit(n % 10)]
}

/// The hour and the minute of an instant.
pub open spec fn hour_minute(ts: i64, offset: i32) -> Text {
    let second = second_of_day(ts, offset);
    two_digits(second / 3600) + ":"@ + two_digits(second / 60 % 60)
}

/// The hour, the minute and the second of an instant.
pub open spec fn time_of_day(ts: i64, offset: i32) -> Text {
    hour_minute(ts, offset) + ":"@ + two_digits(second_of_day(ts, offset) % 60)
}

/// What `strftime` writes for an instant, at a distance from universal time
/// and in a layout.
pub uninterp spec fn laid_out(ts: i64, offset: i32, layout: Seq<char>) -> Seq<char>;

/// What is known of a text that gives an instant in a layout: the time of day
/// to the digit, and the room that the date takes before it.
pub open spec fn gives_time(ts: i64, offset: i32, layout: Text, shown: Text) -> bool {
    &&& layout == clock_layout() ==> shown == time_of_day(ts, offset)
    &&& layout == full_layout() ==> 16 <= shown.len() <= 17 && (" "@ + hour_minute(
        ts,
        offset,
    )).is_suffix_of(shown)
    &&& layout == short_layout() ==> shown.len() == 12 && (" "@ + hour_minute(
        ts,
        offset,
    )).is_suffix_of(shown)
}

/// `jiff::tz::TimeZone::to_offset` of the machine's time zone, in seconds, for
/// an instant that `jiff::Timestamp::from_second` accepts. Which distance it is
/// depends on the machine, so only its range is claimed.
#[verifier::external_body]
fn local_offset(ts: i64) -> (r: Option<i32>)
    ensures
        r is Some <==> in_calendar(ts as int),
        r matches Some(offset) ==> is_offset(offset as int),
{
    jiff::Timestamp::from_second(ts).ok().map(
        |t| jiff::tz::TimeZone::system().to_offset(t).seconds(),
    )
}

/// `jiff::Timestamp::from_second`, put at a fixed distance from universal time
/// and laid out with `strftime`. The timestamp is refused outside the
/// calendar's range. The text depends on nothing but the arguments. Its hours,
/// minutes and seconds take two digits each and are those of the instant
/// shifted by the distance; the year takes four places, five below -999, and a
/// month's name three letters. How the day, the month and the year follow from
/// the instant is not stated.
#[verifier::external_body]
fn lay_out(ts: i64, offset: i32, layout: &str) -> (r: Option<String>)
    requires
        is_offset(offset as int),
        layout@ == full_layout() || layout@ == short_layout() || layout@ == clock_layout(),
    ensures
        r is Some <==> in_calendar(ts as int),
        r matches Some(text) ==> text@ == laid_out(ts, offset, layout@) && gives_time(
            ts,
            offset,
            layout@,
            text@,
        ),
{
    let zone = jiff::tz::TimeZone::fixed(jiff::tz::Offset::from_seconds(offset).ok()?);
    jiff::Timestamp::from_second(ts).ok().map(|t| t.to_zoned(zone).strftime(layout).to_string())
}

/// A text that gives an instant in a layout, in some time zone.
pub open spec fn dated(ts: i64, layout: Text, shown: Text) -> bool {
    exists|offset: i32|
        is_offset(offset as int) && shown == #[trigger] laid_out(ts, offset, layout) && gives_time(
            ts,
            offset,
            layout,
            shown,
        )
}

/// The date of an instant, if any: there is one exactly where the calendar
/// reaches.
pub open spec fn is_date(ts: i64, layout: Text, date: Option<Text>) -> bool {
    match date {
        Some(shown) => in_calendar(ts as int) && dated(ts, layout, shown),
        None => !in_calendar(ts as int),
    }
}

/// The date of an instant in a layout, in the machine's time zone.
fn local_time(ts: i64, layout: &str) -> (r: Option<String>)
    requires
        layout@ == full_layout() || layout@ == short_layout() || layout@ == clock_layout(),
    ensures
        is_date(ts, layout@, crate::text::opt(r)),
{
    match local_offset(ts) {
        Some(offset) => lay_out(ts, offset, layout),
        None => None,
    }
}

/// The date of an instant, in full.
pub fn full_date(ts: i64) -> (r: Option<String>)
    ensures
        is_date(ts, full_layout(), crate::text::opt(r)),
{
    local_time(ts, "%Y-%m-%d %H:%M")
}

/// A date as it is shown: what the calendar gives, or else the bare number.
pub open spec fn shown_date(ts: i64, date: Option<Text>) -> Text {
    match date {
        Some(text) => text,
        None => crate::text::signed_dec(ts as int),
    }
}

/// A date as it is shown.
pub fn date_or_number(ts: i64, date: Option<String>) -> (r: String)
    ensures
        r@ == shown_date(ts, crate::text::opt(date)),
{
    match date {
        Some(text) => text,
        None => signed_decimal(ts),
    }
}

/// A text that gives the day, month and time of an instant, or the bare number
/// where the calendar does not reach.
pub open spec fn stamps(ts: i64, shown: Text) -> bool {
    if in_calendar(ts as int) {
        dated(ts, short_layout(), shown)
    } else {
        shown == shown_date(ts, None)
    }
}

/// The day, month and time of an instant.
pub fn short_stamp(ts: i64) -> (r: String)
    ensures
        stamps(ts, r@),
{
    let date = local_time(ts, "%d %b %H:%M");
    date_or_number(ts, date)
}

/// `jiff::Timestamp::try_from` a reading of the clock: its whole seconds and
/// its nanoseconds, which are of one sign. Nothing where the calendar does not
/// reach. Which readings give which is not stated, as a reading is opaque.
#[verifier::external_body]
fn instant(time: SystemTime) -> (r: Option<(i64, i32)>)
    ensures
        r matches Some(parts) ==> in_calendar(parts.0 as int) && (parts.1 < 0 ==> in_calendar(
            parts.0 - 1,
        )),
{
    jiff::Timestamp::try_from(time).ok().map(|t| (t.as_second(), t.subsec_nanosecond()))
}

/// The second that is under way: the one that began last. A clock that stands
/// outside the calendar counts as the end of it that is nearer.
pub open spec fn second_under_way(parts: Option<(i64, i32)>, after_epoch: bool) -> int {
    match parts {
        Some((second, fraction)) => if fraction < 0 {
            second - 1
        } else {
            second as int
        },
        None => if after_epoch {
            253402207200
        } else {
            -377705023201
        },
    }
}

/// The second that is under way, from the whole seconds and the fraction of a
/// reading of the clock, and from whether it stands after the Unix epoch.
pub fn current_second(parts: Option<(i64, i32)>, after_epoch: bool) -> (r: i64)
    requires
        parts matches Some(p) ==> p.1 < 0 ==> p.0 > i64::MIN,
    ensures
        r == second_under_way(parts, after_epoch),
{
    match parts {
        Some((second, fraction)) => if fraction < 0 {
            second - 1
        } else {
            second
        },
        None => if after_epoch {
            253402207200
        } else {
            -377705023201
        },
    }
}

/// A text that gives the time of day of some instant, to the second.
pub open spec fn tells_clock(shown: Text) -> bool {
    exists|ts: i64| in_calendar(ts as int) && #[trigger] dated(ts, clock_layout(), shown)
}

/// The time of day.
pub fn clock() -> (r: String)
    ensures
        tells_clock(r@),
{
    let time = reading();
    let ts: i64 = current_second(instant(time), since_epoch(time).is_some());
    let date = local_time(ts, "%H:%M:%S");
    let ghost seen = crate::text::opt(date);
    proof {
        assert(is_date(ts, clock_layout(), seen));
        assert(date is Some <==> seen is Some);
    }
    date.unwrap()
}

/// The time of day takes eight places, with colons between its three numbers.
#[verifier::rlimit(50)]
pub proof fn law_clock_shape(shown: Text)
    requires
        tells_clock(shown),
    ensures
        shown.len() == 8,
        shown[2] == ':',
        shown[5] == ':',
{
    reveal_strlit(":");
    let ts = choose|ts: i64| in_calendar(ts as int) && #[trigger] dated(ts, clock_layout(), shown);
    let offset = choose|offset: i32|
        is_offset(offset as int) && shown == #[trigger] laid_out(ts, offset, clock_layout())
            && gives_time(ts, offset, clock_layout(), shown);
    assert(shown == time_of_day(ts, offset));
}

/// The Unix time is the number of whole seconds since the epoch, and the epoch
/// itself where the clock stands before it.
pub proof fn law_unix_time_counts_seconds(seconds: u64)
    ensures
        seconds <= i64::MAX ==> unix_time(Some(seconds)) == seconds,
        unix_time(None) == 0,
{
}

/// The second under way is the last one that had begun when the clock was read,
/// before the epoch as well as after it.
pub proof fn law_the_second_under_way(second: i64, fraction: i32, after_epoch: bool)
    requires
        -1000000000 < fraction < 1000000000,
    ensures
        ({
            let now = second_under_way(Some((second, fraction)), after_epoch);
            let nanos = second * 1000000000 + fraction;
            now * 1000000000 <= nanos < (now + 1) * 1000000000
        }),
{
}

/// A time of day comes again a day later.
pub proof fn law_times_of_day_repeat(ts: i64, later: i64, offset: i32)
    requires
        later == ts + 86400,
    ensures
        time_of_day(ts, offset) == time_of_day(later, offset),
        hour_minute(ts, offset) == hour_minute(later, offset),
{
    vstd::arithmetic::div_mod::lemma_mod_add_multiples_vanish(ts + offset, 86400);
    assert(second_of_day(ts, offset) == second_of_day(later, offset));
}

/// A time of day, from its hour, its minute and its second: each in two digits.
#[verifier::rlimit(50)]
pub proof fn law_times_of_day(days: nat, hour: nat, minute: nat, second: nat, ts: i64)
    requires
        hour < 24,
        minute < 60,
        second < 60,
        ts == days * 86400 + hour * 3600 + minute * 60 + second,
    ensures
        time_of_day(ts, 0) == two_digits(hour) + ":"@ + two_digits(minute) + ":"@ + two_digits(second),
        hour_minute(ts, 0) == two_digits(hour) + ":"@ + two_digits(minute),
        two_digits(hour).len() == 2,
        two_digits(hour)[0] as u32 == 48 + hour / 10,
        two_digits(hour)[1] as u32 == 48 + hour % 10,
{
    let rest = hour * 3600 + minute * 60 + second;
    vstd::arithmetic::div_mod::lemma_mod_multiples_vanish(days as int, rest as int, 86400);
    assert(second_of_day(ts, 0) == rest);
    assert(rest / 3600 == hour);
    assert(rest / 60 % 60 == minute);
    assert(rest % 60 == second);
}

/// A stamp is laid out as day, month, hour and minute, in some time zone; where the
/// calendar does not reach it is the bare number. A time of day is laid out as
/// hour, minute and second.
pub proof fn law_how_times_are_laid_out(ts: i64, shown: Text)
    ensures
        stamps(ts, shown) && -377705023201 <= ts <= 253402207200 ==> shown.len() == 12 && exists|
            offset: i32,
        |
            -93599 <= offset <= 93599 && shown == #[trigger] laid_out(ts, offset, "%d %b %H:%M"@),
        stamps(ts, shown) && !(-377705023201 <= ts <= 253402207200) ==> shown
            == crate::text::signed_dec(ts as int),
        tells_clock(shown) ==> exists|at: i64, offset: i32|
            -93599 <= offset <= 93599 && shown == #[trigger] laid_out(at, offset, "%H:%M:%S"@),
        shown_date(ts, Some(shown)) == shown,
        shown_date(ts, None) == crate::text::signed_dec(ts as int),
{
    if stamps(ts, shown) && in_calendar(ts as int) {
        let offset = choose|offset: i32|
            is_offset(offset as int) && shown == #[trigger] laid_out(ts, offset, short_layout())
                && gives_time(ts, offset, short_layout(), shown);
        assert(shown == laid_out(ts, offset, "%d %b %H:%M"@));
    }
    if tells_clock(shown) {
        let at = choose|at: i64| in_calendar(at as int) && #[trigger] dated(at, clock_layout(), shown);
        let offset = choose|offset: i32|
            is_offset(offset as int) && shown == #[trigger] laid_out(at, offset, clock_layout())
                && gives_time(at, offset, clock_layout(), shown);
        assert(shown == laid_out(at, offset, "%H:%M:%S"@));
    }
}

} // verus!
