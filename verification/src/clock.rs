//! Time and identifiers: a clock that never runs back, the date, the ids of
//! records.
use chrono::{DateTime, Utc};
use std::time::Instant;
use vstd::prelude::*;

verus! {

/// Nanoseconds in a second.
pub const NANOS: u128 = 1_000_000_000;

/// `std::time::Instant`: a reading of the clock that never runs back.
#[verifier::external_type_specification]
#[verifier::external_body]
pub struct ExInstant(std::time::Instant);

/// `Instant::now` reads the clock. Nothing is said of what it reads.
pub assume_specification[ Instant::now ]() -> Instant
;

/// The nanoseconds from one reading of the clock to another.
pub uninterp spec fn nanos_between(earlier: Instant, later: Instant) -> nat;

/// `Instant::saturating_duration_since`, in nanoseconds. It goes by the two
/// readings alone, and is defined where `earlier` came after `later` too. How long
/// it is has a name, and no more is said of it.
#[verifier::external_body]
fn nanos_from(earlier: &Instant, later: &Instant) -> (nanos: u128)
    ensures
        nanos == nanos_between(*earlier, *later),
{
    later.saturating_duration_since(*earlier).as_nanos()
}

/// A clock that was started then can read this: it is how far from there some
/// reading of the time lies.
pub open spec fn reads(started: Instant, nanos: nat) -> bool {
    exists|time: Instant| #[trigger] nanos_between(started, time) == nanos
}

/// A clock that counts nanoseconds from when it was started.
#[derive(Debug)]
pub struct Clock {
    origin: Instant,
}

impl Clock {
    /// When the clock was started.
    pub closed spec fn started(self) -> Instant {
        self.origin
    }

    /// Starts a clock.
    pub fn start() -> Clock {
        Clock { origin: Instant::now() }
    }

    /// The nanoseconds from when the clock was started to now. When that is
    /// cannot be said beforehand.
    pub fn now(&self) -> (nanos: u128)
        ensures
            reads(self.started(), nanos as nat),
    {
        let time = Instant::now();
        nanos_from(&self.origin, &time)
    }
}

/// The earliest second that a timestamp can name.
pub const FIRST_SECOND: i64 = -8_334_601_228_800;

/// The latest second that a timestamp can name.
pub const LAST_SECOND: i64 = 8_210_266_876_799;

/// These are a second since the start of 1970 and the nanoseconds into it. A
/// leap second is the second before it, run on past its end.
pub open spec fn valid_time(seconds: int, nanos: int) -> bool {
    &&& FIRST_SECOND <= seconds <= LAST_SECOND
    &&& 0 <= nanos
    &&& nanos < 1_000_000_000 || (nanos < 2_000_000_000 && seconds % 60 == 59)
}

/// A point in time, in UTC.
#[derive(Debug, Clone, Copy, PartialEq, Eq, Structural)]
pub struct Timestamp {
    seconds: i64,
    nanos: u32,
}

impl View for Timestamp {
    type V = (int, int);

    /// The second since the start of 1970, and the nanoseconds into it.
    closed spec fn view(&self) -> (int, int) {
        (self.seconds as int, self.nanos as int)
    }
}

/// The hour of the day at a second since the start of 1970.
pub open spec fn hour_at(seconds: int) -> int {
    (seconds % 86400) / 3600
}

impl Timestamp {
    #[verifier::type_invariant]
    spec fn valid(self) -> bool {
        valid_time(self.seconds as int, self.nanos as int)
    }

    /// The timestamp of a second since the start of 1970 and the nanoseconds
    /// into it.
    pub fn new(seconds: i64, nanos: u32) -> (t: Option<Timestamp>)
        ensures
            match t {
                Some(t) => valid_time(seconds as int, nanos as int) && t@ == (
                    seconds as int,
                    nanos as int,
                ),
                None => !valid_time(seconds as int, nanos as int),
            },
    {
        if seconds < FIRST_SECOND || seconds > LAST_SECOND {
            return None;
        }
        let shifted: u64 = (seconds - FIRST_SECOND) as u64;
        assert(shifted % 60 == seconds as int % 60) by {
            assert(FIRST_SECOND as int % 60 == 0);
        }
        if nanos < 1_000_000_000 || (nanos < 2_000_000_000 && shifted % 60 == 59) {
            Some(Timestamp { seconds, nanos })
        } else {
            None
        }
    }

    /// The second since the start of 1970.
    pub fn seconds(&self) -> (s: i64)
        ensures
            s == self@.0,
            valid_time(self@.0, self@.1),
    {
        proof {
            use_type_invariant(self);
        }
        self.seconds
    }

    /// The nanoseconds into the second.
    pub fn nanos(&self) -> (n: u32)
        ensures
            n == self@.1,
            valid_time(self@.0, self@.1),
    {
        proof {
            use_type_invariant(self);
        }
        self.nanos
    }

    /// The hour of the day.
    pub fn hour(&self) -> (h: u32)
        ensures
            h == hour_at(self@.0),
            h < 24,
    {
        proof {
            use_type_invariant(self);
        }
        let shifted: u64 = (self.seconds - FIRST_SECOND) as u64;
        assert(shifted % 86400 == self.seconds as int % 86400) by {
            assert(FIRST_SECOND as int % 86400 == 0);
        }
        (shifted % 86400 / 3600) as u32
    }
}

/// The text of a point in time in RFC 3339.
pub uninterp spec fn rfc3339_text(time: (int, int)) -> Seq<char>;

/// The point in time that a text in RFC 3339 names.
pub uninterp spec fn rfc3339_time(text: Seq<char>) -> Option<(int, int)>;

/// The text of a point in time in a format of `chrono`.
pub uninterp spec fn time_text(time: (int, int), format: Seq<char>) -> Seq<char>;

/// The first second of the year 0.
pub const YEAR_0: i64 = -62_167_219_200;

/// The last second of the year 9999.
pub const YEAR_9999: i64 = 253_402_300_799;

/// The date can read this: not before 1970, and no leap second.
pub open spec fn present(time: (int, int)) -> bool {
    0 <= time.0 <= LAST_SECOND && 0 <= time.1 < 1_000_000_000
}

/// `chrono::Utc::now` reads the date and the time. It does not return on a machine
/// whose clock is set to before 1970 or past the latest second, and never reads a
/// leap second.
#[verifier::external_body]
fn read_date() -> (t: (i64, u32))
    ensures
        present((t.0 as int, t.1 as int)),
{
    let now = Utc::now();
    (now.timestamp(), now.timestamp_subsec_nanos())
}

/// `DateTime::to_rfc3339`. The text of a time in the years 0 to 9999 names that
/// time.
#[verifier::external_body]
fn print_rfc3339(seconds: i64, nanos: u32) -> (text: String)
    requires
        valid_time(seconds as int, nanos as int),
    ensures
        text@ == rfc3339_text((seconds as int, nanos as int)),
        YEAR_0 <= seconds <= YEAR_9999 ==> rfc3339_time(text@) == Some(
            (seconds as int, nanos as int),
        ),
{
    let time = DateTime::<Utc>::from_timestamp(seconds, nanos).unwrap();
    time.to_rfc3339()
}

/// `DateTime::parse_from_rfc3339`, brought to UTC.
#[verifier::external_body]
fn read_rfc3339(text: &str) -> (t: Option<(i64, u32)>)
    ensures
        match t {
            Some(t) => rfc3339_time(text@) == Some((t.0 as int, t.1 as int)) && valid_time(
                t.0 as int,
                t.1 as int,
            ),
            None => rfc3339_time(text@) is None,
        },
{
    let time = DateTime::parse_from_rfc3339(text).ok()?.with_timezone(&Utc);
    Some((time.timestamp(), time.timestamp_subsec_nanos()))
}

/// How a log line gives the time.
pub open spec fn log_format() -> Seq<char> {
    "%Y-%m-%dT%H:%M:%S%.3fZ"@
}

/// How a table gives the time.
pub open spec fn table_format() -> Seq<char> {
    "%Y-%m-%d %H:%M:%S"@
}

/// `DateTime::format`, in one of the two formats that are used; `chrono` panics
/// on a text that is no format.
#[verifier::external_body]
fn print_time(seconds: i64, nanos: u32, format: &str) -> (text: String)
    requires
        valid_time(seconds as int, nanos as int),
        format@ == log_format() || format@ == table_format(),
    ensures
        text@ == time_text((seconds as int, nanos as int), format@),
{
    let time = DateTime::<Utc>::from_timestamp(seconds, nanos).unwrap();
    time.format(format).to_string()
}

impl Timestamp {
    /// The time as it is now: not before 1970, and no leap second. More cannot be
    /// said beforehand.
    pub fn now() -> (t: Timestamp)
        ensures
            present(t@),
    {
        let (seconds, nanos) = read_date();
        Timestamp { seconds, nanos }
    }

    /// The time in RFC 3339.
    pub fn to_rfc3339(&self) -> (text: String)
        ensures
            text@ == rfc3339_text(self@),
            YEAR_0 <= self@.0 <= YEAR_9999 ==> rfc3339_time(text@) == Some(self@),
    {
        proof {
            use_type_invariant(self);
        }
        print_rfc3339(self.seconds, self.nanos)
    }

    /// The time that a text in RFC 3339 names.
    pub fn parse_from_rfc3339(text: &str) -> (t: Option<Timestamp>)
        ensures
            match t {
                Some(t) => rfc3339_time(text@) == Some(t@),
                None => rfc3339_time(text@) is None,
            },
    {
        match read_rfc3339(text) {
            Some((seconds, nanos)) => Some(Timestamp { seconds, nanos }),
            None => None,
        }
    }

    /// The time as a log line gives it: `2026-04-03T09:01:12.345Z`.
    pub fn log_text(&self) -> (text: String)
        ensures
            text@ == time_text(self@, log_format()),
    {
        proof {
            use_type_invariant(self);
        }
        print_time(self.seconds, self.nanos, "%Y-%m-%dT%H:%M:%S%.3fZ")
    }

    /// The time as a table gives it: `2026-04-03 09:01:12`.
    pub fn table_text(&self) -> (text: String)
        ensures
            text@ == time_text(self@, table_format()),
    {
        proof {
            use_type_invariant(self);
        }
        print_time(self.seconds, self.nanos, "%Y-%m-%d %H:%M:%S")
    }
}

/// A place where an id has a hyphen.
pub open spec fn hyphen_place(i: int) -> bool {
    i == 8 || i == 13 || i == 18 || i == 23
}

/// The shape of a random id: 36 characters, hexadecimal digits in five groups.
pub open spec fn id_shape(id: Seq<char>) -> bool {
    &&& id.len() == 36
    &&& forall|i: int|
        0 <= i < 36 ==> if hyphen_place(i) {
            #[trigger] id[i] == '-'
        } else {
            '0' <= id[i] <= '9' || 'a' <= id[i] <= 'f'
        }
}

/// `uuid::Uuid::new_v4`, printed: random, in the shape of an id.
#[verifier::external_body]
pub(crate) fn random_id() -> (id: String)
    ensures
        id_shape(id@),
{
    uuid::Uuid::new_v4().to_string()
}

/// The hour of the day counts whole hours since midnight, in UTC, on any day before or
/// after the start of 1970.
pub proof fn law_hours_count_from_midnight(day: int, hour: int, second: int)
    requires
        0 <= hour < 24,
        0 <= second < 3600,
    ensures
        hour_at(86400 * day + 3600 * hour + second) == hour,
{
    let within = 3600 * hour + second;
    assert((86400 * day + within) % 86400 == within) by {
        vstd::arithmetic::div_mod::lemma_mod_multiples_vanish(day, within, 86400);
        vstd::arithmetic::div_mod::lemma_small_mod(within as nat, 86400);
    }
    assert(within / 3600 == hour);
}

/// A log line gives the time to the millisecond and marks it as UTC; a table gives it to
/// the second.
pub proof fn law_times_are_given_so()
    ensures
        log_format() == "%Y-%m-%dT%H:%M:%S%.3fZ"@,
        table_format() == "%Y-%m-%d %H:%M:%S"@,
{
}

/// Every second from the year 0 to the year 9999, and every nanosecond into it, is a
/// point in time; beyond a second's end only the last second of a minute runs on.
pub proof fn law_common_times_are_valid(seconds: int, nanos: int)
    ensures
        -62_167_219_200 <= seconds <= 253_402_300_799 && 0 <= nanos < 1_000_000_000 ==> valid_time(
            seconds,
            nanos,
        ),
        1_000_000_000 <= nanos && seconds % 60 != 59 ==> !valid_time(seconds, nanos),
        nanos < 0 || 2_000_000_000 <= nanos ==> !valid_time(seconds, nanos),
{
}

} // verus!
