//! Points in time.
use crate::collections::Dup;
use crate::text::opt_text;
use vstd::prelude::*;

verus! {

/// Nanoseconds in a second.
pub const NANOS_PER_SEC: i128 = 1_000_000_000;

/// Nanoseconds in an hour.
pub const NANOS_PER_HOUR: i128 = 3_600_000_000_000;

/// Seconds in a day, leap seconds apart.
pub const SECS_PER_DAY: i64 = 86_400;

/// Seconds since the epoch are at least `-SECONDS_LIMIT` and below `SECONDS_LIMIT`.
pub const SECONDS_LIMIT: i64 = 10_000_000_000_000;

/// A point in time: seconds since the Unix epoch, without leap seconds, and nanoseconds. In a leap
/// second, which follows the last second of a minute, the seconds are those of that last second and
/// the nanoseconds go on from a thousand million.
#[derive(Clone, Copy, Debug, PartialEq, Eq, Structural)]
pub struct Timestamp {
    secs: i64,
    nanos: u32,
}

/// The quotient `n / d` without its fractional part (towards zero), for positive `d`.
pub open spec fn whole(n: int, d: int) -> int {
    if n >= 0 {
        n / d
    } else {
        -((-n) / d)
    }
}

/// Whether seconds and nanoseconds make up a point in time: in range, and in a leap second only at
/// the end of a minute.
pub open spec fn is_time(secs: i64, nanos: u32) -> bool {
    &&& -SECONDS_LIMIT <= secs < SECONDS_LIMIT
    &&& nanos < 2_000_000_000
    &&& nanos >= 1_000_000_000 ==> (secs as int) % 60 == 59
}

/// Nanoseconds from `earlier` to `later`. Of leap seconds only those count in which one of the two
/// lies, and within a day only: from one to a later time of day, and back.
pub open spec fn nanos_between(earlier: Timestamp, later: Timestamp) -> int {
    let day = SECS_PER_DAY as int;
    let leap: int = if later.secs() as int % day > earlier.secs() as int % day
        && earlier.in_leap_second() {
        1
    } else if (later.secs() as int % day) < earlier.secs() as int % day
        && later.in_leap_second() {
        -1
    } else {
        0
    };
    (later.secs() - earlier.secs() + leap) * NANOS_PER_SEC + later.subsec_nanos()
        - earlier.subsec_nanos()
}

/// Whole seconds from `earlier` to `later`, rounded towards zero.
pub open spec fn seconds_between(earlier: Timestamp, later: Timestamp) -> int {
    whole(nanos_between(earlier, later), NANOS_PER_SEC as int)
}

/// Whole hours from `earlier` to `later`, rounded towards zero.
pub open spec fn hours_between(earlier: Timestamp, later: Timestamp) -> int {
    whole(nanos_between(earlier, later), NANOS_PER_HOUR as int)
}

/// Where a point in time lands that is moved by some seconds: seconds and nanoseconds. One that
/// leaves a leap second counts it in going back.
pub open spec fn moved(t: Timestamp, by: int) -> (int, int) {
    if t.in_leap_second() && by > 0 {
        (t.secs() + by, t.subsec_nanos() - 1_000_000_000)
    } else if t.in_leap_second() && by < 0 {
        (t.secs() + 1 + by, t.subsec_nanos() - 1_000_000_000)
    } else {
        (t.secs() + by, t.subsec_nanos() as int)
    }
}

/// The place of seconds and nanoseconds in the order of time.
pub open spec fn rank(secs: int, nanos: int) -> int {
    secs * 2_000_000_000 + nanos
}

impl Timestamp {
    /// Whether this value is in range; true of every timestamp a program holds.
    #[verifier::type_invariant]
    pub open spec fn valid(self) -> bool {
        is_time(self.secs(), self.subsec_nanos())
    }

    /// Seconds since the epoch, rounded down.
    pub closed spec fn secs(self) -> i64 {
        self.secs
    }

    /// Nanoseconds after that second began.
    pub closed spec fn subsec_nanos(self) -> u32 {
        self.nanos
    }

    /// Whether this is in a leap second.
    pub open spec fn in_leap_second(self) -> bool {
        self.subsec_nanos() >= 1_000_000_000
    }

    /// The place in the order of time.
    pub open spec fn order(self) -> int {
        rank(self.secs() as int, self.subsec_nanos() as int)
    }

    /// The timestamp with the given seconds and nanoseconds.
    pub closed spec fn of(secs: int, nanos: int) -> Timestamp {
        Timestamp { secs: secs as i64, nanos: nanos as u32 }
    }

    /// The point `secs` seconds and `nanos` nanoseconds after the epoch, or `None` if there is no
    /// such point: out of range, or a leap second that is not at the end of a minute.
    pub fn new(secs: i64, nanos: u32) -> (r: Option<Timestamp>)
        ensures
            r is Some <==> is_time(secs, nanos),
            r matches Some(t) ==> t == Timestamp::of(secs as int, nanos as int) && t.secs() == secs
                && t.subsec_nanos() == nanos,
    {
        if secs < -SECONDS_LIMIT || secs >= SECONDS_LIMIT || nanos >= 2_000_000_000 {
            return None;
        }
        if nanos >= 1_000_000_000 {
            let mut in_minute: i64 = secs % 60;
            if in_minute < 0 {
                in_minute = in_minute + 60;
            }
            if in_minute != 59 {
                return None;
            }
        }
        Some(Timestamp { secs, nanos })
    }

    /// The epoch.
    pub fn epoch() -> (r: Timestamp)
        ensures
            r == Timestamp::of(0, 0),
            r.secs() == 0,
            r.subsec_nanos() == 0,
    {
        Timestamp { secs: 0, nanos: 0 }
    }

    /// Whether this point comes before another.
    pub fn before(&self, other: &Timestamp) -> (r: bool)
        ensures
            r == (self.order() < other.order()),
    {
        proof {
            use_type_invariant(self);
            use_type_invariant(other);
        }
        self.secs < other.secs || (self.secs == other.secs && self.nanos < other.nanos)
    }

    fn land(&self, by: i128) -> (r: (i128, u32))
        requires
            -0x1_0000_0000_0000_0000_0000 < by < 0x1_0000_0000_0000_0000_0000,
        ensures
            (r.0 as int, r.1 as int) == moved(*self, by as int),
    {
        let secs: i128 = self.secs as i128;
        if self.nanos >= 1_000_000_000 && by > 0 {
            (secs + by, self.nanos - 1_000_000_000)
        } else if self.nanos >= 1_000_000_000 && by < 0 {
            (secs + 1 + by, self.nanos - 1_000_000_000)
        } else {
            (secs + by, self.nanos)
        }
    }

    /// The point `secs` seconds later, or `None` if it is out of range.
    pub fn plus_seconds(&self, secs: u64) -> (r: Option<Timestamp>)
        ensures
            r == later_by(*self, secs),
    {
        proof {
            use_type_invariant(self);
        }
        let (to, nanos) = self.land(secs as i128);
        if to < SECONDS_LIMIT as i128 {
            Some(Timestamp { secs: to as i64, nanos })
        } else {
            None
        }
    }

    /// Whether this point comes before the one some hours before another.
    pub fn is_hours_before(&self, hours: i64, other: &Timestamp) -> (r: bool)
        ensures
            r == lies_before(*self, hours as int, *other),
    {
        proof {
            use_type_invariant(self);
            use_type_invariant(other);
        }
        let (secs, nanos) = other.land(-(hours as i128 * 3600));
        let own: i128 = self.secs as i128;
        own < secs || (own == secs && self.nanos < nanos)
    }

    fn nanos_since(&self, earlier: &Timestamp) -> (r: i128)
        ensures
            r == nanos_between(*earlier, *self),
            -30_000_000_000_000 * NANOS_PER_SEC < r < 30_000_000_000_000 * NANOS_PER_SEC,
    {
        proof {
            use_type_invariant(self);
            use_type_invariant(earlier);
        }
        let own: i64 = second_of_day(self.secs);
        let other: i64 = second_of_day(earlier.secs);
        let leap: i128 = if own > other && earlier.nanos >= 1_000_000_000 {
            1
        } else if own < other && self.nanos >= 1_000_000_000 {
            -1
        } else {
            0
        };
        let secs: i128 = self.secs as i128 - earlier.secs as i128 + leap;
        secs * NANOS_PER_SEC + self.nanos as i128 - earlier.nanos as i128
    }

    /// Whole seconds from `earlier` to this point, rounded towards zero.
    pub fn seconds_since(&self, earlier: &Timestamp) -> (r: i64)
        ensures
            r == seconds_between(*earlier, *self),
    {
        let d: i128 = self.nanos_since(earlier);
        if d >= 0 {
            (d / NANOS_PER_SEC) as i64
        } else {
            -(((-d) / NANOS_PER_SEC) as i64)
        }
    }

    /// Whole hours from `earlier` to this point, rounded towards zero.
    pub fn hours_since(&self, earlier: &Timestamp) -> (r: i64)
        ensures
            r == hours_between(*earlier, *self),
    {
        let d: i128 = self.nanos_since(earlier);
        if d >= 0 {
            (d / NANOS_PER_HOUR) as i64
        } else {
            -(((-d) / NANOS_PER_HOUR) as i64)
        }
    }
}

/// The point some seconds later. `None` if it is out of range.
pub open spec fn later_by(t: Timestamp, secs: u64) -> Option<Timestamp> {
    let (to, nanos) = moved(t, secs as int);
    if to < SECONDS_LIMIT {
        Some(Timestamp::of(to, nanos))
    } else {
        None
    }
}

/// Whether a point in time comes before the one that lies some hours before another.
pub open spec fn lies_before(t: Timestamp, hours: int, other: Timestamp) -> bool {
    let (secs, nanos) = moved(other, -(hours * 3600));
    t.order() < rank(secs, nanos)
}

/// What lies before a point that is longer ago lies before one that is less long ago.
pub proof fn longer_ago_is_before(t: Timestamp, more: int, fewer: int, other: Timestamp)
    requires
        other.valid(),
        fewer <= more,
        lies_before(t, more, other),
    ensures
        lies_before(t, fewer, other),
{
}

/// The point some seconds later lies just so many seconds ahead, as long as there is no leap second.
pub proof fn later_points_lie_ahead(t: Timestamp, secs: u64)
    requires
        t.valid(),
        !t.in_leap_second(),
    ensures
        later_by(t, secs) matches Some(u) ==> nanos_between(t, u) == secs * NANOS_PER_SEC && u.order()
            >= t.order() && (secs > 0 ==> u.order() > t.order()),
{
}

/// Of two points in time the one that comes first in the order of time lies before the other, as long
/// as there is no leap second.
pub proof fn order_goes_by_the_time(a: Timestamp, b: Timestamp)
    requires
        !a.in_leap_second() && !b.in_leap_second(),
    ensures
        a.order() < b.order() <==> nanos_between(a, b) > 0,
        a.order() == b.order() <==> nanos_between(a, b) == 0,
        nanos_between(a, b) == -nanos_between(b, a),
{
}

fn second_of_day(secs: i64) -> (r: i64)
    ensures
        r == secs as int % SECS_PER_DAY as int,
{
    let r: i64 = secs % SECS_PER_DAY;
    if r < 0 {
        r + SECS_PER_DAY
    } else {
        r
    }
}

/// What `chrono` reads in a text: seconds since the epoch and nanoseconds, which go on in a leap
/// second, or `None` if it is no date and time.
pub uninterp spec fn parsed_time(text: Seq<char>) -> Option<(i64, u32)>;

/// The timestamp a text stands for.
pub open spec fn time_of(text: Seq<char>) -> Option<Timestamp> {
    match parsed_time(text) {
        Some(p) => if is_time(p.0, p.1) {
            Some(Timestamp::of(p.0 as int, p.1 as int))
        } else {
            None
        },
        None => None,
    }
}

/// `chrono`'s `FromStr` for `DateTime<Utc>`; the result is taken apart by `timestamp` and
/// `timestamp_subsec_nanos`, an error becomes `None`.
#[verifier::external_body]
fn read_time(text: &str) -> (r: Option<(i64, u32)>)
    ensures
        r == parsed_time(text@),
{
    match text.parse::<chrono::DateTime<chrono::Utc>>() {
        Ok(t) => Some((t.timestamp(), t.timestamp_subsec_nanos())),
        Err(_) => None,
    }
}

impl Timestamp {
    /// The timestamp a text stands for, or `None` if it is no date and time.
    pub fn parse(text: &str) -> (r: Option<Timestamp>)
        ensures
            r == time_of(text@),
    {
        match read_time(text) {
            Some(p) => Timestamp::new(p.0, p.1),
            None => None,
        }
    }
}

/// What `chrono` writes for a time, given as seconds since the epoch and nanoseconds, by a pattern:
/// `None` if it is out of the range of `chrono`.
pub uninterp spec fn formatted_time(secs: i64, nanos: u32, pattern: Seq<char>) -> Option<Seq<char>>;

/// `chrono`'s `DateTime::from_timestamp` and `DateTime::format`, for the two patterns in use.
#[verifier::external_body]
fn write_time(secs: i64, nanos: u32, pattern: &str) -> (r: Option<String>)
    requires
        pattern@ == "%Y-%m-%d %H:%M:%S"@ || pattern@ == "%H:%M:%S UTC"@,
    ensures
        opt_text(r) == formatted_time(secs, nanos, pattern@),
{
    let time = chrono::DateTime::from_timestamp(secs, nanos)?;
    Some(time.format(pattern).to_string())
}

impl Timestamp {
    /// The time by a pattern. `None` if it is out of the range of the calendar.
    pub fn format(&self, pattern: &str) -> (r: Option<String>)
        requires
            pattern@ == "%Y-%m-%d %H:%M:%S"@ || pattern@ == "%H:%M:%S UTC"@,
        ensures
            opt_text(r) == formatted_time(self.secs(), self.subsec_nanos(), pattern@),
    {
        let (secs, nanos) = self.parts();
        write_time(secs, nanos, pattern)
    }

    /// Seconds since the epoch, rounded down, and nanoseconds, which go on in a leap second.
    pub fn parts(&self) -> (r: (i64, u32))
        ensures
            r.0 == self.secs(),
            r.1 == self.subsec_nanos(),
            *self == Timestamp::of(r.0 as int, r.1 as int),
    {
        (self.secs, self.nanos)
    }
}

impl View for Timestamp {
    type V = Timestamp;

    open spec fn view(&self) -> Timestamp {
        *self
    }
}

impl Dup for Timestamp {
    fn dup(&self) -> (r: Timestamp) {
        *self
    }
}

impl Default for Timestamp {
    fn default() -> (r: Timestamp)
        ensures
            r == Timestamp::of(0, 0),
    {
        Timestamp::epoch()
    }
}

} // verus!
