//! Instants, durations, calendar days and time zones.
//!
//! A [`Timestamp`] is a moment in UTC and a [`Span`] a signed length of time; what a
//! calendar has to say about them comes from `chrono`. [`Instant`] and [`Duration`] belong
//! to a monotonic clock.

use chrono::{Datelike, TimeZone};
use vstd::prelude::*;

verus! {

/// Nanoseconds in a second.
pub const NANOS: u32 = 1_000_000_000;

/// Seconds in a day.
pub const DAY_SECS: i64 = 86_400;

/// The number of 1 January 1970, where 1 January of the year 1 is day 1.
pub const EPOCH_DAY: i64 = 719_163;

/// The first day that `chrono` can represent, 1 January -262143.
pub const FIRST_DAY: i32 = -95_746_129;

/// The last day that `chrono` can represent, 31 December 262142.
pub const LAST_DAY: i32 = 95_745_399;

/// Midnight at the start of [`FIRST_DAY`].
pub const FIRST_SECOND: i64 = -8_334_601_228_800;

/// The last second of [`LAST_DAY`].
pub const LAST_SECOND: i64 = 8_210_266_876_799;

/// The most whole days that a [`Span`] can hold.
pub const MAX_SPAN_DAYS: i64 = 106_751_991_167;

/// A length of time on the monotonic clock.
#[derive(Debug, Clone, Copy, PartialEq, Eq, PartialOrd, Ord, Structural)]
pub struct Duration {
    pub nanos: u128,
}

impl Duration {
    pub fn from_millis(ms: u64) -> (d: Duration)
        ensures
            d.nanos == ms * 1_000_000,
    {
        Duration { nanos: ms as u128 * 1_000_000 }
    }

    pub fn from_secs(secs: u64) -> (d: Duration)
        ensures
            d.nanos == secs * NANOS,
    {
        Duration { nanos: secs as u128 * 1_000_000_000 }
    }
}

/// A reading of the monotonic clock, in nanoseconds since some fixed point.
#[derive(Debug, Clone, Copy, PartialEq, Eq, PartialOrd, Ord, Structural)]
pub struct Instant {
    pub nanos: u128,
}

impl Instant {
    /// The time from `earlier` to this reading, in nanoseconds; none if `earlier` is later.
    pub open spec fn since(self, earlier: Instant) -> int {
        if self.nanos >= earlier.nanos {
            self.nanos - earlier.nanos
        } else {
            0
        }
    }

    pub fn duration_since(&self, earlier: Instant) -> (d: Duration)
        ensures
            d.nanos == self.since(earlier),
    {
        Duration { nanos: self.nanos.saturating_sub(earlier.nanos) }
    }
}

/// A moment in UTC: seconds since 1970 and nanoseconds within the second.
///
/// During a leap second `secs` stays at the second before it and `nanos` runs on past
/// [`NANOS`].
#[derive(Debug, Clone, Copy, PartialEq, Eq, PartialOrd, Ord, Structural)]
pub struct Timestamp {
    pub secs: i64,
    pub nanos: u32,
}

/// A signed length of time. `secs` is rounded towards zero, and `nanos` is the rest with the
/// same sign.
#[derive(Debug, Clone, Copy, PartialEq, Eq, Structural)]
pub struct Span {
    pub secs: i64,
    pub nanos: i32,
}

/// A calendar day, counted from 1 January of the year 1, which is day 1.
#[derive(Debug, Clone, Copy, PartialEq, Eq, PartialOrd, Ord, Structural)]
pub struct Date {
    pub day: i32,
}

/// Where calendar days begin.
#[derive(Debug, Clone, Copy, PartialEq, Eq, Structural)]
pub enum Zone {
    /// So many seconds east of UTC, all year round.
    Fixed(i32),
    /// The time zone of this machine.
    Local,
}

/// A second that lies on a day `chrono` can represent.
pub open spec fn second_in_range(secs: int) -> bool {
    FIRST_SECOND <= secs <= LAST_SECOND
}

impl Timestamp {
    /// `chrono` can represent this moment.
    pub open spec fn valid(self) -> bool {
        &&& second_in_range(self.secs as int)
        &&& (self.nanos < NANOS || (self.nanos < 2 * NANOS && self.secs as int % 60 == 59))
    }

    /// The moment lies two days inside the range of `chrono`, so that its local day and the
    /// next can be represented in every time zone.
    pub open spec fn well_inside(self) -> bool {
        self.valid() && second_in_range(self.secs - 2 * DAY_SECS) && second_in_range(
            self.secs + 2 * DAY_SECS,
        )
    }

    /// This moment comes before `other`.
    pub open spec fn earlier(self, other: Timestamp) -> bool {
        self.secs < other.secs || (self.secs == other.secs && self.nanos < other.nanos)
    }

    /// Nanoseconds since 1970, on a scale without leap seconds.
    pub open spec fn linear(self) -> int {
        self.secs * NANOS + self.nanos
    }

    /// Seconds since the midnight before.
    pub open spec fn second_of_day(self) -> int {
        self.secs as int % DAY_SECS as int
    }

    pub fn is_before(&self, other: Timestamp) -> (r: bool)
        ensures
            r == self.earlier(other),
    {
        self.secs < other.secs || (self.secs == other.secs && self.nanos < other.nanos)
    }

    /// Whether this moment is at least two days away from the ends of the calendar.
    pub fn is_well_inside(&self) -> (r: bool)
        ensures
            r == self.well_inside(),
    {
        self.is_valid() && FIRST_SECOND + 2 * DAY_SECS <= self.secs && self.secs <= LAST_SECOND - 2
            * DAY_SECS
    }

    /// Whether [`DateTime`](chrono::DateTime) can represent the moment.
    pub fn is_valid(&self) -> (r: bool)
        ensures
            r == self.valid(),
    {
        let minute_end = self.secs % 60 == 59 || self.secs % 60 == -1;
        proof {
            let s = self.secs as int;
            assert(s % 60 == 59 <==> minute_end);
        }
        FIRST_SECOND <= self.secs && self.secs <= LAST_SECOND && (self.nanos < NANOS || (
        self.nanos < 2_000_000_000 && minute_end))
    }
}

/// The order of moments is total and strict.
pub proof fn earlier_is_a_strict_total_order(a: Timestamp, b: Timestamp, c: Timestamp)
    ensures
        !a.earlier(a),
        a.earlier(b) && b.earlier(c) ==> a.earlier(c),
        a == b || a.earlier(b) || b.earlier(a),
        !(a.earlier(b) && b.earlier(a)),
{
}

impl Span {
    /// The length in nanoseconds.
    pub open spec fn total(self) -> int {
        self.secs * NANOS + self.nanos
    }

    /// `chrono` can represent this length: it is at most `i64::MAX` milliseconds either way.
    pub open spec fn valid(self) -> bool {
        &&& -(NANOS as int) < self.nanos < NANOS
        &&& self.secs > 0 ==> self.nanos >= 0
        &&& self.secs < 0 ==> self.nanos <= 0
        &&& -(i64::MAX * 1_000_000) <= self.total() <= i64::MAX * 1_000_000
    }

    /// So many days.
    pub fn days(days: i64) -> (s: Span)
        requires
            -MAX_SPAN_DAYS <= days <= MAX_SPAN_DAYS,
        ensures
            s.valid(),
            s.total() == days * DAY_SECS * NANOS,
    {
        Span { secs: days * 86_400, nanos: 0 }
    }

    /// So many minutes.
    pub fn minutes(minutes: i64) -> (s: Span)
        requires
            -MAX_SPAN_DAYS * 1440 <= minutes <= MAX_SPAN_DAYS * 1440,
        ensures
            s.valid(),
            s.total() == minutes * 60 * NANOS,
    {
        Span { secs: minutes * 60, nanos: 0 }
    }

    /// This length is greater than `other`.
    pub fn exceeds(&self, other: Span) -> (r: bool)
        ensures
            r == (self.total() > other.total()),
    {
        let a: i128 = self.secs as i128 * 1_000_000_000 + self.nanos as i128;
        let b: i128 = other.secs as i128 * 1_000_000_000 + other.nanos as i128;
        a > b
    }
}

/// The time from `b` to `a`, in nanoseconds. A leap second counts when one of the two moments
/// lies in it and the other is at a different time of day, on its far side.
pub open spec fn nanos_between(a: Timestamp, b: Timestamp) -> int {
    a.linear() - b.linear() + if a.second_of_day() > b.second_of_day() && b.nanos >= NANOS {
        NANOS as int
    } else if a.second_of_day() < b.second_of_day() && a.nanos >= NANOS {
        -(NANOS as int)
    } else {
        0
    }
}

/// The moment `linear` nanoseconds after 1970, outside any leap second.
pub open spec fn at_linear(linear: int) -> (int, int) {
    (linear / (NANOS as int), linear % (NANOS as int))
}

/// Seconds and nanoseconds of the moment `by` nanoseconds after `t`.
///
/// From within a leap second, a step of less than a second that does not run past its end
/// stays at the same `secs`; a longer one leaves the leap second, whose length is left out
/// going forward and counted going back.
pub open spec fn shifted(t: Timestamp, by: int) -> (int, int) {
    if t.nanos < NANOS || by <= -(NANOS as int) {
        at_linear(t.linear() + by)
    } else if by >= NANOS || t.nanos + by >= 2 * NANOS {
        at_linear(t.linear() - NANOS + by)
    } else {
        (t.secs as int, t.nanos + by)
    }
}

/// The moment `by` nanoseconds after `t`.
pub open spec fn moved(t: Timestamp, by: int) -> Timestamp {
    Timestamp { secs: shifted(t, by).0 as i64, nanos: shifted(t, by).1 as u32 }
}

/// `DateTime::from_timestamp`: the moment, if `chrono` can represent it.
#[verifier::external_body]
pub(crate) fn from_timestamp(secs: i64, nanos: u32) -> (t: Option<Timestamp>)
    ensures
        t is Some <==> (Timestamp { secs, nanos }).valid(),
        t matches Some(t) ==> t == (Timestamp { secs, nanos }),
{
    let t = chrono::DateTime::from_timestamp(secs, nanos)?;
    Some(Timestamp { secs: t.timestamp(), nanos: t.timestamp_subsec_nanos() })
}

/// `DateTime::from_timestamp_millis`: the moment so many milliseconds after 1970, if `chrono`
/// can represent it.
#[verifier::external_body]
pub(crate) fn from_timestamp_millis(ms: i64) -> (t: Option<Timestamp>)
    ensures
        t is Some <==> second_in_range(ms as int / 1000),
        t matches Some(t) ==> t.secs == ms as int / 1000 && t.nanos == ms as int % 1000 * 1_000_000,
{
    let t = chrono::DateTime::from_timestamp_millis(ms)?;
    Some(Timestamp { secs: t.timestamp(), nanos: t.timestamp_subsec_nanos() })
}

/// Seconds and nanoseconds of the moment that an RFC 3339 text stands for, as
/// `DateTime::parse_from_rfc3339` reads it; none if it rejects the text.
pub uninterp spec fn rfc3339(text: Seq<char>) -> Option<(i64, u32)>;

/// The moment that an RFC 3339 text stands for.
pub open spec fn rfc3339_moment(text: Seq<char>) -> Option<Timestamp> {
    match rfc3339(text) {
        Some((secs, nanos)) => Some(Timestamp { secs, nanos }),
        None => None,
    }
}

/// `DateTime::parse_from_rfc3339`, with the result taken to UTC. What it accepts is left to
/// `chrono`; a moment it returns is one that `chrono` can represent.
#[verifier::external_body]
pub(crate) fn parse_rfc3339(text: &str) -> (t: Option<Timestamp>)
    ensures
        t is None <==> rfc3339(text@) is None,
        t matches Some(t) ==> rfc3339(text@) == Some((t.secs, t.nanos)) && t.valid(),
{
    let t = chrono::DateTime::parse_from_rfc3339(text).ok()?.with_timezone(&chrono::Utc);
    Some(Timestamp { secs: t.timestamp(), nanos: t.timestamp_subsec_nanos() })
}

/// `DateTime::signed_duration_since`: the time from `b` to `a`.
#[verifier::external_body]
pub(crate) fn signed_duration_since(a: Timestamp, b: Timestamp) -> (d: Span)
    requires
        a.valid(),
        b.valid(),
    ensures
        d.valid(),
        d.total() == nanos_between(a, b),
{
    let a = chrono::DateTime::from_timestamp(a.secs, a.nanos).unwrap();
    let b = chrono::DateTime::from_timestamp(b.secs, b.nanos).unwrap();
    let d = a.signed_duration_since(b);
    Span { secs: d.num_seconds(), nanos: d.subsec_nanos() }
}

/// `DateTime::checked_sub_signed`: the moment `d` before `t`, if `chrono` can represent it.
#[verifier::external_body]
pub(crate) fn checked_sub_signed(t: Timestamp, d: Span) -> (r: Option<Timestamp>)
    requires
        t.valid(),
        d.valid(),
    ensures
        r is Some <==> second_in_range(shifted(t, -d.total()).0),
        r matches Some(r) ==> r == moved(t, -d.total()) && r.valid(),
{
    let t = chrono::DateTime::from_timestamp(t.secs, t.nanos)?;
    let d = chrono::TimeDelta::seconds(d.secs) + chrono::TimeDelta::nanoseconds(d.nanos.into());
    let r = t.checked_sub_signed(d)?;
    Some(Timestamp { secs: r.timestamp(), nanos: r.timestamp_subsec_nanos() })
}

impl Date {
    /// `chrono` can represent this day.
    pub open spec fn valid(self) -> bool {
        FIRST_DAY <= self.day <= LAST_DAY
    }

    /// The second at which the day begins in UTC.
    pub open spec fn first_second(self) -> int {
        (self.day - EPOCH_DAY) * DAY_SECS
    }

    /// Midnight UTC at the start of the day.
    pub open spec fn utc_midnight(self) -> Timestamp {
        Timestamp { secs: self.first_second() as i64, nanos: 0 }
    }

    /// Whether [`NaiveDate`](chrono::NaiveDate) can represent the day.
    pub fn is_valid(&self) -> (r: bool)
        ensures
            r == self.valid(),
    {
        FIRST_DAY <= self.day && self.day <= LAST_DAY
    }

    /// Midnight UTC at the start of the day.
    pub fn midnight(&self) -> (t: Timestamp)
        requires
            self.valid(),
        ensures
            t == self.utc_midnight(),
            t.secs == self.first_second(),
            t.valid(),
    {
        Timestamp { secs: (self.day as i64 - EPOCH_DAY) * DAY_SECS, nanos: 0 }
    }
}

impl Zone {
    /// A fixed offset is less than a day.
    pub open spec fn valid(self) -> bool {
        self matches Zone::Fixed(east) ==> -DAY_SECS < east < DAY_SECS
    }
}

/// The second at which a clock `east` seconds ahead of UTC shows `minutes` past midnight on
/// `date`.
pub open spec fn fixed_second(east: int, date: Date, minutes: int) -> int {
    date.first_second() + minutes * 60 - east
}

/// `TimeZone::from_local_datetime` of a `FixedOffset`, earliest answer, as a moment in UTC:
/// there is one unless it lies outside the range of `chrono`.
#[verifier::external_body]
fn fixed_lookup(east: i32, date: Date, minutes: i64) -> (t: Option<Timestamp>)
    requires
        -DAY_SECS < east < DAY_SECS,
        date.valid(),
        0 <= minutes < 1440,
    ensures
        t is Some <==> second_in_range(fixed_second(east as int, date, minutes as int)),
        t matches Some(t) ==> t.secs == fixed_second(east as int, date, minutes as int) && t.nanos
            == 0,
{
    let day = chrono::NaiveDate::from_num_days_from_ce_opt(date.day)?;
    let clock = day.and_hms_opt(0, 0, 0)? + chrono::TimeDelta::minutes(minutes);
    let t = chrono::FixedOffset::east_opt(east)?.from_local_datetime(&clock).earliest()?;
    Some(Timestamp { secs: t.timestamp(), nanos: t.timestamp_subsec_nanos() })
}

/// `TimeZone::from_local_datetime` of `Local`, earliest answer, as a moment in UTC. Which
/// moment it is, and whether there is one, depends on this machine's time zone, which is less
/// than a day away from UTC.
#[verifier::external_body]
fn machine_lookup(date: Date, minutes: i64) -> (t: Option<Timestamp>)
    requires
        date.valid(),
        0 <= minutes < 1440,
    ensures
        t matches Some(t) ==> t.valid() && t.nanos == 0 && -DAY_SECS < fixed_second(
            0,
            date,
            minutes as int,
        ) - t.secs < DAY_SECS,
{
    let day = chrono::NaiveDate::from_num_days_from_ce_opt(date.day)?;
    let clock = day.and_hms_opt(0, 0, 0)? + chrono::TimeDelta::minutes(minutes);
    let t = chrono::Local.from_local_datetime(&clock).earliest()?;
    Some(Timestamp { secs: t.timestamp(), nanos: t.timestamp_subsec_nanos() })
}

/// `DateTime::date_naive` after `with_timezone` to a `FixedOffset`: the day that the clock of
/// that offset shows.
#[verifier::external_body]
fn fixed_date(east: i32, t: Timestamp) -> (d: Date)
    requires
        -DAY_SECS < east < DAY_SECS,
        t.valid(),
        second_in_range(t.secs + east),
    ensures
        d.day == (t.secs + east) / DAY_SECS as int + EPOCH_DAY,
{
    let t = chrono::DateTime::from_timestamp(t.secs, t.nanos).unwrap();
    let zone = chrono::FixedOffset::east_opt(east).unwrap();
    Date { day: t.with_timezone(&zone).date_naive().num_days_from_ce() }
}

/// `DateTime::date_naive` after `with_timezone` to `Local`. Which day it is depends on this
/// machine's time zone, which is less than a day away from UTC.
#[verifier::external_body]
fn machine_date(t: Timestamp) -> (d: Date)
    requires
        t.well_inside(),
    ensures
        -1 <= d.day - (t.secs as int / DAY_SECS as int + EPOCH_DAY) <= 1,
{
    let t = chrono::DateTime::from_timestamp(t.secs, t.nanos).unwrap();
    Date { day: t.with_timezone(&chrono::Local).date_naive().num_days_from_ce() }
}

/// The local calendar day of `now`.
pub fn local_date(zone: Zone, now: Timestamp) -> (d: Date)
    requires
        zone.valid(),
        now.valid(),
        zone matches Zone::Fixed(east) ==> second_in_range(now.secs + east),
        zone is Local ==> now.well_inside(),
    ensures
        d.valid(),
        zone matches Zone::Fixed(east) ==> d.day == (now.secs + east) / DAY_SECS as int + EPOCH_DAY,
        zone is Local ==> -1 <= d.day - (now.secs as int / DAY_SECS as int + EPOCH_DAY) <= 1,
        zone is Local ==> d.day < LAST_DAY,
{
    match zone {
        Zone::Fixed(east) => fixed_date(east, now),
        Zone::Local => machine_date(now),
    }
}

/// The first moment that a list of lookups holds, or else `fallback`.
pub open spec fn first_found(lookups: Seq<Option<Timestamp>>, fallback: Timestamp) -> Timestamp
    decreases lookups.len(),
{
    if lookups.len() == 0 {
        fallback
    } else if lookups[0] is Some {
        lookups[0]->0
    } else {
        first_found(lookups.skip(1), fallback)
    }
}

/// Minutes past midnight at which a day is looked for to begin: clocks that go forward at
/// midnight skip up to two hours.
pub open spec fn midnight_tries() -> Seq<int> {
    seq![0int, 30, 60, 90, 120]
}

/// What [`midnight_tries`] find for a clock `east` seconds ahead of UTC.
pub open spec fn fixed_lookups(east: int, date: Date) -> Seq<Option<Timestamp>> {
    Seq::new(
        5,
        |i: int|
            {
                let secs = fixed_second(east, date, midnight_tries()[i]);
                if second_in_range(secs) {
                    Some(Timestamp { secs: secs as i64, nanos: 0 })
                } else {
                    None
                }
            },
    )
}

/// The moment at which `date` begins for a clock `east` seconds ahead of UTC.
pub open spec fn fixed_midnight(east: int, date: Date) -> Timestamp {
    first_found(fixed_lookups(east, date), date.utc_midnight())
}

/// `date` may begin at `t` in some time zone: a clock less than a day away from UTC may then
/// show one of [`midnight_tries`].
pub open spec fn near_midnight(t: Timestamp, date: Date) -> bool {
    t.nanos == 0 && -DAY_SECS < t.secs - date.first_second() < 120 * 60 + DAY_SECS
}

/// The start of a day for which `lookups` holds what was found at each of
/// [`midnight_tries`]: the first moment found, or else midnight UTC.
pub fn pick_midnight(date: Date, lookups: &Vec<Option<Timestamp>>) -> (t: Timestamp)
    requires
        date.valid(),
    ensures
        t == first_found(lookups@, date.utc_midnight()),
{
    let mut i: usize = 0;
    assert(lookups@.skip(0) =~= lookups@);
    while i < lookups.len()
        invariant
            i <= lookups@.len(),
            first_found(lookups@, date.utc_midnight()) == first_found(
                lookups@.skip(i as int),
                date.utc_midnight(),
            ),
        decreases lookups@.len() - i,
    {
        assert(lookups@.skip(i as int).skip(1) =~= lookups@.skip(i + 1));
        if let Some(t) = lookups[i] {
            return t;
        }
        i += 1;
    }
    date.midnight()
}

/// `lookups` may be what some time zone answers at each of [`midnight_tries`]: a clock less than
/// a day away from UTC shows so many minutes past midnight at the moment found.
pub open spec fn may_be_lookups(lookups: Seq<Option<Timestamp>>, date: Date) -> bool {
    lookups.len() == 5 && forall|k: int|
        0 <= k < 5 ==> (#[trigger] lookups[k] matches Some(t) ==> t.valid() && t.nanos == 0
            && -DAY_SECS < fixed_second(0, date, midnight_tries()[k]) - t.secs < DAY_SECS)
}

/// What a clock of `zone` answers at each of [`midnight_tries`] on `date`. In the machine's own
/// time zone that depends on the machine.
pub fn midnight_lookups(zone: Zone, date: Date) -> (r: Vec<Option<Timestamp>>)
    requires
        zone.valid(),
        date.valid(),
    ensures
        r@.len() == 5,
        zone matches Zone::Fixed(east) ==> r@ == fixed_lookups(east as int, date),
        zone is Local ==> may_be_lookups(r@, date),
        forall|k: int| 0 <= k < 5 ==> (#[trigger] r@[k] matches Some(t) ==> t.valid()),
{
    let tries: [i64; 5] = [0, 30, 60, 90, 120];
    let mut lookups: Vec<Option<Timestamp>> = Vec::new();
    let mut i: usize = 0;
    while i < 5
        invariant
            i <= 5,
            zone.valid(),
            date.valid(),
            tries@ =~= seq![0i64, 30, 60, 90, 120],
            lookups@.len() == i,
            forall|k: int|
                0 <= k < i ==> (#[trigger] lookups@[k] matches Some(t) ==> t.valid() && (
                zone is Local ==> t.nanos == 0 && -DAY_SECS < fixed_second(
                    0,
                    date,
                    midnight_tries()[k],
                ) - t.secs < DAY_SECS)),
            zone matches Zone::Fixed(east) ==> lookups@ =~= fixed_lookups(east as int, date).take(
                i as int,
            ),
        decreases 5 - i,
    {
        let found = match zone {
            Zone::Fixed(east) => fixed_lookup(east, date, tries[i]),
            Zone::Local => machine_lookup(date, tries[i]),
        };
        lookups.push(found);
        i += 1;
    }
    proof {
        if let Zone::Fixed(east) = zone {
            assert(lookups@ =~= fixed_lookups(east as int, date));
        }
    }
    lookups
}

/// The moment at which `date` begins in `zone`. In the machine's own time zone which moment
/// that is depends on the machine.
pub fn local_midnight(zone: Zone, date: Date) -> (t: Timestamp)
    requires
        zone.valid(),
        date.valid(),
    ensures
        t.valid(),
        may_begin(t, zone, date),
        zone matches Zone::Fixed(east) ==> t == fixed_midnight(east as int, date),
        zone is Local ==> near_midnight(t, date),
{
    let lookups = midnight_lookups(zone, date);
    proof {
        lemma_first_found(lookups@, date.utc_midnight());
        if zone is Local {
            lemma_found_near_midnight(lookups@, date);
        }
    }
    pick_midnight(date, &lookups)
}

/// `date` may begin at `t` in `zone`: for a fixed offset it does; in the machine's own time zone
/// `t` is the first moment that some clock less than a day away from UTC answers at one of
/// [`midnight_tries`], or else midnight UTC.
pub open spec fn may_begin(t: Timestamp, zone: Zone, date: Date) -> bool {
    match zone {
        Zone::Fixed(east) => t == fixed_midnight(east as int, date),
        Zone::Local => exists|lookups: Seq<Option<Timestamp>>|
            #[trigger] may_be_lookups(lookups, date) && t == first_found(
                lookups,
                date.utc_midnight(),
            ),
    }
}

/// Where a day may begin in the machine's own time zone is near its midnight.
pub proof fn days_begin_near_midnight(t: Timestamp, date: Date)
    requires
        date.valid(),
        may_begin(t, Zone::Local, date),
    ensures
        near_midnight(t, date),
{
    let lookups = choose|lookups: Seq<Option<Timestamp>>|
        #[trigger] may_be_lookups(lookups, date) && t == first_found(
            lookups,
            date.utc_midnight(),
        );
    lemma_found_near_midnight(lookups, date);
}

proof fn lemma_found_near_midnight(lookups: Seq<Option<Timestamp>>, date: Date)
    requires
        date.valid(),
        may_be_lookups(lookups, date),
    ensures
        near_midnight(first_found(lookups, date.utc_midnight()), date),
{
    lemma_first_found(lookups, date.utc_midnight());
    let t = first_found(lookups, date.utc_midnight());
    if t != date.utc_midnight() {
        let k = choose|k: int| 0 <= k < lookups.len() && #[trigger] lookups[k] == Some(t);
        assert(0 <= midnight_tries()[k] <= 120);
    }
}

proof fn lemma_first_found(lookups: Seq<Option<Timestamp>>, fallback: Timestamp)
    ensures
        ({
            let t = first_found(lookups, fallback);
            t == fallback || exists|k: int|
                0 <= k < lookups.len() && #[trigger] lookups[k] == Some(t)
        }),
    decreases lookups.len(),
{
    if lookups.len() > 0 && lookups[0] is None {
        let rest = lookups.skip(1);
        lemma_first_found(rest, fallback);
        let t = first_found(rest, fallback);
        if t != fallback {
            let k = choose|k: int| 0 <= k < rest.len() && #[trigger] rest[k] == Some(t);
            assert(lookups[k + 1] == Some(t));
        }
    }
}

/// A clock with a fixed offset never skips midnight: where its midnight can be represented,
/// that is where the day begins.
pub proof fn fixed_midnight_is_exact(east: int, date: Date)
    requires
        second_in_range(fixed_second(east, date, 0)),
    ensures
        fixed_midnight(east, date) == (Timestamp {
            secs: fixed_second(east, date, 0) as i64,
            nanos: 0,
        }),
{
    assert(fixed_lookups(east, date)[0] is Some);
}

/// A day as text, as `NaiveDate::format` writes it.
pub uninterp spec fn date_text(day: i32, format: Seq<char>) -> Seq<char>;

/// `NaiveDate::format` with day of the week, day and month. How they are written is left to
/// `chrono`, which does not look at the locale.
#[verifier::external_body]
pub(crate) fn format_date(date: Date, format: &str) -> (s: String)
    requires
        date.valid(),
        format@ == "%a %d %b"@,
    ensures
        s@ == date_text(date.day, format@),
{
    let day = chrono::NaiveDate::from_num_days_from_ce_opt(date.day).unwrap();
    day.format(format).to_string()
}

/// What a clock shows that is at `second`, counted from 1970, as `DateTime::format` writes it.
pub uninterp spec fn clock_text(second: int, format: Seq<char>) -> Seq<char>;

/// An offset from UTC, which is less than a day.
pub open spec fn offset(east: int) -> int {
    if -DAY_SECS < east < DAY_SECS {
        east
    } else {
        0
    }
}

/// `text` is what a clock less than a day away from UTC shows at `t`.
pub open spec fn is_local_text(text: Seq<char>, t: Timestamp, format: Seq<char>) -> bool {
    exists|east: int| text == clock_text(t.secs + #[trigger] offset(east), format)
}

/// How a local time is written, always to the minute.
#[derive(Debug, Clone, Copy, PartialEq, Eq, Structural)]
pub enum ClockStyle {
    /// Hour and minute.
    Time,
    /// With the day of the week.
    WeekdayTime,
    /// With month and day.
    MonthDayTime,
    /// With the day of the week, day and month.
    DateTime,
}

impl ClockStyle {
    pub open spec fn format(self) -> Seq<char> {
        match self {
            ClockStyle::Time => "%H:%M"@,
            ClockStyle::WeekdayTime => "%a %H:%M"@,
            ClockStyle::MonthDayTime => "%m-%d %H:%M"@,
            ClockStyle::DateTime => "%a %d %b %H:%M"@,
        }
    }
}

/// `DateTime::format`, after `with_timezone` to `Local`. The text depends on what a clock of
/// this machine's time zone shows, to the minute; how that is written is left to `chrono`,
/// which does not look at the locale.
#[verifier::external_body]
fn format_local(t: Timestamp, format: &str) -> (s: String)
    requires
        t.valid(),
        exists|style: ClockStyle| format@ == #[trigger] style.format(),
    ensures
        exists|east: int| s@ == clock_text(t.secs + #[trigger] offset(east), format@),
{
    let t = chrono::DateTime::from_timestamp(t.secs, t.nanos).unwrap();
    t.with_timezone(&chrono::Local).format(format).to_string()
}

/// The moment as a clock of this machine's time zone shows it.
pub fn local_text(t: Timestamp, style: ClockStyle) -> (s: String)
    requires
        t.valid(),
    ensures
        is_local_text(s@, t, style.format()),
{
    let format = match style {
        ClockStyle::Time => "%H:%M",
        ClockStyle::WeekdayTime => "%a %H:%M",
        ClockStyle::MonthDayTime => "%m-%d %H:%M",
        ClockStyle::DateTime => "%a %d %b %H:%M",
    };
    assert(format@ == style.format());
    format_local(t, format)
}

/// A moment with the offset of a clock `east` seconds ahead of UTC, as `DateTime::to_string`
/// writes it.
pub uninterp spec fn stamp_text(secs: i64, nanos: u32, east: int) -> Seq<char>;

/// `DateTime::to_string`, after `with_timezone` to `Local`: date, time and offset. The text
/// depends on this machine's time zone; how it is written is left to `chrono`.
#[verifier::external_body]
fn stamp_local(t: Timestamp) -> (s: String)
    requires
        t.valid(),
    ensures
        exists|east: int| s@ == stamp_text(t.secs, t.nanos, #[trigger] offset(east)),
{
    let t = chrono::DateTime::from_timestamp(t.secs, t.nanos).unwrap();
    t.with_timezone(&chrono::Local).to_string()
}

/// The moment with date, time and offset of this machine's time zone.
pub fn local_stamp(t: Timestamp) -> (s: String)
    requires
        t.valid(),
    ensures
        exists|east: int| s@ == stamp_text(t.secs, t.nanos, #[trigger] offset(east)),
{
    stamp_local(t)
}

/// Moments are ordered by their seconds, and within a second by their nanoseconds.
pub proof fn how_moments_are_ordered(a: Timestamp, b: Timestamp)
    ensures
        a.secs < b.secs ==> a.earlier(b),
        a.secs > b.secs ==> !a.earlier(b),
        a.secs == b.secs ==> (a.earlier(b) <==> a.nanos < b.nanos),
{
}

/// The time since a reading of the monotonic clock is the difference, and never negative.
pub proof fn time_passes(a: Instant, b: Instant)
    ensures
        a.nanos >= b.nanos ==> b.nanos + a.since(b) == a.nanos,
        a.nanos <= b.nanos ==> a.since(b) == 0,
{
}

/// Moments are valid from the first to the last second of the calendar, with nanoseconds of one
/// second, or of two in the last second of a minute.
pub proof fn which_moments_are_valid(t: Timestamp)
    ensures
        t.valid() <==> -8_334_601_228_800 <= t.secs <= 8_210_266_876_799 && (t.nanos < 1_000_000_000
            || (t.nanos < 2_000_000_000 && (t.secs - 59) % 60 == 0)),
        t.well_inside() <==> t.valid() && -8_334_601_228_800 + 172_800 <= t.secs
            <= 8_210_266_876_799 - 172_800,
        second_in_range(t.secs as int) <==> -8_334_601_228_800 <= t.secs <= 8_210_266_876_799,
{
}

/// The length of a span is that of its seconds and its nanoseconds.
pub proof fn how_long_spans_are(s: Span)
    ensures
        s.total() == s.secs * 1_000_000_000 + s.nanos,
{
}

/// Outside leap seconds the time between two moments is the difference of their times, and
/// a moment so far from another is just that far from it.
pub proof fn moments_are_as_far_apart_as_their_times(a: Timestamp, b: Timestamp, by: int)
    requires
        a.nanos < 1_000_000_000,
        b.nanos < 1_000_000_000,
        second_in_range(shifted(a, by).0),
    ensures
        nanos_between(a, b) == (a.secs - b.secs) * 1_000_000_000 + (a.nanos - b.nanos),
        moved(a, by).nanos < 1_000_000_000,
        (moved(a, by).secs - a.secs) * 1_000_000_000 + (moved(a, by).nanos - a.nanos) == by,
{
    assert(a.secs * 1_000_000_000 - b.secs * 1_000_000_000 == (a.secs - b.secs) * 1_000_000_000);
    let l = a.linear() + by;
    assert(l == l / 1_000_000_000 * 1_000_000_000 + l % 1_000_000_000);
}

/// A day begins so many times 86,400 seconds after 1970 as its number says, in UTC; its clock
/// shows so many minutes past midnight that much later, and earlier further east.
pub proof fn where_days_begin(date: Date, east: int, minutes: int)
    requires
        date.valid(),
    ensures
        date.first_second() == (date.day - 719_163) * 86_400,
        date.utc_midnight().secs == (date.day - 719_163) * 86_400,
        date.utc_midnight().nanos == 0,
        fixed_second(east, date, minutes) == (date.day - 719_163) * 86_400 + 60 * minutes - east,
{
}

/// Days are valid from the first to the last of the calendar, and offsets below a day.
pub proof fn which_days_and_zones_are_valid(date: Date, zone: Zone)
    ensures
        date.valid() <==> -95_746_129 <= date.day <= 95_745_399,
        zone.valid() <==> zone is Local || -86_400 < zone->0 < 86_400,
{
}

/// The first lookup that found something decides, and none that comes after it.
pub proof fn the_first_lookup_decides(
    lookups: Seq<Option<Timestamp>>,
    fallback: Timestamp,
    i: int,
)
    requires
        0 <= i <= lookups.len(),
        forall|k: int| 0 <= k < i ==> #[trigger] lookups[k] is None,
    ensures
        i < lookups.len() && lookups[i] is Some ==> first_found(lookups, fallback)
            == lookups[i]->0,
        i == lookups.len() ==> first_found(lookups, fallback) == fallback,
    decreases i,
{
    if i > 0 {
        assert(lookups[0] is None);
        let rest = lookups.skip(1);
        assert forall|k: int| 0 <= k < i - 1 implies #[trigger] rest[k] is None by {
            assert(rest[k] == lookups[k + 1]);
        }
        the_first_lookup_decides(rest, fallback, i - 1);
    }
}

/// Midnight is looked for every half hour up to two hours past it.
pub proof fn where_midnight_is_looked_for(i: int)
    requires
        0 <= i < 5,
    ensures
        midnight_tries().len() == 5,
        midnight_tries()[i] == 30 * i,
{
}

/// The lookups of a clock with a fixed offset find each of these minutes, as far as the calendar
/// reaches.
pub proof fn what_a_fixed_clock_answers(east: int, date: Date, i: int)
    requires
        0 <= i < 5,
    ensures
        ({
            let secs = (date.day - 719_163) * 86_400 + 1_800 * i - east;
            let inside = -8_334_601_228_800 <= secs <= 8_210_266_876_799;
            &&& fixed_lookups(east, date).len() == 5
            &&& inside ==> fixed_lookups(east, date)[i] == Some(
                Timestamp { secs: secs as i64, nanos: 0 },
            )
            &&& !inside ==> fixed_lookups(east, date)[i] is None
        }),
{
    where_midnight_is_looked_for(i);
}

/// A day begins, for a clock with a fixed offset, at the first of these minutes that the calendar
/// reaches, and else at midnight in UTC.
pub proof fn where_a_fixed_clocks_day_begins(east: int, date: Date)
    ensures
        fixed_midnight(east, date) == first_found(fixed_lookups(east, date), date.utc_midnight()),
        ({
            let secs = (date.day - 719_163) * 86_400 - east;
            -8_334_601_228_800 <= secs <= 8_210_266_876_799 ==> fixed_midnight(east, date) == (
            Timestamp { secs: secs as i64, nanos: 0 })
        }),
{
    what_a_fixed_clock_answers(east, date, 0);
}

/// What is asked of the machine's own zone: an answer at one of these minutes is a moment at
/// which a clock less than a day away from UTC shows it.
pub proof fn what_a_local_clock_answers(lookups: Seq<Option<Timestamp>>, date: Date, i: int)
    requires
        may_be_lookups(lookups, date),
        0 <= i < 5,
        lookups[i] is Some,
    ensures
        lookups.len() == 5,
        lookups[i]->0.nanos == 0,
        -86_400 < (date.day - 719_163) * 86_400 + 1_800 * i - lookups[i]->0.secs < 86_400,
{
    where_midnight_is_looked_for(i);
    let t = lookups[i]->0;
    assert(t.valid());
}

/// A second since 1970 is its own moment, if the calendar reaches it. The styles of a clock go
/// from the time alone to day of the week, day and month with it.
pub proof fn how_clocks_are_written()
    ensures
        ClockStyle::Time.format() == "%H:%M"@,
        ClockStyle::WeekdayTime.format() == "%a %H:%M"@,
        ClockStyle::MonthDayTime.format() == "%m-%d %H:%M"@,
        ClockStyle::DateTime.format() == "%a %d %b %H:%M"@,
{
}

/// A local text is what some clock shows that is less than a day away from UTC.
pub proof fn local_texts_are_those_of_clocks(text: Seq<char>, t: Timestamp, format: Seq<char>)
    requires
        is_local_text(text, t, format),
    ensures
        exists|second: int|
            -86_400 < second - t.secs < 86_400 && text == #[trigger] clock_text(second, format),
{
    let east = choose|east: int| text == clock_text(t.secs + #[trigger] offset(east), format);
    let second = t.secs + offset(east);
    assert(text == clock_text(second, format));
}

/// The moment of an RFC 3339 text is the one that its reading gives.
pub proof fn moments_of_texts(text: Seq<char>)
    ensures
        rfc3339(text) is None ==> rfc3339_moment(text) is None,
        rfc3339(text) matches Some(p) ==> rfc3339_moment(text) == Some(
            Timestamp { secs: p.0, nanos: p.1 },
        ),
{
}

/// In a zone with a fixed offset a day begins at one moment only; in another it begins at the
/// first that is answered, or else at midnight UTC.
pub proof fn when_a_day_may_begin(
    t: Timestamp,
    east: i32,
    date: Date,
    lookups: Seq<Option<Timestamp>>,
)
    requires
        -86_400 < east < 86_400,
        FIRST_DAY < date.day < LAST_DAY,
    ensures
        may_begin(t, Zone::Fixed(east), date) <==> t.nanos == 0 && t.secs == (date.day - 719_163)
            * 86_400 - east,
        may_be_lookups(lookups, date) ==> may_begin(
            first_found(lookups, date.utc_midnight()),
            Zone::Local,
            date,
        ),
{
    fixed_midnight_is_exact(east as int, date);
}

/// A step from within a leap second stays in it while it ends there. A longer step on leaves the
/// leap second uncounted, and a step back by a second or more counts it.
pub proof fn what_leap_seconds_do_to_steps(t: Timestamp, by: int)
    requires
        1_000_000_000 <= t.nanos < 2_000_000_000,
    ensures
        ({
            let (secs, nanos) = shifted(t, by);
            let passed = (secs - t.secs) * 1_000_000_000 + (nanos - t.nanos);
            let stays = -1_000_000_000 < by < 1_000_000_000 && t.nanos + by < 2_000_000_000;
            &&& stays ==> secs == t.secs && nanos == t.nanos + by
            &&& !stays ==> 0 <= nanos < 1_000_000_000
            &&& !stays && by > 0 ==> passed == by - 1_000_000_000
            &&& !stays && by < 0 ==> passed == by
        }),
{
    let l = t.linear() + by;
    assert(l == l / 1_000_000_000 * 1_000_000_000 + l % 1_000_000_000);
    let m = t.linear() - 1_000_000_000 + by;
    assert(m == m / 1_000_000_000 * 1_000_000_000 + m % 1_000_000_000);
}

/// Between a moment in a leap second and one later in the day there is one second more than
/// their times tell.
pub proof fn what_leap_seconds_do_to_distances(a: Timestamp, b: Timestamp)
    ensures
        ({
            let times = (a.secs - b.secs) * 1_000_000_000 + (a.nanos - b.nanos);
            let x = a.secs as int % 86_400;
            let y = b.secs as int % 86_400;
            &&& b.nanos >= 1_000_000_000 && x > y ==> nanos_between(a, b) == times + 1_000_000_000
            &&& b.nanos >= 1_000_000_000 && x <= y && a.nanos < 1_000_000_000 ==> nanos_between(a, b)
                == times
            &&& nanos_between(b, a) == -nanos_between(a, b)
        }),
{
}

/// Spans are valid if both their parts point the same way, the nanoseconds are less than a second,
/// and the whole is at most so many milliseconds as 63 bits hold.
pub proof fn which_spans_are_valid(s: Span)
    ensures
        s.valid() <==> -1_000_000_000 < s.nanos < 1_000_000_000 && !(s.secs > 0 && s.nanos < 0) && !(
        s.secs < 0 && s.nanos > 0) && -0x7fff_ffff_ffff_ffff * 1_000_000 <= s.secs * 1_000_000_000
            + s.nanos <= 0x7fff_ffff_ffff_ffff * 1_000_000,
{
}

} // verus!
