//! Instants: the bounds of the time ranges in a query.
//!
//! An instant is a number of seconds since the beginning of 1970 in UTC, and nanoseconds beyond
//! that. Reading and printing datetimes is `chrono`'s.
use crate::error::LogdiveError;
use crate::query;
use crate::query::{Duration, DurationUnit};
use crate::text;
use crate::text::{chars_of, text_between};
use chrono::{DateTime, NaiveDate, NaiveDateTime, TimeDelta, Utc};
use vstd::prelude::*;

verus! {

/// The first second that `chrono` can represent, in the year -262143.
pub const MIN_SECS: i64 = -8_334_601_228_800;

/// The last second that `chrono` can represent, in the year 262142.
pub const MAX_SECS: i64 = 8_210_266_876_799;

/// Nanoseconds in a second.
pub const NANOS_PER_SEC: u32 = 1_000_000_000;

/// An instant.
#[verifier::ext_equal]
pub struct Instant {
    pub secs: int,
    pub nanos: int,
}

/// The instants that `chrono` can represent. A leap second counts its nanoseconds on from the
/// last second of its minute.
pub open spec fn representable(t: Instant) -> bool {
    &&& MIN_SECS <= t.secs <= MAX_SECS
    &&& 0 <= t.nanos
    &&& t.nanos < NANOS_PER_SEC || (t.nanos < 2 * NANOS_PER_SEC && t.secs % 60 == 59)
}

/// The beginning of 1970.
pub open spec fn epoch() -> Instant {
    Instant { secs: 0, nanos: 0 }
}

/// The instant `seconds` before `t`. Going back from a leap second starts at its end.
pub open spec fn earlier(t: Instant, seconds: nat) -> Instant {
    if t.nanos >= NANOS_PER_SEC && seconds > 0 {
        Instant { secs: t.secs + 1 - seconds, nanos: t.nanos - NANOS_PER_SEC }
    } else {
        Instant { secs: t.secs - seconds, nanos: t.nanos }
    }
}

/// The instant `seconds` before `now`, or the beginning of 1970 where that is out of range.
pub open spec fn cutoff(now: Instant, seconds: nat) -> Instant {
    if earlier(now, seconds).secs >= MIN_SECS {
        earlier(now, seconds)
    } else {
        epoch()
    }
}

/// The instants of the years 0 to 9999, whose printed form has four digits for the year.
pub open spec fn four_digit_year(t: Instant) -> bool {
    -62_167_219_200 <= t.secs <= 253_402_300_799
}

/// Whether `a` is before `b`.
pub open spec fn precedes(a: Instant, b: Instant) -> bool {
    a.secs < b.secs || (a.secs == b.secs && a.nanos < b.nanos)
}

/// A text in RFC 3339 form without its offset, the last six characters.
pub open spec fn without_offset(printed: Seq<char>) -> Seq<char> {
    printed.take(printed.len() - 6)
}

/// An instant as the bound of a time range: in RFC 3339 form, in UTC and without the offset, so
/// that every way to write the zone of the same instant sorts behind it.
pub open spec fn bound_text(t: Instant) -> Seq<char> {
    without_offset(rfc3339_printed(t))
}

/// Whether `bound` sorts among the bounds of all instants as `t` does among the instants, as far
/// as years have four digits.
pub open spec fn sorts_as(bound: Seq<char>, t: Instant) -> bool {
    forall|other: Instant|
        four_digit_year(t) && four_digit_year(other) && representable(other) ==> {
            &&& precedes(t, other) ==> text::sorts_before(bound, #[trigger] bound_text(other))
            &&& precedes(other, t) ==> text::sorts_before(bound_text(other), bound)
        }
}

/// A time range includes its bound: a timestamp that is the bound, with any way to write the zone
/// or a further fraction behind it or with none, does not sort before it.
pub proof fn bounds_are_included(t: Instant, zone: Seq<char>)
    ensures
        !text::sorts_before(bound_text(t) + zone, bound_text(t)),
{
    let bound = bound_text(t);
    assert forall|k: int| !text::first_difference(bound + zone, bound, k) by {
        if 0 <= k < bound.len() {
            assert((bound + zone)[k] == bound[k]);
        }
    }
}

// ---------------------------------------------------------------------------
// Calls into `chrono`
// ---------------------------------------------------------------------------

/// The text that `chrono` prints for an instant in RFC 3339 form.
pub uninterp spec fn rfc3339_printed(t: Instant) -> Seq<char>;

/// The instant, in seconds and nanoseconds, that a text denotes to `chrono` in RFC 3339 form.
pub uninterp spec fn rfc3339_read(text: Seq<char>) -> Option<(i64, u32)>;

/// The instant that a text denotes to `chrono` as a datetime in UTC in the given format.
pub uninterp spec fn datetime_read(text: Seq<char>, format: Seq<char>) -> Option<(i64, u32)>;

/// The second at which the day begins, in UTC, that a text denotes to `chrono` as a date in the
/// given format.
pub uninterp spec fn date_read(text: Seq<char>, format: Seq<char>) -> Option<i64>;

/// Whether a reading, where there is one, is representable.
pub open spec fn readable(reading: Option<(i64, u32)>) -> bool {
    reading matches Some((secs, nanos)) ==> representable(
        Instant { secs: secs as int, nanos: nanos as int },
    )
}

/// Whether the system's clock was read as this instant. This is a relation: two readings may
/// differ, and nothing says which instants the clock shows, or in which order.
pub uninterp spec fn read_off_clock(t: Instant) -> bool;

/// The instants that a reading of the clock can be: from 1970 on, and in no leap second.
pub open spec fn clock_instant(t: Instant) -> bool {
    &&& 0 <= t.secs <= MAX_SECS
    &&& 0 <= t.nanos < NANOS_PER_SEC
}

/// `chrono::Utc::now`: what the system's clock was read as, in seconds since 1970 and nanoseconds
/// that do not make up another second. Which instant that is depends on the clock and is not said.
/// The call panics where the clock stands before 1970, or beyond what `chrono` can represent.
#[verifier::external_body]
fn clock_now() -> (r: (i64, u32))
    ensures
        read_off_clock(Instant { secs: r.0 as int, nanos: r.1 as int }),
        clock_instant(Instant { secs: r.0 as int, nanos: r.1 as int }),
{
    let now = Utc::now();
    (now.timestamp(), now.timestamp_subsec_nanos())
}

/// `chrono::DateTime::checked_sub_signed` of a whole number of seconds: the instant so much
/// earlier, or nothing where that is before the first one that `chrono` can represent.
#[verifier::external_body]
fn seconds_before(secs: i64, nanos: u32, by: i64) -> (r: Option<(i64, u32)>)
    requires
        representable(Instant { secs: secs as int, nanos: nanos as int }),
        by >= 0,
    ensures
        ({
            let back = earlier(Instant { secs: secs as int, nanos: nanos as int }, by as nat);
            match r {
                Some((s, n)) => back.secs >= MIN_SECS && s == back.secs && n == back.nanos,
                None => back.secs < MIN_SECS,
            }
        }),
{
    let t = DateTime::<Utc>::from_timestamp(secs, nanos)?;
    let back = t.checked_sub_signed(TimeDelta::try_seconds(by)?)?;
    Some((back.timestamp(), back.timestamp_subsec_nanos()))
}

/// `chrono::DateTime::to_rfc3339` in UTC: the text is [`rfc3339_printed`] and ends in the offset
/// `+00:00`. Where the year has four digits, the texts without their offset sort in chronological
/// order, for their parts have a fixed width and a fraction goes on where a text without one ends.
#[verifier::external_body]
fn print_rfc3339(secs: i64, nanos: u32) -> (r: String)
    requires
        representable(Instant { secs: secs as int, nanos: nanos as int }),
    ensures
        r@ == rfc3339_printed(Instant { secs: secs as int, nanos: nanos as int }),
        r@.len() >= 6,
        r@ == without_offset(r@) + "+00:00"@,
        sorts_as(without_offset(r@), Instant { secs: secs as int, nanos: nanos as int }),
{
    DateTime::<Utc>::from_timestamp(secs, nanos).expect("a representable instant").to_rfc3339()
}

/// `chrono::DateTime::parse_from_rfc3339`: the text is read as [`rfc3339_read`] says.
#[verifier::external_body]
fn read_rfc3339(s: &str) -> (r: Option<(i64, u32)>)
    ensures
        r == rfc3339_read(s@),
        readable(r),
{
    let t = DateTime::parse_from_rfc3339(s).ok()?;
    Some((t.timestamp(), t.timestamp_subsec_nanos()))
}

/// `chrono::NaiveDateTime::parse_from_str`, taken as UTC: the text is read as [`datetime_read`]
/// says.
#[verifier::external_body]
fn read_datetime(s: &str, format: &str) -> (r: Option<(i64, u32)>)
    ensures
        r == datetime_read(s@, format@),
        readable(r),
{
    let t = NaiveDateTime::parse_from_str(s, format).ok()?.and_utc();
    Some((t.timestamp(), t.timestamp_subsec_nanos()))
}

/// `chrono::NaiveDate::parse_from_str`, taken at midnight in UTC: the text is read as
/// [`date_read`] says. Days begin at a multiple of 86400 seconds.
#[verifier::external_body]
fn read_date(s: &str, format: &str) -> (r: Option<i64>)
    ensures
        r == date_read(s@, format@),
        r matches Some(secs) ==> MIN_SECS <= secs <= MAX_SECS && secs % 86_400 == 0,
{
    let day = NaiveDate::parse_from_str(s, format).ok()?;
    Some(day.and_hms_opt(0, 0, 0)?.and_utc().timestamp())
}

// ---------------------------------------------------------------------------
// Instants
// ---------------------------------------------------------------------------

/// A representable instant.
#[derive(Debug, Clone, Copy, PartialEq, Eq)]
pub struct Timestamp {
    secs: i64,
    nanos: u32,
}

impl View for Timestamp {
    type V = Instant;

    closed spec fn view(&self) -> Instant {
        Instant { secs: self.secs as int, nanos: self.nanos as int }
    }
}

impl Timestamp {
    #[verifier::type_invariant]
    spec fn valid(self) -> bool {
        representable(Instant { secs: self.secs as int, nanos: self.nanos as int })
    }

    /// The instant with the given seconds since 1970 and nanoseconds, where it is representable.
    pub fn from_unix(secs: i64, nanos: u32) -> (r: Option<Timestamp>)
        ensures
            ({
                let t = Instant { secs: secs as int, nanos: nanos as int };
                match r {
                    Some(stamp) => representable(t) && stamp@ == t,
                    None => !representable(t),
                }
            }),
    {
        if MIN_SECS <= secs && secs <= MAX_SECS && (nanos < NANOS_PER_SEC || (nanos < 2
            * NANOS_PER_SEC && (secs - MIN_SECS) % 60 == 59)) {
            Some(Timestamp { secs, nanos })
        } else {
            None
        }
    }

    /// The present, by the system's clock.
    pub fn now() -> (r: Timestamp)
        ensures
            read_off_clock(r@),
            clock_instant(r@),
            representable(r@),
    {
        let (secs, nanos) = clock_now();
        Timestamp { secs, nanos }
    }

    /// The beginning of 1970.
    pub fn unix_epoch() -> (r: Timestamp)
        ensures
            r@ == epoch(),
    {
        Timestamp { secs: 0, nanos: 0 }
    }

    /// The instant in RFC 3339 form, in UTC.
    pub fn to_rfc3339(&self) -> (r: String)
        ensures
            r@ == rfc3339_printed(self@),
            r@ == bound_text(self@) + "+00:00"@,
    {
        proof {
            use_type_invariant(self);
        }
        print_rfc3339(self.secs, self.nanos)
    }

    /// The instant as the bound of a time range: in RFC 3339 form, in UTC, without the offset.
    ///
    /// In the years 0 to 9999 these texts sort in chronological order.
    pub fn to_bound(&self) -> (r: String)
        ensures
            r@ == bound_text(self@),
            sorts_as(r@, self@),
    {
        proof {
            use_type_invariant(self);
        }
        let printed = print_rfc3339(self.secs, self.nanos);
        let chars = chars_of(printed.as_str());
        let bound = text_between(&chars, 0, chars.len() - 6);
        assert(bound@ == without_offset(printed@));
        bound
    }

    /// Seconds since the beginning of 1970.
    pub fn unix_seconds(&self) -> (r: i64)
        ensures
            r == self@.secs,
    {
        self.secs
    }

    /// Nanoseconds beyond [`Timestamp::unix_seconds`].
    pub fn subsec_nanos(&self) -> (r: u32)
        ensures
            r == self@.nanos,
    {
        self.nanos
    }
}

// ---------------------------------------------------------------------------
// The bounds of time ranges
// ---------------------------------------------------------------------------

/// The instant from which entries are within the last `d` before `now`.
///
/// Where that is before the first representable instant, it is the beginning of 1970.
pub fn compute_last_cutoff(d: Duration, now: Timestamp) -> (r: Timestamp)
    ensures
        r@ == cutoff(now@, query::duration_seconds(d)),
{
    let ghost exact = query::duration_seconds(d);
    let per_unit = d.unit.seconds();
    let amount: i64 = if d.amount <= i64::MAX as u64 {
        d.amount as i64
    } else {
        i64::MAX
    };
    let secs: i64 = match amount.checked_mul(per_unit) {
        Some(product) => product,
        None => i64::MAX,
    };
    proof {
        use_type_invariant(&now);
        assert(secs == exact || (secs > MAX_SECS - MIN_SECS + 1 && exact >= secs)) by {
            assert(amount * per_unit >= amount) by (nonlinear_arith)
                requires
                    amount >= 0,
                    per_unit >= 60,
            ;
            assert(d.amount * per_unit >= amount * per_unit) by (nonlinear_arith)
                requires
                    d.amount >= amount,
                    per_unit >= 60,
            ;
            assert(amount * per_unit >= 0) by (nonlinear_arith)
                requires
                    amount >= 0,
                    per_unit >= 60,
            ;
        }
    }
    match seconds_before(now.secs, now.nanos, secs) {
        Some((back, nanos)) => Timestamp { secs: back, nanos },
        None => Timestamp::unix_epoch(),
    }
}

/// A longer duration reaches back at least as far, unless it reaches beyond what can be
/// represented.
pub proof fn longer_durations_reach_further(now: Instant, shorter: nat, longer: nat)
    requires
        representable(now),
        shorter <= longer,
        earlier(now, longer).secs >= MIN_SECS,
    ensures
        !precedes(cutoff(now, shorter), cutoff(now, longer)),
        !precedes(now, cutoff(now, longer)),
{
}

/// The cutoff lies exactly the duration before now: so many times 60, 3600 or 86400 seconds, with
/// the same nanoseconds. Where that is out of range it is the beginning of 1970.
pub proof fn cutoffs_lie_the_duration_back(now: Instant, d: Duration)
    requires
        representable(now),
        now.nanos < 1_000_000_000,
    ensures
        ({
            let seconds = d.amount as int * match d.unit {
                DurationUnit::Minutes => 60int,
                DurationUnit::Hours => 3600int,
                DurationUnit::Days => 86400int,
            };
            let cut = cutoff(now, query::duration_seconds(d));
            if now.secs - seconds >= -8_334_601_228_800 {
                now.secs - cut.secs == seconds && cut.nanos == now.nanos
            } else {
                cut.secs == 0 && cut.nanos == 0
            }
        }),
{
}

/// Two cutoffs lie as far apart as their durations, also before a leap second.
pub proof fn cutoffs_differ_by_the_durations(now: Instant, shorter: nat, longer: nat)
    requires
        representable(now),
        0 < shorter <= longer,
        now.secs - longer >= MIN_SECS,
    ensures
        cutoff(now, shorter).secs - cutoff(now, longer).secs == longer - shorter,
        cutoff(now, shorter).nanos == cutoff(now, longer).nanos,
        cutoff(now, 0) == now,
{
}

/// A datetime is what it is in RFC 3339; else with a `T`, or else with a space, in UTC; else a date
/// is its midnight. A text that is none of these denotes nothing.
pub proof fn datetimes_are_read_in_order(s: Seq<char>)
    ensures
        rfc3339_read(s) matches Some((secs, nanos)) ==> since_instant(s) == Some(
            Instant { secs: secs as int, nanos: nanos as int },
        ),
        rfc3339_read(s) is None ==> (datetime_read(s, "%Y-%m-%dT%H:%M:%S"@) matches Some(
            (secs, nanos),
        ) ==> since_instant(s) == Some(Instant { secs: secs as int, nanos: nanos as int })),
        rfc3339_read(s) is None && datetime_read(s, "%Y-%m-%dT%H:%M:%S"@) is None ==> (
        datetime_read(s, "%Y-%m-%d %H:%M:%S"@) matches Some((secs, nanos)) ==> since_instant(s)
            == Some(Instant { secs: secs as int, nanos: nanos as int })),
        rfc3339_read(s) is None && datetime_read(s, "%Y-%m-%dT%H:%M:%S"@) is None
            && datetime_read(s, "%Y-%m-%d %H:%M:%S"@) is None ==> match date_read(
            s,
            "%Y-%m-%d"@,
        ) {
            Some(midnight) => since_instant(s) == Some(Instant { secs: midnight as int, nanos: 0 }),
            None => since_instant(s) is None,
        },
{
}

/// An instant in plain numbers.
pub open spec fn instant_of(reading: (i64, u32)) -> Instant {
    Instant { secs: reading.0 as int, nanos: reading.1 as int }
}

/// The first reading of a datetime that there is, in the order of the accepted formats.
pub open spec fn first_reading_of(
    rfc3339: Option<(i64, u32)>,
    iso: Option<(i64, u32)>,
    spaced: Option<(i64, u32)>,
    midnight: Option<i64>,
) -> Option<Instant> {
    if rfc3339 is Some {
        Some(instant_of(rfc3339->0))
    } else if iso is Some {
        Some(instant_of(iso->0))
    } else if spaced is Some {
        Some(instant_of(spaced->0))
    } else if midnight is Some {
        Some(Instant { secs: midnight->0 as int, nanos: 0 })
    } else {
        None
    }
}

/// The instant that the text of a `since` clause denotes, in any of the accepted formats.
pub open spec fn since_instant(s: Seq<char>) -> Option<Instant> {
    first_reading_of(
        rfc3339_read(s),
        datetime_read(s, "%Y-%m-%dT%H:%M:%S"@),
        datetime_read(s, "%Y-%m-%d %H:%M:%S"@),
        date_read(s, "%Y-%m-%d"@),
    )
}

/// What is expected of the text of a `since` clause.
pub open spec fn datetime_reason() -> Seq<char> {
    "expected RFC3339, `YYYY-MM-DD HH:MM:SS`, or `YYYY-MM-DD`"@
}

/// What an optional instant is.
pub open spec fn stamp_view(t: Option<Timestamp>) -> Option<Instant> {
    match t {
        None => None,
        Some(t) => Some(t@),
    }
}

/// The first reading that there is. A date stands for its midnight.
pub fn first_reading(
    rfc3339: Option<(i64, u32)>,
    iso: Option<(i64, u32)>,
    spaced: Option<(i64, u32)>,
    midnight: Option<i64>,
) -> (r: Option<Timestamp>)
    requires
        readable(rfc3339),
        readable(iso),
        readable(spaced),
        midnight matches Some(secs) ==> MIN_SECS <= secs <= MAX_SECS,
    ensures
        stamp_view(r) == first_reading_of(rfc3339, iso, spaced, midnight),
{
    if let Some((secs, nanos)) = rfc3339 {
        return Some(Timestamp { secs, nanos });
    }
    if let Some((secs, nanos)) = iso {
        return Some(Timestamp { secs, nanos });
    }
    if let Some((secs, nanos)) = spaced {
        return Some(Timestamp { secs, nanos });
    }
    match midnight {
        Some(secs) => Some(Timestamp { secs, nanos: 0 }),
        None => None,
    }
}

/// The instant of a `since` clause. Three formats are accepted:
///   - RFC 3339, with a time zone (`2024-01-01T10:00:00Z`)
///   - a datetime without one, in UTC (`2024-01-01 10:00:00` or `2024-01-01T10:00:00`)
///   - a date, at its midnight in UTC (`2024-01-01`)
pub fn parse_datetime(s: &str) -> (r: Result<Timestamp, LogdiveError>)
    ensures
        match r {
            Ok(t) => since_instant(s@) == Some(t@),
            Err(e) => since_instant(s@) is None && (e matches LogdiveError::InvalidDatetime {
                input,
                reason,
            } && input@ == s@ && reason@ == datetime_reason()),
        },
{
    let reading = first_reading(
        read_rfc3339(s),
        read_datetime(s, "%Y-%m-%dT%H:%M:%S"),
        read_datetime(s, "%Y-%m-%d %H:%M:%S"),
        read_date(s, "%Y-%m-%d"),
    );
    match reading {
        Some(t) => Ok(t),
        None => Err(
            LogdiveError::InvalidDatetime {
                input: s.to_owned(),
                reason: "expected RFC3339, `YYYY-MM-DD HH:MM:SS`, or `YYYY-MM-DD`".to_owned(),
            },
        ),
    }
}

} // verus!
