//! Instants, signed durations, and the resolution of a plan's wall-clock times into instants.

use vstd::prelude::*;

use crate::model::{Block, ClockTime, FieldParseError, Plan, Span, TimeZoneName, span_end_seconds};
use crate::civil::{days_from_civil, PlanDate};

verus! {

/// Seconds of the earliest and latest instants jiff represents.
pub const MIN_SECOND: i128 = -377705023201;

pub const MAX_SECOND: i128 = 253402207200;

pub const NANOS_PER_SECOND: i128 = 1000000000;

pub open spec fn min_nanos() -> int {
    MIN_SECOND * NANOS_PER_SECOND
}

pub open spec fn max_nanos() -> int {
    MAX_SECOND * NANOS_PER_SECOND + 999999999
}

/// An instant, in nanoseconds since the Unix epoch, within the range jiff supports.
#[derive(Debug, Clone, Copy, PartialEq, Eq, Hash, PartialOrd, Ord)]
pub struct Timestamp {
    nanos: i128,
}

/// What `Display` of `jiff::Timestamp` writes for the instant with these nanoseconds.
pub uninterp spec fn jiff_timestamp_text(nanos: int) -> Seq<char>;

/// What `jiff::Timestamp::from_str` gives for a text, in nanoseconds.
pub uninterp spec fn jiff_timestamp_parse(text: Seq<char>) -> Option<int>;

/// Renders an instant with `Display` of `jiff::Timestamp`.
///
/// Trusted: the text is jiff's rendering of the instant.
#[verifier::external_body]
fn jiff_timestamp_display(nanos: i128) -> (r: String)
    requires
        min_nanos() <= nanos <= max_nanos(),
    ensures
        r@ == jiff_timestamp_text(nanos as int),
{
    jiff::Timestamp::from_nanosecond(nanos).map(|t| t.to_string()).unwrap_or_default()
}

/// The message jiff's `Timestamp::checked_add` fails with when the instant `nanos` moved by
/// `secs` seconds leaves its range.
pub uninterp spec fn jiff_shift_error_text(nanos: int, secs: int) -> Seq<char>;

/// Moves the instant `nanos` by `secs` seconds with `jiff::Timestamp::checked_add` and returns
/// jiff's error message.
///
/// Trusted: the text is what jiff renders for that move, named; it is the error message wherever
/// the move leaves jiff's range, which is where it is called.
#[verifier::external_body]
fn jiff_shift_error(nanos: i128, secs: i64) -> (r: String)
    ensures
        r@ == jiff_shift_error_text(nanos as int, secs as int),
{
    let start = match jiff::Timestamp::from_nanosecond(nanos) {
        Ok(t) => t,
        Err(e) => return e.to_string(),
    };
    match start.checked_add(jiff::SignedDuration::from_secs(secs)) {
        Ok(t) => t.to_string(),
        Err(e) => e.to_string(),
    }
}

/// Parses an instant with `jiff::Timestamp::from_str`.
///
/// Trusted: the result is jiff's parse, in nanoseconds, and lies in jiff's range.
#[verifier::external_body]
fn jiff_timestamp_from_str(text: &str) -> (r: Option<i128>)
    ensures
        r matches Some(n) ==> jiff_timestamp_parse(text@) == Some(n as int) && min_nanos() <= n
            <= max_nanos(),
        r is None ==> jiff_timestamp_parse(text@) is None,
{
    text.parse::<jiff::Timestamp>().ok().map(|t| t.as_nanosecond())
}

impl Timestamp {
    #[verifier::type_invariant]
    spec fn inv(self) -> bool {
        min_nanos() <= self.nanos <= max_nanos()
    }

    pub closed spec fn spec_nanos(self) -> int {
        self.nanos as int
    }

    pub proof fn lemma_nanos_determine(self, other: Self)
        ensures
            self.spec_nanos() == other.spec_nanos() ==> self == other,
    {
    }

    pub fn assert_wf(&self)
        ensures
            min_nanos() <= self.spec_nanos() <= max_nanos(),
    {
        proof {
            use_type_invariant(self);
        }
    }

    /// The instant `nanos` nanoseconds after the Unix epoch, if jiff can represent it.
    pub fn from_nanos(nanos: i128) -> (r: Option<Timestamp>)
        ensures
            r is Some <==> min_nanos() <= nanos <= max_nanos(),
            r matches Some(t) ==> t.spec_nanos() == nanos,
    {
        if nanos < MIN_SECOND * NANOS_PER_SECOND || nanos > MAX_SECOND * NANOS_PER_SECOND + 999999999 {
            None
        } else {
            Some(Timestamp { nanos })
        }
    }

    pub fn as_nanos(self) -> (r: i128)
        ensures
            r == self.spec_nanos(),
            min_nanos() <= r <= max_nanos(),
    {
        proof {
            use_type_invariant(self);
        }
        self.nanos
    }

    /// The signed duration from `earlier` to this instant.
    pub fn duration_since(self, earlier: Timestamp) -> (r: SignedDuration)
        ensures
            r.spec_nanos() == self.spec_nanos() - earlier.spec_nanos(),
    {
        proof {
            use_type_invariant(self);
            use_type_invariant(earlier);
        }
        SignedDuration { nanos: self.nanos - earlier.nanos }
    }

    /// This instant moved by a duration, if the result stays in range.
    pub fn checked_add(self, d: SignedDuration) -> (r: Option<Timestamp>)
        ensures
            r is Some <==> min_nanos() <= self.spec_nanos() + d.spec_nanos() <= max_nanos(),
            r matches Some(t) ==> t.spec_nanos() == self.spec_nanos() + d.spec_nanos(),
    {
        proof {
            use_type_invariant(self);
            use_type_invariant(d);
        }
        Timestamp::from_nanos(self.nanos + d.nanos)
    }

    pub fn lt(self, other: Timestamp) -> (r: bool)
        ensures
            r == (self.spec_nanos() < other.spec_nanos()),
    {
        self.nanos < other.nanos
    }

    pub fn le(self, other: Timestamp) -> (r: bool)
        ensures
            r == (self.spec_nanos() <= other.spec_nanos()),
    {
        self.nanos <= other.nanos
    }

    pub open spec fn spec_text(self) -> Seq<char> {
        jiff_timestamp_text(self.spec_nanos())
    }

    /// Renders the instant as jiff displays it, e.g. `2026-06-08T09:00:00Z`.
    pub fn text(&self) -> (r: String)
        ensures
            r@ == self.spec_text(),
    {
        proof {
            use_type_invariant(self);
        }
        jiff_timestamp_display(self.nanos)
    }

    /// Parses an instant as jiff does, e.g. `2026-06-08T09:00:00Z`.
    pub fn parse(text: &str) -> (r: Option<Timestamp>)
        ensures
            r matches Some(t) ==> jiff_timestamp_parse(text@) == Some(t.spec_nanos()),
            r is None ==> jiff_timestamp_parse(text@) is None,
    {
        match jiff_timestamp_from_str(text) {
            Some(n) => Some(Timestamp { nanos: n }),
            None => None,
        }
    }
}

pub open spec fn duration_min() -> int {
    -9223372036854775808 * NANOS_PER_SECOND - 999999999
}

pub open spec fn duration_max() -> int {
    9223372036854775807 * NANOS_PER_SECOND + 999999999
}

/// A signed span of time in nanoseconds, within the range of `jiff::SignedDuration`.
#[derive(Debug, Clone, Copy, PartialEq, Eq, Hash, PartialOrd, Ord)]
pub struct SignedDuration {
    nanos: i128,
}

impl SignedDuration {
    #[verifier::type_invariant]
    spec fn inv(self) -> bool {
        duration_min() <= self.nanos <= duration_max()
    }

    pub closed spec fn spec_nanos(self) -> int {
        self.nanos as int
    }

    /// A duration of whole seconds.
    pub fn from_secs(secs: i64) -> (r: SignedDuration)
        ensures
            r.spec_nanos() == secs * NANOS_PER_SECOND,
    {
        SignedDuration { nanos: secs as i128 * NANOS_PER_SECOND }
    }

    /// Whole seconds of the duration, rounded toward zero.
    pub fn as_secs(self) -> (r: i64)
        ensures
            r as int == trunc_secs(self.spec_nanos()),
    {
        proof {
            use_type_invariant(self);
        }
        let n = self.nanos;
        let q: i128 = if n >= 0 {
            assert(n / 1000000000 <= 9223372036854775807) by (nonlinear_arith)
                requires
                    0 <= n <= 9223372036854775807 * 1000000000 + 999999999,
            ;
            n / NANOS_PER_SECOND
        } else {
            assert((-n) / 1000000000 <= 9223372036854775808) by (nonlinear_arith)
                requires
                    0 < -n <= 9223372036854775808 * 1000000000 + 999999999,
            ;
            -((-n) / NANOS_PER_SECOND)
        };
        q as i64
    }

    pub fn as_nanos(self) -> (r: i128)
        ensures
            r == self.spec_nanos(),
    {
        self.nanos
    }

    pub fn gt(self, other: SignedDuration) -> (r: bool)
        ensures
            r == (self.spec_nanos() > other.spec_nanos()),
    {
        self.nanos > other.nanos
    }
}

/// Seconds of a nanosecond count, rounded toward zero.
pub open spec fn trunc_secs(nanos: int) -> int {
    if nanos >= 0 {
        nanos / 1000000000
    } else {
        -((-nanos) / 1000000000)
    }
}

// ── Resolving wall-clock times ─────────────────────────────────────────────

/// Why a wall-clock time could not be turned into an instant.
#[derive(Debug, Clone, PartialEq, Eq)]
pub enum TimeError {
    TimeZone(FieldParseError),
    Resolve(String),
}


/// The seconds since the Unix epoch of a wall-clock time read as if it were UTC.
pub open spec fn wall_seconds(y: int, m: int, d: int, seconds_of_day: int) -> int {
    days_from_civil(y, m, d) * 86400 + seconds_of_day
}

/// The largest offset from UTC jiff allows, in seconds (`25:59:59`).
pub open spec fn max_offset_seconds() -> int {
    93599
}

/// An instant lies within the largest offset of a wall-clock time read as UTC.
pub open spec fn near_wall(nanos: int, wall: int) -> bool {
    (wall - max_offset_seconds()) * NANOS_PER_SECOND <= nanos <= (wall + max_offset_seconds()) * NANOS_PER_SECOND
}

/// The name is `UTC` in any ASCII case.
pub open spec fn utc_named(z: Seq<char>) -> bool {
    &&& z.len() == 3
    &&& (z[0] == 'u' || z[0] == 'U')
    &&& (z[1] == 't' || z[1] == 'T')
    &&& (z[2] == 'c' || z[2] == 'C')
}

/// An instant as a resolution of the wall-clock time `seconds_of_day` on `date` in `zone`: within
/// the largest offset of that time read as UTC, and equal to it when the zone is UTC.
pub open spec fn placed(nanos: int, date: PlanDate, zone: Seq<char>, seconds_of_day: int) -> bool {
    let wall = wall_seconds(date.triple().0, date.triple().1, date.triple().2, seconds_of_day);
    &&& near_wall(nanos, wall)
    &&& utc_named(zone) ==> nanos == wall * NANOS_PER_SECOND
}

/// Resolves a civil date and time in a named zone with `jiff::civil::DateTime::to_zoned` on the
/// zone `jiff::tz::TimeZone::get` loads, giving the instant in nanoseconds.
///
/// Trusted. `to_zoned` gives the wall time less one of the zone's offsets (the compatible
/// strategy picks the offset before a gap and the earlier one in a fold), and jiff documents every
/// offset to lie in `-25:59:59..=25:59:59`; so the instant lies within that of the wall time read
/// as UTC. `TimeZone::get` gives jiff's fixed UTC zone for the name `utc` in any ASCII case, so
/// there the instant is the wall time read as UTC. Which other offset applies depends on the
/// machine's time zone database and is left unsaid. `Err(None)` means the zone did not load;
/// `Err(Some(message))` carries jiff's error, which for a valid date and time comes only from an
/// instant outside jiff's range, so only in the first or last year jiff represents.
#[verifier::external_body]
fn jiff_resolve_local(zone: &str, y: i16, mo: i8, d: i8, h: i8, mi: i8) -> (r: Result<i128, Option<String>>)
    requires
        crate::civil::valid_civil(y as int, mo as int, d as int),
        0 <= h < 24,
        0 <= mi < 60,
    ensures
        r matches Err(Some(_)) ==> y == -9999 || y == 9999,
        r matches Ok(n) ==> min_nanos() <= n <= max_nanos(),
        r matches Ok(n) ==> near_wall(n as int, wall_seconds(y as int, mo as int, d as int, h * 3600 + mi * 60)),
        r matches Ok(n) ==> (utc_named(zone@) ==> n == wall_seconds(y as int, mo as int, d as int, h * 3600 + mi * 60) * NANOS_PER_SECOND),
{
    let tz = jiff::tz::TimeZone::get(zone).map_err(|_| None)?;
    let dt = jiff::civil::DateTime::new(y, mo, d, h, mi, 0, 0).map_err(|e| Some(e.to_string()))?;
    dt.to_zoned(tz).map(|z| z.timestamp().as_nanosecond()).map_err(|e| Some(e.to_string()))
}

/// For a date of neither the first nor the last year, the day's wall-clock seconds read as UTC,
/// moved by up to two days and the largest offset, stay within jiff's range.
pub proof fn lemma_wall_in_range(y: int, m: int, d: int)
    requires
        -9999 < y < 9999,
        1 <= m <= 12,
        1 <= d <= 31,
    ensures
        min_nanos() <= (wall_seconds(y, m, d, 0) - max_offset_seconds()) * NANOS_PER_SECOND,
        (wall_seconds(y, m, d, 0) + 2 * 86400 + max_offset_seconds()) * NANOS_PER_SECOND <= max_nanos(),
{
    let yy = if m <= 2 { y - 1 } else { y };
    let era = yy / 400;
    let yoe = yy - era * 400;
    let mp = if m > 2 { m - 3 } else { m + 9 };
    let doy = (153 * mp + 2) / 5 + d - 1;
    let doe = yoe * 365 + yoe / 4 - yoe / 100 + doy;
    assert(-25 <= era <= 24 && 0 <= yoe < 400) by (nonlinear_arith)
        requires
            -9999 <= yy <= 9998,
            era == yy / 400,
            yoe == yy - era * 400,
    ;
    assert(era == 24 ==> yoe <= 398);
    assert(era == -25 ==> yoe >= 1);
    assert(0 <= doy <= 367) by (nonlinear_arith)
        requires
            0 <= mp <= 11,
            1 <= d <= 31,
            doy == (153 * mp + 2) / 5 + d - 1,
    ;
    assert(yoe * 365 <= doe <= yoe * 365 + 100 + 367) by (nonlinear_arith)
        requires
            0 <= yoe < 400,
            0 <= doy <= 367,
            doe == yoe * 365 + yoe / 4 - yoe / 100 + doy,
    ;
    let days = era * 146097 + doe - 719468;
    assert(days == days_from_civil(y, m, d));
    assert(-4371528 <= days <= 2932600) by (nonlinear_arith)
        requires
            -25 <= era <= 24,
            0 <= yoe < 400,
            era == 24 ==> yoe <= 398,
            era == -25 ==> yoe >= 1,
            yoe * 365 <= doe <= yoe * 365 + 467,
            days == era * 146097 + doe - 719468,
    ;
}

/// Resolves a local wall-clock time on a plan date into an instant (gaps move forward, folds take
/// the earlier instant, as jiff's compatible strategy does).
pub fn resolve(date: &PlanDate, timezone: &TimeZoneName, wallclock: ClockTime) -> (r: Result<Timestamp, TimeError>)
    ensures
        r matches Err(TimeError::TimeZone(e)) ==> e is TimeZone && e->TimeZone_value@ == timezone@,
        r matches Ok(t) ==> placed(t.spec_nanos(), *date, timezone@, wallclock.spec_seconds() as int),
        r matches Err(TimeError::Resolve(_)) ==> date.triple().0 == -9999 || date.triple().0 == 9999,
{
    date.assert_wf();
    let h = wallclock.hour();
    let mi = wallclock.minute();
    proof {
        let m = wallclock.spec_minutes() as int;
        assert(h * 3600 + mi * 60 == m * 60) by (nonlinear_arith)
            requires
                h == m / 60,
                mi == m % 60,
                m >= 0,
        {
        }
    }
    match jiff_resolve_local(timezone.as_str(), date.year(), date.month(), date.day(), h, mi) {
        Ok(n) => Ok(Timestamp { nanos: n }),
        Err(None) => Err(TimeError::TimeZone(FieldParseError::TimeZone { value: crate::text::copy_string(&timezone.as_str().to_owned()) })),
        Err(Some(message)) => Err(TimeError::Resolve(message)),
    }
}

/// The instant a block starts: its start resolved on the plan's date in the plan's zone.
///
/// The instant lies within the largest offset of the start read as UTC (and is it, in UTC); which
/// offset applies depends on the machine's time zone database.
pub fn resolve_block_start(plan: &Plan, block: &Block) -> (r: Result<Timestamp, TimeError>)
    ensures
        r matches Err(TimeError::TimeZone(e)) ==> e is TimeZone && e->TimeZone_value@ == plan.timezone@,
        r matches Ok(t) ==> placed(t.spec_nanos(), plan.date, plan.timezone@, block.start.spec_seconds() as int),
        r matches Err(TimeError::Resolve(_)) ==> plan.date.triple().0 == -9999 || plan.date.triple().0 == 9999,
{
    resolve(&plan.date, &plan.timezone, block.start)
}

/// The instant a block ends: its explicit end time resolved, or its start moved by its duration.
///
/// As for the start, the instant lies within the largest offset of the end read as UTC.
pub fn resolve_block_end(plan: &Plan, block: &Block) -> (r: Result<Timestamp, TimeError>)
    ensures
        r matches Err(TimeError::TimeZone(e)) ==> e is TimeZone && e->TimeZone_value@ == plan.timezone@,
        r matches Ok(t) ==> placed(t.spec_nanos(), plan.date, plan.timezone@, span_end_seconds(block.span, block.start) as int),
        r matches Err(TimeError::Resolve(_)) ==> plan.date.triple().0 == -9999 || plan.date.triple().0 == 9999,
{
    match block.span {
        Span::End(end) => resolve(&plan.date, &plan.timezone, end),
        Span::Duration(duration) => {
            let start = resolve_block_start(plan, block)?;
            let secs = duration.as_seconds() as i64;
            let d = SignedDuration::from_secs(secs);
            plan.date.assert_wf();
            block.start.assert_wf();
            proof {
                let (y, m, dd) = plan.date.triple();
                if -9999 < y < 9999 {
                    lemma_wall_in_range(y, m, dd);
                }
            }
            match start.checked_add(d) {
                Some(t) => Ok(t),
                None => Err(TimeError::Resolve(jiff_shift_error(start.nanos, secs))),
            }
        },
    }
}

} // verus!
