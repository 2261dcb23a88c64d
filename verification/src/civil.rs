//! Civil (calendar) dates of plans, backed by `jiff::civil::Date` for parsing, display and
//! calendar arithmetic.

use vstd::prelude::*;

use crate::text::{chars_of, string_of, zero_padded};

verus! {

pub open spec fn is_leap_year(y: int) -> bool {
    (y % 4 == 0 && y % 100 != 0) || y % 400 == 0
}

pub open spec fn days_in_month(y: int, m: int) -> int {
    if m == 2 {
        if is_leap_year(y) {
            29
        } else {
            28
        }
    } else if m == 4 || m == 6 || m == 9 || m == 11 {
        30
    } else {
        31
    }
}

/// The dates `jiff::civil::Date` can represent: years `-9999..=9999`, months `1..=12`, days from
/// `1` to the length of the month.
pub open spec fn valid_civil(y: int, m: int, d: int) -> bool {
    &&& -9999 <= y <= 9999
    &&& 1 <= m <= 12
    &&& 1 <= d <= days_in_month(y, m)
}

/// Chronological order of two civil dates.
pub open spec fn civil_lt(a: (int, int, int), b: (int, int, int)) -> bool {
    ||| a.0 < b.0
    ||| (a.0 == b.0 && a.1 < b.1)
    ||| (a.0 == b.0 && a.1 == b.1 && a.2 < b.2)
}

/// A strictly increasing numbering of civil dates, used to bound walks over a range of days.
pub open spec fn civil_rank(a: (int, int, int)) -> int {
    (a.0 + 10000) * 512 + a.1 * 32 + a.2
}

pub proof fn lemma_rank_monotone(a: (int, int, int), b: (int, int, int))
    requires
        valid_civil(a.0, a.1, a.2),
        valid_civil(b.0, b.1, b.2),
    ensures
        civil_lt(a, b) <==> civil_rank(a) < civil_rank(b),
        a == b <==> civil_rank(a) == civil_rank(b),
{
    assert(civil_lt(a, b) ==> civil_rank(a) < civil_rank(b)) by (nonlinear_arith)
        requires
            1 <= a.1 <= 12,
            1 <= b.1 <= 12,
            1 <= a.2 <= 31,
            1 <= b.2 <= 31,
    ;
    assert(civil_lt(b, a) ==> civil_rank(b) < civil_rank(a)) by (nonlinear_arith)
        requires
            1 <= a.1 <= 12,
            1 <= b.1 <= 12,
            1 <= a.2 <= 31,
            1 <= b.2 <= 31,
    ;
}

/// What `jiff::civil::Date::from_str` returns for a text, as (year, month, day).
pub uninterp spec fn jiff_date_parse(text: Seq<char>) -> Option<(int, int, int)>;

/// What `Display` of `jiff::civil::Date` writes for a date.
///
/// jiff writes the year with four digits (after `-00` when it is negative), then the month and
/// the day with two, joined by `-`.
#[verifier::opaque]
pub open spec fn jiff_date_text(y: int, m: int, d: int) -> Seq<char> {
    (if y < 0 { "-00"@ } else { Seq::empty() }) + zero_padded((if y < 0 { -y } else { y }) as nat, 4) + seq!['-']
        + zero_padded(m as nat, 2) + seq!['-'] + zero_padded(d as nat, 2)
}

/// Days from 1970-01-01 to the given date of the proleptic Gregorian calendar.
pub open spec fn days_from_civil(y: int, m: int, d: int) -> int {
    let yy = if m <= 2 { y - 1 } else { y };
    let era = yy / 400;
    let yoe = yy - era * 400;
    let mp = if m > 2 { m - 3 } else { m + 9 };
    let doy = (153 * mp + 2) / 5 + d - 1;
    let doe = yoe * 365 + yoe / 4 - yoe / 100 + doy;
    era * 146097 + doe - 719468
}

/// The Monday-zero weekday offset of a date, as `jiff::civil::Date::weekday` gives it: the
/// Gregorian weekday, counted from 1970-01-01, a Thursday.
#[verifier::opaque]
pub open spec fn jiff_weekday(y: int, m: int, d: int) -> int {
    (days_from_civil(y, m, d) + 3) % 7
}

/// The number of days of the span `jiff::civil::Date::until` returns from the first date to the
/// second: days are its largest unit, so the count is the days between the dates.
#[verifier::opaque]
pub open spec fn jiff_days_until(a: (int, int, int), b: (int, int, int)) -> int {
    days_from_civil(b.0, b.1, b.2) - days_from_civil(a.0, a.1, a.2)
}

/// What `jiff::civil::Date::tomorrow` returns for a date.
///
/// The next date of the Gregorian calendar, and none after jiff's last date, `9999-12-31`.
#[verifier::opaque]
pub open spec fn jiff_tomorrow(a: (int, int, int)) -> Option<(int, int, int)> {
    if a == (9999int, 12int, 31int) {
        None
    } else if a.2 < days_in_month(a.0, a.1) {
        Some((a.0, a.1, a.2 + 1))
    } else if a.1 < 12 {
        Some((a.0, a.1 + 1, 1))
    } else {
        Some((a.0 + 1, 1, 1))
    }
}

/// Parses a civil date with `jiff::civil::Date::from_str`.
///
/// Trusted: the result is jiff's parse of the text, and every date jiff returns is one it can
/// represent (a valid civil date).
#[verifier::external_body]
fn jiff_parse(text: &str) -> (r: Option<(i16, i8, i8)>)
    ensures
        r matches Some(t) ==> jiff_date_parse(text@) == Some((t.0 as int, t.1 as int, t.2 as int))
            && valid_civil(t.0 as int, t.1 as int, t.2 as int),
        r is None ==> jiff_date_parse(text@) is None,
{
    text.parse::<jiff::civil::Date>().ok().map(|d| (d.year(), d.month(), d.day()))
}

/// Renders a date with `Display` of `jiff::civil::Date`.
///
/// Trusted: the text is jiff's rendering of the date, as `jiff_date_text` spells it out.
#[verifier::external_body]
fn jiff_display(y: i16, m: i8, d: i8) -> (r: String)
    requires
        valid_civil(y as int, m as int, d as int),
    ensures
        r@ == jiff_date_text(y as int, m as int, d as int),
{
    jiff::civil::Date::new(y, m, d).map(|date| date.to_string()).unwrap_or_default()
}

/// Weekday of a date with `jiff::civil::Date::weekday`, as the Monday-zero offset.
///
/// Trusted: jiff's weekday is the Gregorian one, so its offset is `jiff_weekday`, in `0..=6`.
#[verifier::external_body]
fn jiff_weekday_of(y: i16, m: i8, d: i8) -> (r: u8)
    requires
        valid_civil(y as int, m as int, d as int),
    ensures
        r as int == jiff_weekday(y as int, m as int, d as int),
        r < 7,
{
    jiff::civil::Date::new(y, m, d).map(|date| date.weekday().to_monday_zero_offset() as u8).unwrap_or(0)
}

/// Days from one date to another with `jiff::civil::Date::until` (days are the largest unit of
/// the span jiff returns by default).
///
/// Trusted: with days as the largest unit, jiff's count is the number of days between the
/// dates (`jiff_days_until`); it is zero from a date to itself, positive when the second date is
/// later and negative when it is earlier.
#[verifier::external_body]
fn jiff_until_days(a: (i16, i8, i8), b: (i16, i8, i8)) -> (r: i32)
    requires
        valid_civil(a.0 as int, a.1 as int, a.2 as int),
        valid_civil(b.0 as int, b.1 as int, b.2 as int),
    ensures
        r as int == jiff_days_until(
            (a.0 as int, a.1 as int, a.2 as int),
            (b.0 as int, b.1 as int, b.2 as int),
        ),
        a == b ==> r == 0,
        civil_lt((a.0 as int, a.1 as int, a.2 as int), (b.0 as int, b.1 as int, b.2 as int))
            ==> r > 0,
        civil_lt((b.0 as int, b.1 as int, b.2 as int), (a.0 as int, a.1 as int, a.2 as int))
            ==> r < 0,
{
    let from = jiff::civil::Date::new(a.0, a.1, a.2).unwrap_or_default();
    let to = jiff::civil::Date::new(b.0, b.1, b.2).unwrap_or_default();
    from.until(to).map(|span| span.get_days()).unwrap_or(0)
}

/// The next day with `jiff::civil::Date::tomorrow`.
///
/// Trusted: the result is jiff's, the next Gregorian date as `jiff_tomorrow` spells it out; jiff
/// fails only on its maximum date, `9999-12-31`, and otherwise returns a valid date later than
/// the given one.
#[verifier::external_body]
fn jiff_next_day(a: (i16, i8, i8)) -> (r: Option<(i16, i8, i8)>)
    requires
        valid_civil(a.0 as int, a.1 as int, a.2 as int),
    ensures
        r matches Some(t) ==> jiff_tomorrow((a.0 as int, a.1 as int, a.2 as int)) == Some(
            (t.0 as int, t.1 as int, t.2 as int),
        ) && valid_civil(t.0 as int, t.1 as int, t.2 as int) && civil_lt(
            (a.0 as int, a.1 as int, a.2 as int),
            (t.0 as int, t.1 as int, t.2 as int),
        ),
        r is None <==> (a.0 == 9999 && a.1 == 12 && a.2 == 31),
        r is None ==> jiff_tomorrow((a.0 as int, a.1 as int, a.2 as int)) is None,
{
    jiff::civil::Date::new(a.0, a.1, a.2)
        .ok()
        .and_then(|date| date.tomorrow().ok())
        .map(|t| (t.year(), t.month(), t.day()))
}

/// The calendar date a plan is for.
#[derive(Debug, Clone, Copy, PartialEq, Eq, Hash, PartialOrd, Ord)]
pub struct PlanDate {
    year: i16,
    month: i8,
    day: i8,
}

impl PlanDate {
    pub closed spec fn triple(self) -> (int, int, int) {
        (self.year as int, self.month as int, self.day as int)
    }

    pub open spec fn wf(self) -> bool {
        valid_civil(self.triple().0, self.triple().1, self.triple().2)
    }

    #[verifier::type_invariant]
    spec fn inv(self) -> bool {
        self.wf()
    }

    pub open spec fn spec_lt(self, other: Self) -> bool {
        civil_lt(self.triple(), other.triple())
    }

    pub open spec fn spec_le(self, other: Self) -> bool {
        self.spec_lt(other) || self == other
    }

    pub open spec fn is_max(self) -> bool {
        self.triple() == (9999int, 12int, 31int)
    }

    /// Makes the validity of this date available to a caller's proof.
    pub fn assert_wf(&self)
        ensures
            self.wf(),
    {
        proof {
            use_type_invariant(self);
        }
    }

    /// Creates a date from year, month and day, accepting exactly the dates
    /// `jiff::civil::Date::new` accepts.
    pub fn new(year: i16, month: i8, day: i8) -> (r: Option<PlanDate>)
        ensures
            r is Some <==> valid_civil(year as int, month as int, day as int),
            r matches Some(d) ==> d.triple() == (year as int, month as int, day as int),
    {
        if year < -9999 || year > 9999 || month < 1 || month > 12 || day < 1 {
            return None;
        }
        let leap = (year % 4 == 0 && year % 100 != 0) || year % 400 == 0;
        let len: i8 = if month == 2 {
            if leap {
                29
            } else {
                28
            }
        } else if month == 4 || month == 6 || month == 9 || month == 11 {
            30
        } else {
            31
        };
        if day > len {
            return None;
        }
        Some(PlanDate { year, month, day })
    }

    pub fn year(&self) -> (r: i16)
        ensures
            r as int == self.triple().0,
    {
        self.year
    }

    pub fn month(&self) -> (r: i8)
        ensures
            r as int == self.triple().1,
    {
        self.month
    }

    pub fn day(&self) -> (r: i8)
        ensures
            r as int == self.triple().2,
    {
        self.day
    }

    /// Parses a date the way `jiff::civil::Date::from_str` does.
    pub fn parse(text: &str) -> (r: Option<PlanDate>)
        ensures
            r matches Some(d) ==> jiff_date_parse(text@) == Some(d.triple()),
            r is None ==> jiff_date_parse(text@) is None,
    {
        match jiff_parse(text) {
            Some(t) => Some(PlanDate { year: t.0, month: t.1, day: t.2 }),
            None => None,
        }
    }

    pub open spec fn spec_text(self) -> Seq<char> {
        jiff_date_text(self.triple().0, self.triple().1, self.triple().2)
    }

    /// Renders the date as jiff displays it (`YYYY-MM-DD` for years `0..=9999`).
    pub fn text(&self) -> (r: String)
        ensures
            r@ == self.spec_text(),
    {
        proof {
            use_type_invariant(self);
        }
        jiff_display(self.year, self.month, self.day)
    }

    /// Renders the date into a character vector.
    pub fn text_chars(&self) -> (r: Vec<char>)
        ensures
            r@ == self.spec_text(),
    {
        let s = self.text();
        chars_of(s.as_str())
    }

    pub fn lt(&self, other: &PlanDate) -> (r: bool)
        ensures
            r == self.spec_lt(*other),
    {
        self.year < other.year || (self.year == other.year && self.month < other.month) || (
        self.year == other.year && self.month == other.month && self.day < other.day)
    }

    pub fn le(&self, other: &PlanDate) -> (r: bool)
        ensures
            r == self.spec_le(*other),
    {
        self.lt(other) || self.same(other)
    }

    pub proof fn lemma_triple_injective(self, other: Self)
        ensures
            self.triple() == other.triple() ==> self == other,
    {
    }

    pub fn same(&self, other: &PlanDate) -> (r: bool)
        ensures
            r == (*self == *other),
    {
        self.year == other.year && self.month == other.month && self.day == other.day
    }

    pub open spec fn spec_weekday_index(self) -> int {
        jiff_weekday(self.triple().0, self.triple().1, self.triple().2)
    }

    /// The Monday-zero weekday offset of this date, as jiff computes it.
    pub fn weekday_index(&self) -> (r: u8)
        ensures
            r as int == self.spec_weekday_index(),
            r < 7,
    {
        proof {
            use_type_invariant(self);
        }
        jiff_weekday_of(self.year, self.month, self.day)
    }

    pub open spec fn spec_days_until(self, other: Self) -> int {
        jiff_days_until(self.triple(), other.triple())
    }

    /// Days from this date to `other`, as jiff computes them.
    pub fn days_until(&self, other: &PlanDate) -> (r: i32)
        ensures
            r as int == self.spec_days_until(*other),
            *self == *other ==> r == 0,
            self.spec_lt(*other) ==> r > 0,
            other.spec_lt(*self) ==> r < 0,
    {
        proof {
            use_type_invariant(self);
            use_type_invariant(other);
        }
        jiff_until_days((self.year, self.month, self.day), (other.year, other.month, other.day))
    }

    pub open spec fn spec_tomorrow(self) -> Option<(int, int, int)> {
        jiff_tomorrow(self.triple())
    }

    /// The following day, or `None` for jiff's maximum date.
    pub fn tomorrow(&self) -> (r: Option<PlanDate>)
        ensures
            r is None <==> self.is_max(),
            r matches Some(t) ==> self.spec_tomorrow() == Some(t.triple()) && self.spec_lt(t),
    {
        proof {
            use_type_invariant(self);
        }
        match jiff_next_day((self.year, self.month, self.day)) {
            Some(t) => Some(PlanDate { year: t.0, month: t.1, day: t.2 }),
            None => None,
        }
    }
}

/// Of two valid dates, one is before the other or they are the same.
pub proof fn lemma_le_cases(a: PlanDate, b: PlanDate)
    requires
        a.wf(),
        b.wf(),
    ensures
        !b.spec_lt(a) ==> (a.spec_lt(b) || a == b),
{
    a.lemma_triple_injective(b);
}

} // verus!
