//! The plan schema: field types with their parsers and renderings, blocks, plans, validation
//! and schedule revisions.

use vstd::prelude::*;

use crate::civil::PlanDate;
use crate::text::{
    lemma_decimal_digits,
    all_digits, ascii_alphanumeric, ascii_digit, chars_eq, chars_of, concat2, copy_string, copy_strings,
    chars_lt, decimal, decimal_chars, digits_value, lemma_seq_lt_irreflexive, lemma_seq_lt_total, lemma_seq_lt_transitive, seq_lt, is_ascii_alphanumeric, is_ascii_digit, parse_unsigned,
    push_all, push_str, split_words, starts_with_chars, std_unsigned_parse, string_of, trim,
    trim_chars, words, zero_padded, zero_padded_chars, no_whitespace, lemma_trim_unchanged,
    lemma_words_single, lemma_words_split, is_unicode_whitespace,
};

verus! {

pub const SECONDS_PER_DAY: u32 = 86400;

/// Why a single field value was rejected.
#[derive(Debug, Clone, PartialEq, Eq)]
pub enum FieldParseError {
    BlockId { value: String },
    Date { value: String },
    TimeZone { value: String },
    ClockTime { value: String },
    Duration { value: String },
    ScheduleRev { value: String },
    Run,
    RecurRule { value: String },
    WhenCondition { value: String },
}

// ── Block ids ──────────────────────────────────────────────────────────────

pub open spec fn block_id_char(c: char) -> bool {
    is_ascii_alphanumeric(c) || c == '-' || c == '_' || c == '.'
}

/// A block id: non-empty, made only of ASCII letters, digits, `-`, `_` and `.`.
pub open spec fn valid_block_id(s: Seq<char>) -> bool {
    s.len() > 0 && forall|i: int| 0 <= i < s.len() ==> block_id_char(#[trigger] s[i])
}

#[derive(Debug, PartialEq, Eq, Hash)]
pub struct BlockId(String);

impl Clone for BlockId {
    fn clone(&self) -> (r: Self)
        ensures
            r@ == self@,
    {
        self.copied()
    }
}

impl View for BlockId {
    type V = Seq<char>;

    closed spec fn view(&self) -> Seq<char> {
        self.0@
    }
}

impl BlockId {
    #[verifier::type_invariant]
    spec fn inv(self) -> bool {
        valid_block_id(self.0@)
    }

    /// Makes the validity of this id available to a caller's proof.
    pub fn assert_wf(&self)
        ensures
            valid_block_id(self@),
    {
        proof {
            use_type_invariant(self);
        }
    }

    /// Creates a block id after validating its portable character set.
    pub fn new(value: String) -> (r: Result<BlockId, FieldParseError>)
        ensures
            r is Ok <==> valid_block_id(value@),
            r matches Ok(id) ==> id@ == value@,
            r matches Err(e) ==> e == (FieldParseError::BlockId { value }),
    {
        let chars = chars_of(value.as_str());
        if chars.len() == 0 {
            return Err(FieldParseError::BlockId { value });
        }
        let mut i: usize = 0;
        while i < chars.len()
            invariant
                i <= chars.len(),
                chars@ == value@,
                forall|k: int| 0 <= k < i ==> block_id_char(#[trigger] chars@[k]),
            decreases chars.len() - i,
        {
            let c = chars[i];
            if !(ascii_alphanumeric(c) || c == '-' || c == '_' || c == '.') {
                return Err(FieldParseError::BlockId { value });
            }
            i = i + 1;
        }
        Ok(BlockId(value))
    }

    /// Parses a block id from text (`FromStr`).
    pub fn parse(value: &str) -> (r: Result<BlockId, FieldParseError>)
        ensures
            r is Ok <==> valid_block_id(value@),
            r matches Ok(id) ==> id@ == value@,
            r matches Err(e) ==> e is BlockId && e->BlockId_value@ == value@,
    {
        BlockId::new(value.to_owned())
    }

    pub fn as_str(&self) -> (r: &str)
        ensures
            r@ == self@,
    {
        self.0.as_str()
    }

    pub fn copied(&self) -> (r: BlockId)
        ensures
            r@ == self@,
            r == *self,
    {
        proof {
            use_type_invariant(self);
        }
        BlockId(copy_string(&self.0))
    }

    pub fn chars(&self) -> (r: Vec<char>)
        ensures
            r@ == self@,
    {
        chars_of(self.0.as_str())
    }

    pub fn same(&self, other: &BlockId) -> (r: bool)
        ensures
            r == (self@ == other@),
    {
        self.0 == other.0
    }
}

// ── Clock times ────────────────────────────────────────────────────────────

/// A local wall-clock time of day, at minute resolution.
#[derive(Debug, Clone, Copy, PartialEq, Eq, PartialOrd, Ord)]
pub struct ClockTime {
    minutes_since_midnight: u16,
}

impl ClockTime {
    #[verifier::type_invariant]
    spec fn inv(self) -> bool {
        self.minutes_since_midnight < 1440
    }

    pub closed spec fn spec_minutes(self) -> nat {
        self.minutes_since_midnight as nat
    }

    pub open spec fn spec_seconds(self) -> nat {
        self.spec_minutes() * 60
    }

    /// Makes the range of this time available to a caller's proof.
    pub fn assert_wf(&self)
        ensures
            self.spec_minutes() < 1440,
    {
        proof {
            use_type_invariant(self);
        }
    }

    pub proof fn lemma_minutes_determine(self, other: Self)
        ensures
            self.spec_minutes() == other.spec_minutes() ==> self == other,
    {
    }

    /// Creates a wall-clock time from minutes since local midnight.
    pub fn from_minutes_since_midnight(minutes: u16) -> (r: Result<ClockTime, FieldParseError>)
        ensures
            r is Ok <==> minutes < 1440,
            r matches Ok(t) ==> t.spec_minutes() == minutes,
            r matches Err(e) ==> e is ClockTime && e->ClockTime_value@ == decimal(minutes as nat),
    {
        if minutes >= 24 * 60 {
            let digits = decimal_chars(minutes as u64);
            return Err(FieldParseError::ClockTime { value: string_of(digits.as_slice()) });
        }
        Ok(ClockTime { minutes_since_midnight: minutes })
    }

    pub fn minutes_since_midnight(self) -> (r: u16)
        ensures
            r == self.spec_minutes(),
            r < 1440,
    {
        proof {
            use_type_invariant(self);
        }
        self.minutes_since_midnight
    }

    pub fn hour(self) -> (r: i8)
        ensures
            r == self.spec_minutes() / 60,
            0 <= r < 24,
    {
        proof {
            use_type_invariant(self);
        }
        (self.minutes_since_midnight / 60) as i8
    }

    pub fn minute(self) -> (r: i8)
        ensures
            r == self.spec_minutes() % 60,
            0 <= r < 60,
    {
        proof {
            use_type_invariant(self);
        }
        (self.minutes_since_midnight % 60) as i8
    }

    pub fn seconds_since_midnight(self) -> (r: u32)
        ensures
            r == self.spec_seconds(),
            r < SECONDS_PER_DAY,
    {
        proof {
            use_type_invariant(self);
        }
        self.minutes_since_midnight as u32 * 60
    }

    pub open spec fn spec_text(self) -> Seq<char> {
        zero_padded(self.spec_minutes() / 60, 2) + seq![':'] + zero_padded(
            self.spec_minutes() % 60,
            2,
        )
    }

    /// Renders the time as `HH:MM`.
    pub fn text_chars(self) -> (r: Vec<char>)
        ensures
            r@ == self.spec_text(),
    {
        let m = self.minutes_since_midnight();
        let mut out = zero_padded_chars((m / 60) as u64, 2);
        out.push(':');
        let tail = zero_padded_chars((m % 60) as u64, 2);
        push_all(&mut out, tail.as_slice());
        out
    }

    pub fn text(self) -> (r: String)
        ensures
            r@ == self.spec_text(),
    {
        let v = self.text_chars();
        string_of(v.as_slice())
    }

    /// Parses `HH:MM` exactly as the planner's `FromStr` does.
    pub fn parse(value: &str) -> (r: Result<ClockTime, FieldParseError>)
        ensures
            r matches Ok(t) ==> clock_time_parse(value@) == Some(t.spec_minutes()),
            r is Err ==> clock_time_parse(value@) is None,
            r matches Err(e) ==> e is ClockTime && e->ClockTime_value@ == value@,
    {
        let chars = chars_of(value);
        let mut colon: usize = 0;
        while colon < chars.len() && chars[colon] != ':'
            invariant
                colon <= chars.len(),
                chars@ == value@,
                forall|k: int| 0 <= k < colon ==> chars@[k] != ':',
            decreases chars.len() - colon,
        {
            colon = colon + 1;
        }
        proof {
            if colon < chars.len() {
                assert(first_index_of(value@, ':') == Some(colon as int));
            } else {
                assert(first_index_of(value@, ':') is None);
            }
        }
        if colon == chars.len() {
            return Err(FieldParseError::ClockTime { value: value.to_owned() });
        }
        let hour_part = chars_range(&chars, 0, colon);
        let minute_part = chars_range(&chars, colon + 1, chars.len());
        if hour_part.len() != 2 || minute_part.len() != 2 {
            return Err(FieldParseError::ClockTime { value: value.to_owned() });
        }
        let hour = match parse_unsigned(hour_part.as_slice(), 65535) {
            Some(h) => h,
            None => {
                return Err(FieldParseError::ClockTime { value: value.to_owned() });
            },
        };
        let minute = match parse_unsigned(minute_part.as_slice(), 65535) {
            Some(m) => m,
            None => {
                return Err(FieldParseError::ClockTime { value: value.to_owned() });
            },
        };
        if hour >= 24 || minute >= 60 {
            return Err(FieldParseError::ClockTime { value: value.to_owned() });
        }
        Ok(ClockTime { minutes_since_midnight: (hour * 60 + minute) as u16 })
    }
}

/// Index of the first occurrence of `c` in `s`.
pub open spec fn first_index_of(s: Seq<char>, c: char) -> Option<int> {
    if exists|i: int| 0 <= i < s.len() && s[i] == c {
        let i = choose|i: int|
            0 <= i < s.len() && s[i] == c && forall|k: int| 0 <= k < i ==> s[k] != c;
        Some(i)
    } else {
        None
    }
}

/// Minutes since midnight of a `HH:MM` text: split at the first `:`, both halves exactly two
/// characters, each parsed as std parses a `u16`, hour below 24 and minute below 60.
pub open spec fn clock_time_parse(s: Seq<char>) -> Option<nat> {
    match first_index_of(s, ':') {
        None => None,
        Some(k) => {
            let h = s.take(k);
            let m = s.skip(k + 1);
            if h.len() != 2 || m.len() != 2 {
                None
            } else {
                match (std_unsigned_parse(h, 65535), std_unsigned_parse(m, 65535)) {
                    (Some(hv), Some(mv)) => if hv < 24 && mv < 60 {
                        Some(hv * 60 + mv)
                    } else {
                        None
                    },
                    _ => None,
                }
            }
        },
    }
}

/// Copies the characters `v[from..to]`.
pub fn chars_range(v: &Vec<char>, from: usize, to: usize) -> (r: Vec<char>)
    requires
        from <= to <= v.len(),
    ensures
        r@ == v@.subrange(from as int, to as int),
{
    let mut out: Vec<char> = Vec::new();
    let mut i = from;
    while i < to
        invariant
            from <= i <= to,
            to <= v.len(),
            out@ == v@.subrange(from as int, i as int),
        decreases to - i,
    {
        out.push(v[i]);
        i = i + 1;
    }
    out
}


// ── Durations ──────────────────────────────────────────────────────────────

/// End of the run of ASCII digits starting at `pos`.
pub open spec fn digits_end(s: Seq<char>, pos: int) -> int
    decreases s.len() - pos,
{
    if pos < 0 || pos >= s.len() || !is_ascii_digit(s[pos]) {
        pos
    } else {
        digits_end(s, pos + 1)
    }
}

pub open spec fn unit_rank(c: char) -> int {
    if c == 'h' {
        3
    } else if c == 'm' {
        2
    } else if c == 's' {
        1
    } else {
        0
    }
}

pub open spec fn unit_multiplier(c: char) -> nat {
    if c == 'h' {
        3600
    } else if c == 'm' {
        60
    } else {
        1
    }
}

pub open spec fn u32_max() -> nat {
    4294967295
}

/// Continues parsing `<digits><unit>` groups from `pos`, with `last_rank` the rank of the
/// previous unit and `total` the seconds so far.
pub open spec fn duration_groups(s: Seq<char>, pos: int, last_rank: int, total: nat) -> Option<nat>
    decreases s.len() - pos,
{
    if pos < 0 || pos >= s.len() {
        Some(total)
    } else {
        let j = digits_end(s, pos);
        if j <= pos || j >= s.len() {
            None
        } else {
            let amount = digits_value(s.subrange(pos, j));
            let c = s[j];
            let rank = unit_rank(c);
            if amount > u32_max() || rank == 0 || rank >= last_rank {
                None
            } else {
                let product = amount * unit_multiplier(c);
                let added = if product > u32_max() {
                    u32_max()
                } else {
                    product
                };
                if total + added > u32_max() {
                    None
                } else {
                    duration_groups(s, j + 1, rank, total + added)
                }
            }
        }
    }
}

/// Seconds denoted by a duration text such as `1h30m`, `90s` or `0m`: one or more groups of
/// decimal digits each followed by a unit, units strictly in the order `h`, `m`, `s`, the total
/// fitting in a `u32`.
pub open spec fn duration_parse(s: Seq<char>) -> Option<nat> {
    if s.len() == 0 {
        None
    } else {
        duration_groups(s, 0, 4, 0)
    }
}

proof fn lemma_digits_end_bounds(s: Seq<char>, pos: int)
    requires
        0 <= pos <= s.len(),
    ensures
        pos <= digits_end(s, pos) <= s.len(),
        forall|k: int| pos <= k < digits_end(s, pos) ==> is_ascii_digit(#[trigger] s[k]),
        digits_end(s, pos) < s.len() ==> !is_ascii_digit(s[digits_end(s, pos)]),
    decreases s.len() - pos,
{
    if pos < s.len() && is_ascii_digit(s[pos]) {
        lemma_digits_end_bounds(s, pos + 1);
    }
}

/// The value a refused duration or lead text is reported with: the text itself when it does not
/// read as a duration, its number of seconds when it reads but is out of range.
pub open spec fn duration_error_value(t: Seq<char>) -> Seq<char> {
    match duration_parse(t) {
        Some(n) => decimal(n),
        None => t,
    }
}

/// Parses a duration text to seconds (see [`duration_parse`]).
pub fn parse_duration_seconds(value: &str) -> (r: Result<u32, FieldParseError>)
    ensures
        r matches Ok(v) ==> duration_parse(value@) == Some(v as nat),
        r is Err ==> duration_parse(value@) is None,
        r matches Err(e) ==> e is Duration && e->Duration_value@ == value@,
{
    let s = chars_of(value);
    if s.len() == 0 {
        return Err(FieldParseError::Duration { value: value.to_owned() });
    }
    let mut cursor: usize = 0;
    let mut total: u32 = 0;
    let mut last_rank: u8 = 4;
    while cursor < s.len()
        invariant
            s@ == value@,
            s.len() > 0,
            cursor <= s.len(),
            last_rank <= 4,
            duration_parse(value@) == duration_groups(s@, cursor as int, last_rank as int, total as nat),
        decreases s.len() - cursor,
    {
        let digits_start = cursor;
        proof {
            lemma_digits_end_bounds(s@, cursor as int);
        }
        while cursor < s.len() && ascii_digit(s[cursor])
            invariant
                digits_start <= cursor <= s.len(),
                digits_end(s@, digits_start as int) == digits_end(s@, cursor as int),
            decreases s.len() - cursor,
        {
            cursor = cursor + 1;
        }
        assert(digits_end(s@, cursor as int) == cursor);
        if digits_start == cursor || cursor == s.len() {
            return Err(FieldParseError::Duration { value: value.to_owned() });
        }
        let digits = chars_range(&s, digits_start, cursor);
        let amount = match parse_unsigned(digits.as_slice(), 4294967295) {
            Some(a) => a as u32,
            None => {
                proof {
                    let d = s@.subrange(digits_start as int, cursor as int);
                    assert(digits@ == d);
                    assert(all_digits(d));
                    assert(d.len() > 0 && d[0] != '+');
                }
                return Err(FieldParseError::Duration { value: value.to_owned() });
            },
        };
        proof {
            let d = s@.subrange(digits_start as int, cursor as int);
            assert(digits@ == d);
            assert(d.len() > 0 && d[0] != '+');
        }
        let c = s[cursor];
        let (rank, multiplier): (u8, u32) = if c == 'h' {
            (3, 3600)
        } else if c == 'm' {
            (2, 60)
        } else if c == 's' {
            (1, 1)
        } else {
            return Err(FieldParseError::Duration { value: value.to_owned() });
        };
        if rank >= last_rank {
            return Err(FieldParseError::Duration { value: value.to_owned() });
        }
        last_rank = rank;
        assert(amount as u64 * multiplier as u64 <= 4294967295u64 * 3600) by (nonlinear_arith)
            requires
                multiplier <= 3600,
        ;
        let product: u64 = amount as u64 * multiplier as u64;
        let added: u32 = if product > 4294967295 {
            4294967295
        } else {
            product as u32
        };
        if total as u64 + added as u64 > 4294967295 {
            return Err(FieldParseError::Duration { value: value.to_owned() });
        }
        total = total + added;
        cursor = cursor + 1;
    }
    Ok(total)
}

/// The compact rendering of a number of seconds: `0m` for zero, otherwise the non-zero parts
/// among hours, minutes and seconds, e.g. `1h30m` or `1m30s`.
pub open spec fn format_seconds_spec(seconds: nat) -> Seq<char> {
    if seconds == 0 {
        seq!['0', 'm']
    } else {
        let h = seconds / 3600;
        let m = seconds % 3600 / 60;
        let s = seconds % 60;
        (if h > 0 {
            decimal(h).push('h')
        } else {
            Seq::empty()
        }) + (if m > 0 {
            decimal(m).push('m')
        } else {
            Seq::empty()
        }) + (if s > 0 {
            decimal(s).push('s')
        } else {
            Seq::empty()
        })
    }
}

pub fn format_seconds(seconds: u32) -> (r: Vec<char>)
    ensures
        r@ == format_seconds_spec(seconds as nat),
{
    let mut out: Vec<char> = Vec::new();
    if seconds == 0 {
        out.push('0');
        out.push('m');
        return out;
    }
    let hours = seconds / 3600;
    let minutes = seconds % 3600 / 60;
    let secs = seconds % 60;
    let ghost hpart = if hours > 0 {
        decimal(hours as nat).push('h')
    } else {
        Seq::<char>::empty()
    };
    let ghost mpart = if minutes > 0 {
        decimal(minutes as nat).push('m')
    } else {
        Seq::<char>::empty()
    };
    let ghost spart = if secs > 0 {
        decimal(secs as nat).push('s')
    } else {
        Seq::<char>::empty()
    };
    if hours > 0 {
        let d = decimal_chars(hours as u64);
        push_all(&mut out, d.as_slice());
        out.push('h');
    }
    assert(out@ == hpart);
    if minutes > 0 {
        let d = decimal_chars(minutes as u64);
        push_all(&mut out, d.as_slice());
        out.push('m');
    }
    assert(out@ == hpart + mpart);
    if secs > 0 {
        let d = decimal_chars(secs as u64);
        push_all(&mut out, d.as_slice());
        out.push('s');
    }
    assert(out@ == hpart + mpart + spart);
    out
}

proof fn lemma_digits_run(s: Seq<char>, start: int, end: int, k: int)
    requires
        0 <= start <= k <= end < s.len(),
        forall|i: int| start <= i < end ==> is_ascii_digit(#[trigger] s[i]),
        !is_ascii_digit(s[end]),
    ensures
        digits_end(s, k) == end,
    decreases end - k,
{
    if k < end {
        lemma_digits_run(s, start, end, k + 1);
    }
}

/// One `<digits><unit>` group at `pos`: parsing moves past it, adding its seconds.
proof fn lemma_duration_group(s: Seq<char>, pos: int, last_rank: int, total: nat, x: nat, u: char)
    requires
        0 <= pos,
        pos + decimal(x).len() + 1 <= s.len(),
        s.subrange(pos, pos + decimal(x).len() + 1) == decimal(x).push(u),
        u == 'h' || u == 'm' || u == 's',
        unit_rank(u) < last_rank,
        total + x * unit_multiplier(u) <= u32_max(),
    ensures
        duration_groups(s, pos, last_rank, total) == duration_groups(
            s,
            pos + decimal(x).len() + 1,
            unit_rank(u),
            total + x * unit_multiplier(u),
        ),
{
    lemma_decimal_digits(x);
    let d = decimal(x);
    let j = pos + d.len();
    assert forall|i: int| pos <= i < j implies is_ascii_digit(#[trigger] s[i]) by {
        assert(s[i] == s.subrange(pos, j + 1)[i - pos]);
        assert(d[i - pos] == d.push(u)[i - pos]);
    }
    assert(s[j] == s.subrange(pos, j + 1)[d.len() as int]);
    assert(s[j] == u);
    lemma_digits_run(s, pos, j, pos);
    assert(s.subrange(pos, j) == d) by {
        assert forall|i: int| 0 <= i < d.len() implies s.subrange(pos, j)[i] == d[i] by {
            assert(s.subrange(pos, j)[i] == s.subrange(pos, j + 1)[i]);
            assert(d[i] == d.push(u)[i]);
        }
        assert(s.subrange(pos, j) =~= d);
    }
    assert(x <= u32_max()) by (nonlinear_arith)
        requires
            total + x * unit_multiplier(u) <= u32_max(),
            unit_multiplier(u) >= 1,
    ;
}

proof fn lemma_split_seconds(n: nat)
    requires
        n <= 86400,
    ensures
        n == n / 3600 * 3600 + n % 3600 / 60 * 60 + n % 60,
        n / 3600 <= 24,
        n % 3600 / 60 < 60,
        n % 60 < 60,
{
    assert(n == n / 3600 * 3600 + n % 3600);
    assert(n % 3600 == n % 3600 / 60 * 60 + n % 3600 % 60);
    assert(n % 3600 % 60 == n % 60) by (nonlinear_arith)
        requires
            n >= 0,
    ;
}

/// The compact rendering of a positive number of seconds up to a day parses back to it.
#[verifier::spinoff_prover]
#[verifier::rlimit(40)]
pub proof fn lemma_format_seconds_parses(n: nat)
    requires
        0 < n <= 86400,
    ensures
        duration_parse(format_seconds_spec(n)) == Some(n),
{
    lemma_split_seconds(n);
    let h = n / 3600;
    let m = n % 3600 / 60;
    let sec = n % 60;
    let hp = if h > 0 { decimal(h).push('h') } else { Seq::<char>::empty() };
    let mp = if m > 0 { decimal(m).push('m') } else { Seq::<char>::empty() };
    let sp = if sec > 0 { decimal(sec).push('s') } else { Seq::<char>::empty() };
    let s = hp + mp + sp;
    let p1: int = hp.len() as int;
    let p2: int = (hp.len() + mp.len()) as int;
    assert(s == format_seconds_spec(n));
    lemma_decimal_digits(h);
    lemma_decimal_digits(m);
    lemma_decimal_digits(sec);
    assert(s.len() > 0);
    // after the hours group
    let r1: int = if h > 0 { 3 } else { 4 };
    let t1: nat = h * 3600;
    if h > 0 {
        assert(s.subrange(0, p1) =~= hp);
        lemma_duration_group(s, 0, 4, 0, h, 'h');
    }
    assert(duration_groups(s, 0, 4, 0) == duration_groups(s, p1, r1, t1));
    // after the minutes group
    let r2: int = if m > 0 { 2 } else { r1 };
    let t2: nat = t1 + m * 60;
    if m > 0 {
        assert(s.subrange(p1, p2) =~= mp);
        lemma_duration_group(s, p1, r1, t1, m, 'm');
    }
    assert(duration_groups(s, p1, r1, t1) == duration_groups(s, p2, r2, t2));
    // after the seconds group
    let t3: nat = t2 + sec;
    if sec > 0 {
        assert(s.subrange(p2, s.len() as int) =~= sp);
        lemma_duration_group(s, p2, r2, t2, sec, 's');
    }
    assert(duration_groups(s, p2, r2, t2) == duration_groups(s, s.len() as int, if sec > 0 { 1 } else { r2 }, t3));
    assert(t3 == n);
}

/// A positive duration of at most one day.
#[derive(Debug, Clone, Copy, PartialEq, Eq)]
pub struct DurationSpec {
    seconds: u32,
}

impl DurationSpec {
    #[verifier::type_invariant]
    spec fn inv(self) -> bool {
        0 < self.seconds <= SECONDS_PER_DAY
    }

    pub closed spec fn spec_seconds(self) -> nat {
        self.seconds as nat
    }

    pub proof fn lemma_seconds_determine(self, other: Self)
        ensures
            self.spec_seconds() == other.spec_seconds() ==> self == other,
    {
    }

    /// Creates a positive duration of at most a day from seconds.
    pub fn from_seconds(seconds: u32) -> (r: Result<DurationSpec, FieldParseError>)
        ensures
            r is Ok <==> 0 < seconds <= SECONDS_PER_DAY,
            r matches Ok(d) ==> d.spec_seconds() == seconds,
            r matches Err(e) ==> e is Duration && e->Duration_value@ == decimal(seconds as nat),
    {
        if seconds == 0 || seconds > SECONDS_PER_DAY {
            let digits = decimal_chars(seconds as u64);
            return Err(FieldParseError::Duration { value: string_of(digits.as_slice()) });
        }
        Ok(DurationSpec { seconds })
    }

    /// Constructor for defaults; `None` for an out-of-range value.
    pub fn from_seconds_const(seconds: u32) -> (r: Option<DurationSpec>)
        ensures
            r is Some <==> 0 < seconds <= SECONDS_PER_DAY,
            r matches Some(d) ==> d.spec_seconds() == seconds,
    {
        if seconds == 0 || seconds > SECONDS_PER_DAY {
            None
        } else {
            Some(DurationSpec { seconds })
        }
    }

    pub fn as_seconds(self) -> (r: u32)
        ensures
            r == self.spec_seconds(),
            0 < r <= SECONDS_PER_DAY,
    {
        proof {
            use_type_invariant(self);
        }
        self.seconds
    }

    /// Parses a duration text (`FromStr`): the text must denote between one second and a day.
    /// A refused text is reported as itself, or as its seconds when it reads but is out of range.
    pub fn parse(value: &str) -> (r: Result<DurationSpec, FieldParseError>)
        ensures
            r is Ok <==> (duration_parse(value@) matches Some(n) && 0 < n <= SECONDS_PER_DAY),
            r matches Ok(d) ==> duration_parse(value@) == Some(d.spec_seconds()),
            r matches Err(e) ==> e is Duration && e->Duration_value@ == duration_error_value(value@),
    {
        let seconds = parse_duration_seconds(value)?;
        DurationSpec::from_seconds(seconds)
    }

    /// Renders the duration compactly, e.g. `1h30m`.
    pub fn text(self) -> (r: String)
        ensures
            r@ == format_seconds_spec(self.spec_seconds()),
    {
        let v = format_seconds(self.as_seconds());
        string_of(v.as_slice())
    }
}

/// A notification lead time, in seconds before a block's start.
#[derive(Debug, Clone, Copy, PartialEq, Eq, Default)]
pub struct Lead {
    seconds: u32,
}

impl Lead {
    pub closed spec fn spec_seconds(self) -> nat {
        self.seconds as nat
    }

    pub proof fn lemma_seconds_determine(self, other: Self)
        ensures
            self.spec_seconds() == other.spec_seconds() ==> self == other,
    {
    }

    /// Creates a lead of at most one day from seconds.
    pub fn from_seconds(seconds: u32) -> (r: Result<Lead, FieldParseError>)
        ensures
            r is Ok <==> seconds <= SECONDS_PER_DAY,
            r matches Ok(l) ==> l.spec_seconds() == seconds,
            r matches Err(e) ==> e is Duration && e->Duration_value@ == decimal(seconds as nat),
    {
        if seconds > SECONDS_PER_DAY {
            let digits = decimal_chars(seconds as u64);
            return Err(FieldParseError::Duration { value: string_of(digits.as_slice()) });
        }
        Ok(Lead { seconds })
    }

    /// Constructor for defaults; takes the seconds as given.
    pub fn from_seconds_const(seconds: u32) -> (r: Lead)
        ensures
            r.spec_seconds() == seconds,
            r == Lead::from_seconds_spec(seconds),
    {
        Lead { seconds }
    }

    pub closed spec fn from_seconds_spec(seconds: u32) -> Lead {
        Lead { seconds }
    }

    pub fn as_seconds(self) -> (r: u32)
        ensures
            r == self.spec_seconds(),
    {
        self.seconds
    }

    /// Parses a lead text (`FromStr`): the text must denote at most a day.
    pub fn parse(value: &str) -> (r: Result<Lead, FieldParseError>)
        ensures
            r is Ok <==> (duration_parse(value@) matches Some(n) && n <= SECONDS_PER_DAY),
            r matches Ok(l) ==> duration_parse(value@) == Some(l.spec_seconds()),
            r matches Err(e) ==> e is Duration && e->Duration_value@ == duration_error_value(value@),
    {
        let seconds = parse_duration_seconds(value)?;
        Lead::from_seconds(seconds)
    }

    /// Renders the lead compactly, e.g. `5m` or `0m`.
    pub fn text(self) -> (r: String)
        ensures
            r@ == format_seconds_spec(self.spec_seconds()),
    {
        let v = format_seconds(self.seconds);
        string_of(v.as_slice())
    }
}


// ── Status ─────────────────────────────────────────────────────────────────

/// Lifecycle status of a block.
#[derive(Debug, Clone, Copy, PartialEq, Eq, Structural)]
pub enum Status {
    Pending,
    Active,
    Done,
    Skipped,
    Missed,
    Expired,
}

impl Default for Status {
    fn default() -> (r: Status)
        ensures
            r == Status::Pending,
    {
        Status::Pending
    }
}

pub open spec fn status_terminal(s: Status) -> bool {
    s is Done || s is Skipped || s is Missed || s is Expired
}

pub open spec fn status_text(s: Status) -> Seq<char> {
    match s {
        Status::Pending => "pending"@,
        Status::Active => "active"@,
        Status::Done => "done"@,
        Status::Skipped => "skipped"@,
        Status::Missed => "missed"@,
        Status::Expired => "expired"@,
    }
}

impl Status {
    /// Whether the status is final: done, skipped, missed or expired.
    pub fn is_terminal(self) -> (r: bool)
        ensures
            r == status_terminal(self),
    {
        match self {
            Status::Done | Status::Skipped | Status::Missed | Status::Expired => true,
            Status::Pending | Status::Active => false,
        }
    }

    /// Canonical lowercase label used for human-readable display.
    pub fn as_str(self) -> (r: &'static str)
        ensures
            r@ == status_text(self),
    {
        match self {
            Status::Pending => "pending",
            Status::Active => "active",
            Status::Done => "done",
            Status::Skipped => "skipped",
            Status::Missed => "missed",
            Status::Expired => "expired",
        }
    }

    /// Parses the lowercase label of a status.
    pub fn parse(value: &str) -> (r: Option<Status>)
        ensures
            r matches Some(st) ==> status_text(st) == value@,
            r is None ==> forall|st: Status| status_text(st) != value@,
    {
        let v = chars_of(value);
        let all = [Status::Pending, Status::Active, Status::Done, Status::Skipped, Status::Missed, Status::Expired];
        let mut i: usize = 0;
        while i < 6
            invariant
                i <= 6,
                v@ == value@,
                all@ == seq![Status::Pending, Status::Active, Status::Done, Status::Skipped, Status::Missed, Status::Expired],
                forall|k: int| 0 <= k < i ==> status_text(#[trigger] all@[k]) != value@,
            decreases 6 - i,
        {
            let label = chars_of(all[i].as_str());
            if chars_eq(label.as_slice(), v.as_slice()) {
                return Some(all[i]);
            }
            i = i + 1;
        }
        proof {
            assert forall|st: Status| status_text(st) != value@ by {
                match st {
                    Status::Pending => assert(all@[0] == st),
                    Status::Active => assert(all@[1] == st),
                    Status::Done => assert(all@[2] == st),
                    Status::Skipped => assert(all@[3] == st),
                    Status::Missed => assert(all@[4] == st),
                    Status::Expired => assert(all@[5] == st),
                }
            }
        }
        None
    }
}

// ── Schedule revisions ─────────────────────────────────────────────────────

pub open spec fn is_lower_hex(c: char) -> bool {
    ('0' <= c && c <= '9') || ('a' <= c && c <= 'f')
}

/// A schedule revision: sixteen lowercase hexadecimal characters.
pub open spec fn valid_rev(s: Seq<char>) -> bool {
    s.len() == 16 && forall|i: int| 0 <= i < 16 ==> is_lower_hex(#[trigger] s[i])
}

/// What `blake3::hash` of the UTF-8 bytes of a text gives, rendered by `Hash::to_hex`.
pub uninterp spec fn blake3_hex_of(message: Seq<char>) -> Seq<char>;

/// Hashes the UTF-8 bytes of `message` with `blake3::hash` and renders the digest with
/// `Hash::to_hex`.
///
/// Trusted: the text is blake3's digest of the message, and `to_hex` renders the 32-byte digest
/// as 64 lowercase hexadecimal characters.
#[verifier::external_body]
fn blake3_hex(message: &str) -> (r: String)
    ensures
        r@ == blake3_hex_of(message@),
        r@.len() == 64,
        forall|i: int| 0 <= i < 64 ==> is_lower_hex(#[trigger] r@[i]),
{
    blake3::hash(message.as_bytes()).to_hex().to_string()
}

/// A block's schedule revision, as carried by its triggers.
#[derive(Debug, PartialEq, Eq, Hash, PartialOrd, Ord)]
pub struct ScheduleRev(String);

impl View for ScheduleRev {
    type V = Seq<char>;

    closed spec fn view(&self) -> Seq<char> {
        self.0@
    }
}

impl Clone for ScheduleRev {
    fn clone(&self) -> (r: Self)
        ensures
            r@ == self@,
    {
        self.copied()
    }
}

impl ScheduleRev {
    #[verifier::type_invariant]
    spec fn inv(self) -> bool {
        valid_rev(self.0@)
    }

    pub fn assert_wf(&self)
        ensures
            valid_rev(self@),
    {
        proof {
            use_type_invariant(self);
        }
    }

    pub fn copied(&self) -> (r: ScheduleRev)
        ensures
            r@ == self@,
            r == *self,
    {
        proof {
            use_type_invariant(self);
        }
        ScheduleRev(copy_string(&self.0))
    }

    /// Parses a schedule revision embedded in a trigger: it must be the sixteen-character
    /// lowercase hexadecimal form the planner emits.
    pub fn new(value: String) -> (r: Result<ScheduleRev, FieldParseError>)
        ensures
            r is Ok <==> valid_rev(value@),
            r matches Ok(rev) ==> rev@ == value@,
            r matches Err(e) ==> e == (FieldParseError::ScheduleRev { value }),
    {
        let chars = chars_of(value.as_str());
        if chars.len() != 16 {
            return Err(FieldParseError::ScheduleRev { value });
        }
        let mut i: usize = 0;
        while i < 16
            invariant
                i <= 16,
                chars.len() == 16,
                chars@ == value@,
                forall|k: int| 0 <= k < i ==> is_lower_hex(#[trigger] chars@[k]),
            decreases 16 - i,
        {
            let c = chars[i];
            if !(('0' <= c && c <= '9') || ('a' <= c && c <= 'f')) {
                return Err(FieldParseError::ScheduleRev { value });
            }
            i = i + 1;
        }
        Ok(ScheduleRev(value))
    }

    /// Parses a schedule revision from text (`FromStr`).
    pub fn parse(value: &str) -> (r: Result<ScheduleRev, FieldParseError>)
        ensures
            r is Ok <==> valid_rev(value@),
            r matches Ok(rev) ==> rev@ == value@,
            r matches Err(e) ==> e is ScheduleRev && e->ScheduleRev_value@ == value@,
    {
        ScheduleRev::new(value.to_owned())
    }

    pub fn as_str(&self) -> (r: &str)
        ensures
            r@ == self@,
    {
        self.0.as_str()
    }

    pub fn same(&self, other: &ScheduleRev) -> (r: bool)
        ensures
            r == (self@ == other@),
    {
        self.0 == other.0
    }
}

// ── Spans and run commands ─────────────────────────────────────────────────

/// How a block's end is given: an explicit end time or a duration from its start.
#[derive(Debug, Clone, Copy, PartialEq, Eq)]
pub enum Span {
    End(ClockTime),
    Duration(DurationSpec),
}

pub open spec fn span_end_seconds(span: Span, start: ClockTime) -> nat {
    match span {
        Span::End(end) => end.spec_seconds(),
        Span::Duration(d) => start.spec_seconds() + d.spec_seconds(),
    }
}

impl Span {
    /// Seconds since midnight at which a block with this span and the given start ends.
    pub fn resolved_end_seconds(&self, start: ClockTime) -> (r: u32)
        ensures
            r == span_end_seconds(*self, start),
    {
        match self {
            Span::End(end) => end.seconds_since_midnight(),
            Span::Duration(duration) => start.seconds_since_midnight() + duration.as_seconds(),
        }
    }
}

/// A command line: a non-empty argv whose program name is non-empty.
pub open spec fn valid_argv(argv: Seq<String>) -> bool {
    argv.len() > 0 && argv[0]@.len() > 0
}

#[derive(Debug, PartialEq, Eq)]
pub struct Run(Vec<String>);

impl View for Run {
    type V = Seq<String>;

    closed spec fn view(&self) -> Seq<String> {
        self.0@
    }
}

impl Clone for Run {
    fn clone(&self) -> (r: Self)
        ensures
            r@ == self@,
    {
        self.copied()
    }
}

impl Run {
    #[verifier::type_invariant]
    spec fn inv(self) -> bool {
        valid_argv(self.0@)
    }

    pub fn assert_wf(&self)
        ensures
            valid_argv(self@),
    {
        proof {
            use_type_invariant(self);
        }
    }

    pub fn copied(&self) -> (r: Run)
        ensures
            r@ == self@,
    {
        proof {
            use_type_invariant(self);
        }
        Run(copy_strings(&self.0))
    }

    /// Creates a run command; `argv[0]` must be present and non-empty.
    pub fn new(argv: Vec<String>) -> (r: Result<Run, FieldParseError>)
        ensures
            r is Ok <==> valid_argv(argv@),
            r matches Ok(run) ==> run@ == argv@,
            r matches Err(e) ==> e is Run,
    {
        if argv.len() == 0 || chars_of(argv[0].as_str()).len() == 0 {
            return Err(FieldParseError::Run);
        }
        Ok(Run(argv))
    }

    pub fn as_slice(&self) -> (r: &[String])
        ensures
            r@ == self@,
    {
        self.0.as_slice()
    }

    /// A copy of the argv.
    pub fn to_argv(&self) -> (r: Vec<String>)
        ensures
            r@ == self@,
    {
        copy_strings(&self.0)
    }
}

// ── Weekdays and recurrence ────────────────────────────────────────────────

#[derive(Debug, Clone, Copy, PartialEq, Eq, Hash, Structural)]
pub enum Weekday {
    Monday,
    Tuesday,
    Wednesday,
    Thursday,
    Friday,
    Saturday,
    Sunday,
}

pub open spec fn weekday_text(d: Weekday) -> Seq<char> {
    match d {
        Weekday::Monday => "mon"@,
        Weekday::Tuesday => "tue"@,
        Weekday::Wednesday => "wed"@,
        Weekday::Thursday => "thu"@,
        Weekday::Friday => "fri"@,
        Weekday::Saturday => "sat"@,
        Weekday::Sunday => "sun"@,
    }
}

/// Monday-zero offset of a weekday.
pub open spec fn weekday_offset(d: Weekday) -> int {
    match d {
        Weekday::Monday => 0,
        Weekday::Tuesday => 1,
        Weekday::Wednesday => 2,
        Weekday::Thursday => 3,
        Weekday::Friday => 4,
        Weekday::Saturday => 5,
        Weekday::Sunday => 6,
    }
}

impl Weekday {
    /// The three-letter lowercase label (`mon` … `sun`).
    pub fn as_str(self) -> (r: &'static str)
        ensures
            r@ == weekday_text(self),
    {
        match self {
            Weekday::Monday => "mon",
            Weekday::Tuesday => "tue",
            Weekday::Wednesday => "wed",
            Weekday::Thursday => "thu",
            Weekday::Friday => "fri",
            Weekday::Saturday => "sat",
            Weekday::Sunday => "sun",
        }
    }

    pub fn offset(self) -> (r: u8)
        ensures
            r == weekday_offset(self),
    {
        match self {
            Weekday::Monday => 0,
            Weekday::Tuesday => 1,
            Weekday::Wednesday => 2,
            Weekday::Thursday => 3,
            Weekday::Friday => 4,
            Weekday::Saturday => 5,
            Weekday::Sunday => 6,
        }
    }

    /// Parses a three-letter lowercase label (`FromStr`).
    pub fn parse(value: &str) -> (r: Result<Weekday, FieldParseError>)
        ensures
            r matches Ok(d) ==> weekday_text(d) == value@,
            r is Err ==> forall|d: Weekday| weekday_text(d) != value@,
            r matches Err(e) ==> e is RecurRule && e->RecurRule_value@ == value@,
    {
        let v = chars_of(value);
        let parsed = Weekday::parse_chars(v.as_slice());
        match parsed {
            Some(d) => Ok(d),
            None => Err(FieldParseError::RecurRule { value: value.to_owned() }),
        }
    }

    pub fn parse_chars(v: &[char]) -> (r: Option<Weekday>)
        ensures
            r matches Some(d) ==> weekday_text(d) == v@,
            r is None ==> forall|d: Weekday| weekday_text(d) != v@,
    {
        let all = [
            Weekday::Monday,
            Weekday::Tuesday,
            Weekday::Wednesday,
            Weekday::Thursday,
            Weekday::Friday,
            Weekday::Saturday,
            Weekday::Sunday,
        ];
        let mut i: usize = 0;
        while i < 7
            invariant
                i <= 7,
                all@ == seq![Weekday::Monday, Weekday::Tuesday, Weekday::Wednesday, Weekday::Thursday, Weekday::Friday, Weekday::Saturday, Weekday::Sunday],
                forall|k: int| 0 <= k < i ==> weekday_text(#[trigger] all@[k]) != v@,
            decreases 7 - i,
        {
            let label = chars_of(all[i].as_str());
            if chars_eq(label.as_slice(), v) {
                return Some(all[i]);
            }
            i = i + 1;
        }
        proof {
            assert forall|d: Weekday| weekday_text(d) != v@ by {
                match d {
                    Weekday::Monday => assert(all@[0] == d),
                    Weekday::Tuesday => assert(all@[1] == d),
                    Weekday::Wednesday => assert(all@[2] == d),
                    Weekday::Thursday => assert(all@[3] == d),
                    Weekday::Friday => assert(all@[4] == d),
                    Weekday::Saturday => assert(all@[5] == d),
                    Weekday::Sunday => assert(all@[6] == d),
                }
            }
        }
        None
    }
}

/// Recurrence rule.
#[derive(Debug, Clone, PartialEq, Eq)]
pub enum RecurRule {
    Daily,
    Weekday,
    Weekend,
    Weekly(Vec<Weekday>),
    EveryNDays(u16),
    EveryNWeeks(u16),
}

/// End condition for a recurrence.
#[derive(Debug, Clone, Copy, PartialEq, Eq)]
pub enum RecurEnd {
    Until(PlanDate),
    Count(u32),
}

/// A recurrence definition attached to a block.
#[derive(Debug, Clone, PartialEq, Eq)]
pub struct Recurrence {
    pub rule: RecurRule,
    pub anchor: PlanDate,
    pub end: Option<RecurEnd>,
}

/// Joins weekday labels with commas.
pub open spec fn weekday_list_text(days: Seq<Weekday>) -> Seq<char>
    decreases days.len(),
{
    if days.len() == 0 {
        Seq::empty()
    } else if days.len() == 1 {
        weekday_text(days[0])
    } else {
        weekday_list_text(days.drop_last()) + seq![','] + weekday_text(days.last())
    }
}

/// The `every` text of a rule, as the plan file writes it.
pub open spec fn recur_rule_text(rule: RecurRule) -> Seq<char> {
    match rule {
        RecurRule::Daily => "daily"@,
        RecurRule::Weekday => "weekday"@,
        RecurRule::Weekend => "weekend"@,
        RecurRule::Weekly(days) => "weekly:"@ + weekday_list_text(days@),
        RecurRule::EveryNDays(n) => decimal(n as nat).push('d'),
        RecurRule::EveryNWeeks(n) => decimal(n as nat).push('w'),
    }
}

/// Appends the comma-joined labels of `days` to `out`.
pub fn push_weekday_list(out: &mut Vec<char>, days: &Vec<Weekday>)
    ensures
        final(out)@ == old(out)@ + weekday_list_text(days@),
{
    let mut i: usize = 0;
    while i < days.len()
        invariant
            i <= days.len(),
            out@ == old(out)@ + weekday_list_text(days@.take(i as int)),
        decreases days.len() - i,
    {
        if i > 0 {
            out.push(',');
        }
        push_str(out, days[i].as_str());
        proof {
            let t = days@.take(i as int + 1);
            assert(t.drop_last() == days@.take(i as int));
            assert(t.last() == days@[i as int]);
            if i == 0 {
                assert(days@.take(0) == Seq::<Weekday>::empty());
            }
        }
        i = i + 1;
    }
    assert(days@.take(days.len() as int) == days@);
}

impl RecurRule {
    /// Renders the rule as the `every` text of the plan file.
    pub fn text(&self) -> (r: String)
        ensures
            r@ == recur_rule_text(*self),
    {
        let mut out: Vec<char> = Vec::new();
        match self {
            RecurRule::Daily => push_str(&mut out, "daily"),
            RecurRule::Weekday => push_str(&mut out, "weekday"),
            RecurRule::Weekend => push_str(&mut out, "weekend"),
            RecurRule::Weekly(days) => {
                push_str(&mut out, "weekly:");
                push_weekday_list(&mut out, days);
            },
            RecurRule::EveryNDays(n) => {
                let d = decimal_chars(*n as u64);
                push_all(&mut out, d.as_slice());
                out.push('d');
            },
            RecurRule::EveryNWeeks(n) => {
                let d = decimal_chars(*n as u64);
                push_all(&mut out, d.as_slice());
                out.push('w');
            },
        }
        string_of(out.as_slice())
    }
}

/// Provenance of a generated block instance.
#[derive(Debug, Clone, PartialEq, Eq)]
pub struct Origin {
    pub rule_id: BlockId,
    pub gen_hash: String,
}

/// Retry policy.
#[derive(Debug, Clone, Copy, PartialEq, Eq)]
pub struct Retry {
    pub count: u32,
    pub backoff: DurationSpec,
}

/// Approval gate on automated blocks.
#[derive(Debug, Clone, Copy, PartialEq, Eq, Structural)]
pub enum Approval {
    Pending,
    Approved,
}

// ── Reactive conditions ────────────────────────────────────────────────────

/// Reactive condition that the opt-in serve loop can poll for a block.
#[derive(Debug, Clone, PartialEq, Eq, Hash)]
pub enum WhenCondition {
    FileExists(String),
    FileChanged(String),
    CommandOk(Vec<String>),
}

/// What a reactive condition says, over plain character sequences.
pub enum WhenShape {
    FileExists(Seq<char>),
    FileChanged(Seq<char>),
    CommandOk(Seq<Seq<char>>),
}

pub open spec fn strings_view(v: Seq<String>) -> Seq<Seq<char>> {
    Seq::new(v.len(), |i: int| v[i]@)
}

impl View for WhenCondition {
    type V = WhenShape;

    open spec fn view(&self) -> WhenShape {
        match self {
            WhenCondition::FileExists(p) => WhenShape::FileExists(p@),
            WhenCondition::FileChanged(p) => WhenShape::FileChanged(p@),
            WhenCondition::CommandOk(argv) => WhenShape::CommandOk(strings_view(argv@)),
        }
    }
}

/// The trimmed text between `name(` and a final `)`, if `s` has that form.
pub open spec fn parenthesized(s: Seq<char>, name: Seq<char>) -> Option<Seq<char>> {
    if s.len() >= name.len() + 2 && s.take(name.len() as int) == name && s[name.len() as int]
        == '(' && s.last() == ')' {
        Some(trim(s.subrange(name.len() as int + 1, s.len() as int - 1)))
    } else {
        None
    }
}

/// The condition a text denotes: `file_exists(PATH)`, `file_changed(PATH)` with a non-empty
/// trimmed path, or `command_ok(ARGV)` with at least one whitespace-separated word.
pub open spec fn when_parse(s: Seq<char>) -> Option<WhenShape> {
    match parenthesized(s, "file_exists"@) {
        Some(p) => if p.len() == 0 {
            None
        } else {
            Some(WhenShape::FileExists(p))
        },
        None => match parenthesized(s, "file_changed"@) {
            Some(p) => if p.len() == 0 {
                None
            } else {
                Some(WhenShape::FileChanged(p))
            },
            None => match parenthesized(s, "command_ok"@) {
                Some(body) => if words(body).len() == 0 {
                    None
                } else {
                    Some(WhenShape::CommandOk(words(body)))
                },
                None => None,
            },
        },
    }
}

/// Joins words with single spaces.
pub open spec fn join_spaces(v: Seq<Seq<char>>) -> Seq<char>
    decreases v.len(),
{
    if v.len() == 0 {
        Seq::empty()
    } else if v.len() == 1 {
        v[0]
    } else {
        join_spaces(v.drop_last()) + seq![' '] + v.last()
    }
}

pub open spec fn when_text(w: WhenShape) -> Seq<char> {
    match w {
        WhenShape::FileExists(p) => "file_exists("@ + p + seq![')'],
        WhenShape::FileChanged(p) => "file_changed("@ + p + seq![')'],
        WhenShape::CommandOk(argv) => "command_ok("@ + join_spaces(argv) + seq![')'],
    }
}

/// A condition that its `when` text describes exactly: a path that is non-empty and its own
/// trim, or a command of at least one word, each non-empty and free of whitespace.
pub open spec fn when_writable(w: WhenShape) -> bool {
    match w {
        WhenShape::FileExists(p) => p.len() > 0 && trim(p) == p,
        WhenShape::FileChanged(p) => p.len() > 0 && trim(p) == p,
        WhenShape::CommandOk(argv) => argv.len() > 0 && forall|i: int|
            0 <= i < argv.len() ==> (#[trigger] argv[i]).len() > 0 && no_whitespace(argv[i]),
    }
}

proof fn lemma_join_spaces_words(v: Seq<Seq<char>>)
    requires
        v.len() > 0,
        forall|i: int| 0 <= i < v.len() ==> (#[trigger] v[i]).len() > 0 && no_whitespace(v[i]),
    ensures
        words(join_spaces(v)) == v,
        join_spaces(v).len() > 0,
        !is_unicode_whitespace(join_spaces(v)[0]),
        !is_unicode_whitespace(join_spaces(v).last()),
    decreases v.len(),
{
    if v.len() == 1 {
        lemma_words_single(v[0]);
        assert(seq![v[0]] =~= v);
        assert(!is_unicode_whitespace(v[0][0]));
        assert(!is_unicode_whitespace(v[0][v[0].len() - 1]));
    } else {
        let r = v.drop_last();
        assert forall|i: int| 0 <= i < r.len() implies (#[trigger] r[i]).len() > 0 && no_whitespace(r[i]) by {
            assert(r[i] == v[i]);
        }
        lemma_join_spaces_words(r);
        let last = v[v.len() - 1];
        assert(v.last() == last);
        lemma_words_single(last);
        assert(is_unicode_whitespace(' '));
        lemma_words_split(join_spaces(r), ' ', last);
        assert(r.push(last) =~= v);
        let j = join_spaces(v);
        assert(j == join_spaces(r) + seq![' '] + last);
        assert(j[0] == join_spaces(r)[0]);
        assert(j.last() == last[last.len() - 1]);
        assert(!is_unicode_whitespace(last[last.len() - 1]));
    }
}

/// The `when` text of a condition parses back to it, for a condition the text can describe.
pub proof fn lemma_when_text_parses(w: WhenShape)
    requires
        when_writable(w),
    ensures
        when_parse(when_text(w)) == Some(w),
{
    reveal_strlit("file_exists");
    reveal_strlit("file_changed");
    reveal_strlit("command_ok");
    reveal_strlit("file_exists(");
    reveal_strlit("file_changed(");
    reveal_strlit("command_ok(");
    let s = when_text(w);
    match w {
        WhenShape::FileExists(p) => {
            assert(s.take(11) =~= "file_exists"@);
            assert(s[11] == '(');
            assert(s.subrange(12, s.len() - 1) =~= p);
        },
        WhenShape::FileChanged(p) => {
            assert(s[5] != "file_exists"@[5]);
            assert(s.take(11)[5] == s[5]);
            assert(s.take(12) =~= "file_changed"@);
            assert(s[12] == '(');
            assert(s.subrange(13, s.len() - 1) =~= p);
        },
        WhenShape::CommandOk(argv) => {
            lemma_join_spaces_words(argv);
            let body = join_spaces(argv);
            lemma_trim_unchanged(body);
            assert(s[0] != "file_exists"@[0]);
            assert(s[0] != "file_changed"@[0]);
            if s.len() >= 11 {
                assert(s.take(11)[0] == s[0]);
            }
            if s.len() >= 12 {
                assert(s.take(12)[0] == s[0]);
            }
            assert(s.take(10) =~= "command_ok"@);
            assert(s[10] == '(');
            assert(s.subrange(11, s.len() - 1) =~= body);
        },
    }
}

/// Appends the words of `v` joined with `sep` to `out`.
pub fn push_joined(out: &mut Vec<char>, v: &[String], sep: char)
    ensures
        sep == ' ' ==> final(out)@ == old(out)@ + join_spaces(strings_view(v@)),
        final(out)@ == old(out)@ + join_with(strings_view(v@), sep),
{
    let mut i: usize = 0;
    while i < v.len()
        invariant
            i <= v.len(),
            out@ == old(out)@ + join_with(strings_view(v@).take(i as int), sep),
        decreases v.len() - i,
    {
        if i > 0 {
            out.push(sep);
        }
        push_str(out, v[i].as_str());
        proof {
            let t = strings_view(v@).take(i as int + 1);
            assert(t.drop_last() == strings_view(v@).take(i as int));
            if i == 0 {
                assert(strings_view(v@).take(0) == Seq::<Seq<char>>::empty());
            }
        }
        i = i + 1;
    }
    assert(strings_view(v@).take(v.len() as int) == strings_view(v@));
    proof {
        lemma_join_spaces(strings_view(v@));
    }
}

/// Joins character sequences with a separator character.
pub open spec fn join_with(v: Seq<Seq<char>>, sep: char) -> Seq<char>
    decreases v.len(),
{
    if v.len() == 0 {
        Seq::empty()
    } else if v.len() == 1 {
        v[0]
    } else {
        join_with(v.drop_last(), sep) + seq![sep] + v.last()
    }
}

pub proof fn lemma_join_spaces(v: Seq<Seq<char>>)
    ensures
        join_with(v, ' ') == join_spaces(v),
    decreases v.len(),
{
    if v.len() > 1 {
        lemma_join_spaces(v.drop_last());
    }
}

impl WhenCondition {
    /// Parses a condition text (`FromStr`).
    pub fn parse(value: &str) -> (r: Result<WhenCondition, FieldParseError>)
        ensures
            r matches Ok(w) ==> when_parse(value@) == Some(w@),
            r is Err ==> when_parse(value@) is None,
            r matches Err(e) ==> e is WhenCondition && e->WhenCondition_value@ == value@,
    {
        let v = chars_of(value);
        let fe = chars_of("file_exists");
        if let Some(path) = parenthesized_chars(v.as_slice(), fe.as_slice()) {
            if path.len() == 0 {
                return Err(FieldParseError::WhenCondition { value: value.to_owned() });
            }
            return Ok(WhenCondition::FileExists(string_of(path.as_slice())));
        }
        let fc = chars_of("file_changed");
        if let Some(path) = parenthesized_chars(v.as_slice(), fc.as_slice()) {
            if path.len() == 0 {
                return Err(FieldParseError::WhenCondition { value: value.to_owned() });
            }
            return Ok(WhenCondition::FileChanged(string_of(path.as_slice())));
        }
        let co = chars_of("command_ok");
        if let Some(body) = parenthesized_chars(v.as_slice(), co.as_slice()) {
            let argv = split_words(body.as_slice());
            if argv.len() == 0 {
                return Err(FieldParseError::WhenCondition { value: value.to_owned() });
            }
            assert(strings_view(argv@) == words(body@));
            return Ok(WhenCondition::CommandOk(argv));
        }
        Err(FieldParseError::WhenCondition { value: value.to_owned() })
    }

    /// Renders the condition as its text form, e.g. `command_ok(/bin/true --flag)`.
    pub fn text(&self) -> (r: String)
        ensures
            r@ == when_text(self@),
    {
        let mut out: Vec<char> = Vec::new();
        match self {
            WhenCondition::FileExists(p) => {
                push_str(&mut out, "file_exists(");
                push_str(&mut out, p.as_str());
            },
            WhenCondition::FileChanged(p) => {
                push_str(&mut out, "file_changed(");
                push_str(&mut out, p.as_str());
            },
            WhenCondition::CommandOk(argv) => {
                push_str(&mut out, "command_ok(");
                push_joined(&mut out, argv.as_slice(), ' ');
            },
        }
        out.push(')');
        string_of(out.as_slice())
    }

    pub fn copied(&self) -> (r: WhenCondition)
        ensures
            r@ == self@,
    {
        match self {
            WhenCondition::FileExists(p) => WhenCondition::FileExists(copy_string(p)),
            WhenCondition::FileChanged(p) => WhenCondition::FileChanged(copy_string(p)),
            WhenCondition::CommandOk(argv) => WhenCondition::CommandOk(copy_strings(argv)),
        }
    }
}

/// The trimmed body of `name(...)` in `s`, if `s` has that form.
pub fn parenthesized_chars(s: &[char], name: &[char]) -> (r: Option<Vec<char>>)
    ensures
        r matches Some(b) ==> parenthesized(s@, name@) == Some(b@),
        r is None ==> parenthesized(s@, name@) is None,
{
    if s.len() < 2 || s.len() - 2 < name.len() {
        return None;
    }
    if !starts_with_chars(s, name) {
        return None;
    }
    if s[name.len()] != '(' || s[s.len() - 1] != ')' {
        return None;
    }
    let mut inner: Vec<char> = Vec::new();
    let mut i = name.len() + 1;
    while i < s.len() - 1
        invariant
            name.len() + 1 <= i <= s.len() - 1,
            s.len() >= name.len() + 2,
            inner@ == s@.subrange(name.len() as int + 1, i as int),
        decreases s.len() - 1 - i,
    {
        inner.push(s[i]);
        i = i + 1;
    }
    Some(trim_chars(inner.as_slice()))
}


// ── Time zone names ────────────────────────────────────────────────────────

/// A character's code with the ASCII capitals folded to lower case.
pub open spec fn ascii_folded(c: char) -> int {
    if 65 <= (c as u32) <= 90 {
        (c as u32) + 32
    } else {
        c as u32 as int
    }
}

/// Two texts are the same but for the case of ASCII letters.
pub open spec fn same_ignoring_ascii_case(a: Seq<char>, b: Seq<char>) -> bool {
    a.len() == b.len() && forall|i: int| 0 <= i < a.len() ==> #[trigger] ascii_folded(a[i]) == ascii_folded(b[i])
}

/// Looks a zone up with `jiff::tz::TimeZone::get` and reports the IANA name jiff gives it
/// (`TimeZone::iana_name`).
///
/// Trusted: jiff looks names up without regard to ASCII case and reports the database's spelling
/// of the name it found, so a reported name equals the one asked for but for the case of ASCII
/// letters. Which names load depends on the time zone database of the machine and is not stated.
/// `None` means the lookup failed; `Some(None)` that the zone loaded without an IANA name.
#[verifier::external_body]
fn jiff_zone_lookup(value: &str) -> (r: Option<Option<String>>)
    ensures
        r matches Some(Some(c)) ==> same_ignoring_ascii_case(c@, value@),
{
    jiff::tz::TimeZone::get(value).ok().map(|tz| tz.iana_name().map(str::to_owned))
}

/// A time zone name that loaded when it was parsed, kept in its canonical IANA spelling.
#[derive(Debug, Clone, PartialEq, Eq)]
pub struct TimeZoneName(String);

impl View for TimeZoneName {
    type V = Seq<char>;

    closed spec fn view(&self) -> Seq<char> {
        self.0@
    }
}

impl TimeZoneName {
    pub fn as_str(&self) -> (r: &str)
        ensures
            r@ == self@,
    {
        self.0.as_str()
    }

    pub fn copied(&self) -> (r: TimeZoneName)
        ensures
            r@ == self@,
    {
        TimeZoneName(copy_string(&self.0))
    }

    pub fn same(&self, other: &TimeZoneName) -> (r: bool)
        ensures
            r == (self@ == other@),
    {
        self.0 == other.0
    }

    /// Builds the name from the outcome of a zone lookup of `value`: an error when the lookup
    /// failed, otherwise the canonical name it reported, or `value` itself when it reported none.
    pub fn from_lookup(value: &str, lookup: Option<Option<String>>) -> (r: Result<
        TimeZoneName,
        FieldParseError,
    >)
        ensures
            lookup is None <==> r is Err,
            r matches Err(e) ==> e is TimeZone && e->TimeZone_value@ == value@,
            lookup matches Some(Some(c)) ==> (r matches Ok(t) && t@ == c@),
            lookup matches Some(None) ==> (r matches Ok(t) && t@ == value@),
            (lookup matches Some(Some(c)) ==> same_ignoring_ascii_case(c@, value@))
                ==> (r matches Ok(t) ==> same_ignoring_ascii_case(t@, value@)),
    {
        match lookup {
            None => Err(FieldParseError::TimeZone { value: value.to_owned() }),
            Some(Some(canonical)) => Ok(TimeZoneName(canonical)),
            Some(None) => Ok(TimeZoneName(value.to_owned())),
        }
    }

    /// Parses a time zone name (`FromStr`): the zone must load from the time zone database.
    pub fn parse(value: &str) -> (r: Result<TimeZoneName, FieldParseError>)
        ensures
            r matches Err(e) ==> e is TimeZone && e->TimeZone_value@ == value@,
            r matches Ok(t) ==> same_ignoring_ascii_case(t@, value@),
    {
        let lookup = jiff_zone_lookup(value);
        TimeZoneName::from_lookup(value, lookup)
    }
}

// ── Blocks ─────────────────────────────────────────────────────────────────

#[derive(Debug, Clone, PartialEq, Eq)]
pub struct Block {
    pub id: BlockId,
    pub title: String,
    pub start: ClockTime,
    pub span: Span,
    pub notify: Lead,
    pub tags: Vec<String>,
    pub status: Status,
    pub run: Option<Run>,
    pub recurrence: Option<Recurrence>,
    pub origin: Option<Origin>,
    pub after: Vec<BlockId>,
    pub on_success: Vec<BlockId>,
    pub on_failure: Vec<BlockId>,
    pub on_missed: Vec<BlockId>,
    pub retry: Option<Retry>,
    pub expect_by: Option<DurationSpec>,
    pub approval: Option<Approval>,
    pub when: Option<WhenCondition>,
    pub agent: Option<String>,
}

/// `name=value\0`, one field of the schedule revision message.
pub open spec fn rev_field(name: Seq<char>, value: Seq<char>) -> Seq<char> {
    name + seq!['='] + value + seq!['\0']
}

/// The message whose hash is a block's schedule revision: a version tag, then the id, the start
/// and end in seconds since midnight and the notification lead in seconds.
pub open spec fn schedule_rev_message(id: Seq<char>, start: nat, end: nat, notify: nat) -> Seq<
    char,
> {
    "ccplan-schedule-rev-v1\0"@ + rev_field("id"@, id) + rev_field("start"@, decimal(start))
        + rev_field("end"@, decimal(end)) + rev_field("notify"@, decimal(notify))
}

/// The revision of a block with these timing fields: the first sixteen hex digits of the hash.
pub open spec fn rev_of(id: Seq<char>, start: nat, end: nat, notify: nat) -> Seq<char> {
    blake3_hex_of(schedule_rev_message(id, start, end, notify)).take(16)
}

impl Block {
    pub open spec fn spec_end_seconds(&self) -> nat {
        span_end_seconds(self.span, self.start)
    }

    /// The schedule revision this block's triggers carry.
    pub open spec fn spec_rev(&self) -> Seq<char> {
        rev_of(
            self.id@,
            self.start.spec_seconds(),
            self.spec_end_seconds(),
            self.notify.spec_seconds(),
        )
    }

    pub fn resolved_end_seconds(&self) -> (r: u32)
        ensures
            r == self.spec_end_seconds(),
    {
        self.span.resolved_end_seconds(self.start)
    }

    /// Revision of the block's timing: a hash of its id, start, resolved end and lead. Nothing
    /// else of the block enters it.
    pub fn schedule_rev(&self) -> (r: ScheduleRev)
        ensures
            r@ == self.spec_rev(),
    {
        let mut msg: Vec<char> = Vec::new();
        push_str(&mut msg, "ccplan-schedule-rev-v1\0");
        push_rev_field(&mut msg, "id", self.id.chars().as_slice());
        let start = decimal_chars(self.start.seconds_since_midnight() as u64);
        push_rev_field(&mut msg, "start", start.as_slice());
        let end = decimal_chars(self.resolved_end_seconds() as u64);
        push_rev_field(&mut msg, "end", end.as_slice());
        let notify = decimal_chars(self.notify.as_seconds() as u64);
        push_rev_field(&mut msg, "notify", notify.as_slice());
        let text = string_of(msg.as_slice());
        let hex = blake3_hex(text.as_str());
        let hexv = chars_of(hex.as_str());
        let mut out: Vec<char> = Vec::new();
        let mut i: usize = 0;
        while i < 16
            invariant
                i <= 16,
                hexv@ == blake3_hex_of(msg@),
                hexv@.len() == 64,
                forall|k: int| 0 <= k < 64 ==> is_lower_hex(#[trigger] hexv@[k]),
                out@ == hexv@.take(i as int),
            decreases 16 - i,
        {
            out.push(hexv[i]);
            i = i + 1;
        }
        assert(valid_rev(out@));
        ScheduleRev(string_of(out.as_slice()))
    }
}

/// Appends `name=value\0` to `out`.
fn push_rev_field(out: &mut Vec<char>, name: &str, value: &[char])
    ensures
        final(out)@ == old(out)@ + rev_field(name@, value@),
{
    push_str(out, name);
    out.push('=');
    push_all(out, value);
    out.push('\0');
}

/// A block's revision depends on its id, start, resolved end and notification lead alone: two
/// blocks that agree on those have the same revision, whatever their titles, tags, statuses,
/// commands, approvals, origins or conditions.
pub proof fn schedule_rev_depends_only_on_timing(a: Block, b: Block)
    requires
        a.id@ == b.id@,
        a.start == b.start,
        a.spec_end_seconds() == b.spec_end_seconds(),
        a.notify == b.notify,
    ensures
        a.spec_rev() == b.spec_rev(),
{
}

// ── Validation ─────────────────────────────────────────────────────────────

#[derive(Debug, Clone, PartialEq, Eq)]
pub enum ValidationError {
    DuplicateId { id: BlockId },
    MissingEndOrDuration { id: BlockId },
    BothEndAndDuration { id: BlockId },
    EndNotAfterStart { id: BlockId },
    EndPastDay { id: BlockId },
    EmptyRun { id: BlockId },
    MissingAnchor { id: BlockId },
    BothCountAndUntil { id: BlockId },
    BadWeekday { id: BlockId, token: String },
    BadWhen { id: BlockId, value: String },
}

impl ValidationError {
    /// Process exit code for a validation failure: always 2.
    pub fn exit_code(&self) -> (r: i32)
        ensures
            r == 2,
    {
        match self {
            ValidationError::DuplicateId { .. }
            | ValidationError::MissingEndOrDuration { .. }
            | ValidationError::BothEndAndDuration { .. }
            | ValidationError::EndNotAfterStart { .. }
            | ValidationError::EndPastDay { .. }
            | ValidationError::EmptyRun { .. }
            | ValidationError::MissingAnchor { .. }
            | ValidationError::BothCountAndUntil { .. }
            | ValidationError::BadWeekday { .. }
            | ValidationError::BadWhen { .. } => 2,
        }
    }

    pub open spec fn spec_id(self) -> Seq<char> {
        match self {
            ValidationError::DuplicateId { id } => id@,
            ValidationError::MissingEndOrDuration { id } => id@,
            ValidationError::BothEndAndDuration { id } => id@,
            ValidationError::EndNotAfterStart { id } => id@,
            ValidationError::EndPastDay { id } => id@,
            ValidationError::EmptyRun { id } => id@,
            ValidationError::MissingAnchor { id } => id@,
            ValidationError::BothCountAndUntil { id } => id@,
            ValidationError::BadWeekday { id, .. } => id@,
            ValidationError::BadWhen { id, .. } => id@,
        }
    }

    /// The message shown for the error, e.g. ``block `focus` must end after it starts``.
    pub fn message(&self) -> (r: String)
        ensures
            r@ == validation_text(*self),
    {
        match self {
            ValidationError::DuplicateId { id } => {
                let mut out: Vec<char> = Vec::new();
                push_str(&mut out, "duplicate block id `");
                push_str(&mut out, id.as_str());
                push_str(&mut out, "`");
                string_of(out.as_slice())
            },
            ValidationError::MissingEndOrDuration { id } => block_said(id, "` must set exactly one of end or duration"),
            ValidationError::BothEndAndDuration { id } => block_said(id, "` must not set both end and duration"),
            ValidationError::EndNotAfterStart { id } => block_said(id, "` must end after it starts"),
            ValidationError::EndPastDay { id } => block_said(id, "` duration crosses the end of the day"),
            ValidationError::EmptyRun { id } => block_said(id, "` run argv must contain argv[0]"),
            ValidationError::MissingAnchor { id } => block_said(id, "` has `every` without `anchor`"),
            ValidationError::BothCountAndUntil { id } => block_said(id, "` has both `count` and `until`"),
            ValidationError::BadWeekday { id, token } => block_said_quoted(id, "` has unrecognised weekday token `", token),
            ValidationError::BadWhen { id, value } => block_said_quoted(id, "` has invalid `when` condition `", value),
        }
    }
}

pub open spec fn validation_text(e: ValidationError) -> Seq<char> {
    match e {
        ValidationError::DuplicateId { id } => "duplicate block id `"@ + id@ + "`"@,
        ValidationError::MissingEndOrDuration { id } => "block `"@ + id@ + "` must set exactly one of end or duration"@,
        ValidationError::BothEndAndDuration { id } => "block `"@ + id@ + "` must not set both end and duration"@,
        ValidationError::EndNotAfterStart { id } => "block `"@ + id@ + "` must end after it starts"@,
        ValidationError::EndPastDay { id } => "block `"@ + id@ + "` duration crosses the end of the day"@,
        ValidationError::EmptyRun { id } => "block `"@ + id@ + "` run argv must contain argv[0]"@,
        ValidationError::MissingAnchor { id } => "block `"@ + id@ + "` has `every` without `anchor`"@,
        ValidationError::BothCountAndUntil { id } => "block `"@ + id@ + "` has both `count` and `until`"@,
        ValidationError::BadWeekday { id, token } => "block `"@ + id@ + "` has unrecognised weekday token `"@ + token@ + "`"@,
        ValidationError::BadWhen { id, value } => "block `"@ + id@ + "` has invalid `when` condition `"@ + value@ + "`"@,
    }
}

fn block_said(id: &BlockId, rest: &str) -> (r: String)
    ensures
        r@ == "block `"@ + id@ + rest@,
{
    let mut out: Vec<char> = Vec::new();
    push_str(&mut out, "block `");
    push_str(&mut out, id.as_str());
    push_str(&mut out, rest);
    string_of(out.as_slice())
}

fn block_said_quoted(id: &BlockId, middle: &str, value: &String) -> (r: String)
    ensures
        r@ == "block `"@ + id@ + middle@ + value@ + "`"@,
{
    let mut out: Vec<char> = Vec::new();
    push_str(&mut out, "block `");
    push_str(&mut out, id.as_str());
    push_str(&mut out, middle);
    push_str(&mut out, value.as_str());
    push_str(&mut out, "`");
    string_of(out.as_slice())
}

/// What is wrong with block `i` of a plan, judged against the blocks before it.
pub enum BlockIssue {
    DuplicateId,
    EndNotAfterStart,
    EndPastDay,
}

pub open spec fn block_issue(blocks: Seq<Block>, i: int) -> Option<BlockIssue> {
    let b = blocks[i];
    if exists|j: int| 0 <= j < i && #[trigger] blocks[j].id@ == b.id@ {
        Some(BlockIssue::DuplicateId)
    } else {
        match b.span {
            Span::End(end) => if end.spec_seconds() <= b.start.spec_seconds() {
                Some(BlockIssue::EndNotAfterStart)
            } else {
                None
            },
            Span::Duration(d) => if b.start.spec_seconds() + d.spec_seconds() > 86400 {
                Some(BlockIssue::EndPastDay)
            } else {
                None
            },
        }
    }
}

pub open spec fn error_matches(e: ValidationError, issue: BlockIssue, id: Seq<char>) -> bool {
    e.spec_id() == id && match issue {
        BlockIssue::DuplicateId => e is DuplicateId,
        BlockIssue::EndNotAfterStart => e is EndNotAfterStart,
        BlockIssue::EndPastDay => e is EndPastDay,
    }
}

/// Block `i` is the first block with an issue, and `e` reports that issue for it.
pub open spec fn first_issue_at(blocks: Seq<Block>, i: int, e: ValidationError) -> bool {
    &&& forall|j: int| 0 <= j < i ==> block_issue(blocks, j) is None
    &&& match block_issue(blocks, i) {
        Some(issue) => error_matches(e, issue, blocks[i].id@),
        None => false,
    }
}

/// A plan is valid when no block has an issue: ids are unique, explicit ends come after starts
/// and durations stay within the day.
pub open spec fn blocks_valid(blocks: Seq<Block>) -> bool {
    forall|i: int| 0 <= i < blocks.len() ==> block_issue(blocks, i) is None
}

/// Within a valid plan, ids are pairwise distinct.
pub proof fn valid_blocks_have_distinct_ids(blocks: Seq<Block>)
    requires
        blocks_valid(blocks),
    ensures
        forall|i: int, j: int|
            0 <= i < blocks.len() && 0 <= j < blocks.len() && i != j ==> blocks[i].id@
                != blocks[j].id@,
{
    assert forall|i: int, j: int|
        0 <= i < blocks.len() && 0 <= j < blocks.len() && i != j implies blocks[i].id@
        != blocks[j].id@ by {
        if i < j {
            assert(block_issue(blocks, j) is None);
            assert(!(blocks[i].id@ == blocks[j].id@));
        } else {
            assert(block_issue(blocks, i) is None);
            assert(!(blocks[j].id@ == blocks[i].id@));
        }
    }
}

// ── Plans ──────────────────────────────────────────────────────────────────

#[derive(Debug, Clone, PartialEq, Eq)]
pub struct Plan {
    pub date: PlanDate,
    pub timezone: TimeZoneName,
    pub blocks: Vec<Block>,
}

impl Plan {
    /// Checks the cross-field invariants of the plan and reports the first offending block.
    pub fn validate(&self) -> (r: Result<(), ValidationError>)
        ensures
            r is Ok <==> blocks_valid(self.blocks@),
            r matches Err(e) ==> exists|i: int|
                0 <= i < self.blocks@.len() && #[trigger] first_issue_at(self.blocks@, i, e),
    {
        let blocks = &self.blocks;
        let mut i: usize = 0;
        while i < blocks.len()
            invariant
                i <= blocks.len(),
                blocks@ == self.blocks@,
                forall|j: int| 0 <= j < i ==> block_issue(blocks@, j) is None,
            decreases blocks.len() - i,
        {
            let b = &blocks[i];
            let mut j: usize = 0;
            while j < i
                invariant
                    j <= i < blocks.len(),
                    b == blocks@[i as int],
                    blocks@ == self.blocks@,
                    forall|k: int| 0 <= k < j ==> blocks@[k].id@ != b.id@,
                    forall|k: int| 0 <= k < i ==> block_issue(blocks@, k) is None,
                decreases i - j,
            {
                if blocks[j].id.same(&b.id) {
                    let e = ValidationError::DuplicateId { id: b.id.copied() };
                    assert(block_issue(blocks@, i as int) == Some(BlockIssue::DuplicateId));
                    assert(first_issue_at(blocks@, i as int, e));
                    assert(!blocks_valid(blocks@));
                    return Err(e);
                }
                j = j + 1;
            }
            assert(!exists|k: int| 0 <= k < i && #[trigger] blocks@[k].id@ == b.id@);
            match b.span {
                Span::End(end) => {
                    if end.seconds_since_midnight() <= b.start.seconds_since_midnight() {
                        let e = ValidationError::EndNotAfterStart { id: b.id.copied() };
                        assert(first_issue_at(blocks@, i as int, e));
                        assert(!blocks_valid(blocks@));
                        return Err(e);
                    }
                },
                Span::Duration(duration) => {
                    let end = b.start.seconds_since_midnight() + duration.as_seconds();
                    if end > SECONDS_PER_DAY {
                        let e = ValidationError::EndPastDay { id: b.id.copied() };
                        assert(first_issue_at(blocks@, i as int, e));
                        assert(!blocks_valid(blocks@));
                        return Err(e);
                    }
                },
            }
            assert(block_issue(blocks@, i as int) is None);
            i = i + 1;
        }
        Ok(())
    }
}


/// A block's entry in the revision list: its id and revision.
pub open spec fn rev_entry(b: Block) -> (Seq<char>, Seq<char>) {
    (b.id@, b.spec_rev())
}

pub open spec fn rev_list_view(r: Seq<(BlockId, ScheduleRev)>) -> Seq<(Seq<char>, Seq<char>)> {
    Seq::new(r.len(), |i: int| (r[i].0@, r[i].1@))
}

pub open spec fn rev_entries(blocks: Seq<Block>) -> Seq<(Seq<char>, Seq<char>)> {
    Seq::new(blocks.len(), |k: int| rev_entry(blocks[k]))
}

/// `rv` lists the entries of `src`, each once, in ascending key order (entries sharing a key
/// keep their relative order).
#[verifier::opaque]
pub open spec fn is_key_sorting<V>(src: Seq<(Seq<char>, V)>, rv: Seq<(Seq<char>, V)>) -> bool {
    &&& rv.len() == src.len()
    &&& key_sorted(rv)
    &&& covers(src, rv)
    &&& covers(rv, src)
    &&& forall|k: Seq<char>| #[trigger] key_entries(rv, k) == key_entries(src, k)
}

/// The entries with key `k`, in order.
pub open spec fn key_entries<V>(s: Seq<(Seq<char>, V)>, k: Seq<char>) -> Seq<(Seq<char>, V)> {
    s.filter(key_is::<V>(k))
}

pub open spec fn key_is<V>(k: Seq<char>) -> spec_fn((Seq<char>, V)) -> bool {
    |e: (Seq<char>, V)| e.0 == k
}

/// Two empty lists: the one sorts the other.
pub proof fn lemma_key_sorting_empty<V>(src: Seq<(Seq<char>, V)>, rv: Seq<(Seq<char>, V)>)
    requires
        src.len() == 0,
        rv.len() == 0,
    ensures
        is_key_sorting(src, rv),
{
    reveal(is_key_sorting);
    reveal_with_fuel(Seq::filter, 1);
    assert(src =~= rv);
}

proof fn lemma_key_entries_push<V>(s: Seq<(Seq<char>, V)>, e: (Seq<char>, V), k: Seq<char>)
    ensures
        key_entries(s.push(e), k) == if e.0 == k { key_entries(s, k).push(e) } else { key_entries(s, k) },
{
    reveal_with_fuel(Seq::filter, 1);
    assert(s.push(e).drop_last() =~= s);
}

proof fn lemma_key_entries_insert<V>(old_v: Seq<(Seq<char>, V)>, e: (Seq<char>, V), p: int, k: Seq<char>)
    requires
        0 <= p <= old_v.len(),
        forall|q: int| p <= q < old_v.len() ==> seq_lt(e.0, #[trigger] old_v[q].0),
    ensures
        key_entries(old_v.insert(p, e), k) == if e.0 == k { key_entries(old_v, k).push(e) } else { key_entries(old_v, k) },
{
    broadcast use Seq::filter_distributes_over_add;
    let f = key_is::<V>(k);
    let a = old_v.take(p);
    let b = old_v.skip(p);
    assert(old_v =~= a + b);
    assert(old_v.insert(p, e) =~= a + seq![e] + b);
    assert((a + seq![e] + b).filter(f) == (a + seq![e]).filter(f) + b.filter(f));
    assert((a + seq![e]).filter(f) == a.filter(f) + seq![e].filter(f));
    assert(old_v.filter(f) == a.filter(f) + b.filter(f));
    reveal_with_fuel(Seq::filter, 2);
    if e.0 == k {
        assert forall|q: int| 0 <= q < b.len() implies !f(b[q]) by {
            assert(b[q] == old_v[p + q]);
            lemma_seq_lt_irreflexive(k);
        }
        b.lemma_all_neg_filter_empty(f);
        assert(b.filter(f) =~= Seq::<(Seq<char>, V)>::empty());
        assert(seq![e].filter(f) =~= seq![e]);
        assert(old_v.filter(f) =~= a.filter(f));
        assert(old_v.insert(p, e).filter(f) =~= old_v.filter(f).push(e));
    } else {
        assert(seq![e].filter(f) =~= Seq::<(Seq<char>, V)>::empty());
        assert(old_v.insert(p, e).filter(f) =~= old_v.filter(f));
    }
}

pub open spec fn key_sorted<V>(rv: Seq<(Seq<char>, V)>) -> bool {
    forall|i: int, j: int| 0 <= i < j < rv.len() ==> !seq_lt(#[trigger] rv[j].0, #[trigger] rv[i].0)
}

pub proof fn lemma_sorted_insert<V>(old_v: Seq<(Seq<char>, V)>, e: (Seq<char>, V), p: int)
    requires
        key_sorted(old_v),
        0 <= p <= old_v.len(),
        p > 0 ==> !seq_lt(e.0, old_v[p - 1].0),
        forall|q: int| p <= q < old_v.len() ==> seq_lt(e.0, #[trigger] old_v[q].0),
    ensures
        key_sorted(old_v.insert(p, e)),
{
    let nv = old_v.insert(p, e);
    assert forall|x: int, y: int| 0 <= x < y < nv.len() implies !seq_lt(#[trigger] nv[y].0, #[trigger] nv[x].0) by {
        if y < p {
            assert(nv[x] == old_v[x]);
            assert(nv[y] == old_v[y]);
        } else if x < p && y == p {
            assert(nv[x] == old_v[x]);
            if seq_lt(e.0, old_v[x].0) && x < p - 1 {
                lemma_seq_lt_total(old_v[p - 1].0, old_v[x].0);
                if old_v[p - 1].0 != old_v[x].0 {
                    lemma_seq_lt_transitive(e.0, old_v[x].0, old_v[p - 1].0);
                }
            }
        } else if x < p && y > p {
            assert(nv[x] == old_v[x]);
            assert(nv[y] == old_v[y - 1]);
        } else if x == p {
            assert(nv[y] == old_v[y - 1]);
            lemma_seq_lt_total(e.0, old_v[y - 1].0);
        } else {
            assert(nv[x] == old_v[x - 1]);
            assert(nv[y] == old_v[y - 1]);
        }
    }
}

/// Entry `p` of `rv` occurs in `src`.
pub open spec fn found_in<V>(src: Seq<(Seq<char>, V)>, rv: Seq<(Seq<char>, V)>, p: int) -> bool {
    exists|k: int| #![trigger src[k]] 0 <= k < src.len() && src[k] == rv[p]
}

/// Every entry of `rv` occurs in `src`.
pub open spec fn covers<V>(src: Seq<(Seq<char>, V)>, rv: Seq<(Seq<char>, V)>) -> bool {
    forall|p: int| 0 <= p < rv.len() ==> #[trigger] found_in(src, rv, p)
}

pub proof fn lemma_covers_insert<V>(
    src: Seq<(Seq<char>, V)>,
    old_v: Seq<(Seq<char>, V)>,
    e: (Seq<char>, V),
    p: int,
)
    requires
        covers(src, old_v),
        0 <= p <= old_v.len(),
    ensures
        covers(src.push(e), old_v.insert(p, e)),
{
    let t = src.push(e);
    let nv = old_v.insert(p, e);
    assert forall|q: int| 0 <= q < nv.len() implies #[trigger] found_in(t, nv, q) by {
        if q < p {
            assert(nv[q] == old_v[q]);
            assert(found_in(src, old_v, q));
            let k = choose|k: int| #![trigger src[k]] 0 <= k < src.len() && src[k] == old_v[q];
            assert(t[k] == src[k]);
        } else if q == p {
            assert(t[src.len() as int] == e);
        } else {
            assert(nv[q] == old_v[q - 1]);
            assert(found_in(src, old_v, q - 1));
            let k = choose|k: int| #![trigger src[k]] 0 <= k < src.len() && src[k] == old_v[q - 1];
            assert(t[k] == src[k]);
        }
    }
    assert(covers(t, nv));
}

pub proof fn lemma_covered_insert<V>(
    src: Seq<(Seq<char>, V)>,
    old_v: Seq<(Seq<char>, V)>,
    e: (Seq<char>, V),
    p: int,
)
    requires
        covers(old_v, src),
        0 <= p <= old_v.len(),
    ensures
        covers(old_v.insert(p, e), src.push(e)),
{
    let t = src.push(e);
    let nv = old_v.insert(p, e);
    assert forall|k: int| 0 <= k < t.len() implies #[trigger] found_in(nv, t, k) by {
        if k < src.len() {
            assert(t[k] == src[k]);
            assert(found_in(old_v, src, k));
            let q = choose|q: int| #![trigger old_v[q]] 0 <= q < old_v.len() && old_v[q] == src[k];
            if q < p {
                assert(nv[q] == old_v[q]);
            } else {
                assert(nv[q + 1] == old_v[q]);
            }
        } else {
            assert(nv[p] == e);
        }
    }
    assert(covers(nv, t));
}

pub proof fn lemma_key_sorting_insert<V>(
    src: Seq<(Seq<char>, V)>,
    old_v: Seq<(Seq<char>, V)>,
    e: (Seq<char>, V),
    p: int,
)
    requires
        is_key_sorting(src, old_v),
        0 <= p <= old_v.len(),
        p > 0 ==> !seq_lt(e.0, old_v[p - 1].0),
        forall|q: int| p <= q < old_v.len() ==> seq_lt(e.0, #[trigger] old_v[q].0),
    ensures
        is_key_sorting(src.push(e), old_v.insert(p, e)),
{
    reveal(is_key_sorting);
    lemma_sorted_insert(old_v, e, p);
    lemma_covers_insert(src, old_v, e, p);
    lemma_covered_insert(src, old_v, e, p);
    assert forall|k: Seq<char>| #[trigger] key_entries(old_v.insert(p, e), k) == key_entries(src.push(e), k) by {
        lemma_key_entries_insert(old_v, e, p, k);
        lemma_key_entries_push(src, e, k);
        assert(key_entries(old_v, k) == key_entries(src, k));
    }
}

impl Plan {
    /// Each block's id and schedule revision, ordered by id.
    pub fn schedule_revs(&self) -> (r: Vec<(BlockId, ScheduleRev)>)
        ensures
            is_key_sorting(rev_entries(self.blocks@), rev_list_view(r@)),
    {
        let blocks = &self.blocks;
        let mut out: Vec<(BlockId, ScheduleRev)> = Vec::new();
        let mut i: usize = 0;
        proof {
            lemma_key_sorting_empty(rev_entries(blocks@).take(0), rev_list_view(out@));
        }
        while i < blocks.len()
            invariant
                i <= blocks.len(),
                blocks@ == self.blocks@,
                is_key_sorting(rev_entries(blocks@).take(i as int), rev_list_view(out@)),
            decreases blocks.len() - i,
        {
            let b = &blocks[i];
            let key = b.id.chars();
            let entry = (b.id.copied(), b.schedule_rev());
            let ghost old_v = rev_list_view(out@);
            let ghost e = rev_entry(blocks@[i as int]);
            assert(e == (entry.0@, entry.1@));
            let mut p: usize = out.len();
            while p > 0 && chars_lt(key.as_slice(), out[p - 1].0.chars().as_slice())
                invariant
                    p <= out.len(),
                    old_v == rev_list_view(out@),
                    key@ == e.0,
                    forall|q: int| p <= q < out.len() ==> seq_lt(e.0, #[trigger] old_v[q].0),
                decreases p,
            {
                p = p - 1;
            }
            proof {
                if p > 0 {
                    assert(!seq_lt(e.0, old_v[p - 1].0));
                }
            }
            out.insert(p, entry);
            proof {
                let src = rev_entries(blocks@);
                assert(src.take(i as int + 1) == src.take(i as int).push(e));
                assert(rev_list_view(out@) == old_v.insert(p as int, e));
                lemma_key_sorting_insert(src.take(i as int), old_v, e, p as int);
            }
            i = i + 1;
        }
        assert(rev_entries(blocks@).take(blocks.len() as int) == rev_entries(blocks@));
        out
    }
}


/// Entries whose keys strictly ascend.
pub open spec fn keys_ascend(s: Seq<(Seq<char>, Seq<char>)>) -> bool {
    forall|i: int, j: int| 0 <= i < j < s.len() ==> seq_lt(#[trigger] s[i].0, #[trigger] s[j].0)
}

/// Within `set`, an entry is known by its key.
pub open spec fn keyed_set(set: Set<(Seq<char>, Seq<char>)>) -> bool {
    forall|x: (Seq<char>, Seq<char>), y: (Seq<char>, Seq<char>)|
        #[trigger] set.contains(x) && #[trigger] set.contains(y) && x.0 == y.0 ==> x == y
}

proof fn lemma_ascending_lists_agree(s: Seq<(Seq<char>, Seq<char>)>, t: Seq<(Seq<char>, Seq<char>)>)
    requires
        keys_ascend(s),
        keys_ascend(t),
        s.to_set() == t.to_set(),
        keyed_set(s.to_set()),
    ensures
        s == t,
    decreases s.len(),
{
    if s.len() == 0 || t.len() == 0 {
        if s.len() > 0 {
            assert(s.to_set().contains(s[0]));
            assert(t.contains(s[0]));
        }
        if t.len() > 0 {
            assert(t.to_set().contains(t[0]));
            assert(s.contains(t[0]));
        }
        assert(s =~= t);
    } else {
        assert(s.to_set().contains(s[0]));
        assert(t.to_set().contains(t[0]));
        let q = choose|q: int| 0 <= q < t.len() && t[q] == s[0];
        let p = choose|p: int| 0 <= p < s.len() && s[p] == t[0];
        if p > 0 && q > 0 {
            assert(seq_lt(s[0].0, s[p].0));
            assert(seq_lt(t[0].0, t[q].0));
            lemma_seq_lt_total(s[0].0, t[0].0);
        }
        assert(s[0] == t[0]);
        let s1 = s.drop_first();
        let t1 = t.drop_first();
        assert forall|x: (Seq<char>, Seq<char>)| s1.to_set().contains(x) implies t1.to_set().contains(x) by {
            let k = choose|k: int| 0 <= k < s1.len() && s1[k] == x;
            assert(s[k + 1] == x);
            assert(seq_lt(s[0].0, s[k + 1].0));
            lemma_seq_lt_irreflexive(x.0);
            assert(s.to_set().contains(x));
            let m = choose|m: int| 0 <= m < t.len() && t[m] == x;
            assert(m != 0);
            assert(t1[m - 1] == x);
        }
        assert forall|x: (Seq<char>, Seq<char>)| t1.to_set().contains(x) implies s1.to_set().contains(x) by {
            let k = choose|k: int| 0 <= k < t1.len() && t1[k] == x;
            assert(t[k + 1] == x);
            assert(seq_lt(t[0].0, t[k + 1].0));
            lemma_seq_lt_irreflexive(x.0);
            assert(t.to_set().contains(x));
            let m = choose|m: int| 0 <= m < s.len() && s[m] == x;
            assert(m != 0);
            assert(s1[m - 1] == x);
        }
        assert(s1.to_set() =~= t1.to_set());
        assert forall|x: (Seq<char>, Seq<char>), y: (Seq<char>, Seq<char>)|
            #[trigger] s1.to_set().contains(x) && #[trigger] s1.to_set().contains(y) && x.0 == y.0 implies x == y by {
            let k = choose|k: int| 0 <= k < s1.len() && s1[k] == x;
            let m = choose|m: int| 0 <= m < s1.len() && s1[m] == y;
            assert(s[k + 1] == x && s[m + 1] == y);
            assert(s.to_set().contains(x) && s.to_set().contains(y));
        }
        assert(keys_ascend(s1)) by {
            assert forall|i: int, j: int| 0 <= i < j < s1.len() implies seq_lt(#[trigger] s1[i].0, #[trigger] s1[j].0) by {
                assert(s1[i] == s[i + 1] && s1[j] == s[j + 1]);
            }
        }
        assert(keys_ascend(t1)) by {
            assert forall|i: int, j: int| 0 <= i < j < t1.len() implies seq_lt(#[trigger] t1[i].0, #[trigger] t1[j].0) by {
                assert(t1[i] == t[i + 1] && t1[j] == t[j + 1]);
            }
        }
        lemma_ascending_lists_agree(s1, t1);
        assert(s =~= t) by {
            assert forall|i: int| 0 <= i < s.len() implies s[i] == t[i] by {
                if i > 0 {
                    assert(s[i] == s1[i - 1] && t[i] == t1[i - 1]);
                }
            }
        }
    }
}

proof fn lemma_sorting_ascends(src: Seq<(Seq<char>, Seq<char>)>, r: Seq<(Seq<char>, Seq<char>)>)
    requires
        is_key_sorting(src, r),
        src.to_set().len() == src.len(),
        keyed_set(src.to_set()),
    ensures
        r.to_set() == src.to_set(),
        keys_ascend(r),
{
    reveal(is_key_sorting);
    assert forall|x: (Seq<char>, Seq<char>)| r.to_set().contains(x) implies src.to_set().contains(x) by {
        let p = choose|p: int| 0 <= p < r.len() && r[p] == x;
        assert(found_in(src, r, p));
    }
    assert forall|x: (Seq<char>, Seq<char>)| src.to_set().contains(x) implies r.to_set().contains(x) by {
        let k = choose|k: int| 0 <= k < src.len() && src[k] == x;
        assert(found_in(r, src, k));
    }
    assert(r.to_set() =~= src.to_set());
    r.lemma_no_dup_set_cardinality();
    assert forall|i: int, j: int| 0 <= i < j < r.len() implies seq_lt(#[trigger] r[i].0, #[trigger] r[j].0) by {
        assert(r.to_set().contains(r[i]) && r.to_set().contains(r[j]));
        assert(r[i] != r[j]);
        assert(!seq_lt(r[j].0, r[i].0));
        lemma_seq_lt_total(r[i].0, r[j].0);
    }
}

/// A plan's revision list does not depend on the order of its blocks: when block ids are
/// distinct, two orderings of the same blocks give the same list.
pub proof fn schedule_revs_ignore_block_order(
    a: Seq<Block>,
    b: Seq<Block>,
    ra: Seq<(Seq<char>, Seq<char>)>,
    rb: Seq<(Seq<char>, Seq<char>)>,
)
    requires
        forall|i: int, j: int| 0 <= i < j < a.len() ==> #[trigger] a[i].id@ != #[trigger] a[j].id@,
        b.to_multiset() == a.to_multiset(),
        is_key_sorting(rev_entries(a), ra),
        is_key_sorting(rev_entries(b), rb),
    ensures
        ra == rb,
{
    broadcast use vstd::seq_lib::group_to_multiset_ensures;

    let sa = rev_entries(a);
    let sb = rev_entries(b);
    assert(a.to_multiset().len() == a.len() && b.to_multiset().len() == b.len());
    assert forall|x: Block| a.contains(x) <==> b.contains(x) by {
        assert(a.contains(x) <==> a.to_multiset().count(x) > 0);
        assert(b.contains(x) <==> b.to_multiset().count(x) > 0);
    }
    assert forall|x: (Seq<char>, Seq<char>)| sa.to_set().contains(x) implies sb.to_set().contains(x) by {
        let k = choose|k: int| 0 <= k < sa.len() && sa[k] == x;
        assert(a.contains(a[k]));
        let m = choose|m: int| 0 <= m < b.len() && b[m] == a[k];
        assert(sb[m] == x);
    }
    assert forall|x: (Seq<char>, Seq<char>)| sb.to_set().contains(x) implies sa.to_set().contains(x) by {
        let k = choose|k: int| 0 <= k < sb.len() && sb[k] == x;
        assert(b.contains(b[k]));
        let m = choose|m: int| 0 <= m < a.len() && a[m] == b[k];
        assert(sa[m] == x);
    }
    assert(sa.to_set() =~= sb.to_set());
    assert forall|x: (Seq<char>, Seq<char>), y: (Seq<char>, Seq<char>)|
        #[trigger] sa.to_set().contains(x) && #[trigger] sa.to_set().contains(y) && x.0 == y.0 implies x == y by {
        let i = choose|i: int| 0 <= i < sa.len() && sa[i] == x;
        let j = choose|j: int| 0 <= j < sa.len() && sa[j] == y;
        if i < j {
            assert(a[i].id@ != a[j].id@);
        } else if j < i {
            assert(a[j].id@ != a[i].id@);
        }
    }
    assert(sa.no_duplicates()) by {
        assert forall|i: int, j: int| 0 <= i < sa.len() && 0 <= j < sa.len() && i != j implies sa[i] != sa[j] by {
            if i < j {
                assert(a[i].id@ != a[j].id@);
            } else {
                assert(a[j].id@ != a[i].id@);
            }
        }
    }
    sa.unique_seq_to_set();
    assert(sb.to_set().len() == sb.len());
    lemma_sorting_ascends(sa, ra);
    lemma_sorting_ascends(sb, rb);
    lemma_ascending_lists_agree(ra, rb);
}


/// Block `x` and block `y` share id, start, resolved end and lead.
pub open spec fn same_timing(x: Block, y: Block) -> bool {
    &&& x.id@ == y.id@
    &&& x.start == y.start
    &&& x.spec_end_seconds() == y.spec_end_seconds()
    &&& x.notify == y.notify
}

/// The ids of `blocks` are pairwise distinct.
pub open spec fn distinct_ids(blocks: Seq<Block>) -> bool {
    forall|i: int, j: int| 0 <= i < j < blocks.len() ==> #[trigger] blocks[i].id@ != #[trigger] blocks[j].id@
}

/// A plan's revision list depends neither on the order of its blocks nor on their titles,
/// statuses, tags or commands: two lists of blocks with distinct ids, each block of either
/// matching one of the other in id and timing, give the same revision list.
#[verifier::spinoff_prover]
#[verifier::rlimit(40)]
pub proof fn schedule_revs_ignore_order_and_content(
    a: Seq<Block>,
    b: Seq<Block>,
    ra: Seq<(Seq<char>, Seq<char>)>,
    rb: Seq<(Seq<char>, Seq<char>)>,
)
    requires
        distinct_ids(a),
        distinct_ids(b),
        forall|i: int| 0 <= i < b.len() ==> exists|j: int| 0 <= j < a.len() && same_timing(#[trigger] b[i], a[j]),
        forall|j: int| 0 <= j < a.len() ==> exists|i: int| 0 <= i < b.len() && same_timing(b[i], #[trigger] a[j]),
        is_key_sorting(rev_entries(a), ra),
        is_key_sorting(rev_entries(b), rb),
    ensures
        ra == rb,
{
    let sa = rev_entries(a);
    let sb = rev_entries(b);
    assert forall|x: (Seq<char>, Seq<char>)| sa.to_set().contains(x) implies sb.to_set().contains(x) by {
        let k = choose|k: int| 0 <= k < sa.len() && sa[k] == x;
        assert(exists|i: int| 0 <= i < b.len() && same_timing(b[i], a[k]));
        let m = choose|m: int| 0 <= m < b.len() && same_timing(b[m], a[k]);
        schedule_rev_depends_only_on_timing(b[m], a[k]);
        assert(sb[m] == x);
    }
    assert forall|x: (Seq<char>, Seq<char>)| sb.to_set().contains(x) implies sa.to_set().contains(x) by {
        let k = choose|k: int| 0 <= k < sb.len() && sb[k] == x;
        assert(exists|j: int| 0 <= j < a.len() && same_timing(b[k], a[j]));
        let m = choose|m: int| 0 <= m < a.len() && same_timing(b[k], a[m]);
        schedule_rev_depends_only_on_timing(b[k], a[m]);
        assert(sa[m] == x);
    }
    assert(sa.to_set() =~= sb.to_set());
    assert forall|x: (Seq<char>, Seq<char>), y: (Seq<char>, Seq<char>)|
        #[trigger] sa.to_set().contains(x) && #[trigger] sa.to_set().contains(y) && x.0 == y.0 implies x == y by {
        let i = choose|i: int| 0 <= i < sa.len() && sa[i] == x;
        let j = choose|j: int| 0 <= j < sa.len() && sa[j] == y;
        if i < j {
            assert(a[i].id@ != a[j].id@);
        } else if j < i {
            assert(a[j].id@ != a[i].id@);
        }
    }
    assert(sa.no_duplicates()) by {
        assert forall|i: int, j: int| 0 <= i < sa.len() && 0 <= j < sa.len() && i != j implies sa[i] != sa[j] by {
            if i < j {
                assert(a[i].id@ != a[j].id@);
            } else {
                assert(a[j].id@ != a[i].id@);
            }
        }
    }
    assert(sb.no_duplicates()) by {
        assert forall|i: int, j: int| 0 <= i < sb.len() && 0 <= j < sb.len() && i != j implies sb[i] != sb[j] by {
            if i < j {
                assert(b[i].id@ != b[j].id@);
            } else {
                assert(b[j].id@ != b[i].id@);
            }
        }
    }
    sa.unique_seq_to_set();
    sb.unique_seq_to_set();
    lemma_sorting_ascends(sa, ra);
    lemma_sorting_ascends(sb, rb);
    lemma_ascending_lists_agree(ra, rb);
}

// ── Block equality ─────────────────────────────────────────────────────────

pub open spec fn ids_view(v: Seq<BlockId>) -> Seq<Seq<char>> {
    Seq::new(v.len(), |i: int| v[i]@)
}

pub open spec fn opt_text_view(o: Option<String>) -> Option<Seq<char>> {
    match o {
        Some(s) => Some(s@),
        None => None,
    }
}

pub open spec fn run_view(o: Option<Run>) -> Option<Seq<Seq<char>>> {
    match o {
        Some(r) => Some(strings_view(r@)),
        None => None,
    }
}

pub open spec fn recurrence_view(o: Option<Recurrence>) -> Option<(crate::recurrence::RuleShape, PlanDate, Option<RecurEnd>)> {
    match o {
        Some(r) => Some((crate::recurrence::rule_shape(r.rule), r.anchor, r.end)),
        None => None,
    }
}

pub open spec fn origin_view(o: Option<Origin>) -> Option<(Seq<char>, Seq<char>)> {
    match o {
        Some(g) => Some((g.rule_id@, g.gen_hash@)),
        None => None,
    }
}

pub open spec fn when_view(o: Option<WhenCondition>) -> Option<WhenShape> {
    match o {
        Some(w) => Some(w@),
        None => None,
    }
}

/// Two blocks say the same thing, field by field.
pub open spec fn same_block(a: Block, b: Block) -> bool {
    &&& a.id@ == b.id@
    &&& a.title@ == b.title@
    &&& a.start == b.start
    &&& a.span == b.span
    &&& a.notify == b.notify
    &&& strings_view(a.tags@) == strings_view(b.tags@)
    &&& a.status == b.status
    &&& run_view(a.run) == run_view(b.run)
    &&& recurrence_view(a.recurrence) == recurrence_view(b.recurrence)
    &&& origin_view(a.origin) == origin_view(b.origin)
    &&& ids_view(a.after@) == ids_view(b.after@)
    &&& ids_view(a.on_success@) == ids_view(b.on_success@)
    &&& ids_view(a.on_failure@) == ids_view(b.on_failure@)
    &&& ids_view(a.on_missed@) == ids_view(b.on_missed@)
    &&& a.retry == b.retry
    &&& a.expect_by == b.expect_by
    &&& a.approval == b.approval
    &&& when_view(a.when) == when_view(b.when)
    &&& opt_text_view(a.agent) == opt_text_view(b.agent)
}

pub fn strings_eq(a: &[String], b: &[String]) -> (r: bool)
    ensures
        r == (strings_view(a@) == strings_view(b@)),
{
    if a.len() != b.len() {
        proof {
            assert(strings_view(a@).len() != strings_view(b@).len());
        }
        return false;
    }
    let mut i: usize = 0;
    while i < a.len()
        invariant
            i <= a.len() == b.len(),
            forall|k: int| 0 <= k < i ==> a@[k]@ == b@[k]@,
        decreases a.len() - i,
    {
        if a[i] != b[i] {
            assert(strings_view(a@)[i as int] != strings_view(b@)[i as int]);
            return false;
        }
        i = i + 1;
    }
    assert(strings_view(a@) =~= strings_view(b@));
    true
}

pub fn ids_eq(a: &[BlockId], b: &[BlockId]) -> (r: bool)
    ensures
        r == (ids_view(a@) == ids_view(b@)),
{
    if a.len() != b.len() {
        proof {
            assert(ids_view(a@).len() != ids_view(b@).len());
        }
        return false;
    }
    let mut i: usize = 0;
    while i < a.len()
        invariant
            i <= a.len() == b.len(),
            forall|k: int| 0 <= k < i ==> a@[k]@ == b@[k]@,
        decreases a.len() - i,
    {
        if !a[i].same(&b[i]) {
            assert(ids_view(a@)[i as int] != ids_view(b@)[i as int]);
            return false;
        }
        i = i + 1;
    }
    assert(ids_view(a@) =~= ids_view(b@));
    true
}

pub fn opt_text_eq(a: &Option<String>, b: &Option<String>) -> (r: bool)
    ensures
        r == (opt_text_view(*a) == opt_text_view(*b)),
{
    match (a, b) {
        (Some(x), Some(y)) => *x == *y,
        (None, None) => true,
        _ => false,
    }
}

fn weekdays_eq(a: &Vec<Weekday>, b: &Vec<Weekday>) -> (r: bool)
    ensures
        r == (a@ == b@),
{
    if a.len() != b.len() {
        return false;
    }
    let mut i: usize = 0;
    while i < a.len()
        invariant
            i <= a.len() == b.len(),
            forall|k: int| 0 <= k < i ==> a@[k] == b@[k],
        decreases a.len() - i,
    {
        if a[i] != b[i] {
            return false;
        }
        i = i + 1;
    }
    assert(a@ =~= b@);
    true
}

fn rule_eq(a: &RecurRule, b: &RecurRule) -> (r: bool)
    ensures
        r == (crate::recurrence::rule_shape(*a) == crate::recurrence::rule_shape(*b)),
{
    match (a, b) {
        (RecurRule::Daily, RecurRule::Daily) => true,
        (RecurRule::Weekday, RecurRule::Weekday) => true,
        (RecurRule::Weekend, RecurRule::Weekend) => true,
        (RecurRule::Weekly(x), RecurRule::Weekly(y)) => weekdays_eq(x, y),
        (RecurRule::EveryNDays(x), RecurRule::EveryNDays(y)) => *x == *y,
        (RecurRule::EveryNWeeks(x), RecurRule::EveryNWeeks(y)) => *x == *y,
        _ => false,
    }
}

fn recur_end_eq(a: &Option<RecurEnd>, b: &Option<RecurEnd>) -> (r: bool)
    ensures
        r == (*a == *b),
{
    match (a, b) {
        (Some(RecurEnd::Until(x)), Some(RecurEnd::Until(y))) => x.same(y),
        (Some(RecurEnd::Count(x)), Some(RecurEnd::Count(y))) => *x == *y,
        (None, None) => true,
        _ => false,
    }
}

fn when_eq(a: &Option<WhenCondition>, b: &Option<WhenCondition>) -> (r: bool)
    ensures
        r == (when_view(*a) == when_view(*b)),
{
    match (a, b) {
        (Some(WhenCondition::FileExists(x)), Some(WhenCondition::FileExists(y))) => *x == *y,
        (Some(WhenCondition::FileChanged(x)), Some(WhenCondition::FileChanged(y))) => *x == *y,
        (Some(WhenCondition::CommandOk(x)), Some(WhenCondition::CommandOk(y))) => strings_eq(x.as_slice(), y.as_slice()),
        (None, None) => true,
        _ => false,
    }
}

impl Block {
    /// Whether two blocks agree on every field.
    pub fn same(&self, other: &Block) -> (r: bool)
        ensures
            r == same_block(*self, *other),
    {
        if !self.id.same(&other.id) || self.title != other.title {
            return false;
        }
        let span_same = match (self.span, other.span) {
            (Span::End(x), Span::End(y)) => x.minutes_since_midnight() == y.minutes_since_midnight(),
            (Span::Duration(x), Span::Duration(y)) => x.as_seconds() == y.as_seconds(),
            _ => false,
        };
        proof {
            self.start.lemma_minutes_determine(other.start);
            self.notify.lemma_seconds_determine(other.notify);
            match (self.span, other.span) {
                (Span::End(x), Span::End(y)) => x.lemma_minutes_determine(y),
                (Span::Duration(x), Span::Duration(y)) => x.lemma_seconds_determine(y),
                _ => {},
            }
        }
        if self.start.minutes_since_midnight() != other.start.minutes_since_midnight() || !span_same
            || self.notify.as_seconds() != other.notify.as_seconds() {
            return false;
        }
        if !strings_eq(self.tags.as_slice(), other.tags.as_slice()) || self.status != other.status {
            return false;
        }
        let run_same = match (&self.run, &other.run) {
            (Some(x), Some(y)) => strings_eq(x.as_slice(), y.as_slice()),
            (None, None) => true,
            _ => false,
        };
        if !run_same {
            return false;
        }
        let rec_same = match (&self.recurrence, &other.recurrence) {
            (Some(x), Some(y)) => rule_eq(&x.rule, &y.rule) && x.anchor.same(&y.anchor) && recur_end_eq(&x.end, &y.end),
            (None, None) => true,
            _ => false,
        };
        if !rec_same {
            return false;
        }
        let origin_same = match (&self.origin, &other.origin) {
            (Some(x), Some(y)) => x.rule_id.same(&y.rule_id) && x.gen_hash == y.gen_hash,
            (None, None) => true,
            _ => false,
        };
        if !origin_same {
            return false;
        }
        if !ids_eq(self.after.as_slice(), other.after.as_slice()) || !ids_eq(self.on_success.as_slice(), other.on_success.as_slice())
            || !ids_eq(self.on_failure.as_slice(), other.on_failure.as_slice()) || !ids_eq(self.on_missed.as_slice(), other.on_missed.as_slice()) {
            return false;
        }
        let retry_same = match (self.retry, other.retry) {
            (Some(x), Some(y)) => {
                proof {
                    x.backoff.lemma_seconds_determine(y.backoff);
                }
                x.count == y.count && x.backoff.as_seconds() == y.backoff.as_seconds()
            },
            (None, None) => true,
            _ => false,
        };
        let expect_same = match (self.expect_by, other.expect_by) {
            (Some(x), Some(y)) => {
                proof {
                    x.lemma_seconds_determine(y);
                }
                x.as_seconds() == y.as_seconds()
            },
            (None, None) => true,
            _ => false,
        };
        if !retry_same || !expect_same || self.approval != other.approval {
            return false;
        }
        when_eq(&self.when, &other.when) && opt_text_eq(&self.agent, &other.agent)
    }
}


pub fn copy_ids(v: &Vec<BlockId>) -> (r: Vec<BlockId>)
    ensures
        ids_view(r@) == ids_view(v@),
{
    let mut out: Vec<BlockId> = Vec::new();
    let mut i: usize = 0;
    while i < v.len()
        invariant
            i <= v.len(),
            out@.len() == i,
            forall|k: int| 0 <= k < i ==> #[trigger] out@[k]@ == v@[k]@,
        decreases v.len() - i,
    {
        out.push(v[i].copied());
        i = i + 1;
    }
    assert(ids_view(out@) =~= ids_view(v@));
    out
}

fn copy_weekdays(v: &Vec<Weekday>) -> (r: Vec<Weekday>)
    ensures
        r@ == v@,
{
    let mut out: Vec<Weekday> = Vec::new();
    let mut i: usize = 0;
    while i < v.len()
        invariant
            i <= v.len(),
            out@ == v@.take(i as int),
        decreases v.len() - i,
    {
        out.push(v[i]);
        assert(out@ == v@.take(i as int + 1));
        i = i + 1;
    }
    assert(v@.take(v.len() as int) == v@);
    out
}

impl RecurRule {
    pub fn copied(&self) -> (r: RecurRule)
        ensures
            crate::recurrence::rule_shape(r) == crate::recurrence::rule_shape(*self),
    {
        match self {
            RecurRule::Daily => RecurRule::Daily,
            RecurRule::Weekday => RecurRule::Weekday,
            RecurRule::Weekend => RecurRule::Weekend,
            RecurRule::Weekly(days) => RecurRule::Weekly(copy_weekdays(days)),
            RecurRule::EveryNDays(n) => RecurRule::EveryNDays(*n),
            RecurRule::EveryNWeeks(n) => RecurRule::EveryNWeeks(*n),
        }
    }
}

fn copy_opt_text(o: &Option<String>) -> (r: Option<String>)
    ensures
        opt_text_view(r) == opt_text_view(*o),
{
    match o {
        Some(s) => Some(copy_string(s)),
        None => None,
    }
}

impl Block {
    /// A field-by-field copy of the block.
    pub fn copied(&self) -> (r: Block)
        ensures
            same_block(r, *self),
    {
        let run = match &self.run {
            Some(x) => Some(x.copied()),
            None => None,
        };
        let recurrence = match &self.recurrence {
            Some(x) => Some(Recurrence { rule: x.rule.copied(), anchor: x.anchor, end: x.end }),
            None => None,
        };
        let origin = match &self.origin {
            Some(x) => Some(Origin { rule_id: x.rule_id.copied(), gen_hash: copy_string(&x.gen_hash) }),
            None => None,
        };
        let when = match &self.when {
            Some(x) => Some(x.copied()),
            None => None,
        };
        let tags = copy_strings(&self.tags);
        proof {
            assert(strings_view(tags@) =~= strings_view(self.tags@));
        }
        Block {
            id: self.id.copied(),
            title: copy_string(&self.title),
            start: self.start,
            span: self.span,
            notify: self.notify,
            tags,
            status: self.status,
            run,
            recurrence,
            origin,
            after: copy_ids(&self.after),
            on_success: copy_ids(&self.on_success),
            on_failure: copy_ids(&self.on_failure),
            on_missed: copy_ids(&self.on_missed),
            retry: self.retry,
            expect_by: self.expect_by,
            approval: self.approval,
            when,
            agent: copy_opt_text(&self.agent),
        }
    }
}

/// Why a plan could not be read or written.
#[derive(Debug, Clone, PartialEq, Eq)]
pub enum PlanError {
    TomlRead(String),
    Validation(ValidationError),
    TomlWrite(String),
}

impl PlanError {
    /// Process exit code for a plan error: always 2.
    pub fn exit_code(&self) -> (r: i32)
        ensures
            r == 2,
    {
        match self {
            PlanError::TomlRead(_) | PlanError::Validation(_) | PlanError::TomlWrite(_) => 2,
        }
    }

    /// The message shown for the error, e.g. ``invalid plan: duplicate block id `a` ``.
    pub fn message(&self) -> (r: String)
        ensures
            r@ == plan_error_text(*self),
    {
        match self {
            PlanError::TomlRead(m) => concat2("invalid plan TOML: ", m.as_str()),
            PlanError::Validation(v) => {
                let text = v.message();
                concat2("invalid plan: ", text.as_str())
            },
            PlanError::TomlWrite(m) => concat2("failed to write plan TOML: ", m.as_str()),
        }
    }
}

pub open spec fn plan_error_text(e: PlanError) -> Seq<char> {
    match e {
        PlanError::TomlRead(m) => "invalid plan TOML: "@ + m@,
        PlanError::Validation(v) => "invalid plan: "@ + validation_text(v),
        PlanError::TomlWrite(m) => "failed to write plan TOML: "@ + m@,
    }
}


pub proof fn lemma_same_block_refl(b: Block)
    ensures
        same_block(b, b),
{
}


/// The store of recurring block rules: templates that carry their own recurrence.
#[derive(Debug, Clone)]
pub struct RecurringRules {
    pub timezone: Option<TimeZoneName>,
    pub blocks: Vec<Block>,
}


/// The hash of a block id, as 64 lowercase hex characters.
pub fn block_id_hash_hex(id: &BlockId) -> (r: String)
    ensures
        r@ == blake3_hex_of(id@),
        r@.len() == 64,
{
    blake3_hex(id.as_str())
}


pub open spec fn field_error_text(e: FieldParseError) -> Seq<char> {
    match e {
        FieldParseError::BlockId { value } => "invalid block id `"@ + value@ + "`"@,
        FieldParseError::Date { value } => "invalid plan date `"@ + value@ + "`"@,
        FieldParseError::TimeZone { value } => "invalid time zone `"@ + value@ + "`"@,
        FieldParseError::ClockTime { value } => "invalid clock time `"@ + value@ + "`"@,
        FieldParseError::Duration { value } => "invalid duration `"@ + value@ + "`"@,
        FieldParseError::ScheduleRev { value } => "invalid schedule rev `"@ + value@ + "`"@,
        FieldParseError::Run => "run argv must contain argv[0]"@,
        FieldParseError::RecurRule { value } => "invalid recurrence rule `"@ + value@ + "`"@,
        FieldParseError::WhenCondition { value } => "invalid `when` condition `"@ + value@ + "`"@,
    }
}

fn quoted(prefix: &str, value: &String) -> (r: String)
    ensures
        r@ == prefix@ + value@ + "`"@,
{
    let mut out: Vec<char> = Vec::new();
    push_str(&mut out, prefix);
    push_str(&mut out, value.as_str());
    push_str(&mut out, "`");
    string_of(out.as_slice())
}

impl FieldParseError {
    /// The message shown for the error, e.g. ``invalid duration `5x` ``.
    pub fn message(&self) -> (r: String)
        ensures
            r@ == field_error_text(*self),
    {
        match self {
            FieldParseError::BlockId { value } => quoted("invalid block id `", value),
            FieldParseError::Date { value } => quoted("invalid plan date `", value),
            FieldParseError::TimeZone { value } => quoted("invalid time zone `", value),
            FieldParseError::ClockTime { value } => quoted("invalid clock time `", value),
            FieldParseError::Duration { value } => quoted("invalid duration `", value),
            FieldParseError::ScheduleRev { value } => quoted("invalid schedule rev `", value),
            FieldParseError::Run => "run argv must contain argv[0]".to_owned(),
            FieldParseError::RecurRule { value } => quoted("invalid recurrence rule `", value),
            FieldParseError::WhenCondition { value } => quoted("invalid `when` condition `", value),
        }
    }
}


// ── Plan files: the raw form and its validation ────────────────────────────

/// A retry policy as the plan file writes it.
#[derive(Debug, Clone, PartialEq, Eq)]
pub struct RawRetry {
    pub count: u32,
    pub backoff: String,
}

/// A block as the plan file writes it: fields parsed one by one, not yet checked together.
#[derive(Debug, Clone, PartialEq, Eq)]
pub struct RawBlock {
    pub id: BlockId,
    pub title: String,
    pub start: ClockTime,
    pub end: Option<ClockTime>,
    pub duration: Option<DurationSpec>,
    pub notify: Option<Lead>,
    pub tags: Vec<String>,
    pub status: Status,
    pub run: Option<Vec<String>>,
    pub every: Option<String>,
    pub anchor: Option<PlanDate>,
    pub until: Option<PlanDate>,
    pub count: Option<u32>,
    pub origin: Option<Origin>,
    pub after: Vec<BlockId>,
    pub on_success: Vec<BlockId>,
    pub on_failure: Vec<BlockId>,
    pub on_missed: Vec<BlockId>,
    pub retry: Option<RawRetry>,
    pub expect_by: Option<DurationSpec>,
    pub approval: Option<Approval>,
    pub when: Option<String>,
    pub agent: Option<String>,
}

/// A plan as the plan file writes it.
#[derive(Debug, Clone, PartialEq, Eq)]
pub struct RawPlan {
    pub date: PlanDate,
    pub timezone: TimeZoneName,
    pub blocks: Vec<RawBlock>,
}

/// What is wrong with a raw block, in the order the checks run.
pub enum RawIssue {
    BothEndAndDuration,
    MissingEndOrDuration,
    EmptyRun,
    MissingAnchor,
    BothCountAndUntil,
    BadWeekday(Seq<char>),
    BadWhen(Seq<char>),
}

/// The token a bad `every` is reported with: for `weekly:` the first day label that names no
/// weekday (or everything after the colon when each does), else the whole text.
pub open spec fn bad_every_token(every: Seq<char>) -> Seq<char> {
    if every.len() >= 7 && every.take(7) == "weekly:"@ {
        let rest = every.skip(7);
        let toks = crate::recurrence::split_char(rest, ',');
        match first_unnamed(toks) {
            Some(k) => toks[k],
            None => rest,
        }
    } else {
        every
    }
}

/// Index of the first token that names no weekday.
pub open spec fn first_unnamed(toks: Seq<Seq<char>>) -> Option<int>
    decreases toks.len(),
{
    if toks.len() == 0 {
        None
    } else {
        match first_unnamed(toks.drop_last()) {
            Some(k) => Some(k),
            None => if crate::recurrence::weekday_named(toks.last()) is None {
                Some(toks.len() - 1)
            } else {
                None
            },
        }
    }
}

pub open spec fn retry_ok(r: Option<RawRetry>) -> bool {
    match r {
        Some(x) => duration_parse(x.backoff@) matches Some(n) && 0 < n <= 86400,
        None => true,
    }
}

/// The first issue of a raw block: span, command, recurrence, retry, condition, in that order.
pub open spec fn raw_issue(raw: RawBlock) -> Option<RawIssue> {
    if raw.end is Some && raw.duration is Some {
        Some(RawIssue::BothEndAndDuration)
    } else if raw.end is None && raw.duration is None {
        Some(RawIssue::MissingEndOrDuration)
    } else if raw.run matches Some(argv) && !valid_argv(argv@) {
        Some(RawIssue::EmptyRun)
    } else if raw.every is Some && raw.anchor is None {
        Some(RawIssue::MissingAnchor)
    } else if raw.every is Some && raw.count is Some && raw.until is Some {
        Some(RawIssue::BothCountAndUntil)
    } else if raw.every matches Some(e) && crate::recurrence::every_parse(e@) is None {
        Some(RawIssue::BadWeekday(bad_every_token(raw.every->0@)))
    } else if !retry_ok(raw.retry) {
        Some(RawIssue::EmptyRun)
    } else if raw.when matches Some(w) && when_parse(w@) is None {
        Some(RawIssue::BadWhen(raw.when->0@))
    } else {
        None
    }
}

pub open spec fn issue_reported(e: ValidationError, issue: RawIssue, id: Seq<char>) -> bool {
    e.spec_id() == id && match issue {
        RawIssue::BothEndAndDuration => e is BothEndAndDuration,
        RawIssue::MissingEndOrDuration => e is MissingEndOrDuration,
        RawIssue::EmptyRun => e is EmptyRun,
        RawIssue::MissingAnchor => e is MissingAnchor,
        RawIssue::BothCountAndUntil => e is BothCountAndUntil,
        RawIssue::BadWeekday(t) => e matches ValidationError::BadWeekday { token, .. } && token@ == t,
        RawIssue::BadWhen(v) => e matches ValidationError::BadWhen { value, .. } && value@ == v,
    }
}

/// The block a valid raw block gives: the span from whichever of end and duration is set, the
/// lead or the default, a pending approval for a command that has none, and the parsed
/// recurrence, retry and condition; every other field as written.
pub open spec fn block_from_raw(b: Block, raw: RawBlock, default_lead: Lead) -> bool {
    &&& b.id@ == raw.id@
    &&& b.title@ == raw.title@
    &&& b.start == raw.start
    &&& b.span == match raw.end {
        Some(e) => Span::End(e),
        None => Span::Duration(raw.duration->0),
    }
    &&& b.notify == match raw.notify {
        Some(l) => l,
        None => default_lead,
    }
    &&& strings_view(b.tags@) == strings_view(raw.tags@)
    &&& b.status == raw.status
    &&& run_view(b.run) == match raw.run {
        Some(argv) => Some(strings_view(argv@)),
        None => None,
    }
    &&& recurrence_view(b.recurrence) == match raw.every {
        Some(e) => Some((crate::recurrence::every_parse(e@)->0, raw.anchor->0, match (raw.count, raw.until) {
            (Some(n), None) => Some(RecurEnd::Count(n)),
            (None, Some(d)) => Some(RecurEnd::Until(d)),
            _ => None,
        })),
        None => None,
    }
    &&& origin_view(b.origin) == origin_view(raw.origin)
    &&& ids_view(b.after@) == ids_view(raw.after@)
    &&& ids_view(b.on_success@) == ids_view(raw.on_success@)
    &&& ids_view(b.on_failure@) == ids_view(raw.on_failure@)
    &&& ids_view(b.on_missed@) == ids_view(raw.on_missed@)
    &&& match raw.retry {
        Some(x) => b.retry matches Some(r) && r.count == x.count && Some(r.backoff.spec_seconds()) == duration_parse(x.backoff@),
        None => b.retry is None,
    }
    &&& b.expect_by == raw.expect_by
    &&& b.approval == if raw.run is Some && raw.approval is None { Some(Approval::Pending) } else { raw.approval }
    &&& when_view(b.when) == match raw.when {
        Some(w) => when_parse(w@),
        None => None,
    }
    &&& opt_text_view(b.agent) == opt_text_view(raw.agent)
}

fn bad_weekday_token(every: &str) -> (r: String)
    ensures
        r@ == bad_every_token(every@),
{
    let v = chars_of(every);
    let prefix = chars_of("weekly:");
    proof {
        reveal_strlit("weekly:");
    }
    if v.len() >= 7 && starts_with_chars(v.as_slice(), prefix.as_slice()) {
        let mut rest: Vec<char> = Vec::new();
        let mut i: usize = 7;
        while i < v.len()
            invariant
                7 <= i <= v@.len(),
                rest@ == v@.subrange(7, i as int),
            decreases v.len() - i,
        {
            rest.push(v[i]);
            i = i + 1;
        }
        assert(rest@ == v@.skip(7));
        let toks = crate::recurrence::split_on(rest.as_slice(), ',');
        let ghost ts = crate::recurrence::split_char(rest@, ',');
        let mut k: usize = 0;
        while k < toks.len()
            invariant
                k <= toks@.len() == ts.len(),
                every@.len() >= 7 && every@.take(7) == "weekly:"@,
                ts == crate::recurrence::split_char(every@.skip(7), ','),
                forall|j: int| 0 <= j < toks@.len() ==> #[trigger] toks@[j]@ == ts[j],
                first_unnamed(ts.take(k as int)) is None,
            decreases toks.len() - k,
        {
            assert(ts.take(k as int + 1).drop_last() == ts.take(k as int));
            assert(toks@[k as int]@ == ts[k as int]);
            match Weekday::parse_chars(toks[k].as_slice()) {
                None => {
                    proof {
                        lemma_unnamed(ts[k as int]);
                        assert(ts.take(k as int + 1).last() == ts[k as int]);
                        assert(first_unnamed(ts.take(k as int + 1)) == Some(k as int));
                        lemma_first_unnamed_prefix(ts, k as int + 1, k as int);
                    }
                    return string_of(toks[k].as_slice());
                },
                Some(d) => {
                    proof {
                        lemma_named(d);
                    }
                },
            }
            k = k + 1;
        }
        assert(ts.take(ts.len() as int) == ts);
        return string_of(rest.as_slice());
    }
    every.to_owned()
}

proof fn lemma_first_unnamed_prefix(ts: Seq<Seq<char>>, n: int, j: int)
    requires
        0 < n <= ts.len(),
        first_unnamed(ts.take(n)) == Some(j),
    ensures
        first_unnamed(ts) == Some(j),
    decreases ts.len() - n,
{
    if n < ts.len() {
        assert(ts.take(n + 1).drop_last() == ts.take(n));
        lemma_first_unnamed_prefix(ts, n + 1, j);
    } else {
        assert(ts.take(n) == ts);
    }
}

proof fn lemma_unnamed(t: Seq<char>)
    requires
        forall|d: Weekday| weekday_text(d) != t,
    ensures
        crate::recurrence::weekday_named(t) is None,
{
    assert(weekday_text(Weekday::Monday) != t);
    assert(weekday_text(Weekday::Tuesday) != t);
    assert(weekday_text(Weekday::Wednesday) != t);
    assert(weekday_text(Weekday::Thursday) != t);
    assert(weekday_text(Weekday::Friday) != t);
    assert(weekday_text(Weekday::Saturday) != t);
    assert(weekday_text(Weekday::Sunday) != t);
}

proof fn lemma_named(d: Weekday)
    ensures
        crate::recurrence::weekday_named(weekday_text(d)) is Some,
{
    match d {
        Weekday::Monday => {},
        Weekday::Tuesday => {},
        Weekday::Wednesday => {},
        Weekday::Thursday => {},
        Weekday::Friday => {},
        Weekday::Saturday => {},
        Weekday::Sunday => {},
    }
}


impl Block {
    /// Checks a raw block and builds the block it describes, using `default_lead` when it sets no
    /// lead; the first issue found is reported with the block's id.
    pub fn from_raw(raw: RawBlock, default_lead: Lead) -> (r: Result<Block, ValidationError>)
        ensures
            r is Err <==> raw_issue(raw) is Some,
            r matches Err(e) ==> issue_reported(e, raw_issue(raw)->0, raw.id@),
            r matches Ok(b) ==> block_from_raw(b, raw, default_lead),
    {
        let ghost raw0 = raw;
        let RawBlock {
            id, title, start, end, duration, notify, tags, status, run, every, anchor, until, count,
            origin, after, on_success, on_failure, on_missed, retry, expect_by, approval, when, agent,
        } = raw;
        let span = match (end, duration) {
            (Some(_), Some(_)) => {
                return Err(ValidationError::BothEndAndDuration { id });
            },
            (None, None) => {
                return Err(ValidationError::MissingEndOrDuration { id });
            },
            (Some(e), None) => Span::End(e),
            (None, Some(d)) => Span::Duration(d),
        };
        let has_run = run.is_some();
        let run = match run {
            Some(argv) => match Run::new(argv) {
                Ok(x) => Some(x),
                Err(_) => {
                    return Err(ValidationError::EmptyRun { id });
                },
            },
            None => None,
        };
        let recurrence = match every {
            Some(every_str) => {
                let anchor_date = match anchor {
                    Some(a) => a,
                    None => {
                        return Err(ValidationError::MissingAnchor { id });
                    },
                };
                if count.is_some() && until.is_some() {
                    return Err(ValidationError::BothCountAndUntil { id });
                }
                let rule = match crate::recurrence::parse_every(every_str.as_str()) {
                    Ok(rule) => rule,
                    Err(_) => {
                        let token = bad_weekday_token(every_str.as_str());
                        return Err(ValidationError::BadWeekday { id, token });
                    },
                };
                let end = match (count, until) {
                    (Some(n), None) => Some(RecurEnd::Count(n)),
                    (None, Some(d)) => Some(RecurEnd::Until(d)),
                    _ => None,
                };
                Some(Recurrence { rule, anchor: anchor_date, end })
            },
            None => None,
        };
        let retry = match retry {
            Some(x) => match DurationSpec::parse(x.backoff.as_str()) {
                Ok(backoff) => Some(Retry { count: x.count, backoff }),
                Err(_) => {
                    return Err(ValidationError::EmptyRun { id });
                },
            },
            None => None,
        };
        let approval = if has_run && approval.is_none() {
            Some(Approval::Pending)
        } else {
            approval
        };
        let when = match when {
            Some(value) => match WhenCondition::parse(value.as_str()) {
                Ok(w) => Some(w),
                Err(_) => {
                    return Err(ValidationError::BadWhen { id, value });
                },
            },
            None => None,
        };
        let notify = match notify {
            Some(l) => l,
            None => default_lead,
        };
        let b = Block {
            id, title, start, span, notify, tags, status, run, recurrence, origin, after, on_success,
            on_failure, on_missed, retry, expect_by, approval, when, agent,
        };
        proof {
            assert(strings_view(b.tags@) == strings_view(raw0.tags@));
        }
        Ok(b)
    }
}

/// The raw form of a block, as the plan file writes it back: the span as its end or duration,
/// the lead always written, the recurrence as its `every` text with its anchor and end.
pub open spec fn raw_from_block(raw: RawBlock, b: Block) -> bool {
    &&& raw.id@ == b.id@
    &&& raw.title@ == b.title@
    &&& raw.start == b.start
    &&& raw.end == match b.span {
        Span::End(e) => Some(e),
        Span::Duration(_) => None,
    }
    &&& raw.duration == match b.span {
        Span::End(_) => None,
        Span::Duration(d) => Some(d),
    }
    &&& raw.notify == Some(b.notify)
    &&& strings_view(raw.tags@) == strings_view(b.tags@)
    &&& raw.status == b.status
    &&& match b.run {
        Some(r) => raw.run matches Some(argv) && argv@ == r@,
        None => raw.run is None,
    }
    &&& match b.recurrence {
        Some(rec) => {
            &&& raw.every matches Some(e) && e@ == recur_rule_text(rec.rule)
            &&& raw.anchor == Some(rec.anchor)
            &&& raw.until == match rec.end {
                Some(RecurEnd::Until(d)) => Some(d),
                _ => None,
            }
            &&& raw.count == match rec.end {
                Some(RecurEnd::Count(n)) => Some(n),
                _ => None,
            }
        },
        None => raw.every is None && raw.anchor is None && raw.until is None && raw.count is None,
    }
    &&& origin_view(raw.origin) == origin_view(b.origin)
    &&& ids_view(raw.after@) == ids_view(b.after@)
    &&& ids_view(raw.on_success@) == ids_view(b.on_success@)
    &&& ids_view(raw.on_failure@) == ids_view(b.on_failure@)
    &&& ids_view(raw.on_missed@) == ids_view(b.on_missed@)
    &&& match b.retry {
        Some(r) => raw.retry matches Some(x) && x.count == r.count && x.backoff@ == format_seconds_spec(r.backoff.spec_seconds()),
        None => raw.retry is None,
    }
    &&& raw.expect_by == b.expect_by
    &&& raw.approval == b.approval
    &&& match b.when {
        Some(w) => raw.when matches Some(t) && t@ == when_text(w@),
        None => raw.when is None,
    }
    &&& opt_text_view(raw.agent) == opt_text_view(b.agent)
}

impl RawBlock {
    /// The raw form of a block, for writing the plan file.
    pub fn from_block(block: &Block) -> (r: RawBlock)
        ensures
            raw_from_block(r, *block),
    {
        let (end, duration) = match block.span {
            Span::End(e) => (Some(e), None),
            Span::Duration(d) => (None, Some(d)),
        };
        let (every, anchor, until, count) = match &block.recurrence {
            Some(rec) => {
                let (u, c) = match rec.end {
                    Some(RecurEnd::Until(d)) => (Some(d), None),
                    Some(RecurEnd::Count(n)) => (None, Some(n)),
                    None => (None, None),
                };
                (Some(rec.rule.text()), Some(rec.anchor), u, c)
            },
            None => (None, None, None, None),
        };
        let retry = match block.retry {
            Some(r) => Some(RawRetry { count: r.count, backoff: r.backoff.text() }),
            None => None,
        };
        let run = match &block.run {
            Some(r) => Some(r.to_argv()),
            None => None,
        };
        let origin = match &block.origin {
            Some(o) => Some(Origin { rule_id: o.rule_id.copied(), gen_hash: copy_string(&o.gen_hash) }),
            None => None,
        };
        let tags = copy_strings(&block.tags);
        proof {
            assert(strings_view(tags@) =~= strings_view(block.tags@));
        }
        RawBlock {
            id: block.id.copied(),
            title: copy_string(&block.title),
            start: block.start,
            end,
            duration,
            notify: Some(block.notify),
            tags,
            status: block.status,
            run,
            every,
            anchor,
            until,
            count,
            origin,
            after: copy_ids(&block.after),
            on_success: copy_ids(&block.on_success),
            on_failure: copy_ids(&block.on_failure),
            on_missed: copy_ids(&block.on_missed),
            retry,
            expect_by: block.expect_by,
            approval: block.approval,
            when: match &block.when {
                Some(w) => Some(w.text()),
                None => None,
            },
            agent: copy_opt_text(&block.agent),
        }
    }
}


/// The first raw block with an issue, if any.
pub open spec fn first_raw_issue_at(raws: Seq<RawBlock>, i: int) -> bool {
    &&& 0 <= i < raws.len()
    &&& forall|j: int| 0 <= j < i ==> raw_issue(#[trigger] raws[j]) is None
    &&& raw_issue(raws[i]) is Some
}

/// The plan a raw plan without issues gives: its date and zone, and each block from its raw form.
pub open spec fn plan_from_raw(p: Plan, raw: RawPlan, default_lead: Lead) -> bool {
    &&& p.date == raw.date
    &&& p.timezone == raw.timezone
    &&& p.blocks@.len() == raw.blocks@.len()
    &&& forall|k: int| 0 <= k < p.blocks@.len() ==> block_from_raw(#[trigger] p.blocks@[k], raw.blocks@[k], default_lead)
}

/// The raw form of a plan: its date and zone, and each block's raw form.
pub open spec fn raw_from_plan(raw: RawPlan, p: Plan) -> bool {
    &&& raw.date == p.date
    &&& raw.timezone@ == p.timezone@
    &&& raw.blocks@.len() == p.blocks@.len()
    &&& forall|k: int| 0 <= k < raw.blocks@.len() ==> raw_from_block(#[trigger] raw.blocks@[k], p.blocks@[k])
}

/// A block that the raw form carries over unchanged: a command, if any, well formed and with an
/// approval; a recurrence, if any, whose rule its text describes (a positive count, at least one
/// weekday); a retry backoff within its type's range; and a condition, if any, that its text
/// describes (a trimmed non-empty path, or non-empty words free of whitespace).
pub open spec fn carried_by_raw(b: Block) -> bool {
    &&& b.run matches Some(r) ==> valid_argv(r@)
    &&& b.run is Some ==> b.approval is Some
    &&& b.recurrence matches Some(rec) ==> crate::recurrence::rule_writable(crate::recurrence::rule_shape(rec.rule))
    &&& b.retry matches Some(r) ==> 0 < r.backoff.spec_seconds() <= 86400
    &&& b.when matches Some(w) ==> when_writable(w@)
}

/// Writing a block in its raw form and reading it back gives the same block: the raw form has no
/// issue, and every block read from it equals the block written, for a block `carried_by_raw`.
pub proof fn block_raw_round_trip(b: Block, raw: RawBlock, default_lead: Lead)
    requires
        carried_by_raw(b),
        raw_from_block(raw, b),
    ensures
        raw_issue(raw) is None,
        forall|back: Block| block_from_raw(back, raw, default_lead) ==> same_block(back, b),
{
    if let Some(rec) = b.recurrence {
        crate::recurrence::lemma_rule_text_parses(rec.rule);
    }
    if let Some(r) = b.retry {
        lemma_format_seconds_parses(r.backoff.spec_seconds());
    }
    if let Some(w) = b.when {
        lemma_when_text_parses(w@);
    }
    assert forall|back: Block| block_from_raw(back, raw, default_lead) implies same_block(back, b) by {
        match b.span {
            Span::End(e) => {},
            Span::Duration(d) => {},
        }
        if b.run is Some {
            assert(run_view(back.run) == run_view(b.run));
        }
        if let Some(r) = b.retry {
            let r2 = back.retry->0;
            r2.backoff.lemma_seconds_determine(r.backoff);
            assert(r2 == r);
        }
    }
}

/// Writing a plan in its raw form and reading it back gives the same plan: reading succeeds, and
/// the plan read has the date, zone and blocks of the plan written, when each block is
/// `carried_by_raw`.
pub proof fn plan_raw_round_trip(p: Plan, raw: RawPlan, default_lead: Lead)
    requires
        forall|k: int| 0 <= k < p.blocks@.len() ==> carried_by_raw(#[trigger] p.blocks@[k]),
        raw_from_plan(raw, p),
    ensures
        forall|i: int| !first_raw_issue_at(raw.blocks@, i),
        forall|q: Plan| #[trigger] plan_from_raw(q, raw, default_lead) ==> {
            &&& q.date == p.date
            &&& q.timezone@ == p.timezone@
            &&& q.blocks@.len() == p.blocks@.len()
            &&& forall|k: int| 0 <= k < q.blocks@.len() ==> same_block(#[trigger] q.blocks@[k], p.blocks@[k])
        },
{
    assert forall|k: int| 0 <= k < raw.blocks@.len() implies raw_issue(#[trigger] raw.blocks@[k]) is None by {
        block_raw_round_trip(p.blocks@[k], raw.blocks@[k], default_lead);
    }
    assert forall|i: int| !first_raw_issue_at(raw.blocks@, i) by {
        if 0 <= i < raw.blocks@.len() {
            assert(raw_issue(raw.blocks@[i]) is None);
        }
    }
    assert forall|q: Plan| #[trigger] plan_from_raw(q, raw, default_lead) implies {
        &&& q.date == p.date
        &&& q.timezone@ == p.timezone@
        &&& q.blocks@.len() == p.blocks@.len()
        &&& forall|k: int| 0 <= k < q.blocks@.len() ==> same_block(#[trigger] q.blocks@[k], p.blocks@[k])
    } by {
        assert forall|k: int| 0 <= k < q.blocks@.len() implies same_block(#[trigger] q.blocks@[k], p.blocks@[k]) by {
            block_raw_round_trip(p.blocks@[k], raw.blocks@[k], default_lead);
            assert(block_from_raw(q.blocks@[k], raw.blocks@[k], default_lead));
        }
    }
}

impl Plan {
    /// Builds a plan from its raw form: each block checked in turn, the first issue reported.
    /// Cross-block rules are left to `validate`.
    pub fn from_raw(raw: RawPlan, default_lead: Lead) -> (r: Result<Plan, ValidationError>)
        ensures
            r is Err <==> exists|i: int| first_raw_issue_at(raw.blocks@, i),
            r matches Err(e) ==> exists|i: int| #[trigger] first_raw_issue_at(raw.blocks@, i)
                && issue_reported(e, raw_issue(raw.blocks@[i])->0, raw.blocks@[i].id@),
            r matches Ok(p) ==> plan_from_raw(p, raw, default_lead),
    {
        let ghost raws = raw.blocks@;
        let RawPlan { date, timezone, blocks: raw_blocks } = raw;
        let mut rest = raw_blocks;
        let mut blocks: Vec<Block> = Vec::new();
        let ghost mut done: int = 0;
        while rest.len() > 0
            invariant
                0 <= done <= raws.len(),
                raws == raw.blocks@,
                rest@ == raws.skip(done),
                blocks@.len() == done,
                forall|j: int| 0 <= j < done ==> raw_issue(#[trigger] raws[j]) is None,
                forall|k: int| 0 <= k < done ==> block_from_raw(#[trigger] blocks@[k], raws[k], default_lead),
            decreases rest.len(),
        {
            let rb = rest.remove(0);
            assert(rb == raws[done]);
            match Block::from_raw(rb, default_lead) {
                Ok(b) => {
                    blocks.push(b);
                    proof {
                        assert(raws.skip(done + 1) == raws.skip(done).drop_first());
                        done = done + 1;
                    }
                },
                Err(e) => {
                    assert(first_raw_issue_at(raws, done));
                    return Err(e);
                },
            }
        }
        assert(done == raws.len());
        proof {
            assert forall|i: int| !first_raw_issue_at(raws, i) by {
                if 0 <= i < raws.len() {
                    assert(raw_issue(raws[i]) is None);
                }
            }
        }
        Ok(Plan { date, timezone, blocks })
    }

    /// The raw form of the plan, for writing the plan file.
    pub fn to_raw(&self) -> (r: RawPlan)
        ensures
            raw_from_plan(r, *self),
    {
        let mut out: Vec<RawBlock> = Vec::new();
        let mut i: usize = 0;
        while i < self.blocks.len()
            invariant
                i <= self.blocks@.len(),
                out@.len() == i,
                forall|k: int| 0 <= k < i ==> raw_from_block(#[trigger] out@[k], self.blocks@[k]),
            decreases self.blocks.len() - i,
        {
            out.push(RawBlock::from_block(&self.blocks[i]));
            i = i + 1;
        }
        RawPlan { date: self.date, timezone: self.timezone.copied(), blocks: out }
    }
}

impl RecurringRules {
    /// Builds the rules store from raw blocks; a block without a lead gets none (zero).
    pub fn from_raw(timezone: Option<TimeZoneName>, raws: Vec<RawBlock>) -> (r: Result<RecurringRules, ValidationError>)
        ensures
            r is Err <==> exists|i: int| first_raw_issue_at(raws@, i),
            r matches Err(e) ==> exists|i: int| #[trigger] first_raw_issue_at(raws@, i)
                && issue_reported(e, raw_issue(raws@[i])->0, raws@[i].id@),
            r matches Ok(rules) ==> rules.timezone == timezone && rules.blocks@.len() == raws@.len()
                && forall|k: int| 0 <= k < raws@.len() ==> block_from_raw(#[trigger] rules.blocks@[k], raws@[k], Lead::from_seconds_spec(0)),
    {
        let zero = Lead::from_seconds_const(0);
        let ghost rs = raws@;
        let mut rest = raws;
        let mut blocks: Vec<Block> = Vec::new();
        let ghost mut done: int = 0;
        while rest.len() > 0
            invariant
                0 <= done <= rs.len(),
                rs == raws@,
                rest@ == rs.skip(done),
                blocks@.len() == done,
                zero == Lead::from_seconds_spec(0),
                forall|j: int| 0 <= j < done ==> raw_issue(#[trigger] rs[j]) is None,
                forall|k: int| 0 <= k < done ==> block_from_raw(#[trigger] blocks@[k], rs[k], zero),
            decreases rest.len(),
        {
            let rb = rest.remove(0);
            assert(rb == rs[done]);
            match Block::from_raw(rb, zero) {
                Ok(b) => {
                    blocks.push(b);
                    proof {
                        assert(rs.skip(done + 1) == rs.skip(done).drop_first());
                        done = done + 1;
                    }
                },
                Err(e) => {
                    assert(first_raw_issue_at(rs, done));
                    return Err(e);
                },
            }
        }
        proof {
            assert forall|i: int| !first_raw_issue_at(rs, i) by {
                if 0 <= i < rs.len() {
                    assert(raw_issue(rs[i]) is None);
                }
            }
        }
        Ok(RecurringRules { timezone, blocks })
    }
}

} // verus!
