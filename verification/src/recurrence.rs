//! Recurrence rules: parsing the `every` text, and deciding on which dates a rule recurs.

use vstd::prelude::*;

use crate::civil::{civil_lt, civil_rank, jiff_tomorrow, jiff_weekday, lemma_rank_monotone, valid_civil, PlanDate};
use crate::model::{recur_rule_text, weekday_list_text, weekday_offset, weekday_text, FieldParseError, RecurEnd, RecurRule, Weekday};
use crate::text::{chars_eq, chars_of, decimal, parse_unsigned, std_unsigned_parse, unsigned_body};

verus! {

/// A recurrence rule over plain values.
pub enum RuleShape {
    Daily,
    Weekday,
    Weekend,
    Weekly(Seq<Weekday>),
    EveryNDays(nat),
    EveryNWeeks(nat),
}

pub open spec fn rule_shape(rule: RecurRule) -> RuleShape {
    match rule {
        RecurRule::Daily => RuleShape::Daily,
        RecurRule::Weekday => RuleShape::Weekday,
        RecurRule::Weekend => RuleShape::Weekend,
        RecurRule::Weekly(days) => RuleShape::Weekly(days@),
        RecurRule::EveryNDays(n) => RuleShape::EveryNDays(n as nat),
        RecurRule::EveryNWeeks(n) => RuleShape::EveryNWeeks(n as nat),
    }
}

/// The pieces of `s` between occurrences of `c` (std `str::split` with a character pattern):
/// always at least one piece.
pub open spec fn split_char(s: Seq<char>, c: char) -> Seq<Seq<char>>
    decreases s.len(),
{
    if s.len() == 0 {
        seq![Seq::empty()]
    } else if s.last() == c {
        split_char(s.drop_last(), c).push(Seq::empty())
    } else {
        let pieces = split_char(s.drop_last(), c);
        pieces.update(pieces.len() - 1, pieces.last().push(s.last()))
    }
}

pub proof fn lemma_split_char_nonempty(s: Seq<char>, c: char)
    ensures
        split_char(s, c).len() > 0,
    decreases s.len(),
{
    if s.len() > 0 {
        lemma_split_char_nonempty(s.drop_last(), c);
    }
}

/// A rule that its `every` text describes exactly: a positive count of days or weeks, and at
/// least one weekday.
pub open spec fn rule_writable(rule: RuleShape) -> bool {
    &&& rule_wf(rule)
    &&& rule matches RuleShape::Weekly(days) ==> days.len() > 0
}

proof fn lemma_split_without_separator(t: Seq<char>, c: char)
    requires
        forall|i: int| 0 <= i < t.len() ==> #[trigger] t[i] != c,
    ensures
        split_char(t, c) == seq![t],
    decreases t.len(),
{
    if t.len() > 0 {
        assert forall|i: int| 0 <= i < t.drop_last().len() implies #[trigger] t.drop_last()[i] != c by {
            assert(t.drop_last()[i] == t[i]);
        }
        lemma_split_without_separator(t.drop_last(), c);
        assert(t.last() == t[t.len() - 1]);
        assert(t.drop_last().push(t.last()) =~= t);
        assert(split_char(t, c) =~= seq![t]);
    } else {
        assert(t =~= Seq::<char>::empty());
    }
}

proof fn lemma_split_after_separator(s: Seq<char>, t: Seq<char>, c: char)
    requires
        forall|i: int| 0 <= i < t.len() ==> #[trigger] t[i] != c,
    ensures
        split_char(s + seq![c] + t, c) == split_char(s, c).push(t),
    decreases t.len(),
{
    let u = s + seq![c] + t;
    if t.len() == 0 {
        assert(u.drop_last() =~= s);
        assert(u.last() == c);
        assert(split_char(u, c) == split_char(u.drop_last(), c).push(Seq::<char>::empty()));
        assert(t =~= Seq::<char>::empty());
    } else {
        let t1 = t.drop_last();
        assert forall|i: int| 0 <= i < t1.len() implies #[trigger] t1[i] != c by {
            assert(t1[i] == t[i]);
        }
        lemma_split_after_separator(s, t1, c);
        assert(u.drop_last() =~= s + seq![c] + t1);
        assert(u.last() == t[t.len() - 1]);
        assert(u.last() != c);
        lemma_split_char_nonempty(u.drop_last(), c);
        let pieces = split_char(u.drop_last(), c);
        assert(pieces == split_char(s, c).push(t1));
        assert(t1.push(u.last()) =~= t);
        assert(split_char(u, c) =~= split_char(s, c).push(t));
    }
}

proof fn lemma_weekday_label(d: Weekday)
    ensures
        weekday_named(weekday_text(d)) == Some(d),
        forall|i: int| 0 <= i < weekday_text(d).len() ==> #[trigger] weekday_text(d)[i] != ',',
{
    reveal_strlit("mon");
    reveal_strlit("tue");
    reveal_strlit("wed");
    reveal_strlit("thu");
    reveal_strlit("fri");
    reveal_strlit("sat");
    reveal_strlit("sun");
    match d {
        Weekday::Monday => {},
        Weekday::Tuesday => {
            assert("tue"@ != "mon"@) by { assert("tue"@[0] != "mon"@[0]); }
        },
        Weekday::Wednesday => {
            assert("wed"@ != "mon"@) by { assert("wed"@[0] != "mon"@[0]); }
            assert("wed"@ != "tue"@) by { assert("wed"@[0] != "tue"@[0]); }
        },
        Weekday::Thursday => {
            assert("thu"@ != "mon"@) by { assert("thu"@[0] != "mon"@[0]); }
            assert("thu"@ != "tue"@) by { assert("thu"@[1] != "tue"@[1]); }
            assert("thu"@ != "wed"@) by { assert("thu"@[0] != "wed"@[0]); }
        },
        Weekday::Friday => {
            assert("fri"@ != "mon"@) by { assert("fri"@[0] != "mon"@[0]); }
            assert("fri"@ != "tue"@) by { assert("fri"@[0] != "tue"@[0]); }
            assert("fri"@ != "wed"@) by { assert("fri"@[0] != "wed"@[0]); }
            assert("fri"@ != "thu"@) by { assert("fri"@[0] != "thu"@[0]); }
        },
        Weekday::Saturday => {
            assert("sat"@ != "mon"@) by { assert("sat"@[0] != "mon"@[0]); }
            assert("sat"@ != "tue"@) by { assert("sat"@[0] != "tue"@[0]); }
            assert("sat"@ != "wed"@) by { assert("sat"@[0] != "wed"@[0]); }
            assert("sat"@ != "thu"@) by { assert("sat"@[0] != "thu"@[0]); }
            assert("sat"@ != "fri"@) by { assert("sat"@[0] != "fri"@[0]); }
        },
        Weekday::Sunday => {
            assert("sun"@ != "mon"@) by { assert("sun"@[0] != "mon"@[0]); }
            assert("sun"@ != "tue"@) by { assert("sun"@[0] != "tue"@[0]); }
            assert("sun"@ != "wed"@) by { assert("sun"@[0] != "wed"@[0]); }
            assert("sun"@ != "thu"@) by { assert("sun"@[0] != "thu"@[0]); }
            assert("sun"@ != "fri"@) by { assert("sun"@[0] != "fri"@[0]); }
            assert("sun"@ != "sat"@) by { assert("sun"@[1] != "sat"@[1]); }
        },
    }
}

proof fn lemma_split_weekday_list(days: Seq<Weekday>)
    requires
        days.len() > 0,
    ensures
        split_char(weekday_list_text(days), ',') == Seq::new(days.len(), |k: int| weekday_text(days[k])),
    decreases days.len(),
{
    if days.len() == 1 {
        lemma_weekday_label(days[0]);
        lemma_split_without_separator(weekday_text(days[0]), ',');
        assert(Seq::new(days.len(), |k: int| weekday_text(days[k])) =~= seq![weekday_text(days[0])]);
    } else {
        let rest = days.drop_last();
        lemma_split_weekday_list(rest);
        lemma_weekday_label(days.last());
        lemma_split_after_separator(weekday_list_text(rest), weekday_text(days.last()), ',');
        assert(Seq::new(days.len(), |k: int| weekday_text(days[k]))
            =~= Seq::new(rest.len(), |k: int| weekday_text(rest[k])).push(weekday_text(days.last())));
    }
}

/// A positive count written in decimal and followed by `unit` counts back to itself.
proof fn lemma_counted_decimal(n: nat, unit: char)
    requires
        0 < n <= 65535,
    ensures
        counted(decimal(n).push(unit), unit) == Some(n),
{
    crate::text::lemma_decimal_digits(n);
    let s = decimal(n).push(unit);
    assert(s.drop_last() =~= decimal(n));
    assert(crate::text::is_ascii_digit(decimal(n)[0]));
    assert(unsigned_body(decimal(n)) == decimal(n));
}

/// The `every` text of a rule parses back to the rule, for a rule the text can describe.
pub proof fn lemma_rule_text_parses(rule: RecurRule)
    requires
        rule_writable(rule_shape(rule)),
    ensures
        every_parse(recur_rule_text(rule)) == Some(rule_shape(rule)),
{
    reveal_strlit("daily");
    reveal_strlit("weekday");
    reveal_strlit("weekend");
    reveal_strlit("weekly:");
    let s = recur_rule_text(rule);
    match rule {
        RecurRule::Daily => {},
        RecurRule::Weekday => {
            assert(s.len() != "daily"@.len());
        },
        RecurRule::Weekend => {
            assert(s.len() != "daily"@.len());
            assert(s[6] != "weekday"@[6]);
        },
        RecurRule::Weekly(days) => {
            let list = weekday_list_text(days@);
            lemma_split_weekday_list(days@);
            lemma_weekday_label(days@[0]);
            assert(s.take(7) =~= "weekly:"@);
            assert(s.skip(7) =~= list);
            lemma_weekday_list_len(days@);
            assert(s.len() > 7);
            assert(s != "daily"@ && s != "weekday"@ && s != "weekend"@);
            let tokens = split_char(s.skip(7), ',');
            assert forall|k: int| 0 <= k < tokens.len() implies (#[trigger] weekday_named(tokens[k])) is Some by {
                lemma_weekday_label(days@[k]);
            }
            assert(Seq::new(tokens.len(), |k: int| weekday_named(tokens[k])->0) =~= days@) by {
                assert forall|k: int| 0 <= k < tokens.len() implies weekday_named(tokens[k])->0 == days@[k] by {
                    lemma_weekday_label(days@[k]);
                }
            }
        },
        RecurRule::EveryNDays(n) => {
            crate::text::lemma_decimal_digits(n as nat);
            lemma_counted_decimal(n as nat, 'd');
            assert(crate::text::is_ascii_digit(s[0]));
            assert(s[0] == decimal(n as nat)[0]);
            assert(s != "daily"@ && s != "weekday"@ && s != "weekend"@) by {
                assert("daily"@[0] == 'd');
                assert("weekday"@[0] == 'w');
                assert("weekend"@[0] == 'w');
            }
            assert(!(s.len() >= 7 && s.take(7) == "weekly:"@)) by {
                if s.len() >= 7 && s.take(7) == "weekly:"@ {
                    assert(s.take(7)[0] == s[0]);
                }
            }
        },
        RecurRule::EveryNWeeks(n) => {
            crate::text::lemma_decimal_digits(n as nat);
            lemma_counted_decimal(n as nat, 'w');
            assert(crate::text::is_ascii_digit(s[0]));
            assert(s[0] == decimal(n as nat)[0]);
            assert(s != "daily"@ && s != "weekday"@ && s != "weekend"@) by {
                assert("daily"@[0] == 'd');
                assert("weekday"@[0] == 'w');
                assert("weekend"@[0] == 'w');
            }
            assert(!(s.len() >= 7 && s.take(7) == "weekly:"@)) by {
                if s.len() >= 7 && s.take(7) == "weekly:"@ {
                    assert(s.take(7)[0] == s[0]);
                }
            }
            assert(counted(s, 'd') is None);
        },
    }
}

proof fn lemma_weekday_label_len(d: Weekday)
    ensures
        weekday_text(d).len() == 3,
{
    reveal_strlit("mon");
    reveal_strlit("tue");
    reveal_strlit("wed");
    reveal_strlit("thu");
    reveal_strlit("fri");
    reveal_strlit("sat");
    reveal_strlit("sun");
}

proof fn lemma_weekday_list_len(days: Seq<Weekday>)
    requires
        days.len() > 0,
    ensures
        weekday_list_text(days).len() >= 3,
    decreases days.len(),
{
    if days.len() == 1 {
        lemma_weekday_label_len(days[0]);
    } else {
        lemma_weekday_label_len(days.last());
    }
}

/// The weekday a three-letter label names.
pub open spec fn weekday_named(t: Seq<char>) -> Option<Weekday> {
    if t == "mon"@ {
        Some(Weekday::Monday)
    } else if t == "tue"@ {
        Some(Weekday::Tuesday)
    } else if t == "wed"@ {
        Some(Weekday::Wednesday)
    } else if t == "thu"@ {
        Some(Weekday::Thursday)
    } else if t == "fri"@ {
        Some(Weekday::Friday)
    } else if t == "sat"@ {
        Some(Weekday::Saturday)
    } else if t == "sun"@ {
        Some(Weekday::Sunday)
    } else {
        None
    }
}

pub open spec fn all_weekdays_named(tokens: Seq<Seq<char>>) -> bool {
    forall|k: int| 0 <= k < tokens.len() ==> (#[trigger] weekday_named(tokens[k])) is Some
}

/// The `every` text a rule is written as: `daily`, `weekday`, `weekend`, `weekly:` followed by
/// comma-separated weekday labels, `Nd` or `Nw` with `N` a positive `u16`.
pub open spec fn every_parse(s: Seq<char>) -> Option<RuleShape> {
    if s == "daily"@ {
        Some(RuleShape::Daily)
    } else if s == "weekday"@ {
        Some(RuleShape::Weekday)
    } else if s == "weekend"@ {
        Some(RuleShape::Weekend)
    } else if s.len() >= 7 && s.take(7) == "weekly:"@ {
        let tokens = split_char(s.skip(7), ',');
        if all_weekdays_named(tokens) {
            Some(RuleShape::Weekly(Seq::new(tokens.len(), |k: int| weekday_named(tokens[k])->0)))
        } else {
            None
        }
    } else if counted(s, 'd') is Some {
        Some(RuleShape::EveryNDays(counted(s, 'd')->0))
    } else if counted(s, 'w') is Some {
        Some(RuleShape::EveryNWeeks(counted(s, 'w')->0))
    } else {
        None
    }
}

/// `N` of a text `N` followed by `unit`, for `N` a positive `u16` as std parses one.
pub open spec fn counted(s: Seq<char>, unit: char) -> Option<nat> {
    if s.len() > 0 && s.last() == unit {
        match std_unsigned_parse(s.drop_last(), 65535) {
            Some(n) => if n > 0 {
                Some(n)
            } else {
                None
            },
            None => None,
        }
    } else {
        None
    }
}

fn text_is(v: &[char], lit: &str) -> (r: bool)
    ensures
        r == (v@ == lit@),
{
    let l = chars_of(lit);
    chars_eq(v, l.as_slice())
}

/// Splits `s` at every `c`.
pub fn split_on(s: &[char], c: char) -> (r: Vec<Vec<char>>)
    ensures
        r@.len() == split_char(s@, c).len(),
        forall|k: int| 0 <= k < r@.len() ==> #[trigger] r@[k]@ == split_char(s@, c)[k],
{
    let mut done: Vec<Vec<char>> = Vec::new();
    let mut cur: Vec<char> = Vec::new();
    let mut i: usize = 0;
    while i < s.len()
        invariant
            i <= s.len(),
            split_char(s@.take(i as int), c).len() == done@.len() + 1,
            forall|k: int| 0 <= k < done@.len() ==> #[trigger] done@[k]@ == split_char(s@.take(i as int), c)[k],
            cur@ == split_char(s@.take(i as int), c).last(),
        decreases s.len() - i,
    {
        let ghost before = split_char(s@.take(i as int), c);
        assert(s@.take(i as int + 1).drop_last() == s@.take(i as int));
        assert(s@.take(i as int + 1).last() == s@[i as int]);
        if s[i] == c {
            let ghost done_before = done@;
            let piece = cur;
            done.push(piece);
            cur = Vec::new();
            proof {
                let after = split_char(s@.take(i as int + 1), c);
                assert(after == before.push(Seq::empty()));
                assert forall|k: int| 0 <= k < done@.len() implies #[trigger] done@[k]@ == after[k] by {
                    if k < done@.len() - 1 {
                        assert(done@[k] == done_before[k]);
                    }
                }
            }
        } else {
            cur.push(s[i]);
            proof {
                lemma_split_char_nonempty(s@.take(i as int), c);
            }
        }
        i = i + 1;
    }
    assert(s@.take(s.len() as int) == s@);
    done.push(cur);
    done
}

/// Parses an `every` text into a rule.
pub fn parse_every(s: &str) -> (r: Result<RecurRule, FieldParseError>)
    ensures
        r matches Ok(rule) ==> every_parse(s@) == Some(rule_shape(rule)),
        r is Err ==> every_parse(s@) is None,
        r matches Err(e) ==> e is RecurRule && e->RecurRule_value@ == s@,
{
    let v = chars_of(s);
    if text_is(v.as_slice(), "daily") {
        return Ok(RecurRule::Daily);
    }
    if text_is(v.as_slice(), "weekday") {
        return Ok(RecurRule::Weekday);
    }
    if text_is(v.as_slice(), "weekend") {
        return Ok(RecurRule::Weekend);
    }
    let prefix = chars_of("weekly:");
    proof {
        reveal_strlit("weekly:");
    }
    if v.len() >= 7 && crate::text::starts_with_chars(v.as_slice(), prefix.as_slice()) {
        let mut rest: Vec<char> = Vec::new();
        let mut i: usize = 7;
        while i < v.len()
            invariant
                7 <= i <= v.len(),
                rest@ == v@.subrange(7, i as int),
            decreases v.len() - i,
        {
            rest.push(v[i]);
            i = i + 1;
        }
        assert(rest@ == v@.skip(7));
        let tokens = split_on(rest.as_slice(), ',');
        let ghost toks = split_char(v@.skip(7), ',');
        let mut days: Vec<Weekday> = Vec::new();
        let mut k: usize = 0;
        while k < tokens.len()
            invariant
                k <= tokens.len(),
                toks == split_char(s@.skip(7), ','),
                s@.len() >= 7 && s@.take(7) == "weekly:"@,
                s@ != "daily"@ && s@ != "weekday"@ && s@ != "weekend"@,
                tokens@.len() == toks.len(),
                forall|j: int| 0 <= j < tokens@.len() ==> #[trigger] tokens@[j]@ == toks[j],
                days@.len() == k,
                forall|j: int| 0 <= j < k ==> (#[trigger] weekday_named(toks[j])) == Some(days@[j]),
            decreases tokens.len() - k,
        {
            match Weekday::parse_chars(tokens[k].as_slice()) {
                Some(d) => {
                    proof {
                        lemma_weekday_named(d);
                        assert(tokens@[k as int]@ == toks[k as int]);
                    }
                    days.push(d);
                },
                None => {
                    proof {
                        assert(tokens@[k as int]@ == toks[k as int]);
                        lemma_weekday_unnamed(toks[k as int]);
                        assert(!all_weekdays_named(toks));
                    }
                    return Err(FieldParseError::RecurRule { value: s.to_owned() });
                },
            }
            k = k + 1;
        }
        proof {
            assert(all_weekdays_named(toks));
            assert(days@ =~= Seq::new(toks.len(), |j: int| weekday_named(toks[j])->0));
            assert(every_parse(s@) == Some(RuleShape::Weekly(days@)));
        }
        return Ok(RecurRule::Weekly(days));
    }
    if v.len() > 0 {
        let last = v[v.len() - 1];
        if last == 'd' || last == 'w' {
            let mut body: Vec<char> = Vec::new();
            let mut i: usize = 0;
            while i < v.len() - 1
                invariant
                    i <= v.len() - 1,
                    body@ == v@.take(i as int),
                decreases v.len() - 1 - i,
            {
                body.push(v[i]);
                i = i + 1;
            }
            assert(body@ == v@.drop_last());
            if let Some(n) = parse_unsigned(body.as_slice(), 65535) {
                if n > 0 {
                    if last == 'd' {
                        return Ok(RecurRule::EveryNDays(n as u16));
                    } else {
                        return Ok(RecurRule::EveryNWeeks(n as u16));
                    }
                }
            }
        }
    }
    Err(FieldParseError::RecurRule { value: s.to_owned() })
}

proof fn lemma_weekday_named(d: Weekday)
    ensures
        weekday_named(weekday_text(d)) == Some(d),
{
    reveal_strlit("mon");
    reveal_strlit("tue");
    reveal_strlit("wed");
    reveal_strlit("thu");
    reveal_strlit("fri");
    reveal_strlit("sat");
    reveal_strlit("sun");
    let t = weekday_text(d);
    assert(t.len() == 3);
    if d != Weekday::Monday {
        assert(t[0] != 'm');
        assert(t != "mon"@);
    }
    if d != Weekday::Tuesday {
        assert(t[0] != 't' || t[1] != 'u');
        assert(t != "tue"@);
    }
    if d != Weekday::Wednesday {
        assert(t[0] != 'w');
        assert(t != "wed"@);
    }
    if d != Weekday::Thursday {
        assert(t[0] != 't' || t[1] != 'h');
        assert(t != "thu"@);
    }
    if d != Weekday::Friday {
        assert(t[0] != 'f');
        assert(t != "fri"@);
    }
    if d != Weekday::Saturday {
        assert(t[0] != 's' || t[1] != 'a');
        assert(t != "sat"@);
    }
}

proof fn lemma_weekday_unnamed(t: Seq<char>)
    requires
        forall|d: Weekday| weekday_text(d) != t,
    ensures
        weekday_named(t) is None,
{
    assert(weekday_text(Weekday::Monday) != t);
    assert(weekday_text(Weekday::Tuesday) != t);
    assert(weekday_text(Weekday::Wednesday) != t);
    assert(weekday_text(Weekday::Thursday) != t);
    assert(weekday_text(Weekday::Friday) != t);
    assert(weekday_text(Weekday::Saturday) != t);
    assert(weekday_text(Weekday::Sunday) != t);
}


// ── Expansion ──────────────────────────────────────────────────────────────

/// Whether a day of the given weekday offset is one a weekday-based rule picks.
pub open spec fn weekday_picked(rule: RuleShape, w: int) -> bool {
    match rule {
        RuleShape::Weekday => w < 5,
        RuleShape::Weekend => 5 <= w,
        RuleShape::Weekly(days) => weekly_has(days, w),
        _ => true,
    }
}

/// One of `days` has weekday offset `w`.
pub open spec fn weekly_has(days: Seq<Weekday>, w: int) -> bool {
    exists|k: int| 0 <= k < days.len() && weekday_offset(#[trigger] days[k]) == w
}

pub open spec fn day_picked(rule: RuleShape, t: (int, int, int)) -> bool {
    weekday_picked(rule, jiff_weekday(t.0, t.1, t.2))
}

/// The number of days from `cur` through `last` (walking with jiff's `tomorrow`) that the rule
/// picks by weekday.
pub open spec fn picked_days(rule: RuleShape, cur: (int, int, int), last: (int, int, int)) -> nat
    decreases civil_rank(last) - civil_rank(cur),
{
    if !(valid_civil(cur.0, cur.1, cur.2) && valid_civil(last.0, last.1, last.2)) || civil_lt(last, cur) {
        0
    } else {
        let here: nat = if day_picked(rule, cur) {
            1
        } else {
            0
        };
        match jiff_tomorrow(cur) {
            Some(t) => if valid_civil(t.0, t.1, t.2) && civil_lt(cur, t) && !civil_lt(last, t) {
                proof {
                    lemma_rank_monotone(cur, t);
                    lemma_rank_monotone(t, last);
                }
                here + picked_days(rule, t, last)
            } else {
                here
            },
            None => here,
        }
    }
}

/// Whether a weekday offset is picked by the rule.
fn picks_weekday(rule: &RecurRule, w: u8) -> (r: bool)
    ensures
        r == weekday_picked(rule_shape(*rule), w as int),
{
    match rule {
        RecurRule::Weekday => w < 5,
        RecurRule::Weekend => w >= 5,
        RecurRule::Weekly(days) => {
            let mut k: usize = 0;
            while k < days.len()
                invariant
                    k <= days.len(),
                    rule_shape(*rule) == RuleShape::Weekly(days@),
                    forall|j: int| 0 <= j < k ==> weekday_offset(#[trigger] days@[j]) != w,
                decreases days.len() - k,
            {
                if days[k].offset() == w {
                    assert(weekday_offset(days@[k as int]) == w as int);
                    assert(weekly_has(days@, w as int));
                    return true;
                }
                k = k + 1;
            }
            false
        },
        _ => true,
    }
}

/// Counts the days from `anchor` through `date` that the rule picks by weekday.
fn count_days_matching(rule: &RecurRule, anchor: &PlanDate, date: &PlanDate) -> (r: u32)
    requires
        !date.is_max(),
    ensures
        r == picked_days(rule_shape(*rule), anchor.triple(), date.triple()),
{
    let mut count: u32 = 0;
    let mut current: PlanDate = *anchor;
    anchor.assert_wf();
    date.assert_wf();
    while current.le(date)
        invariant
            current.wf(),
            date.wf(),
            anchor.wf(),
            !date.is_max(),
            !civil_lt(current.triple(), anchor.triple()),
            count <= civil_rank(current.triple()) - civil_rank(anchor.triple()),
            count as nat + picked_days(rule_shape(*rule), current.triple(), date.triple())
                == picked_days(rule_shape(*rule), anchor.triple(), date.triple()),
        decreases (if current.spec_le(*date) {
            civil_rank(date.triple()) - civil_rank(current.triple()) + 1
        } else {
            0
        }),
    {
        proof {
            lemma_rank_monotone(current.triple(), date.triple());
            lemma_rank_monotone(anchor.triple(), current.triple());
            if current.is_max() {
                assert(current.triple() == date.triple() || civil_lt(current.triple(), date.triple()));
            }
        }
        let here = picks_weekday(rule, current.weekday_index());
        if here {
            assert(civil_rank(date.triple()) <= (9999 + 10000) * 512 + 12 * 32 + 31) by {
                assert(valid_civil(date.triple().0, date.triple().1, date.triple().2));
            }
            count = count + 1;
        }
        let next = match current.tomorrow() {
            Some(t) => t,
            None => {
                proof {
                    assert(false);
                }
                return count;
            },
        };
        next.assert_wf();
        proof {
            lemma_rank_monotone(current.triple(), next.triple());
            lemma_rank_monotone(next.triple(), date.triple());
        }
        current = next;
    }
    proof {
        crate::civil::lemma_le_cases(*date, current);
    }
    count
}

/// The zero-based position of `date` among the rule's occurrences from `anchor` (zero before the
/// anchor or when `date` is not an occurrence).
pub open spec fn occurrence_index_spec(rule: RuleShape, anchor: PlanDate, date: PlanDate) -> nat {
    if date.spec_lt(anchor) {
        0
    } else {
        let days = anchor.spec_days_until(date);
        match rule {
            RuleShape::Daily => days as nat,
            RuleShape::EveryNDays(n) => (days / (n as int)) as nat,
            RuleShape::EveryNWeeks(n) => (days / (7 * n as int)) as nat,
            _ => {
                let c = picked_days(rule, anchor.triple(), date.triple());
                if c == 0 {
                    0
                } else {
                    (c - 1) as nat
                }
            },
        }
    }
}

/// Whether a rule's numbers are usable: an interval of zero days or weeks divides nothing.
pub open spec fn rule_wf(rule: RuleShape) -> bool {
    match rule {
        RuleShape::EveryNDays(n) => n > 0,
        RuleShape::EveryNWeeks(n) => n > 0,
        _ => true,
    }
}

/// Walking day by day is needed for the weekday-based rules, and jiff has no day after its last.
pub open spec fn walk_ok(rule: RuleShape, date: PlanDate) -> bool {
    match rule {
        RuleShape::Weekday | RuleShape::Weekend | RuleShape::Weekly(_) => !date.is_max(),
        _ => true,
    }
}

/// Returns the zero-based index of `date` among all occurrences of `rule` from `anchor`
/// (inclusive); zero when `date` is before `anchor`.
pub fn occurrence_index(rule: &RecurRule, anchor: &PlanDate, date: &PlanDate) -> (r: u32)
    requires
        rule_wf(rule_shape(*rule)),
        walk_ok(rule_shape(*rule), *date),
    ensures
        r == occurrence_index_spec(rule_shape(*rule), *anchor, *date),
{
    if date.lt(anchor) {
        return 0;
    }
    let diff = anchor.days_until(date);
    anchor.assert_wf();
    date.assert_wf();
    assert(diff >= 0) by {
        crate::civil::lemma_le_cases(*anchor, *date);
    }
    let total = diff as u32;
    match rule {
        RecurRule::Daily => total,
        RecurRule::EveryNDays(n) => total / (*n as u32),
        RecurRule::EveryNWeeks(n) => total / (*n as u32 * 7),
        _ => {
            let c = count_days_matching(rule, anchor, date);
            if c == 0 {
                0
            } else {
                c - 1
            }
        },
    }
}

/// Whether a day of the given weekday offset and distance from the anchor fits the rule's
/// pattern.
pub open spec fn pattern_matches(rule: RuleShape, anchor: PlanDate, date: PlanDate) -> bool {
    let days = anchor.spec_days_until(date);
    match rule {
        RuleShape::Daily => true,
        RuleShape::EveryNDays(n) => if n == 0 {
            days == 0
        } else {
            days % (n as int) == 0
        },
        RuleShape::EveryNWeeks(n) => (if n == 0 {
            days == 0
        } else {
            days % (7 * n as int) == 0
        }) && date.spec_weekday_index() == anchor.spec_weekday_index(),
        _ => day_picked(rule, date.triple()),
    }
}

pub open spec fn end_allows(rule: RuleShape, anchor: PlanDate, end: Option<RecurEnd>, date: PlanDate) -> bool {
    match end {
        None => true,
        Some(RecurEnd::Until(until)) => date.spec_le(until),
        Some(RecurEnd::Count(count)) => occurrence_index_spec(rule, anchor, date) < count,
    }
}

/// The rule recurs on `date`: not before the anchor, on the rule's pattern, within its end.
pub open spec fn recurs_on(rule: RuleShape, anchor: PlanDate, end: Option<RecurEnd>, date: PlanDate) -> bool {
    !date.spec_lt(anchor) && pattern_matches(rule, anchor, date) && end_allows(rule, anchor, end, date)
}

/// Whether `rule` generates an occurrence on `date` given `anchor` and `end`.
pub fn expand(rule: &RecurRule, anchor: &PlanDate, end: Option<&RecurEnd>, date: &PlanDate) -> (r: bool)
    requires
        end matches Some(RecurEnd::Count(_)) ==> rule_wf(rule_shape(*rule)) && walk_ok(rule_shape(*rule), *date),
    ensures
        r == recurs_on(rule_shape(*rule), *anchor, match end { Some(e) => Some(*e), None => None }, *date),
{
    if date.lt(anchor) {
        return false;
    }
    let diff = anchor.days_until(date);
    anchor.assert_wf();
    date.assert_wf();
    assert(diff >= 0) by {
        crate::civil::lemma_le_cases(*anchor, *date);
    }
    let total = diff as u32;
    let matches_pattern = match rule {
        RecurRule::Daily => true,
        RecurRule::EveryNDays(n) => {
            if *n == 0 {
                total == 0
            } else {
                total % (*n as u32) == 0
            }
        },
        RecurRule::EveryNWeeks(n) => {
            let period = *n as u32 * 7;
            let multiple = if period == 0 {
                total == 0
            } else {
                total % period == 0
            };
            multiple && date.weekday_index() == anchor.weekday_index()
        },
        _ => picks_weekday(rule, date.weekday_index()),
    };
    if !matches_pattern {
        return false;
    }
    match end {
        None => true,
        Some(RecurEnd::Until(until)) => date.le(until),
        Some(RecurEnd::Count(count)) => occurrence_index(rule, anchor, date) < *count,
    }
}

/// The days between occurrences of an interval rule: one for daily, `n` days, or `n` weeks.
pub open spec fn interval_days(rule: RuleShape) -> int {
    match rule {
        RuleShape::Daily => 1,
        RuleShape::EveryNDays(n) => n as int,
        RuleShape::EveryNWeeks(n) => 7 * n as int,
        _ => 0,
    }
}

/// With a count end of `count`, an interval rule recurs on the date `k` intervals after its
/// anchor exactly when it recurs there without an end and `k` is below the count: the first
/// `count` occurrences are kept, whatever the interval.
pub proof fn counted_interval_rule_keeps_first_occurrences(
    rule: RuleShape,
    anchor: PlanDate,
    date: PlanDate,
    k: nat,
    count: u32,
)
    requires
        rule is Daily || rule is EveryNDays || rule is EveryNWeeks,
        interval_days(rule) > 0,
        anchor.spec_days_until(date) == k * interval_days(rule),
    ensures
        recurs_on(rule, anchor, Some(RecurEnd::Count(count)), date)
            <==> (recurs_on(rule, anchor, None, date) && k < count),
{
    let p = interval_days(rule);
    assert((k * p) / p == k) by (nonlinear_arith)
        requires
            p > 0,
    ;
}

/// The day after `cur`, for a date before `last`: jiff has one, it is a valid date after `cur`,
/// and it is not after `last`.
proof fn lemma_tomorrow_within(cur: (int, int, int), last: (int, int, int))
    requires
        valid_civil(cur.0, cur.1, cur.2),
        valid_civil(last.0, last.1, last.2),
        civil_lt(cur, last),
    ensures
        jiff_tomorrow(cur) matches Some(t) && valid_civil(t.0, t.1, t.2) && civil_lt(cur, t) && !civil_lt(last, t),
{
    reveal(jiff_tomorrow);
}

/// A picked day is counted among the picked days from any day up to it.
proof fn lemma_picked_days_reach_last(rule: RuleShape, cur: (int, int, int), last: (int, int, int))
    requires
        valid_civil(cur.0, cur.1, cur.2),
        valid_civil(last.0, last.1, last.2),
        !civil_lt(last, cur),
        day_picked(rule, last),
    ensures
        picked_days(rule, cur, last) >= 1,
    decreases civil_rank(last) - civil_rank(cur),
{
    lemma_rank_monotone(cur, last);
    if cur != last {
        lemma_tomorrow_within(cur, last);
        let t = jiff_tomorrow(cur)->0;
        lemma_rank_monotone(cur, t);
        lemma_rank_monotone(t, last);
        lemma_picked_days_reach_last(rule, t, last);
    }
}

/// With a count end of `count`, a weekday-based rule recurs on a date exactly when the date is a
/// day the rule picks, not before the anchor, and at most `count` picked days lie from the anchor
/// through it: the first `count` picked days are kept.
pub proof fn counted_weekday_rule_keeps_first_picks(rule: RuleShape, anchor: PlanDate, date: PlanDate, count: u32)
    requires
        rule is Weekday || rule is Weekend || rule is Weekly,
        anchor.wf(),
        date.wf(),
    ensures
        recurs_on(rule, anchor, Some(RecurEnd::Count(count)), date) <==> (!date.spec_lt(anchor) && day_picked(
            rule,
            date.triple(),
        ) && picked_days(rule, anchor.triple(), date.triple()) <= count),
{
    if !date.spec_lt(anchor) && day_picked(rule, date.triple()) {
        lemma_picked_days_reach_last(rule, anchor.triple(), date.triple());
    }
}

/// A weekday rule recurs on Monday to Friday of any seven consecutive days starting on a Monday,
/// and not on the Saturday and Sunday, when none of the seven lies before the anchor.
pub proof fn weekday_rule_picks_five_of_seven(anchor: PlanDate, days: Seq<PlanDate>)
    requires
        days.len() == 7,
        days[0].spec_weekday_index() == 0,
        forall|k: int| 0 <= k < 7 ==> #[trigger] days[0].spec_days_until(days[k]) == k,
        forall|k: int| 0 <= k < 7 ==> !(#[trigger] days[k]).spec_lt(anchor),
    ensures
        forall|k: int| 0 <= k < 7 ==> (recurs_on(RuleShape::Weekday, anchor, None, #[trigger] days[k]) <==> k < 5),
{
    reveal(crate::civil::jiff_weekday);
    reveal(crate::civil::jiff_days_until);
    let t0 = days[0].triple();
    let d0 = crate::civil::days_from_civil(t0.0, t0.1, t0.2);
    assert forall|k: int| 0 <= k < 7 implies (recurs_on(RuleShape::Weekday, anchor, None, #[trigger] days[k]) <==> k < 5) by {
        let tk = days[k].triple();
        let dk = crate::civil::days_from_civil(tk.0, tk.1, tk.2);
        assert(days[0].spec_days_until(days[k]) == k);
        assert(dk == d0 + k);
        assert((d0 + 3) % 7 == 0);
        assert((dk + 3) % 7 == k) by (nonlinear_arith)
            requires
                dk == d0 + k,
                (d0 + 3) % 7 == 0,
                0 <= k < 7,
        ;
        assert(days[k].spec_weekday_index() == k);
    }
}

} // verus!
