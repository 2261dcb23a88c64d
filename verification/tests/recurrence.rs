use ccplan::civil::PlanDate;
use ccplan::model::{RecurEnd, RecurRule, Weekday};
use ccplan::recurrence::{expand, occurrence_index, parse_every};

fn date(s: &str) -> PlanDate {
    PlanDate::parse(s).unwrap()
}

#[test]
fn parse_daily() {
    assert_eq!(parse_every("daily").unwrap(), RecurRule::Daily);
}

#[test]
fn parse_weekday() {
    assert_eq!(parse_every("weekday").unwrap(), RecurRule::Weekday);
}

#[test]
fn parse_weekend() {
    assert_eq!(parse_every("weekend").unwrap(), RecurRule::Weekend);
}

#[test]
fn parse_weekly_single() {
    assert_eq!(
        parse_every("weekly:mon").unwrap(),
        RecurRule::Weekly(vec![Weekday::Monday])
    );
}

#[test]
fn parse_weekly_multi() {
    assert_eq!(
        parse_every("weekly:mon,wed,fri").unwrap(),
        RecurRule::Weekly(vec![Weekday::Monday, Weekday::Wednesday, Weekday::Friday])
    );
}

#[test]
fn parse_every_n_days() {
    assert_eq!(parse_every("3d").unwrap(), RecurRule::EveryNDays(3));
    assert_eq!(parse_every("14d").unwrap(), RecurRule::EveryNDays(14));
}

#[test]
fn parse_every_n_weeks() {
    assert_eq!(parse_every("2w").unwrap(), RecurRule::EveryNWeeks(2));
}

#[test]
fn daily_generates_on_anchor_and_following_days() {
    let anchor = date("2026-06-01");
    let rule = RecurRule::Daily;

    assert!(expand(&rule, &anchor, None, &date("2026-06-01")));
    assert!(expand(&rule, &anchor, None, &date("2026-06-02")));
    assert!(expand(&rule, &anchor, None, &date("2026-06-10")));
}

#[test]
fn daily_does_not_generate_before_anchor() {
    let anchor = date("2026-06-05");
    let rule = RecurRule::Daily;

    assert!(!expand(&rule, &anchor, None, &date("2026-06-04")));
    assert!(!expand(&rule, &anchor, None, &date("2026-01-01")));
}

#[test]
fn daily_stops_at_until() {
    let anchor = date("2026-06-01");
    let end = RecurEnd::Until(date("2026-06-03"));
    let rule = RecurRule::Daily;

    assert!(expand(&rule, &anchor, Some(&end), &date("2026-06-03")));
    assert!(!expand(&rule, &anchor, Some(&end), &date("2026-06-04")));
}

#[test]
fn daily_stops_after_count() {
    let anchor = date("2026-06-01");
    let end = RecurEnd::Count(3);
    let rule = RecurRule::Daily;

    assert!(expand(&rule, &anchor, Some(&end), &date("2026-06-01")));
    assert!(expand(&rule, &anchor, Some(&end), &date("2026-06-02")));
    assert!(expand(&rule, &anchor, Some(&end), &date("2026-06-03")));
    assert!(!expand(&rule, &anchor, Some(&end), &date("2026-06-04")));
}

#[test]
fn weekday_rule_matches_mon_to_fri_only() {
    let anchor = date("2026-06-01");
    let rule = RecurRule::Weekday;

    assert!(expand(&rule, &anchor, None, &date("2026-06-01")));
    assert!(expand(&rule, &anchor, None, &date("2026-06-02")));
    assert!(expand(&rule, &anchor, None, &date("2026-06-03")));
    assert!(expand(&rule, &anchor, None, &date("2026-06-04")));
    assert!(expand(&rule, &anchor, None, &date("2026-06-05")));
    assert!(!expand(&rule, &anchor, None, &date("2026-06-06")));
    assert!(!expand(&rule, &anchor, None, &date("2026-06-07")));
    assert!(expand(&rule, &anchor, None, &date("2026-06-08")));
}

#[test]
fn weekend_rule_matches_sat_and_sun_only() {
    let anchor = date("2026-06-01");
    let rule = RecurRule::Weekend;

    assert!(!expand(&rule, &anchor, None, &date("2026-06-01")));
    assert!(!expand(&rule, &anchor, None, &date("2026-06-05")));
    assert!(expand(&rule, &anchor, None, &date("2026-06-06")));
    assert!(expand(&rule, &anchor, None, &date("2026-06-07")));
    assert!(!expand(&rule, &anchor, None, &date("2026-06-08")));
}

#[test]
fn weekly_rule_matches_specific_days() {
    let anchor = date("2026-06-01");
    let rule = RecurRule::Weekly(vec![Weekday::Monday, Weekday::Wednesday]);

    assert!(expand(&rule, &anchor, None, &date("2026-06-01")));
    assert!(!expand(&rule, &anchor, None, &date("2026-06-02")));
    assert!(expand(&rule, &anchor, None, &date("2026-06-03")));
    assert!(!expand(&rule, &anchor, None, &date("2026-06-04")));
    assert!(!expand(&rule, &anchor, None, &date("2026-06-05")));
    assert!(!expand(&rule, &anchor, None, &date("2026-06-06")));
    assert!(!expand(&rule, &anchor, None, &date("2026-06-07")));
    assert!(expand(&rule, &anchor, None, &date("2026-06-08")));
    assert!(expand(&rule, &anchor, None, &date("2026-06-10")));
}

#[test]
fn every_n_days_fires_on_correct_intervals() {
    let anchor = date("2026-06-01");
    let rule = RecurRule::EveryNDays(3);

    assert!(expand(&rule, &anchor, None, &date("2026-06-01")));
    assert!(!expand(&rule, &anchor, None, &date("2026-06-02")));
    assert!(!expand(&rule, &anchor, None, &date("2026-06-03")));
    assert!(expand(&rule, &anchor, None, &date("2026-06-04")));
    assert!(!expand(&rule, &anchor, None, &date("2026-06-05")));
    assert!(!expand(&rule, &anchor, None, &date("2026-06-06")));
    assert!(expand(&rule, &anchor, None, &date("2026-06-07")));
}

#[test]
fn every_n_weeks_fires_on_correct_intervals() {
    let anchor = date("2026-06-01");
    let rule = RecurRule::EveryNWeeks(2);

    assert!(expand(&rule, &anchor, None, &date("2026-06-01")));
    assert!(!expand(&rule, &anchor, None, &date("2026-06-08")));
    assert!(expand(&rule, &anchor, None, &date("2026-06-15")));
    assert!(!expand(&rule, &anchor, None, &date("2026-06-22")));
    assert!(expand(&rule, &anchor, None, &date("2026-06-29")));
    assert!(!expand(&rule, &anchor, None, &date("2026-06-16")));
}

#[test]
fn until_end_stops_on_the_until_date() {
    let anchor = date("2026-06-01");
    let rule = RecurRule::Daily;
    let end = RecurEnd::Until(date("2026-06-05"));

    assert!(expand(&rule, &anchor, Some(&end), &date("2026-06-05")));
    assert!(!expand(&rule, &anchor, Some(&end), &date("2026-06-06")));
}

#[test]
fn count_end_stops_after_n_occurrences() {
    let anchor = date("2026-06-01");
    let rule = RecurRule::Daily;
    let end = RecurEnd::Count(2);

    assert!(expand(&rule, &anchor, Some(&end), &date("2026-06-01")));
    assert!(expand(&rule, &anchor, Some(&end), &date("2026-06-02")));
    assert!(!expand(&rule, &anchor, Some(&end), &date("2026-06-03")));
}

#[test]
fn date_before_anchor_always_returns_false() {
    let anchor = date("2026-06-10");
    for rule in [
        RecurRule::Daily,
        RecurRule::Weekday,
        RecurRule::Weekend,
        RecurRule::EveryNDays(1),
        RecurRule::EveryNWeeks(1),
    ] {
        assert!(!expand(&rule, &anchor, None, &date("2026-06-09")));
    }
    assert!(!expand(
        &RecurRule::Weekly(vec![Weekday::Monday]),
        &anchor,
        None,
        &date("2026-06-09")
    ));
}

#[test]
fn occurrence_index_daily_counts_correctly() {
    let anchor = date("2026-06-01");
    let rule = RecurRule::Daily;

    assert_eq!(occurrence_index(&rule, &anchor, &date("2026-06-01")), 0);
    assert_eq!(occurrence_index(&rule, &anchor, &date("2026-06-02")), 1);
    assert_eq!(occurrence_index(&rule, &anchor, &date("2026-06-05")), 4);
}

#[test]
fn occurrence_index_before_anchor_returns_zero() {
    let anchor = date("2026-06-10");
    let rule = RecurRule::Daily;
    assert_eq!(occurrence_index(&rule, &anchor, &date("2026-06-09")), 0);
}

#[test]
fn occurrence_index_weekday_counts_correctly() {
    let anchor = date("2026-06-01");
    let rule = RecurRule::Weekday;

    assert_eq!(occurrence_index(&rule, &anchor, &date("2026-06-01")), 0);
    assert_eq!(occurrence_index(&rule, &anchor, &date("2026-06-02")), 1);
    assert_eq!(occurrence_index(&rule, &anchor, &date("2026-06-05")), 4);
    assert_eq!(occurrence_index(&rule, &anchor, &date("2026-06-06")), 4);
    assert_eq!(occurrence_index(&rule, &anchor, &date("2026-06-08")), 5);
}

#[test]
fn occurrence_index_weekend_counts_correctly() {
    let anchor = date("2026-06-01");
    let rule = RecurRule::Weekend;

    assert_eq!(occurrence_index(&rule, &anchor, &date("2026-06-05")), 0);
    assert_eq!(occurrence_index(&rule, &anchor, &date("2026-06-06")), 0);
    assert_eq!(occurrence_index(&rule, &anchor, &date("2026-06-07")), 1);
    assert_eq!(occurrence_index(&rule, &anchor, &date("2026-06-13")), 2);
}

#[test]
fn occurrence_index_weekly_counts_correctly() {
    let anchor = date("2026-06-01");
    let rule = RecurRule::Weekly(vec![Weekday::Monday, Weekday::Wednesday]);

    assert_eq!(occurrence_index(&rule, &anchor, &date("2026-06-01")), 0);
    assert_eq!(occurrence_index(&rule, &anchor, &date("2026-06-03")), 1);
    assert_eq!(occurrence_index(&rule, &anchor, &date("2026-06-08")), 2);
}

#[test]
fn occurrence_index_every_n_days_counts_correctly() {
    let anchor = date("2026-06-01");
    let rule = RecurRule::EveryNDays(3);

    assert_eq!(occurrence_index(&rule, &anchor, &date("2026-06-01")), 0);
    assert_eq!(occurrence_index(&rule, &anchor, &date("2026-06-04")), 1);
    assert_eq!(occurrence_index(&rule, &anchor, &date("2026-06-07")), 2);
    assert_eq!(occurrence_index(&rule, &anchor, &date("2026-06-05")), 1);
}

#[test]
fn occurrence_index_every_n_weeks_counts_correctly() {
    let anchor = date("2026-06-01");
    let rule = RecurRule::EveryNWeeks(2);

    assert_eq!(occurrence_index(&rule, &anchor, &date("2026-06-01")), 0);
    assert_eq!(occurrence_index(&rule, &anchor, &date("2026-06-15")), 1);
    assert_eq!(occurrence_index(&rule, &anchor, &date("2026-06-29")), 2);
    assert_eq!(occurrence_index(&rule, &anchor, &date("2026-06-08")), 0);
}

#[test]
fn anchor_weekday_covers_all_days() {
    let days_and_anchors = [
        ("2026-06-01", Weekday::Monday),
        ("2026-06-02", Weekday::Tuesday),
        ("2026-06-03", Weekday::Wednesday),
        ("2026-06-04", Weekday::Thursday),
        ("2026-06-05", Weekday::Friday),
        ("2026-06-06", Weekday::Saturday),
        ("2026-06-07", Weekday::Sunday),
    ];
    for (anchor_str, expected_wd) in days_and_anchors {
        let anchor = date(anchor_str);
        let rule = RecurRule::EveryNWeeks(1);
        assert!(expand(&rule, &anchor, None, &anchor));
        let next = anchor.tomorrow().unwrap();
        assert!(!expand(&rule, &anchor, None, &next));
        assert_eq!(anchor.weekday_index(), expected_wd_index(expected_wd));
    }
}

fn expected_wd_index(w: Weekday) -> u8 {
    match w {
        Weekday::Monday => 0,
        Weekday::Tuesday => 1,
        Weekday::Wednesday => 2,
        Weekday::Thursday => 3,
        Weekday::Friday => 4,
        Weekday::Saturday => 5,
        Weekday::Sunday => 6,
    }
}
