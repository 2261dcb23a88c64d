use ccplan::civil::PlanDate;
use ccplan::model::{ClockTime, TimeZoneName};
use ccplan::time::{resolve, Timestamp};

#[test]
fn resolves_normal_wall_clock_time_to_timestamp() {
    let date = date("2026-06-08");
    let timezone = timezone("Asia/Kolkata");

    let resolved = resolve(&date, &timezone, wallclock("11:00")).expect("time should resolve");

    assert_eq!(resolved, timestamp("2026-06-08T05:30:00Z"));
}

#[test]
fn resolves_spring_forward_gap_with_compatible_strategy() {
    let date = date("2024-03-10");
    let timezone = timezone("America/New_York");

    let resolved = resolve(&date, &timezone, wallclock("02:30")).expect("gap should resolve");

    assert_eq!(resolved, timestamp("2024-03-10T07:30:00Z"));
}

#[test]
fn resolves_fall_back_fold_with_compatible_strategy() {
    let date = date("2024-11-03");
    let timezone = timezone("America/New_York");

    let resolved = resolve(&date, &timezone, wallclock("01:30")).expect("fold should resolve");

    assert_eq!(resolved, timestamp("2024-11-03T05:30:00Z"));
}

fn date(value: &str) -> PlanDate {
    PlanDate::parse(value).expect("fixture date should parse")
}

fn timezone(value: &str) -> TimeZoneName {
    TimeZoneName::parse(value).expect("fixture time zone should parse")
}

fn wallclock(value: &str) -> ClockTime {
    ClockTime::parse(value).expect("fixture wall clock should parse")
}

fn timestamp(value: &str) -> Timestamp {
    Timestamp::parse(value).expect("fixture timestamp should parse")
}

#[test]
fn utc_wall_clock_time_is_the_instant_itself() {
    let resolved = resolve(&date("2026-06-08"), &timezone("UTC"), wallclock("09:00")).expect("time should resolve");

    assert_eq!(resolved, timestamp("2026-06-08T09:00:00Z"));
}
