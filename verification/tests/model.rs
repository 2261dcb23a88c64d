use ccplan::civil::PlanDate;
use ccplan::model::{
    Block, BlockId, ClockTime, DurationSpec, FieldParseError, Lead, Plan, RawBlock, RawPlan,
    RecurRule, Run, ScheduleRev, Span, Status, TimeZoneName, ValidationError, Weekday,
    WhenCondition,
};
use ccplan::recurrence::parse_every;

#[test]
fn recur_rule_variants_parse_correctly() {
    assert_eq!(parse_every("daily").unwrap(), RecurRule::Daily);
    assert_eq!(parse_every("weekday").unwrap(), RecurRule::Weekday);
    assert_eq!(parse_every("weekend").unwrap(), RecurRule::Weekend);
    assert_eq!(
        parse_every("weekly:mon").unwrap(),
        RecurRule::Weekly(vec![Weekday::Monday])
    );
    assert_eq!(
        parse_every("weekly:mon,wed,fri").unwrap(),
        RecurRule::Weekly(vec![Weekday::Monday, Weekday::Wednesday, Weekday::Friday])
    );
    assert_eq!(parse_every("3d").unwrap(), RecurRule::EveryNDays(3));
    assert_eq!(parse_every("14d").unwrap(), RecurRule::EveryNDays(14));
    assert_eq!(parse_every("2w").unwrap(), RecurRule::EveryNWeeks(2));
    let err = parse_every("bogus").unwrap_err();
    assert!(err.message().contains("bogus"));
}

#[test]
fn when_condition_parses_and_displays_variants() {
    assert_eq!(
        WhenCondition::parse("file_exists(/tmp/ready)").unwrap(),
        WhenCondition::FileExists("/tmp/ready".to_owned())
    );
    assert_eq!(
        WhenCondition::parse("file_changed(/tmp/input.txt)").unwrap().text(),
        "file_changed(/tmp/input.txt)"
    );
    assert_eq!(
        WhenCondition::parse("command_ok(/bin/true --flag)").unwrap().text(),
        "command_ok(/bin/true --flag)"
    );
    assert_eq!(
        WhenCondition::parse("command_ok(/bin/true --flag)").unwrap(),
        WhenCondition::CommandOk(vec!["/bin/true".to_owned(), "--flag".to_owned()])
    );
    assert!(WhenCondition::parse("file_exists()").is_err());
    assert!(WhenCondition::parse("file_changed()").is_err());
    assert!(WhenCondition::parse("command_ok()").is_err());
    assert!(WhenCondition::parse("unknown(/tmp/x)").is_err());
}

#[test]
fn const_constructors_are_correct() {
    assert_eq!(Lead::from_seconds_const(300).as_seconds(), 300);
    assert_eq!(DurationSpec::from_seconds_const(1800).unwrap().as_seconds(), 1800);
    assert!(DurationSpec::from_seconds_const(0).is_none());
    assert!(DurationSpec::from_seconds_const(86401).is_none());
}

#[test]
fn status_as_str_covers_all_variants_in_unit_binary() {
    assert_eq!(Status::Pending.as_str(), "pending");
    assert_eq!(Status::Active.as_str(), "active");
    assert_eq!(Status::Done.as_str(), "done");
    assert_eq!(Status::Skipped.as_str(), "skipped");
    assert_eq!(Status::Missed.as_str(), "missed");
    assert_eq!(Status::Expired.as_str(), "expired");
}

#[test]
fn weekday_parse_and_display_all_seven() {
    let cases = [
        ("mon", Weekday::Monday),
        ("tue", Weekday::Tuesday),
        ("wed", Weekday::Wednesday),
        ("thu", Weekday::Thursday),
        ("fri", Weekday::Friday),
        ("sat", Weekday::Saturday),
        ("sun", Weekday::Sunday),
    ];
    for (s, day) in cases {
        assert_eq!(Weekday::parse(s).unwrap(), day);
        assert_eq!(day.as_str(), s);
    }
    assert!(Weekday::parse("xyz").is_err());
}

#[test]
fn parse_errors_on_bogus() {
    assert!(parse_every("bogus").is_err());
    assert!(parse_every("").is_err());
    assert!(parse_every("weekly:badday").is_err());
    assert!(parse_every("0d").is_err());
    assert!(parse_every("0w").is_err());
}

#[test]
fn field_values_parse_and_render() {
    assert_eq!(DurationSpec::parse("1h30m").unwrap().as_seconds(), 5400);
    assert_eq!(DurationSpec::parse("90s").unwrap().text(), "1m30s");
    assert!(DurationSpec::parse("0s").is_err());
    assert!(DurationSpec::parse("30m1h").is_err());
    assert_eq!(Lead::parse("0m").unwrap().as_seconds(), 0);
    assert_eq!(Lead::from_seconds(0).unwrap().text(), "0m");
    assert!(matches!(Lead::from_seconds(86401), Err(FieldParseError::Duration { .. })));
    assert!(BlockId::new("bad id".to_owned()).is_err());
    assert_eq!(BlockId::parse("ok-id_1.x").unwrap().as_str(), "ok-id_1.x");
    let e = ValidationError::DuplicateId { id: BlockId::parse("x").unwrap() };
    assert_eq!(e.exit_code(), 2);
    assert_eq!(
        FieldParseError::Duration { value: "5x".to_owned() }.message(),
        "invalid duration `5x`"
    );
}

fn valid_plan() -> Plan {
    Plan {
        date: PlanDate::parse("2026-06-08").unwrap(),
        timezone: TimeZoneName::parse("Asia/Kolkata").unwrap(),
        blocks: vec![valid_block("focus-1")],
    }
}

fn valid_block(id: &str) -> Block {
    Block {
        id: BlockId::new(id.to_owned()).unwrap(),
        title: "Focus time".to_owned(),
        start: ClockTime::parse("11:00").unwrap(),
        span: Span::End(ClockTime::parse("11:30").unwrap()),
        notify: Lead::parse("0m").unwrap(),
        tags: vec!["deep-work".to_owned()],
        status: Status::Pending,
        run: None,
        recurrence: None,
        origin: None,
        after: vec![],
        on_success: vec![],
        on_failure: vec![],
        on_missed: vec![],
        retry: None,
        expect_by: None,
        approval: None,
        when: None,
        agent: None,
    }
}

/// The raw form of a block as a plan file writes it, with only id, title and start set.
fn raw_block(id: &str, title: &str, start: &str) -> RawBlock {
    RawBlock {
        id: BlockId::parse(id).unwrap(),
        title: title.to_owned(),
        start: ClockTime::parse(start).unwrap(),
        end: None,
        duration: None,
        notify: None,
        tags: vec![],
        status: Status::Pending,
        run: None,
        every: None,
        anchor: None,
        until: None,
        count: None,
        origin: None,
        after: vec![],
        on_success: vec![],
        on_failure: vec![],
        on_missed: vec![],
        retry: None,
        expect_by: None,
        approval: None,
        when: None,
        agent: None,
    }
}

fn read_plan(blocks: Vec<RawBlock>) -> Result<Plan, ValidationError> {
    let plan = Plan::from_raw(
        RawPlan {
            date: PlanDate::parse("2026-06-08").unwrap(),
            timezone: TimeZoneName::parse("Asia/Kolkata").unwrap(),
            blocks,
        },
        Lead::from_seconds_const(300),
    )?;
    plan.validate()?;
    Ok(plan)
}

#[test]
fn parses_and_writes_design_toml_schema() {
    let plan = read_plan(vec![
        RawBlock {
            end: Some(ClockTime::parse("11:30").unwrap()),
            notify: Some(Lead::parse("0m").unwrap()),
            tags: vec!["deep-work".to_owned()],
            ..raw_block("focus-1", "Focus time", "11:00")
        },
        RawBlock {
            duration: Some(DurationSpec::parse("30m").unwrap()),
            notify: Some(Lead::parse("2m").unwrap()),
            run: Some(vec!["/usr/local/bin/sync.sh".to_owned(), "--fast".to_owned()]),
            ..raw_block("sync-1", "Agentic sync-up", "11:30")
        },
    ])
    .expect("fixture should parse");

    assert_eq!(plan.date.text(), "2026-06-08");
    assert_eq!(plan.timezone.as_str(), "Asia/Kolkata");
    assert_eq!(plan.blocks.len(), 2);
    assert_eq!(plan.blocks[0].id.as_str(), "focus-1");
    assert_eq!(plan.blocks[0].status, Status::Pending);
    assert_eq!(
        plan.blocks[1].run.as_ref().map(Run::as_slice),
        Some(["/usr/local/bin/sync.sh".to_owned(), "--fast".to_owned()].as_slice())
    );

    let written = plan.to_raw();
    assert_eq!(written.blocks.len(), 2);
    assert_eq!(
        Plan::from_raw(written, Lead::from_seconds_const(300)).expect("written plan should read"),
        plan
    );
}

#[test]
fn duration_and_clock_parsers_accept_required_forms() {
    assert_eq!(DurationSpec::parse("30m").unwrap().as_seconds(), 1_800);
    assert_eq!(DurationSpec::parse("90s").unwrap().as_seconds(), 90);
    assert_eq!(DurationSpec::parse("90s").unwrap().text(), "1m30s");
    assert_eq!(DurationSpec::parse("1h30m").unwrap().as_seconds(), 5_400);
    assert_eq!(DurationSpec::parse("1h30m").unwrap().text(), "1h30m");
    assert_eq!(Lead::parse("0m").unwrap().as_seconds(), 0);
    assert_eq!(ClockTime::parse("11:00").unwrap().minutes_since_midnight(), 660);
}

#[test]
fn field_parsers_reject_malformed_values() {
    assert!(BlockId::new(String::new()).is_err());
    assert!(BlockId::new("bad id".to_owned()).is_err());
    assert_eq!(BlockId::new("focus-1".to_owned()).unwrap().as_str(), "focus-1");

    assert!(PlanDate::parse("2026-99-99").is_none());
    assert!(TimeZoneName::parse("Not/AZone").is_err());
    assert_eq!(
        TimeZoneName::parse("america/NEW_YORK").unwrap().as_str(),
        "America/New_York"
    );

    assert!(ClockTime::from_minutes_since_midnight(1_440).is_err());
    assert!(ClockTime::parse("1100").is_err());
    assert!(ClockTime::parse("1:00").is_err());
    assert!(ClockTime::parse("aa:00").is_err());
    assert!(ClockTime::parse("11:aa").is_err());
    assert!(ClockTime::parse("24:00").is_err());
    assert_eq!(ClockTime::parse("09:05").unwrap().text(), "09:05");

    assert!(DurationSpec::from_seconds(0).is_err());
    assert!(DurationSpec::from_seconds(86_401).is_err());
    assert!(Lead::from_seconds(86_401).is_err());
    assert!(Run::new(Vec::new()).is_err());
    assert!(ScheduleRev::parse("not-a-rev").is_err());
    assert!(DurationSpec::parse("").is_err());
    assert!(DurationSpec::parse("10").is_err());
    assert!(DurationSpec::parse("m").is_err());
    assert!(DurationSpec::parse("1x").is_err());
    assert!(DurationSpec::parse("1m2h").is_err());
    assert!(DurationSpec::parse("4294967296s").is_err());
    assert!(DurationSpec::parse("4294967295h1s").is_err());
}

#[test]
fn validation_reports_duplicate_ids() {
    let mut plan = valid_plan();
    plan.blocks.push(valid_block("focus-1"));

    assert!(matches!(
        plan.validate(),
        Err(ValidationError::DuplicateId { id }) if id.as_str() == "focus-1"
    ));
}

#[test]
fn validation_requires_exactly_one_end_shape() {
    let missing = read_plan(vec![raw_block("focus-1", "Focus time", "11:00")]);
    assert!(matches!(
        missing,
        Err(ValidationError::MissingEndOrDuration { id }) if id.as_str() == "focus-1"
    ));

    let both = read_plan(vec![RawBlock {
        end: Some(ClockTime::parse("11:30").unwrap()),
        duration: Some(DurationSpec::parse("30m").unwrap()),
        ..raw_block("focus-1", "Focus time", "11:00")
    }]);
    assert!(matches!(
        both,
        Err(ValidationError::BothEndAndDuration { id }) if id.as_str() == "focus-1"
    ));
}

#[test]
fn validation_rejects_empty_run_argv() {
    let plan = read_plan(vec![RawBlock {
        end: Some(ClockTime::parse("11:30").unwrap()),
        run: Some(vec![]),
        ..raw_block("focus-1", "Focus time", "11:00")
    }]);

    assert!(matches!(
        plan,
        Err(ValidationError::EmptyRun { id }) if id.as_str() == "focus-1"
    ));
}

#[test]
fn validation_rejects_non_forward_timing() {
    let mut plan = valid_plan();
    plan.blocks[0].span = Span::End(ClockTime::parse("10:59").unwrap());

    assert!(matches!(
        plan.validate(),
        Err(ValidationError::EndNotAfterStart { id }) if id.as_str() == "focus-1"
    ));
}

#[test]
fn validation_rejects_duration_past_midnight() {
    let mut plan = valid_plan();
    plan.blocks[0].start = ClockTime::parse("23:30").unwrap();
    plan.blocks[0].span = Span::Duration(DurationSpec::parse("1h").unwrap());
    let err = plan.validate().expect_err("duration crossing midnight should fail");

    assert_eq!(err.exit_code(), 2);
    assert!(matches!(err, ValidationError::EndPastDay { id } if id.as_str() == "focus-1"));
}

#[test]
fn schedule_rev_excludes_lifecycle_and_content_fields() {
    let block = valid_block("focus-1");
    let rev = block.schedule_rev();
    let mut edited = block.clone();

    edited.title = "Different title".to_owned();
    edited.status = Status::Done;
    edited.tags.push("changed".to_owned());
    edited.run = Some(Run::new(vec!["/bin/echo".to_owned(), "fresh".to_owned()]).unwrap());

    assert_eq!(edited.schedule_rev(), rev);
}

#[test]
fn schedule_rev_changes_when_timing_changes() {
    let block = valid_block("focus-1");
    let rev = block.schedule_rev();

    let mut retimed = block.clone();
    retimed.start = ClockTime::parse("11:01").unwrap();
    assert_ne!(retimed.schedule_rev(), rev);

    let mut renotified = block;
    renotified.notify = Lead::parse("5m").unwrap();
    assert_ne!(renotified.schedule_rev(), rev);
}

#[test]
fn schedule_rev_treats_equivalent_end_and_duration_as_same_timing() {
    let end_block = valid_block("focus-1");
    let mut duration_block = end_block.clone();
    duration_block.span = Span::Duration(DurationSpec::parse("30m").unwrap());

    assert_eq!(duration_block.schedule_rev(), end_block.schedule_rev());
}

#[test]
fn schedule_rev_is_displayable_even_for_incomplete_draft_blocks() {
    let block = valid_block("focus-1");
    let rev = block.schedule_rev();

    assert_eq!(rev.as_str().len(), 16);
}
