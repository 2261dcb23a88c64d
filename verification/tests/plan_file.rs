use ccplan::civil::PlanDate;
use ccplan::model::{
    Approval, Block, BlockId, ClockTime, DurationSpec, Lead, Origin, Plan, RawBlock, RawPlan,
    RawRetry, RecurEnd, RecurRule, Span, Status, TimeZoneName, ValidationError, WhenCondition,
};

/// A raw block with id, title, start and end set, as most plan files in these tests write it.
fn raw_block(id: &str, title: &str, start: &str, end: &str) -> RawBlock {
    RawBlock {
        id: BlockId::parse(id).unwrap(),
        title: title.to_owned(),
        start: ClockTime::parse(start).unwrap(),
        end: Some(ClockTime::parse(end).unwrap()),
        duration: None,
        notify: None,
        tags: vec![],
        status: Status::Pending,
        run: None,
        every: None,
        anchor: None,
        until: None,
        count: None,
        origin: None,
        after: vec![],
        on_success: vec![],
        on_failure: vec![],
        on_missed: vec![],
        retry: None,
        expect_by: None,
        approval: None,
        when: None,
        agent: None,
    }
}

fn lasting(id: &str, title: &str, start: &str, duration: &str) -> RawBlock {
    RawBlock {
        end: None,
        duration: Some(DurationSpec::parse(duration).unwrap()),
        ..raw_block(id, title, start, "23:59")
    }
}

fn date(s: &str) -> PlanDate {
    PlanDate::parse(s).unwrap()
}

fn read_plan_in(timezone: &str, blocks: Vec<RawBlock>) -> Result<Plan, ValidationError> {
    let plan = Plan::from_raw(
        RawPlan {
            date: date("2026-06-08"),
            timezone: TimeZoneName::parse(timezone).unwrap(),
            blocks,
        },
        Lead::from_seconds_const(300),
    )?;
    plan.validate()?;
    Ok(plan)
}

fn read_plan(blocks: Vec<RawBlock>) -> Result<Plan, ValidationError> {
    read_plan_in("Asia/Kolkata", blocks)
}

/// Writes the plan back to its raw form and reads it again.
fn reread(plan: &Plan) -> Plan {
    Plan::from_raw(plan.to_raw(), Lead::from_seconds_const(300)).unwrap()
}

fn recurring(id: &str, title: &str, start: &str, end: &str, every: &str) -> RawBlock {
    RawBlock {
        every: Some(every.to_owned()),
        anchor: Some(date("2026-06-01")),
        ..raw_block(id, title, start, end)
    }
}

#[test]
fn every_without_anchor_is_an_error() {
    let err = read_plan(vec![RawBlock {
        every: Some("daily".to_owned()),
        ..raw_block("rec-1", "Daily standup", "09:00", "09:15")
    }])
    .unwrap_err();
    assert_eq!(err.exit_code(), 2);
    assert!(err.message().contains("anchor"));
    assert!(matches!(err, ValidationError::MissingAnchor { ref id } if id.as_str() == "rec-1"));
}

#[test]
fn count_and_until_both_set_is_an_error() {
    let err = read_plan(vec![RawBlock {
        count: Some(5),
        until: Some(date("2026-06-30")),
        ..recurring("rec-1", "Daily standup", "09:00", "09:15", "daily")
    }])
    .unwrap_err();
    assert_eq!(err.exit_code(), 2);
    assert!(err.message().contains("until"));
    assert!(matches!(err, ValidationError::BothCountAndUntil { ref id } if id.as_str() == "rec-1"));
}

#[test]
fn bad_weekday_token_is_an_error() {
    let err = read_plan(vec![recurring("rec-1", "Weekly meeting", "10:00", "10:30", "weekly:badday")])
        .unwrap_err();
    assert_eq!(err.exit_code(), 2);
    assert!(err.message().contains("badday"));
    assert!(matches!(
        err,
        ValidationError::BadWeekday { ref id, ref token } if id.as_str() == "rec-1" && token == "badday"
    ));
}

#[test]
fn bad_non_weekly_every_token_is_an_error() {
    let err = read_plan(vec![recurring("rec-1", "Bogus recurrence", "10:00", "10:30", "bogus")])
        .unwrap_err();
    assert_eq!(err.exit_code(), 2);
    assert!(matches!(
        err,
        ValidationError::BadWeekday { ref id, ref token } if id.as_str() == "rec-1" && token == "bogus"
    ));
}

#[test]
fn run_without_approval_defaults_to_pending() {
    let plan = read_plan(vec![RawBlock {
        run: Some(vec!["/bin/echo".to_owned(), "hello".to_owned()]),
        ..raw_block("run-1", "Automated task", "09:00", "09:30")
    }])
    .unwrap();
    assert_eq!(plan.blocks[0].approval, Some(Approval::Pending));
}

#[test]
fn run_with_explicit_approval_keeps_it() {
    let plan = read_plan(vec![RawBlock {
        run: Some(vec!["/bin/echo".to_owned(), "hello".to_owned()]),
        approval: Some(Approval::Approved),
        ..raw_block("run-1", "Automated task", "09:00", "09:30")
    }])
    .unwrap();
    assert_eq!(plan.blocks[0].approval, Some(Approval::Approved));
}

#[test]
fn approval_round_trips_pending_and_approved() {
    let plan = read_plan(vec![RawBlock {
        run: Some(vec!["/bin/true".to_owned()]),
        approval: Some(Approval::Pending),
        ..raw_block("run-1", "Runner", "09:00", "09:30")
    }])
    .unwrap();
    assert_eq!(plan.blocks[0].approval, Some(Approval::Pending));
    let plan2 = reread(&plan);
    assert_eq!(plan2.blocks[0].approval, plan.blocks[0].approval);

    let plan = read_plan(vec![RawBlock {
        run: Some(vec!["/bin/true".to_owned()]),
        approval: Some(Approval::Approved),
        ..raw_block("run-2", "Runner", "10:00", "10:30")
    }])
    .unwrap();
    let plan2 = reread(&plan);
    assert_eq!(plan2.blocks[0].approval, plan.blocks[0].approval);
}

#[test]
fn when_condition_round_trips_through_toml() {
    let plan = read_plan_in(
        "UTC",
        vec![RawBlock {
            when: Some("file_exists(/tmp/ready)".to_owned()),
            ..lasting("react", "React", "09:00", "30m")
        }],
    )
    .unwrap();
    assert_eq!(plan.blocks[0].when, Some(WhenCondition::FileExists("/tmp/ready".to_owned())));
    let written = plan.to_raw();
    assert_eq!(written.blocks[0].when.as_deref(), Some("file_exists(/tmp/ready)"));
    let plan2 = reread(&plan);
    assert_eq!(plan2.blocks[0].when, plan.blocks[0].when);
}

#[test]
fn bad_when_condition_is_validation_error() {
    let err = read_plan_in(
        "UTC",
        vec![RawBlock {
            when: Some("file_exists()".to_owned()),
            ..lasting("react", "React", "09:00", "30m")
        }],
    )
    .unwrap_err();
    assert!(err.message().contains("invalid `when` condition"));
}

#[test]
fn origin_round_trips_through_toml() {
    let plan = read_plan(vec![RawBlock {
        origin: Some(Origin { rule_id: BlockId::parse("tpl-1").unwrap(), gen_hash: "abc123".to_owned() }),
        ..raw_block("gen-1", "Generated", "09:00", "09:30")
    }])
    .unwrap();
    let origin = plan.blocks[0].origin.as_ref().unwrap();
    assert_eq!(origin.rule_id.as_str(), "tpl-1");
    assert_eq!(origin.gen_hash, "abc123");

    let plan2 = reread(&plan);
    assert_eq!(plan2.blocks[0].origin, plan.blocks[0].origin);
}

#[test]
fn retry_round_trips_through_toml() {
    let plan = read_plan(vec![RawBlock {
        retry: Some(RawRetry { count: 3, backoff: "30s".to_owned() }),
        ..raw_block("job-1", "Job", "09:00", "09:30")
    }])
    .unwrap();
    let retry = plan.blocks[0].retry.as_ref().unwrap();
    assert_eq!(retry.count, 3);
    assert_eq!(retry.backoff.as_seconds(), 30);

    let plan2 = reread(&plan);
    assert_eq!(plan2.blocks[0].retry, plan.blocks[0].retry);
}

#[test]
fn dependency_arrays_round_trip_through_toml() {
    let ids = |names: &[&str]| names.iter().map(|n| BlockId::parse(n).unwrap()).collect::<Vec<_>>();
    let plan = read_plan(vec![RawBlock {
        after: ids(&["b", "c"]),
        on_success: ids(&["d"]),
        on_failure: ids(&["e"]),
        on_missed: ids(&["f"]),
        ..raw_block("a", "A", "09:00", "09:30")
    }])
    .unwrap();
    let b = &plan.blocks[0];
    assert_eq!(b.after.iter().map(BlockId::as_str).collect::<Vec<_>>(), ["b", "c"]);
    assert_eq!(b.on_success.iter().map(BlockId::as_str).collect::<Vec<_>>(), ["d"]);
    assert_eq!(b.on_failure.iter().map(BlockId::as_str).collect::<Vec<_>>(), ["e"]);
    assert_eq!(b.on_missed.iter().map(BlockId::as_str).collect::<Vec<_>>(), ["f"]);
    let plan2 = reread(&plan);
    assert_eq!(plan2.blocks[0].after, plan.blocks[0].after);
    assert_eq!(plan2.blocks[0].on_success, plan.blocks[0].on_success);
    assert_eq!(plan2.blocks[0].on_failure, plan.blocks[0].on_failure);
    assert_eq!(plan2.blocks[0].on_missed, plan.blocks[0].on_missed);
}

#[test]
fn schedule_rev_unchanged_for_approval_and_origin() {
    let block = Block {
        id: BlockId::parse("focus-1").unwrap(),
        title: "Focus".to_owned(),
        start: ClockTime::parse("11:00").unwrap(),
        span: Span::End(ClockTime::parse("11:30").unwrap()),
        notify: Lead::parse("0m").unwrap(),
        tags: vec![],
        status: Status::Pending,
        run: None,
        recurrence: None,
        origin: None,
        after: vec![],
        on_success: vec![],
        on_failure: vec![],
        on_missed: vec![],
        retry: None,
        expect_by: None,
        approval: None,
        when: None,
        agent: None,
    };
    let rev = block.schedule_rev();
    let mut with_approval = block.clone();
    with_approval.approval = Some(Approval::Approved);
    assert_eq!(with_approval.schedule_rev(), rev);
    let mut with_when = block.clone();
    with_when.when = Some(WhenCondition::FileExists("/tmp/ready".to_owned()));
    assert_eq!(with_when.schedule_rev(), rev);
    let mut with_origin = block;
    with_origin.origin = Some(Origin { rule_id: BlockId::parse("tpl").unwrap(), gen_hash: "xyz".to_owned() });
    assert_eq!(with_origin.schedule_rev(), rev);
}

#[test]
fn recurrence_daily_with_count_round_trips() {
    let plan = read_plan(vec![RawBlock {
        count: Some(10),
        ..recurring("standup", "Daily standup", "09:00", "09:15", "daily")
    }])
    .unwrap();
    let rec = plan.blocks[0].recurrence.as_ref().unwrap();
    assert_eq!(rec.rule, RecurRule::Daily);
    assert_eq!(rec.anchor.text(), "2026-06-01");
    assert_eq!(rec.end, Some(RecurEnd::Count(10)));
    let plan2 = reread(&plan);
    assert_eq!(plan2.blocks[0].recurrence, plan.blocks[0].recurrence);
}

#[test]
fn recurrence_daily_with_until_round_trips() {
    let plan = read_plan(vec![RawBlock {
        until: Some(date("2026-06-30")),
        ..recurring("standup", "Daily standup", "09:00", "09:15", "daily")
    }])
    .unwrap();
    let rec = plan.blocks[0].recurrence.as_ref().unwrap();
    assert_eq!(rec.rule, RecurRule::Daily);
    assert!(matches!(&rec.end, Some(RecurEnd::Until(d)) if d.text() == "2026-06-30"));
    let plan2 = reread(&plan);
    assert_eq!(plan2.blocks[0].recurrence, plan.blocks[0].recurrence);
}

#[test]
fn recurrence_daily_no_end_round_trips() {
    let plan = read_plan(vec![recurring("standup", "Daily standup", "09:00", "09:15", "daily")]).unwrap();
    let rec = plan.blocks[0].recurrence.as_ref().unwrap();
    assert_eq!(rec.rule, RecurRule::Daily);
    assert!(rec.end.is_none());
    let plan2 = reread(&plan);
    assert_eq!(plan2.blocks[0].recurrence, plan.blocks[0].recurrence);
}

#[test]
fn recurrence_weekday_round_trips() {
    let plan = read_plan(vec![recurring("standup", "Standup", "09:00", "09:15", "weekday")]).unwrap();
    let rec = plan.blocks[0].recurrence.as_ref().unwrap();
    assert_eq!(rec.rule, RecurRule::Weekday);
    let written = plan.to_raw();
    assert_eq!(written.blocks[0].every.as_deref(), Some("weekday"));
    let plan2 = reread(&plan);
    assert_eq!(plan2.blocks[0].recurrence, plan.blocks[0].recurrence);
}

#[test]
fn recurrence_weekend_round_trips() {
    let plan = read_plan(vec![recurring("rest", "Rest", "09:00", "09:15", "weekend")]).unwrap();
    let rec = plan.blocks[0].recurrence.as_ref().unwrap();
    assert_eq!(rec.rule, RecurRule::Weekend);
    let written = plan.to_raw();
    assert_eq!(written.blocks[0].every.as_deref(), Some("weekend"));
    let plan2 = reread(&plan);
    assert_eq!(plan2.blocks[0].recurrence, plan.blocks[0].recurrence);
}

#[test]
fn recurrence_weekly_round_trips() {
    let plan = read_plan(vec![recurring("meeting", "Weekly meeting", "10:00", "10:30", "weekly:mon,wed")]).unwrap();
    let rec = plan.blocks[0].recurrence.as_ref().unwrap();
    assert!(matches!(&rec.rule, RecurRule::Weekly(days) if days.len() == 2));
    let written = plan.to_raw();
    assert!(written.blocks[0].every.as_deref().unwrap().contains("weekly:"));
    let plan2 = reread(&plan);
    assert_eq!(plan2.blocks[0].recurrence, plan.blocks[0].recurrence);
}

#[test]
fn recurrence_every_n_days_round_trips() {
    let plan = read_plan(vec![recurring("check", "Check", "09:00", "09:15", "3d")]).unwrap();
    let rec = plan.blocks[0].recurrence.as_ref().unwrap();
    assert_eq!(rec.rule, RecurRule::EveryNDays(3));
    let written = plan.to_raw();
    assert_eq!(written.blocks[0].every.as_deref(), Some("3d"));
    let plan2 = reread(&plan);
    assert_eq!(plan2.blocks[0].recurrence, plan.blocks[0].recurrence);
}

#[test]
fn recurrence_every_n_weeks_round_trips() {
    let plan = read_plan(vec![recurring("review", "Biweekly review", "14:00", "15:00", "2w")]).unwrap();
    let rec = plan.blocks[0].recurrence.as_ref().unwrap();
    assert_eq!(rec.rule, RecurRule::EveryNWeeks(2));
    let written = plan.to_raw();
    assert_eq!(written.blocks[0].every.as_deref(), Some("2w"));
    let plan2 = reread(&plan);
    assert_eq!(plan2.blocks[0].recurrence, plan.blocks[0].recurrence);
}

#[test]
fn anchor_without_every_is_silently_ignored() {
    let plan = read_plan(vec![RawBlock {
        anchor: Some(date("2026-06-01")),
        count: Some(5),
        until: Some(date("2026-06-30")),
        ..raw_block("focus", "Focus", "09:00", "09:30")
    }])
    .unwrap();
    assert!(plan.blocks[0].recurrence.is_none());
}

#[test]
fn duplicate_block_id_through_from_toml_hits_validate_error_path() {
    let err = read_plan(vec![
        raw_block("focus", "First", "09:00", "09:30"),
        raw_block("focus", "Duplicate", "10:00", "10:30"),
    ]);
    assert!(matches!(err.unwrap_err(), ValidationError::DuplicateId { .. }));
}

#[test]
fn end_not_after_start_is_a_validation_error() {
    let err = read_plan(vec![raw_block("t", "T", "11:00", "10:59")]);
    assert!(matches!(err.unwrap_err(), ValidationError::EndNotAfterStart { .. }));
}

#[test]
fn end_past_day_is_a_validation_error() {
    let err = read_plan(vec![lasting("t", "T", "23:30", "1h")]);
    assert!(matches!(err.unwrap_err(), ValidationError::EndPastDay { .. }));
}

#[test]
fn bad_retry_backoff_in_toml_triggers_validation_error() {
    let err = read_plan(vec![RawBlock {
        retry: Some(RawRetry { count: 3, backoff: "bad".to_owned() }),
        ..raw_block("job", "Job", "09:00", "09:30")
    }]);
    assert!(err.is_err());
}

#[test]
fn validation_error_exit_code_and_schedule_revs_in_unit_binary() {
    assert_eq!(ValidationError::DuplicateId { id: BlockId::parse("x").unwrap() }.exit_code(), 2);
    assert_eq!(ValidationError::MissingEndOrDuration { id: BlockId::parse("x").unwrap() }.exit_code(), 2);
    let plan = Plan {
        date: date("2026-06-08"),
        timezone: TimeZoneName::parse("Asia/Kolkata").unwrap(),
        blocks: vec![],
    };
    assert_eq!(plan.schedule_revs().len(), 0);
}

#[test]
fn recurring_rules_and_timezone_display_in_unit_binary() {
    let tz = TimeZoneName::parse("Asia/Kolkata").unwrap();
    assert_eq!(tz.as_str(), "Asia/Kolkata");
    let rules = ccplan::model::RecurringRules::from_raw(Some(tz), vec![raw_block("t", "T", "09:00", "09:30")]).unwrap();
    assert_eq!(rules.blocks.len(), 1);
    let err = read_plan(vec![RawBlock {
        duration: Some(DurationSpec::parse("30m").unwrap()),
        ..raw_block("t", "T", "09:00", "09:30")
    }]);
    assert!(matches!(err, Err(ValidationError::BothEndAndDuration { .. })));
    let err = read_plan(vec![RawBlock { end: None, ..raw_block("t", "T", "09:00", "09:30") }]);
    assert!(matches!(err, Err(ValidationError::MissingEndOrDuration { .. })));
}

#[test]
fn validation_messages_name_the_block() {
    let id = BlockId::parse("focus").unwrap();
    assert_eq!(
        ValidationError::EndNotAfterStart { id: id.clone() }.message(),
        "block `focus` must end after it starts"
    );
    assert_eq!(
        ValidationError::BadWeekday { id: id.clone(), token: "xyz".to_owned() }.message(),
        "block `focus` has unrecognised weekday token `xyz`"
    );
    assert_eq!(ValidationError::DuplicateId { id }.message(), "duplicate block id `focus`");
}
