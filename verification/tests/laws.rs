use ccplan::civil::PlanDate;
use ccplan::commands::{
    added_block, apply_changes, backend_id_for, desired_triggers_at, reconcile_changes,
    reconcile_summary, slug_block_id, tail_string, ReconcileChange,
};
use ccplan::lifecycle::{
    decide_fire, reconcile_overdue, reconcile_overdue_at, EndBehavior, Event, FireDecision,
    LifecyclePolicy, StatusUpdate,
};
use ccplan::model::{
    Approval, Block, BlockId, ClockTime, DurationSpec, Lead, Plan, RawPlan, Run, ScheduleRev, Span,
    Status, TimeZoneName, ValidationError,
};
use ccplan::store::{
    merge_plans, FiredEventKey, FiredLedger, FiredStatus, HistoryPolicy, StoreError, TriggerLedger,
    TriggerRecord,
};
use ccplan::time::{resolve, SignedDuration, Timestamp};

fn block(id: &str, start_minute: u16, minutes: u32) -> Block {
    Block {
        id: BlockId::new(id.to_owned()).unwrap(),
        title: format!("Block {id}"),
        start: ClockTime::from_minutes_since_midnight(start_minute).unwrap(),
        span: Span::Duration(DurationSpec::from_seconds(minutes * 60).unwrap()),
        notify: Lead::from_seconds(0).unwrap(),
        tags: vec!["work".to_owned()],
        status: Status::Pending,
        run: None,
        recurrence: None,
        origin: None,
        after: vec![],
        on_success: vec![],
        on_failure: vec![],
        on_missed: vec![],
        retry: None,
        expect_by: None,
        approval: None,
        when: None,
        agent: None,
    }
}

fn plan_of(blocks: Vec<Block>) -> Plan {
    Plan {
        date: PlanDate::parse("2026-06-08").unwrap(),
        timezone: TimeZoneName::parse("UTC").unwrap(),
        blocks,
    }
}

fn revs(plan: &Plan) -> Vec<(String, String)> {
    plan.schedule_revs()
        .into_iter()
        .map(|(id, rev)| (id.as_str().to_owned(), rev.as_str().to_owned()))
        .collect()
}

fn at(text: &str) -> Timestamp {
    Timestamp::parse(text).unwrap()
}

#[test]
fn schedule_revs_are_sorted_and_ignore_block_order() {
    let plan = plan_of(vec![block("c", 600, 30), block("a", 540, 30), block("b", 660, 45)]);
    let mut reordered = plan.clone();
    reordered.blocks.reverse();
    let listed = revs(&plan);
    assert_eq!(listed, revs(&reordered));
    let ids: Vec<&str> = listed.iter().map(|(id, _)| id.as_str()).collect();
    assert_eq!(ids, vec!["a", "b", "c"]);
}

#[test]
fn schedule_rev_ignores_title_status_and_command() {
    let original = block("focus", 540, 30);
    let mut edited = original.clone();
    edited.title.push_str(" edited");
    edited.status = Status::Done;
    edited.run = Some(Run::new(vec!["/bin/echo".to_owned(), "fresh".to_owned()]).unwrap());
    assert_eq!(original.schedule_rev().as_str(), edited.schedule_rev().as_str());
    let rev = original.schedule_rev();
    assert_eq!(rev.as_str().len(), 16);
    assert!(rev.as_str().chars().all(|c| c.is_ascii_hexdigit() && !c.is_ascii_uppercase()));
    let moved = block("focus", 545, 30);
    assert_ne!(original.schedule_rev().as_str(), moved.schedule_rev().as_str());
}

#[test]
fn raw_round_trip_gives_back_the_plan() {
    let mut with_run = block("deploy", 600, 15);
    with_run.run = Some(Run::new(vec!["/bin/echo".to_owned(), "hi".to_owned()]).unwrap());
    with_run.approval = Some(Approval::Approved);
    with_run.status = Status::Done;
    let mut rich = block("rich", 700, 20);
    rich.recurrence = Some(ccplan::model::Recurrence {
        rule: ccplan::model::RecurRule::Weekly(vec![ccplan::model::Weekday::Monday, ccplan::model::Weekday::Friday]),
        anchor: PlanDate::parse("2026-06-01").unwrap(),
        end: Some(ccplan::model::RecurEnd::Count(4)),
    });
    rich.retry = Some(ccplan::model::Retry { count: 3, backoff: DurationSpec::from_seconds(5430).unwrap() });
    rich.when = Some(ccplan::model::WhenCondition::CommandOk(vec!["/bin/test".to_owned(), "-e".to_owned(), "/tmp/x".to_owned()]));
    let mut counted = block("counted", 800, 20);
    counted.recurrence = Some(ccplan::model::Recurrence {
        rule: ccplan::model::RecurRule::EveryNWeeks(2),
        anchor: PlanDate::parse("2026-06-01").unwrap(),
        end: Some(ccplan::model::RecurEnd::Until(PlanDate::parse("2026-09-01").unwrap())),
    });
    counted.when = Some(ccplan::model::WhenCondition::FileChanged("/tmp/input.txt".to_owned()));
    let plan = plan_of(vec![block("a", 540, 30), with_run, rich, counted]);
    let raw: RawPlan = plan.to_raw();
    assert_eq!(raw.blocks[2].every.as_deref(), Some("weekly:mon,fri"));
    assert_eq!(raw.blocks[2].retry.as_ref().map(|r| r.backoff.as_str()), Some("1h30m30s"));
    assert_eq!(raw.blocks[2].when.as_deref(), Some("command_ok(/bin/test -e /tmp/x)"));
    assert_eq!(raw.blocks[3].every.as_deref(), Some("2w"));
    let back = Plan::from_raw(raw, Lead::from_seconds_const(300)).unwrap();
    assert_eq!(back.blocks.len(), plan.blocks.len());
    for (x, y) in back.blocks.iter().zip(plan.blocks.iter()) {
        assert!(x.same(y));
    }
    assert_eq!(back.date, plan.date);
    assert_eq!(back.timezone, plan.timezone);
}

#[test]
fn raw_block_without_lead_takes_the_default() {
    let plan = plan_of(vec![block("a", 540, 30)]);
    let mut raw = plan.to_raw();
    raw.blocks[0].notify = None;
    let back = Plan::from_raw(raw, Lead::from_seconds_const(120)).unwrap();
    assert_eq!(back.blocks[0].notify.as_seconds(), 120);
    assert_eq!(back.blocks[0].approval, None);

    let mut unapproved = block("b", 600, 30);
    unapproved.run = Some(Run::new(vec!["/bin/true".to_owned()]).unwrap());
    let back = Plan::from_raw(plan_of(vec![unapproved]).to_raw(), Lead::from_seconds_const(0)).unwrap();
    assert_eq!(back.blocks[0].approval, Some(Approval::Pending));
}

#[test]
fn raw_block_issues_are_reported_with_the_block_id() {
    let plan = plan_of(vec![block("a", 540, 30)]);
    let mut both = plan.to_raw();
    both.blocks[0].end = Some(ClockTime::parse("10:00").unwrap());
    assert_eq!(
        Plan::from_raw(both, Lead::from_seconds_const(0)).unwrap_err(),
        ValidationError::BothEndAndDuration { id: BlockId::new("a".to_owned()).unwrap() }
    );
    let mut neither = plan.to_raw();
    neither.blocks[0].duration = None;
    assert!(matches!(
        Plan::from_raw(neither, Lead::from_seconds_const(0)),
        Err(ValidationError::MissingEndOrDuration { .. })
    ));
    let mut no_anchor = plan.to_raw();
    no_anchor.blocks[0].every = Some("daily".to_owned());
    assert!(matches!(
        Plan::from_raw(no_anchor, Lead::from_seconds_const(0)),
        Err(ValidationError::MissingAnchor { .. })
    ));
    let mut bad_day = plan.to_raw();
    bad_day.blocks[0].every = Some("weekly:mon,funday".to_owned());
    bad_day.blocks[0].anchor = PlanDate::parse("2026-06-01");
    match Plan::from_raw(bad_day, Lead::from_seconds_const(0)) {
        Err(ValidationError::BadWeekday { token, .. }) => assert_eq!(token, "funday"),
        other => panic!("unexpected {other:?}"),
    }
    let mut both_ends = plan.to_raw();
    both_ends.blocks[0].every = Some("daily".to_owned());
    both_ends.blocks[0].anchor = PlanDate::parse("2026-06-01");
    both_ends.blocks[0].count = Some(3);
    both_ends.blocks[0].until = PlanDate::parse("2026-07-01");
    assert!(matches!(
        Plan::from_raw(both_ends, Lead::from_seconds_const(0)),
        Err(ValidationError::BothCountAndUntil { .. })
    ));
    let mut bad_when = plan.to_raw();
    bad_when.blocks[0].when = Some("sometime".to_owned());
    match Plan::from_raw(bad_when, Lead::from_seconds_const(0)) {
        Err(ValidationError::BadWhen { value, .. }) => assert_eq!(value, "sometime"),
        other => panic!("unexpected {other:?}"),
    }
    let mut empty_run = plan.to_raw();
    empty_run.blocks[0].run = Some(vec![]);
    assert!(matches!(
        Plan::from_raw(empty_run, Lead::from_seconds_const(0)),
        Err(ValidationError::EmptyRun { .. })
    ));
}

#[test]
fn validate_reports_duplicates_and_bad_spans() {
    let dup = plan_of(vec![block("a", 540, 30), block("a", 600, 30)]);
    assert!(matches!(dup.validate(), Err(ValidationError::DuplicateId { .. })));
    let mut backwards = block("b", 600, 30);
    backwards.span = Span::End(ClockTime::parse("09:00").unwrap());
    assert!(matches!(plan_of(vec![backwards]).validate(), Err(ValidationError::EndNotAfterStart { .. })));
    let late = block("c", 23 * 60 + 50, 30);
    assert!(matches!(plan_of(vec![late]).validate(), Err(ValidationError::EndPastDay { .. })));
    assert!(plan_of(vec![block("a", 540, 30), block("b", 600, 30)]).validate().is_ok());
}

#[test]
fn terminal_blocks_never_act_and_grace_end_is_on_time() {
    let policy = LifecyclePolicy::new(SignedDuration::from_secs(60), EndBehavior::Expire);
    let target = at("2026-06-08T10:00:00Z");
    for status in [Status::Done, Status::Skipped, Status::Missed, Status::Expired] {
        let mut b = block("focus", 600, 30);
        b.status = status;
        for event in [Event::Notify, Event::Start, Event::End] {
            assert_eq!(decide_fire(&b, event, target, at("2026-06-08T10:00:30Z"), policy), FireDecision::NoOp);
        }
    }
    let pending = block("focus", 600, 30);
    assert_eq!(
        decide_fire(&pending, Event::Start, target, at("2026-06-08T10:01:00Z"), policy),
        FireDecision::Activate { run: false }
    );
    assert_eq!(
        decide_fire(&pending, Event::Start, target, at("2026-06-08T10:01:01Z"), policy),
        FireDecision::MarkMissed
    );
}

#[test]
fn fired_ledger_records_a_key_once() {
    let key = || FiredEventKey {
        date: PlanDate::parse("2026-06-08").unwrap(),
        block_id: BlockId::new("focus".to_owned()).unwrap(),
        event: Event::Start,
        rev: ScheduleRev::new("0123456789abcdef".to_owned()).unwrap(),
        scheduled_at: at("2026-06-08T13:00:00Z"),
    };
    let mut ledger = FiredLedger::default();
    assert_eq!(ledger.check_and_set(key()), FiredStatus::Recorded);
    assert_eq!(ledger.check_and_set(key()), FiredStatus::AlreadyFired);
    assert_eq!(ledger.fired.len(), 1);
    assert!(ledger.prune_date(&PlanDate::parse("2026-06-08").unwrap()));
    assert!(ledger.fired.is_empty());
}

#[test]
fn preserve_merge_keeps_terminal_history() {
    let mut done = block("a", 540, 30);
    done.status = Status::Done;
    let existing = plan_of(vec![done.clone(), block("b", 600, 30)]);
    let incoming = plan_of(vec![block("c", 660, 30)]);
    let merged = merge_plans(Some(existing.clone()), incoming, HistoryPolicy::Preserve).unwrap();
    assert!(merged.blocks.iter().any(|b| b.same(&done)));
    assert!(merged.blocks.iter().any(|b| b.id.as_str() == "c"));
    assert!(!merged.blocks.iter().any(|b| b.id.as_str() == "b"));

    let mut changed = done.clone();
    changed.title.push_str(" again");
    let conflicting = plan_of(vec![changed]);
    match merge_plans(Some(existing.clone()), conflicting.clone(), HistoryPolicy::Preserve) {
        Err(StoreError::TerminalHistory { id }) => assert_eq!(id.as_str(), "a"),
        other => panic!("unexpected {other:?}"),
    }
    let overridden = merge_plans(Some(existing), conflicting.clone(), HistoryPolicy::Override).unwrap();
    assert_eq!(overridden, conflicting);
}

fn trigger(id: &str, block_id: &str, when: &str) -> TriggerRecord {
    TriggerRecord {
        backend_id: id.to_owned(),
        date: PlanDate::parse("2026-06-08").unwrap(),
        block_id: BlockId::new(block_id.to_owned()).unwrap(),
        event: Event::Start,
        rev: ScheduleRev::new("0123456789abcdef".to_owned()).unwrap(),
        scheduled_at: at(when),
    }
}

#[test]
fn reconciling_after_recording_the_changes_changes_nothing() {
    let date = PlanDate::parse("2026-06-08").unwrap();
    let mut ledger = TriggerLedger::default();
    ledger.record_trigger(trigger("old", "gone", "2026-06-08T09:00:00Z"));
    ledger.record_trigger(trigger("keep", "a", "2026-06-08T10:00:00Z"));
    let desired = vec![
        trigger("keep", "a", "2026-06-08T10:00:00Z"),
        trigger("new", "b", "2026-06-08T11:00:00Z"),
    ];
    let changes = reconcile_changes(&ledger.triggers, &date, &desired);
    assert_eq!(
        changes,
        vec![ReconcileChange::Remove("old".to_owned()), ReconcileChange::Add("new".to_owned())]
    );
    assert_eq!(reconcile_summary(&changes), "remove old\nadd new\n");
    apply_changes(&mut ledger, &changes, &desired);
    assert_eq!(ledger.triggers, desired);
    let again = reconcile_changes(&ledger.triggers, &date, &desired);
    assert!(again.is_empty());
    assert_eq!(reconcile_summary(&again), "no changes\n");
}

#[test]
fn desired_triggers_cover_future_events_of_open_blocks() {
    let mut lead = block("a", 600, 30);
    lead.notify = Lead::from_seconds(300).unwrap();
    let mut done = block("b", 660, 30);
    done.status = Status::Done;
    let plan = plan_of(vec![lead, done]);
    let starts = vec![at("2026-06-08T10:00:00Z"), at("2026-06-08T11:00:00Z")];
    let ends = vec![at("2026-06-08T10:30:00Z"), at("2026-06-08T11:30:00Z")];
    let desired = desired_triggers_at(&plan, &starts, &ends, at("2026-06-08T09:00:00Z")).unwrap();
    assert_eq!(desired.len(), 3);
    assert!(desired.iter().all(|t| t.block_id.as_str() == "a"));
    let mut sorted: Vec<String> = desired.iter().map(|t| t.backend_id.clone()).collect();
    sorted.sort();
    let listed: Vec<String> = desired.iter().map(|t| t.backend_id.clone()).collect();
    assert_eq!(listed, sorted);
    let later = desired_triggers_at(&plan, &starts, &ends, at("2026-06-08T10:10:00Z")).unwrap();
    assert_eq!(later.len(), 1);
    assert_eq!(later[0].event, Event::End);

    let zero_lead = plan_of(vec![block("z", 600, 30)]);
    let only = desired_triggers_at(&zero_lead, &starts[..1].to_vec(), &ends[..1].to_vec(), at("2026-06-08T09:00:00Z")).unwrap();
    assert_eq!(only.len(), 2);
    assert!(only.iter().all(|t| t.event != Event::Notify));
}

#[test]
fn calendar_wrappers_compute_dates() {
    let date = PlanDate::parse("2026-06-08").unwrap();
    assert_eq!(date.text(), "2026-06-08");
    assert_eq!(date.weekday_index(), 0);
    assert_eq!(date.tomorrow().unwrap().text(), "2026-06-09");
    let later = PlanDate::parse("2026-07-01").unwrap();
    assert_eq!(date.days_until(&later), 23);
    assert!(PlanDate::parse("2026-02-30").is_none());
    assert_eq!(PlanDate::parse("2026-12-31").unwrap().tomorrow().unwrap().text(), "2027-01-01");
}

#[test]
fn time_wrappers_parse_render_and_resolve() {
    let t = at("2026-06-08T05:30:00Z");
    assert_eq!(t.text(), "2026-06-08T05:30:00Z");
    assert!(Timestamp::parse("not a time").is_none());
    let utc = TimeZoneName::parse("UTC").unwrap();
    assert_eq!(utc.as_str(), "UTC");
    assert!(TimeZoneName::parse("Not/AZone").is_err());
    let date = PlanDate::parse("2026-06-08").unwrap();
    let resolved = resolve(&date, &utc, ClockTime::parse("05:30").unwrap()).unwrap();
    assert_eq!(resolved.text(), "2026-06-08T05:30:00Z");
    assert_eq!(t.duration_since(at("2026-06-08T05:00:00Z")).as_secs(), 1800);
}

#[test]
fn ids_and_tails_are_derived_from_their_inputs() {
    assert_eq!(slug_block_id("Hello World").unwrap().as_str(), "hello-world");
    assert_eq!(slug_block_id("  ÉTÉ plan!! ").unwrap().as_str(), "t-plan");
    assert_eq!(slug_block_id("!!!").unwrap().as_str(), "block");
    assert_eq!(tail_string(b"  line one\r\nline two \n"), "line one\\nline two");
    let date = PlanDate::parse("2026-06-08").unwrap();
    let rev = ScheduleRev::new("0123456789abcdef".to_owned()).unwrap();
    let a = backend_id_for(&date, &BlockId::new("a".to_owned()).unwrap(), Event::Start, &rev);
    let b = backend_id_for(&date, &BlockId::new("b".to_owned()).unwrap(), Event::Start, &rev);
    assert!(a.starts_with("2026-06-08-"));
    assert!(a.ends_with("-0123456789abcdef-start"));
    assert_eq!(a.len(), "2026-06-08-".len() + 10 + "-0123456789abcdef-start".len());
    assert_ne!(a, b);
}

#[test]
fn today_model_labels_now_in_the_plan_zone() {
    let plan = Plan {
        date: PlanDate::parse("2026-06-08").unwrap(),
        timezone: TimeZoneName::parse("Asia/Kolkata").unwrap(),
        blocks: vec![block("a", 600, 30)],
    };
    let model = ccplan::gui::model::build_today_model(&plan, at("2026-06-08T05:30:00Z"));
    assert_eq!(model.date_label, "2026-06-08");
    assert_eq!(model.now_label, "11:00");
    assert_eq!(model.cards.len(), 1);
}

#[test]
fn overdue_settling_follows_the_instants_given() {
    let mut pending = block("b-pending", 540, 30);
    pending.status = Status::Pending;
    let mut active = block("a-active", 600, 30);
    active.status = Status::Active;
    let mut done = block("c-done", 660, 30);
    done.status = Status::Done;
    let plan = plan_of(vec![pending, active, done]);
    let starts = vec![at("2026-06-08T09:00:00Z"), at("2026-06-08T10:00:00Z"), at("2026-06-08T11:00:00Z")];
    let ends = vec![at("2026-06-08T09:30:00Z"), at("2026-06-08T10:30:00Z"), at("2026-06-08T11:30:00Z")];
    let grace = SignedDuration::from_secs(60);
    let early = reconcile_overdue_at(&plan, &starts, &ends, at("2026-06-08T09:01:00Z"), grace);
    assert!(early.is_empty());
    let late = reconcile_overdue_at(&plan, &starts, &ends, at("2026-06-08T12:00:00Z"), grace);
    assert_eq!(
        late,
        vec![
            StatusUpdate { id: BlockId::new("a-active".to_owned()).unwrap(), status: Status::Expired },
            StatusUpdate { id: BlockId::new("b-pending".to_owned()).unwrap(), status: Status::Missed },
        ]
    );
    assert_eq!(reconcile_overdue(&plan, at("2026-06-08T12:00:00Z"), grace).unwrap(), late);
}

#[test]
fn added_block_takes_the_slug_and_default_lead() {
    let block = added_block(
        None,
        "Deep Work".to_owned(),
        ClockTime::parse("09:00").unwrap(),
        None,
        Some(DurationSpec::parse("30m").unwrap()),
        None,
        Lead::from_seconds_const(300),
        vec![],
        vec![],
    )
    .unwrap();
    assert_eq!(block.id.as_str(), "deep-work");
    assert_eq!(block.notify.as_seconds(), 300);
    assert_eq!(block.status, Status::Pending);
    assert!(block.run.is_none());
    assert!(added_block(
        None,
        "x".to_owned(),
        ClockTime::parse("09:00").unwrap(),
        None,
        None,
        None,
        Lead::from_seconds_const(300),
        vec![],
        vec![],
    )
    .is_err());
}
