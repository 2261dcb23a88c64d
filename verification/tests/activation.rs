use ccplan::civil::PlanDate;
use ccplan::commands::{activate_step, plan_file_verdict, run_log_suffix, slug_block_id, Activation};
use ccplan::config::AutomationConfig;
use ccplan::context::{Notification, RecordingNotifier, SchedulerError};
use ccplan::error::Error;
use ccplan::mcp::add_block_reply;
use ccplan::model::{
    Block, BlockId, ClockTime, DurationSpec, FieldParseError, Lead, Plan, PlanError, Run, Span,
    Status, TimeZoneName, ValidationError,
};
use ccplan::store::StoreError;
use ccplan::time::{resolve_block_end, resolve_block_start, TimeError};

fn block(id: &str, run: Option<Vec<&str>>) -> Block {
    Block {
        id: BlockId::new(id.to_owned()).unwrap(),
        title: format!("Block {id}"),
        start: ClockTime::from_minutes_since_midnight(9 * 60).unwrap(),
        span: Span::Duration(DurationSpec::from_seconds(30 * 60).unwrap()),
        notify: Lead::from_seconds(0).unwrap(),
        tags: vec![],
        status: Status::Pending,
        run: run.map(|argv| Run::new(argv.into_iter().map(str::to_owned).collect()).unwrap()),
        recurrence: None,
        origin: None,
        after: vec![],
        on_success: vec![],
        on_failure: vec![],
        on_missed: vec![],
        retry: None,
        expect_by: None,
        approval: None,
        when: None,
        agent: None,
    }
}

fn plan_of(blocks: Vec<Block>) -> Plan {
    Plan {
        date: PlanDate::parse("2026-06-08").unwrap(),
        timezone: TimeZoneName::parse("UTC").unwrap(),
        blocks,
    }
}

fn allowing(programs: &[&str]) -> AutomationConfig {
    AutomationConfig {
        enabled: true,
        allowed_executables: programs.iter().map(|p| (*p).to_owned()).collect(),
        ..AutomationConfig::default()
    }
}

#[test]
fn verdict_refuses_group_or_world_writable_file_with_octal_mode() {
    let r = plan_file_verdict(0o100664, 501, Some(501));
    assert_eq!(
        r,
        Err(Error::AutomationRefused("plan file is group- or world-writable (mode: 100664)".to_owned()))
    );
    let r = plan_file_verdict(0o100646, 501, Some(501));
    assert_eq!(
        r,
        Err(Error::AutomationRefused("plan file is group- or world-writable (mode: 100646)".to_owned()))
    );
}

#[test]
fn verdict_refuses_when_uid_is_unknown() {
    let r = plan_file_verdict(0o100644, 501, None);
    assert_eq!(r, Err(Error::AutomationRefused("failed to determine current user UID".to_owned())));
}

#[test]
fn verdict_refuses_file_owned_by_another_user() {
    let r = plan_file_verdict(0o100600, 0, Some(501));
    assert_eq!(
        r,
        Err(Error::AutomationRefused(
            "plan file is not owned by the current user (file uid: 0, current uid: 501)".to_owned()
        ))
    );
}

#[test]
fn verdict_accepts_private_file_of_current_user() {
    assert_eq!(plan_file_verdict(0o100644, 501, Some(501)), Ok(()));
    assert_eq!(plan_file_verdict(0o100600, 0, Some(0)), Ok(()));
}

#[test]
fn activation_without_command_logs_activated() {
    let mut plan = plan_of(vec![block("a", None), block("b", Some(vec!["/bin/echo", "hi"]))]);
    let mut log = "start".to_owned();
    let r = activate_step(&mut plan, 0, true, &allowing(&["/bin/echo"]), Ok(()), false, &mut log);
    assert!(matches!(r, Activation::Activated));
    assert_eq!(log, "start activated");
    assert_eq!(plan.blocks[0].status, Status::Active);
    assert_eq!(plan.blocks[1].status, Status::Pending);
}

#[test]
fn activation_with_run_off_ignores_the_command() {
    let mut plan = plan_of(vec![block("b", Some(vec!["/bin/echo", "hi"]))]);
    let mut log = String::new();
    let r = activate_step(&mut plan, 0, false, &AutomationConfig::default(), Ok(()), false, &mut log);
    assert!(matches!(r, Activation::Activated));
    assert_eq!(log, " activated");
    assert_eq!(plan.blocks[0].status, Status::Active);
}

#[test]
fn activation_refused_by_policy_defers_the_reason() {
    let mut plan = plan_of(vec![block("b", Some(vec!["/bin/echo", "hi"]))]);
    let mut log = String::new();
    let r = activate_step(&mut plan, 0, true, &AutomationConfig::default(), Ok(()), false, &mut log);
    match r {
        Activation::Refused(error) => {
            assert_eq!(error, Error::AutomationRefused("automation is disabled".to_owned()));
            assert_eq!(error.exit_code(), 5);
        }
        other => panic!("expected a refusal, got {other:?}"),
    }
    assert_eq!(log, " run-refused: automation is disabled");
    assert_eq!(plan.blocks[0].status, Status::Active);
}

#[test]
fn activation_refused_by_plan_file_logs_its_message() {
    let mut plan = plan_of(vec![block("b", Some(vec!["/bin/echo", "hi"]))]);
    let mut log = String::new();
    let secure = plan_file_verdict(0o100600, 0, Some(501));
    let r = activate_step(&mut plan, 0, true, &allowing(&["/bin/echo"]), secure, false, &mut log);
    let expected = Error::AutomationRefused(
        "plan file is not owned by the current user (file uid: 0, current uid: 501)".to_owned(),
    );
    match r {
        Activation::Refused(error) => assert_eq!(error, expected),
        other => panic!("expected a refusal, got {other:?}"),
    }
    assert_eq!(
        log,
        " run-refused: automation refused: plan file is not owned by the current user (file uid: 0, current uid: 501)"
    );
}

#[test]
fn policy_refusal_comes_before_plan_file_verdict() {
    let mut plan = plan_of(vec![block("b", Some(vec!["echo"]))]);
    let mut log = String::new();
    let secure = Err(Error::Io("denied".to_owned()));
    let r = activate_step(&mut plan, 0, true, &allowing(&["/bin/echo"]), secure, false, &mut log);
    match r {
        Activation::Refused(error) => {
            assert_eq!(error, Error::AutomationRefused("executable path is not absolute: echo".to_owned()))
        }
        other => panic!("expected a refusal, got {other:?}"),
    }
    assert_eq!(log, " run-refused: executable path is not absolute: echo");
}

#[test]
fn dry_run_activation_logs_the_argv() {
    let mut plan = plan_of(vec![block("b", Some(vec!["/bin/echo", "say \"hi\""]))]);
    let mut log = String::new();
    let r = activate_step(&mut plan, 0, true, &allowing(&["/bin/echo"]), Ok(()), true, &mut log);
    match r {
        Activation::DryRun(argv) => assert_eq!(argv, vec!["/bin/echo".to_owned(), "say \"hi\"".to_owned()]),
        other => panic!("expected a dry run, got {other:?}"),
    }
    assert_eq!(log, r#" activated run (dry-run): argv=["/bin/echo", "say \"hi\""]"#);
}

#[test]
fn allowed_activation_hands_back_the_command() {
    let mut plan = plan_of(vec![block("b", Some(vec!["/bin/echo", "hi"]))]);
    let mut log = "x".to_owned();
    let r = activate_step(&mut plan, 0, true, &allowing(&["/bin/echo"]), Ok(()), false, &mut log);
    match r {
        Activation::Execute(argv) => assert_eq!(argv, vec!["/bin/echo".to_owned(), "hi".to_owned()]),
        other => panic!("expected a command to run, got {other:?}"),
    }
    assert_eq!(log, "x");
    assert_eq!(plan.blocks[0].status, Status::Active);
}

#[test]
fn run_log_suffix_quotes_argv_and_output_tails() {
    let argv = vec!["/bin/echo".to_owned(), "hi".to_owned()];
    let text = run_log_suffix(&argv, "success", "hi\n", "", "abc123", "2026-06-08T09:00:00Z");
    assert_eq!(
        text,
        r#" activated run: argv=["/bin/echo", "hi"] outcome=success stdout="hi\n" stderr="" rev=abc123 at=2026-06-08T09:00:00Z"#
    );
}

#[test]
fn error_messages_match_their_display_texts() {
    assert_eq!(Error::NotFound("block x".to_owned()).message(), "not found: block x");
    assert_eq!(Error::Usage("bad".to_owned()).message(), "usage error: bad");
    assert_eq!(
        Error::HistoryConflict { id: BlockId::new("a".to_owned()).unwrap() }.message(),
        "history conflict for terminal block `a`; use --override-history to replace it"
    );
    assert_eq!(Error::AutomationRefused("no".to_owned()).message(), "automation refused: no");
    assert_eq!(Error::Io("disk".to_owned()).message(), "I/O error: disk");
    assert_eq!(Error::Json("eof".to_owned()).message(), "JSON error: eof");
    assert_eq!(
        Error::Time(TimeError::Resolve("gap".to_owned())).message(),
        "failed to resolve local time: gap"
    );
    assert_eq!(
        Error::Time(TimeError::TimeZone(FieldParseError::TimeZone { value: "Nowhere".to_owned() })).message(),
        "invalid time zone `Nowhere`"
    );
    assert_eq!(
        Error::Scheduler(SchedulerError::Operation("boom".to_owned())).message(),
        "scheduler operation failed: boom"
    );
    assert_eq!(
        Error::Field(FieldParseError::Duration { value: "5x".to_owned() }).message(),
        "invalid duration `5x`"
    );
}

#[test]
fn plan_and_store_error_messages_nest() {
    let invalid = PlanError::Validation(ValidationError::DuplicateId { id: BlockId::new("a".to_owned()).unwrap() });
    assert_eq!(invalid.message(), "invalid plan: duplicate block id `a`");
    assert_eq!(Error::Plan(PlanError::TomlRead("eof".to_owned())).message(), "invalid plan TOML: eof");
    assert_eq!(PlanError::TomlWrite("x".to_owned()).message(), "failed to write plan TOML: x");
    assert_eq!(
        Error::Store(StoreError::Plan(invalid)).message(),
        "invalid plan in store: invalid plan: duplicate block id `a`"
    );
    assert_eq!(StoreError::ProjectDirsUnavailable.message(), "project directories are unavailable");
    assert_eq!(StoreError::Locked.message(), "store is locked by another writer");
    assert_eq!(
        StoreError::Io { path: "/p".to_owned(), message: "denied".to_owned() }.message(),
        "I/O error at `/p`: denied"
    );
    assert_eq!(
        StoreError::Json { path: "/f.json".to_owned(), message: "eof".to_owned() }.message(),
        "invalid JSON at `/f.json`: eof"
    );
    assert_eq!(
        StoreError::TerminalHistory { id: BlockId::new("b".to_owned()).unwrap() }.message(),
        "terminal block `b` would be altered without override"
    );
}

#[test]
fn recording_notifier_keeps_notifications_in_order_and_always_succeeds() {
    let mut notifier = RecordingNotifier::default();
    assert!(notifier.check().is_ok());
    let a = Notification { title: "A".to_owned(), body: "a at 09:00".to_owned() };
    let b = Notification { title: "B".to_owned(), body: "b at 10:00".to_owned() };
    assert!(notifier.notify(a.clone()).is_ok());
    assert!(notifier.notify(b.clone()).is_ok());
    assert_eq!(notifier.notifications(), vec![a.clone(), b.clone()]);
    assert_eq!(notifier.notifications(), vec![a, b]);
    assert!(notifier.check().is_ok());
}

#[test]
fn slug_joins_alphanumeric_runs_with_dashes() {
    assert_eq!(slug_block_id("Deep  Work: Rust!!").unwrap().as_str(), "deep-work-rust");
    assert_eq!(slug_block_id("--Plan B--").unwrap().as_str(), "plan-b");
    assert_eq!(slug_block_id("***").unwrap().as_str(), "block");
}

#[test]
fn add_block_reply_falls_back_and_appends_warning() {
    assert_eq!(add_block_reply(b"", None), "block added");
    assert_eq!(add_block_reply(b"added a\n", None), "added a\n");
    assert_eq!(add_block_reply(b"", Some("warning: x".to_owned())), "block addedwarning: x\n");
}

#[test]
fn end_past_the_last_instant_reports_jiff_overflow() {
    let mut late = block("late", None);
    late.start = ClockTime::from_minutes_since_midnight(21 * 60).unwrap();
    late.span = Span::Duration(DurationSpec::from_seconds(2 * 3600).unwrap());
    let plan = Plan {
        date: PlanDate::parse("9999-12-30").unwrap(),
        timezone: TimeZoneName::parse("UTC").unwrap(),
        blocks: vec![late.clone()],
    };
    let start = resolve_block_start(&plan, &late).unwrap();
    let expected = jiff::Timestamp::from_nanosecond(start.as_nanos())
        .unwrap()
        .checked_add(jiff::SignedDuration::from_secs(2 * 3600))
        .unwrap_err()
        .to_string();
    match resolve_block_end(&plan, &late) {
        Err(TimeError::Resolve(message)) => assert_eq!(message, expected),
        other => panic!("expected an overflow, got {other:?}"),
    }
}
