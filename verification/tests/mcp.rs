use ccplan::config::AutomationConfig;
use ccplan::context::SchedulerError;
use ccplan::error::Error;
use ccplan::mcp::{error_code, error_hint, run_authorization_warning};
use ccplan::model::{BlockId, PlanError, ValidationError};
use ccplan::store::StoreError;

#[test]
fn run_authorization_warning_empty_runs_returns_none() {
    let automation = AutomationConfig::default();
    assert!(run_authorization_warning(&automation, &[]).is_none());
}

#[test]
fn run_authorization_warning_automation_disabled_returns_warning() {
    let automation = AutomationConfig::default();
    let run = vec!["notify-send".to_owned(), "hello".to_owned()];
    let result = run_authorization_warning(&automation, &[run]);
    assert!(result.is_some(), "should warn when automation is disabled");
    let msg = result.unwrap();
    assert!(msg.contains("automation is disabled"), "got: {msg}");
    assert!(msg.contains("notification will still fire"), "got: {msg}");
}

#[test]
fn run_authorization_warning_unlisted_executable_returns_warning() {
    let automation = AutomationConfig {
        enabled: true,
        allowed_executables: vec!["/usr/bin/allowed".to_owned()],
        ..Default::default()
    };
    let run = vec!["/usr/bin/unlisted".to_owned(), "arg".to_owned()];
    let result = run_authorization_warning(&automation, &[run]);
    assert!(result.is_some(), "should warn for unlisted executable");
    let msg = result.unwrap();
    assert!(msg.contains("/usr/bin/unlisted"), "got: {msg}");
    assert!(msg.contains("not in the allowlist"), "got: {msg}");
}

#[test]
fn run_authorization_warning_allowlisted_executable_returns_none() {
    let automation = AutomationConfig {
        enabled: true,
        allowed_executables: vec!["/usr/bin/allowed".to_owned()],
        ..Default::default()
    };
    let run = vec!["/usr/bin/allowed".to_owned()];
    assert!(
        run_authorization_warning(&automation, &[run]).is_none(),
        "no warning when executable is allowlisted"
    );
}

#[test]
fn error_codes_and_hints_for_each_kind() {
    let auto = Error::AutomationRefused("disabled".to_owned());
    assert_eq!(error_code(&auto), "automation_refused");
    assert_eq!(error_hint(&auto), "enable automation in config and allowlist the executable");
    let plan_err = Error::Plan(PlanError::Validation(ValidationError::DuplicateId {
        id: BlockId::parse("x").unwrap(),
    }));
    assert_eq!(error_code(&plan_err), "plan_error");
    let sched = Error::Scheduler(SchedulerError::Unavailable);
    assert_eq!(error_code(&sched), "scheduler_error");
    assert_eq!(error_hint(&sched), "run ccplan doctor to diagnose the scheduler");
    let locked = Error::Store(StoreError::Locked);
    assert_eq!(error_code(&locked), "store_locked");
    assert!(error_hint(&locked).contains("retry"));
    let history = Error::Store(StoreError::TerminalHistory { id: BlockId::parse("done").unwrap() });
    assert_eq!(error_code(&history), "history_conflict");
    assert_eq!(error_code(&Error::NotFound("x".to_owned())), "not_found");
    assert_eq!(error_code(&Error::Usage("x".to_owned())), "internal_error");
}
