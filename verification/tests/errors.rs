use ccplan::context::SchedulerError;
use ccplan::error::{code_to_u8, Error};
use ccplan::mcp::{error_code, error_hint};
use ccplan::model::{BlockId, PlanError, TimeZoneName};
use ccplan::store::StoreError;
use ccplan::time::TimeError;

#[test]
fn error_exit_codes_match_the_cli_contract() {
    assert_eq!(Error::Store(StoreError::Locked).exit_code(), 1);
    assert_eq!(Error::Plan(PlanError::TomlRead("invalid date".to_owned())).exit_code(), 2);
    assert_eq!(Error::Field(BlockId::new("bad id".to_owned()).unwrap_err()).exit_code(), 2);
    assert_eq!(
        Error::Time(TimeError::TimeZone(TimeZoneName::parse("No/SuchZone").unwrap_err())).exit_code(),
        2
    );
    assert_eq!(Error::Usage("bad flag combo".to_owned()).exit_code(), 2);
    assert_eq!(Error::NotFound("block".to_owned()).exit_code(), 3);
    assert_eq!(Error::Scheduler(SchedulerError::Unavailable).exit_code(), 4);
    assert_eq!(Error::AutomationRefused("disabled".to_owned()).exit_code(), 5);
    assert_eq!(Error::HistoryConflict { id: BlockId::new("done".to_owned()).unwrap() }.exit_code(), 6);
    assert_eq!(Error::Io("disk".to_owned()).exit_code(), 1);
    assert_eq!(Error::Json("EOF while parsing an object".to_owned()).exit_code(), 1);
    assert_eq!(code_to_u8(0), 0);
    assert_eq!(code_to_u8(3), 3);
    assert_eq!(code_to_u8(4), 4);
    assert_eq!(code_to_u8(5), 5);
    assert_eq!(code_to_u8(6), 6);
    assert_eq!(code_to_u8(99), 1);
}

#[test]
fn error_code_and_hint_cover_automation_refused_and_plan_variants() {
    let auto = Error::AutomationRefused("disabled".to_owned());
    assert_eq!(error_code(&auto), "automation_refused");
    assert_eq!(error_hint(&auto), "enable automation in config and allowlist the executable");

    let plan_err = Error::Plan(PlanError::TomlRead("invalid date".to_owned()));
    assert_eq!(error_code(&plan_err), "plan_error");

    let sched = Error::Scheduler(SchedulerError::Unavailable);
    assert_eq!(error_code(&sched), "scheduler_error");
    assert_eq!(error_hint(&sched), "run ccplan doctor to diagnose the scheduler");
}

#[test]
fn store_locked_error_has_store_locked_code() {
    let e = Error::Store(StoreError::Locked);
    assert_eq!(error_code(&e), "store_locked");
}

#[test]
fn store_locked_error_hint_suggests_retry() {
    let e = Error::Store(StoreError::Locked);
    let hint = error_hint(&e);
    assert!(hint.contains("retry"), "hint should mention retry, got: {hint}");
}
