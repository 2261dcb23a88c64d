use ccplan::civil::PlanDate;
use ccplan::lifecycle::Event;
use ccplan::model::{
    Approval, Block, BlockId, ClockTime, DurationSpec, Lead, Plan, Run, Span, Status, TimeZoneName,
};
use ccplan::store::{
    merge_plans, FiredEventKey, FiredLedger, FiredStatus, HistoryPolicy, Store, StoreError,
    TriggerLedger, TriggerRecord,
};
use ccplan::time::Timestamp;

#[test]
fn set_plan_retains_terminal_blocks_omitted_from_incoming_plan() {
    let existing = plan_with(vec![block("finished", Status::Done), block("old-pending", Status::Pending)]);
    let incoming = plan_with(vec![block("new-pending", Status::Pending)]);

    let merged = merge_plans(Some(existing), incoming, HistoryPolicy::Preserve)
        .expect("merge should preserve terminal history");

    assert_eq!(block_ids(&merged), vec!["new-pending".to_owned(), "finished".to_owned()]);
    assert_eq!(merged.blocks[1].status, Status::Done);
}

#[test]
fn set_plan_rejects_terminal_id_reuse_without_override() {
    let existing = plan_with(vec![block("finished", Status::Done)]);
    let incoming = plan_with(vec![block("finished", Status::Pending)]);

    let err = merge_plans(Some(existing), incoming, HistoryPolicy::Preserve)
        .expect_err("terminal id reuse should fail");

    assert_eq!(err.exit_code(), 6);
    assert!(matches!(err, StoreError::TerminalHistory { id } if id.as_str() == "finished"));
}

#[test]
fn set_plan_allows_identical_terminal_block_in_incoming_plan() {
    let existing = plan_with(vec![block("finished", Status::Done)]);

    let stored = merge_plans(Some(existing.clone()), existing.clone(), HistoryPolicy::Preserve)
        .expect("identical terminal history should be accepted");

    assert_eq!(stored, existing);
}

#[test]
fn set_plan_rejects_timezone_change_that_would_reinterpret_terminal_history() {
    let existing = plan_with(vec![block("finished", Status::Done)]);
    let incoming = plan_with_timezone("UTC", vec![block("new-pending", Status::Pending)]);

    let err = merge_plans(Some(existing), incoming, HistoryPolicy::Preserve)
        .expect_err("timezone change should not reinterpret terminal history");

    assert_eq!(err.exit_code(), 6);
    assert!(matches!(err, StoreError::TerminalHistory { id } if id.as_str() == "finished"));
}

#[test]
fn set_plan_allows_timezone_change_without_terminal_history() {
    let existing = plan_with(vec![block("pending", Status::Pending)]);
    let incoming = plan_with_timezone("UTC", vec![block("replacement", Status::Pending)]);

    let stored = merge_plans(Some(existing), incoming.clone(), HistoryPolicy::Preserve)
        .expect("timezone change is safe before terminal history exists");

    assert_eq!(stored, incoming);
}

#[test]
fn override_history_allows_terminal_id_reuse() {
    let existing = plan_with(vec![block("finished", Status::Done)]);
    let incoming = plan_with(vec![block("finished", Status::Pending)]);

    let stored = merge_plans(Some(existing), incoming.clone(), HistoryPolicy::Override)
        .expect("override should replace terminal history");

    assert_eq!(stored, incoming);
}

#[test]
fn fired_ledger_check_and_set_is_durable() {
    let mut ledger = FiredLedger::default();
    let key = fired_key("focus");

    assert_eq!(ledger.check_and_set(key.clone()), FiredStatus::Recorded);
    assert_eq!(ledger.check_and_set(key.clone()), FiredStatus::AlreadyFired);

    let mut reloaded = FiredLedger { fired: ledger.fired.clone() };
    assert_eq!(reloaded.check_and_set(key), FiredStatus::AlreadyFired);
}

#[test]
fn trigger_records_can_be_recorded_listed_and_removed() {
    let mut ledger = TriggerLedger::default();
    let first = trigger("ccplan-first", "focus");
    let second = trigger("ccplan-second", "sync");

    ledger.record_trigger(first.clone());
    ledger.record_trigger(second.clone());
    assert_eq!(ledger.triggers, vec![first, second]);

    assert!(ledger.remove_trigger("ccplan-first"));
    assert_eq!(ledger.triggers, vec![trigger("ccplan-second", "sync")]);
    assert!(!ledger.remove_trigger("missing"));
}

#[test]
fn store_exposes_expected_config_path_under_injected_base() {
    let base = "/tmp/ccplan-store";
    let store = Store::new(base);

    assert_eq!(store.config_path(), format!("{base}/config/ccplan/config.toml"));
    assert_eq!(store.fire_log_path(), format!("{base}/data/ccplan/log/fire.log"));
}

fn plan_with(blocks: Vec<Block>) -> Plan {
    plan_with_timezone("America/New_York", blocks)
}

fn plan_with_timezone(timezone: &str, blocks: Vec<Block>) -> Plan {
    Plan { date: date(), timezone: TimeZoneName::parse(timezone).unwrap(), blocks }
}

fn block(id: &str, status: Status) -> Block {
    Block {
        id: BlockId::new(id.to_owned()).unwrap(),
        title: format!("Block {id}"),
        start: ClockTime::parse("09:00").unwrap(),
        span: Span::Duration(DurationSpec::from_seconds(30 * 60).unwrap()),
        notify: Lead::from_seconds(0).unwrap(),
        tags: Vec::new(),
        status,
        run: Some(Run::new(vec!["/bin/echo".to_owned()]).unwrap()),
        recurrence: None,
        origin: None,
        after: vec![],
        on_success: vec![],
        on_failure: vec![],
        on_missed: vec![],
        retry: None,
        expect_by: None,
        approval: Some(Approval::Pending),
        when: None,
        agent: None,
    }
}

fn block_ids(plan: &Plan) -> Vec<String> {
    plan.blocks.iter().map(|block| block.id.as_str().to_owned()).collect()
}

fn fired_key(id: &str) -> FiredEventKey {
    let block = block(id, Status::Pending);
    FiredEventKey {
        date: date(),
        block_id: block.id.clone(),
        event: Event::Start,
        rev: block.schedule_rev(),
        scheduled_at: timestamp(),
    }
}

fn trigger(backend_id: &str, id: &str) -> TriggerRecord {
    let key = fired_key(id);
    TriggerRecord {
        backend_id: backend_id.to_owned(),
        date: key.date,
        block_id: key.block_id,
        event: key.event,
        rev: key.rev,
        scheduled_at: key.scheduled_at,
    }
}

fn date() -> PlanDate {
    PlanDate::parse("2026-06-08").unwrap()
}

fn timestamp() -> Timestamp {
    Timestamp::parse("2026-06-08T13:00:00Z").unwrap()
}
