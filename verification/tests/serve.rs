use ccplan::civil::PlanDate;
use ccplan::lifecycle::Event;
use ccplan::model::{
    Block, BlockId, ClockTime, DurationSpec, Lead, Plan, Span, Status, TimeZoneName, WhenCondition,
};
use ccplan::serve::{
    decide_agent_assignments, decide_reactive_triggers, AgentAssignment, AgentEventKey,
    ConditionState, ReactiveDecision, ServeMemory,
};

fn id(text: &str) -> BlockId {
    BlockId::new(text.to_owned()).unwrap()
}

fn block(name: &str, status: Status, when: Option<WhenCondition>) -> Block {
    Block {
        id: id(name),
        title: format!("Block {name}"),
        start: ClockTime::from_minutes_since_midnight(9 * 60).unwrap(),
        span: Span::Duration(DurationSpec::from_seconds(30 * 60).unwrap()),
        notify: Lead::from_seconds(0).unwrap(),
        tags: Vec::new(),
        status,
        run: None,
        recurrence: None,
        origin: None,
        after: vec![],
        on_success: vec![],
        on_failure: vec![],
        on_missed: vec![],
        retry: None,
        expect_by: None,
        approval: None,
        when,
        agent: None,
    }
}

fn agent_block(name: &str, agent: Option<&str>, status: Status) -> Block {
    let mut block = block(name, status, None);
    block.agent = agent.map(str::to_owned);
    block
}

fn plan(blocks: Vec<Block>) -> Plan {
    Plan {
        date: PlanDate::parse("2026-06-08").unwrap(),
        timezone: TimeZoneName::parse("UTC").unwrap(),
        blocks,
    }
}

fn states(entries: &[(&str, ConditionState)]) -> Vec<(BlockId, ConditionState)> {
    entries.iter().map(|(name, state)| (id(name), state.clone())).collect()
}

fn due(ids: &[&str]) -> Vec<BlockId> {
    ids.iter().map(|name| id(name)).collect()
}

fn satisfied(marker: &str) -> ConditionState {
    ConditionState::satisfied(marker.to_owned())
}

#[test]
fn no_conditions_or_unsatisfied_states_fire_nothing() {
    let plan = plan(vec![
        block("plain", Status::Pending, None),
        block(
            "reactive",
            Status::Pending,
            Some(WhenCondition::FileExists("/tmp/ready".to_owned())),
        ),
    ]);
    let tick = decide_reactive_triggers(
        &plan,
        &states(&[("reactive", ConditionState::unsatisfied())]),
        &ServeMemory::new(),
    );

    assert!(tick.decisions.is_empty());
    assert!(tick.next_memory.marker_for(&id("reactive")).is_none());
}

#[test]
fn satisfied_condition_fires_once_until_it_resets() {
    let plan = plan(vec![block(
        "reactive",
        Status::Pending,
        Some(WhenCondition::FileExists("/tmp/ready".to_owned())),
    )]);
    let first = decide_reactive_triggers(
        &plan,
        &states(&[("reactive", satisfied("exists"))]),
        &ServeMemory::new(),
    );
    assert_eq!(
        first.decisions,
        vec![ReactiveDecision {
            block_id: id("reactive"),
            condition: WhenCondition::FileExists("/tmp/ready".to_owned()),
        }]
    );

    let repeated = decide_reactive_triggers(
        &plan,
        &states(&[("reactive", satisfied("exists"))]),
        &first.next_memory,
    );
    assert!(repeated.decisions.is_empty());

    let reset = decide_reactive_triggers(
        &plan,
        &states(&[("reactive", ConditionState::unsatisfied())]),
        &repeated.next_memory,
    );
    let refired = decide_reactive_triggers(
        &plan,
        &states(&[("reactive", satisfied("exists"))]),
        &reset.next_memory,
    );
    assert_eq!(refired.decisions.len(), 1);
}

#[test]
fn changed_file_marker_fires_each_new_marker() {
    let plan = plan(vec![block(
        "input",
        Status::Pending,
        Some(WhenCondition::FileChanged("/tmp/input".to_owned())),
    )]);
    let first = decide_reactive_triggers(
        &plan,
        &states(&[("input", satisfied("mtime:1"))]),
        &ServeMemory::new(),
    );
    let second = decide_reactive_triggers(
        &plan,
        &states(&[("input", satisfied("mtime:2"))]),
        &first.next_memory,
    );

    assert_eq!(first.decisions.len(), 1);
    assert_eq!(second.decisions.len(), 1);
    assert_eq!(second.next_memory.marker_for(&id("input")), Some("mtime:2"));
}

#[test]
fn satisfied_state_without_marker_uses_stable_default_marker() {
    let plan = plan(vec![block(
        "reactive",
        Status::Pending,
        Some(WhenCondition::CommandOk(vec!["/bin/true".to_owned()])),
    )]);
    let tick = decide_reactive_triggers(
        &plan,
        &states(&[("reactive", ConditionState { satisfied: true, marker: None })]),
        &ServeMemory::new(),
    );

    assert_eq!(tick.decisions.len(), 1);
    assert_eq!(tick.next_memory.marker_for(&id("reactive")), Some("satisfied"));
}

#[test]
fn non_pending_reactive_blocks_are_not_fired() {
    let plan = plan(vec![
        block(
            "active",
            Status::Active,
            Some(WhenCondition::CommandOk(vec!["/bin/true".to_owned()])),
        ),
        block(
            "done",
            Status::Done,
            Some(WhenCondition::CommandOk(vec!["/bin/true".to_owned()])),
        ),
    ]);
    let tick = decide_reactive_triggers(
        &plan,
        &states(&[("active", satisfied("ok")), ("done", satisfied("ok"))]),
        &ServeMemory::new(),
    );

    assert!(tick.decisions.is_empty());
    assert!(tick.next_memory.marker_for(&id("active")).is_none());
}

#[test]
fn agent_assignments_include_only_due_matching_unclaimed_blocks() {
    let plan = plan(vec![
        agent_block("mine", Some("alpha"), Status::Pending),
        agent_block("later", Some("alpha"), Status::Pending),
        agent_block("other", Some("beta"), Status::Pending),
        agent_block("done", Some("alpha"), Status::Done),
        agent_block("plain", None, Status::Pending),
    ]);
    let assignments =
        decide_agent_assignments(&plan, "alpha", &due(&["mine", "other", "done"]), &[]);

    assert_eq!(
        assignments,
        vec![AgentAssignment {
            agent: "alpha".to_owned(),
            block_id: id("mine"),
            event: Event::Start,
        }]
    );
}

#[test]
fn agent_assignments_skip_claimed_blocks() {
    let plan = plan(vec![agent_block("mine", Some("alpha"), Status::Pending)]);
    let claimed = vec![AgentEventKey {
        agent: "alpha".to_owned(),
        block_id: id("mine"),
        event: Event::Start,
    }];
    let assignments = decide_agent_assignments(&plan, "alpha", &due(&["mine"]), &claimed);

    assert!(assignments.is_empty());
}
