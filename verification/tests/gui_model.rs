use ccplan::civil::PlanDate;
use ccplan::gui::model::{
    build_activity_model, build_agents_model, build_nav_model, countdown_str, format_recur_rule,
    format_weekday, outcome_style, ActivityKind, NavTab,
};
use ccplan::lifecycle::Event;
use ccplan::model::{BlockId, RecurRule, Weekday};
use ccplan::store::FireRecord;
use ccplan::time::Timestamp;

fn make_record(outcome: &str, detail: &str) -> FireRecord {
    FireRecord {
        ts: Timestamp::parse("2026-06-08T09:00:00Z").unwrap(),
        date: PlanDate::parse("2026-06-08").unwrap(),
        id: BlockId::parse("focus-1").unwrap(),
        event: Event::Notify,
        outcome: outcome.to_owned(),
        detail: detail.to_owned(),
        agent: None,
    }
}

fn make_agent_record(agent: &str, outcome: &str) -> FireRecord {
    FireRecord {
        ts: Timestamp::parse("2026-06-08T09:00:00Z").unwrap(),
        date: PlanDate::parse("2026-06-08").unwrap(),
        id: BlockId::parse("task-1").unwrap(),
        event: Event::Notify,
        outcome: outcome.to_owned(),
        detail: String::new(),
        agent: Some(agent.to_owned()),
    }
}

#[test]
fn countdown_str_zero_or_negative_is_now() {
    assert_eq!(countdown_str(0), "now");
    assert_eq!(countdown_str(-10), "now");
}

#[test]
fn countdown_str_seconds_only() {
    assert_eq!(countdown_str(45), "in 45s");
}

#[test]
fn countdown_str_minutes() {
    assert_eq!(countdown_str(300), "in 5m");
}

#[test]
fn countdown_str_hours_and_minutes() {
    assert_eq!(countdown_str(7200), "in 2h00m");
    assert_eq!(countdown_str(7500), "in 2h05m");
}

#[test]
fn format_weekday_covers_all_variants() {
    assert_eq!(format_weekday(Weekday::Monday), "mon");
    assert_eq!(format_weekday(Weekday::Tuesday), "tue");
    assert_eq!(format_weekday(Weekday::Wednesday), "wed");
    assert_eq!(format_weekday(Weekday::Thursday), "thu");
    assert_eq!(format_weekday(Weekday::Friday), "fri");
    assert_eq!(format_weekday(Weekday::Saturday), "sat");
    assert_eq!(format_weekday(Weekday::Sunday), "sun");
}

#[test]
fn format_recur_rule_covers_all_variants() {
    assert_eq!(format_recur_rule(&RecurRule::Daily), "daily");
    assert_eq!(format_recur_rule(&RecurRule::Weekday), "weekday");
    assert_eq!(format_recur_rule(&RecurRule::Weekend), "weekend");
    assert_eq!(
        format_recur_rule(&RecurRule::Weekly(vec![Weekday::Monday, Weekday::Friday])),
        "weekly:mon,fri"
    );
    assert_eq!(format_recur_rule(&RecurRule::EveryNDays(3)), "every 3 days");
    assert_eq!(format_recur_rule(&RecurRule::EveryNWeeks(2)), "every 2 weeks");
}

#[test]
fn activity_model_empty() {
    let model = build_activity_model(&[]);
    assert!(model.items.is_empty());
}

#[test]
fn activity_model_notify_outcome() {
    let model = build_activity_model(&[make_record("notify", "")]);
    assert_eq!(model.items[0].icon, "\u{2713}");
    assert_eq!(model.items[0].kind, ActivityKind::Success);
    assert_eq!(model.items[0].text, "focus-1 notify");
}

#[test]
fn activity_model_close_outcome() {
    let model = build_activity_model(&[make_record("close", "done")]);
    assert_eq!(model.items[0].icon, "\u{2713}");
    assert_eq!(model.items[0].kind, ActivityKind::Success);
    assert_eq!(model.items[0].text, "focus-1 close \u{2014} done");
}

#[test]
fn activity_model_activate_outcome() {
    let model = build_activity_model(&[make_record("activate", "")]);
    assert_eq!(model.items[0].icon, "\u{25b6}");
    assert_eq!(model.items[0].kind, ActivityKind::Run);
}

#[test]
fn activity_model_missed_outcome() {
    let model = build_activity_model(&[make_record("missed", "")]);
    assert_eq!(model.items[0].icon, "\u{2717}");
    assert_eq!(model.items[0].kind, ActivityKind::Error);
}

#[test]
fn activity_model_other_outcome() {
    let model = build_activity_model(&[make_record("no-op", "no-op")]);
    assert_eq!(model.items[0].icon, "\u{b7}");
    assert_eq!(model.items[0].kind, ActivityKind::Info);
}

#[test]
fn activity_model_newest_first() {
    let r1 = make_record("notify", "");
    let r2 = make_record("missed", "");
    let model = build_activity_model(&[r1, r2]);
    assert_eq!(model.items[0].kind, ActivityKind::Error);
    assert_eq!(model.items[1].kind, ActivityKind::Success);
}

#[test]
fn activity_model_labels_timestamp() {
    let model = build_activity_model(&[make_record("notify", "")]);
    assert_eq!(model.items[0].ts_label, "2026-06-08T09:00:00Z");
}

#[test]
fn outcome_style_covers_all_arms() {
    assert_eq!(outcome_style("notify").1, ActivityKind::Success);
    assert_eq!(outcome_style("close").1, ActivityKind::Success);
    assert_eq!(outcome_style("activate").1, ActivityKind::Run);
    assert_eq!(outcome_style("missed").1, ActivityKind::Error);
    assert_eq!(outcome_style("no-op").1, ActivityKind::Info);
}

#[test]
fn nav_model_all_tabs() {
    for tab in [
        NavTab::Today,
        NavTab::Upcoming,
        NavTab::Automations,
        NavTab::Agents,
        NavTab::Activity,
        NavTab::Approvals,
    ] {
        let model = build_nav_model(tab, 0);
        assert_eq!(model.active_tab, tab);
        assert_eq!(model.pending_approvals_count, 0);
    }
}

#[test]
fn nav_model_pending_approvals_count() {
    let model = build_nav_model(NavTab::Today, 3);
    assert_eq!(model.pending_approvals_count, 3);
}

#[test]
fn agents_model_empty_when_no_agent_records() {
    let model = build_agents_model(&[make_record("notify", "")]);
    assert!(model.agents.is_empty());
}

#[test]
fn agents_model_lists_agents() {
    let r = make_agent_record("alpha", "notify");
    let model = build_agents_model(&[r]);
    assert_eq!(model.agents.len(), 1);
    assert_eq!(model.agents[0].name, "alpha");
    assert!(model.agents[0].is_ok);
    assert_eq!(model.agents[0].last_action, "2026-06-08T09:00 notify");
}

#[test]
fn agents_model_missed_outcome_is_not_ok() {
    let r = make_agent_record("beta", "missed");
    let model = build_agents_model(&[r]);
    assert!(!model.agents[0].is_ok);
}

#[test]
fn agents_model_failed_outcome_is_not_ok() {
    let r = make_agent_record("gamma", "failed");
    let model = build_agents_model(&[r]);
    assert!(!model.agents[0].is_ok);
}

#[test]
fn agents_model_most_recent_record_wins() {
    let r1 = make_agent_record("alpha", "missed");
    let mut r2 = make_agent_record("alpha", "notify");
    r2.ts = Timestamp::parse("2026-06-08T10:00:00Z").unwrap();
    let model = build_agents_model(&[r1, r2]);
    assert_eq!(model.agents.len(), 1);
    assert!(model.agents[0].is_ok);
}

#[test]
fn agents_model_sorted_by_name() {
    let r_b = make_agent_record("beta", "notify");
    let r_a = make_agent_record("alpha", "notify");
    let model = build_agents_model(&[r_b, r_a]);
    assert_eq!(model.agents[0].name, "alpha");
    assert_eq!(model.agents[1].name, "beta");
}
