use ccplan::civil::PlanDate;
use ccplan::error::Error;
use ccplan::gui::model::{nav_label, opt_date_args, NavModel, NavTab};
use ccplan::mcp::{
    add_block_request, edit_block_request, extract_date, mark_block_request, parse_mcp_block,
    plan_day_request, present_texts, remove_block_request, snooze_block_request, McpAddFields,
    McpBlockFields, McpEditFields, McpPlanDayFields,
};
use ccplan::model::{FieldParseError, Lead, Span, Status, TimeZoneName};
use ccplan::platform::{applescript_string, powershell_string, xml_escape};
use ccplan::store::Store;

fn fields(title: Option<&str>, start: Option<&str>) -> McpBlockFields {
    McpBlockFields {
        title: title.map(str::to_owned),
        start: start.map(str::to_owned),
        end: None,
        duration: Some("30m".to_owned()),
        notify: None,
        id: None,
        tags: vec![Some("deep".to_owned()), None, Some("work".to_owned())],
        run: None,
    }
}

fn usage(result: Result<impl std::fmt::Debug, Error>) -> String {
    match result {
        Err(Error::Usage(message)) => message,
        other => panic!("expected a usage error, got {other:?}"),
    }
}

#[test]
fn mcp_block_builds_a_pending_block() {
    let block = parse_mcp_block(fields(Some("Focus Time"), Some("09:30")), 0, Lead::from_seconds_const(120)).unwrap();
    assert_eq!(block.id.as_str(), "focus-time");
    assert_eq!(block.title, "Focus Time");
    assert_eq!(block.start.text(), "09:30");
    assert!(matches!(block.span, Span::Duration(d) if d.as_seconds() == 1800));
    assert_eq!(block.notify.as_seconds(), 120);
    assert_eq!(block.tags, vec!["deep".to_owned(), "work".to_owned()]);
    assert_eq!(block.status, Status::Pending);
    assert!(block.run.is_none());
}

#[test]
fn mcp_block_reports_each_issue_with_its_index() {
    assert_eq!(
        usage(parse_mcp_block(fields(None, Some("09:30")), 3, Lead::from_seconds_const(0))),
        "block[3] missing required field 'title'"
    );
    assert_eq!(
        usage(parse_mcp_block(fields(Some("x"), None), 12, Lead::from_seconds_const(0))),
        "block[12] missing required field 'start'"
    );
    let mut both = fields(Some("x"), Some("09:30"));
    both.end = Some("10:00".to_owned());
    assert_eq!(
        usage(parse_mcp_block(both, 0, Lead::from_seconds_const(0))),
        "block[0] must set exactly one of 'end' or 'duration'"
    );
    let mut neither = fields(Some("x"), Some("09:30"));
    neither.duration = None;
    assert_eq!(usage(parse_mcp_block(neither, 1, Lead::from_seconds_const(0))), "block[1] must set 'end' or 'duration'");
    assert!(matches!(
        parse_mcp_block(fields(Some("x"), Some("9h")), 0, Lead::from_seconds_const(0)),
        Err(Error::Field(FieldParseError::ClockTime { .. }))
    ));
    let mut bad_run = fields(Some("x"), Some("09:30"));
    bad_run.run = Some(vec![Some(String::new())]);
    assert_eq!(
        parse_mcp_block(bad_run, 0, Lead::from_seconds_const(0)).unwrap_err(),
        Error::Field(FieldParseError::Run)
    );
    let mut empty_run = fields(Some("x"), Some("09:30"));
    empty_run.run = Some(vec![None]);
    assert!(parse_mcp_block(empty_run, 0, Lead::from_seconds_const(0)).unwrap().run.is_none());
}

#[test]
fn add_block_request_checks_its_arguments() {
    let ok = add_block_request(McpAddFields {
        block: fields(Some("Standup"), Some("10:00")),
        date: Some("2026-06-08".to_owned()),
        apply: Some(true),
    })
    .unwrap();
    assert_eq!(ok.title, "Standup");
    assert!(ok.id.is_none());
    assert_eq!(ok.date, PlanDate::parse("2026-06-08"));
    assert!(ok.apply);
    assert!(ok.run.is_empty());
    let bad_date = add_block_request(McpAddFields {
        block: fields(Some("Standup"), Some("10:00")),
        date: Some("someday".to_owned()),
        apply: None,
    })
    .unwrap();
    assert!(bad_date.date.is_none());
    assert!(!bad_date.apply);
    assert_eq!(
        usage(add_block_request(McpAddFields { block: fields(None, Some("10:00")), date: None, apply: None })),
        "add_block requires 'title'"
    );
    let mut both = fields(Some("x"), Some("10:00"));
    both.end = Some("11:00".to_owned());
    assert_eq!(
        usage(add_block_request(McpAddFields { block: both, date: None, apply: None })),
        "add_block: set exactly one of 'end' or 'duration'"
    );
}

#[test]
fn edit_mark_remove_and_snooze_requests() {
    let (id, date, edit) = edit_block_request(McpEditFields {
        id: Some("focus".to_owned()),
        date: None,
        title: Some("New".to_owned()),
        start: Some("08:00".to_owned()),
        end: None,
        duration: None,
        notify: Some("5m".to_owned()),
        run: Some(vec![Some("/bin/true".to_owned())]),
    })
    .unwrap();
    assert_eq!(id.as_str(), "focus");
    assert!(date.is_none());
    assert_eq!(edit.title.as_deref(), Some("New"));
    assert_eq!(edit.notify.unwrap().as_seconds(), 300);
    assert_eq!(edit.run, vec!["/bin/true".to_owned()]);
    assert_eq!(
        usage(edit_block_request(McpEditFields {
            id: None,
            date: None,
            title: None,
            start: None,
            end: None,
            duration: None,
            notify: None,
            run: None,
        })),
        "edit_block requires 'id'"
    );
    let (id, status) = mark_block_request(Some("focus".to_owned()), Some("skipped".to_owned())).unwrap();
    assert_eq!((id.as_str(), status), ("focus", Status::Skipped));
    assert_eq!(
        usage(mark_block_request(Some("focus".to_owned()), Some("later".to_owned()))),
        "mark_block: status must be 'done' or 'skipped', got 'later'"
    );
    assert_eq!(usage(mark_block_request(Some("focus".to_owned()), None)), "mark_block requires 'status'");
    assert_eq!(usage(remove_block_request(None)), "remove_block requires 'id'");
    assert!(matches!(
        remove_block_request(Some("bad id".to_owned())),
        Err(Error::Field(FieldParseError::BlockId { .. }))
    ));
    let (id, by, date) = snooze_block_request(Some("focus".to_owned()), Some("10m".to_owned()), Some("2026-06-08".to_owned())).unwrap();
    assert_eq!((id.as_str(), by.as_seconds()), ("focus", 600));
    assert_eq!(date, PlanDate::parse("2026-06-08"));
    assert_eq!(usage(snooze_block_request(Some("focus".to_owned()), None, None)), "snooze_block requires 'by'");
}

#[test]
fn plan_day_request_builds_the_plan() {
    let zone = TimeZoneName::parse("UTC").unwrap();
    let today = PlanDate::parse("2026-06-08").unwrap();
    let mut with_run = fields(Some("Sync"), Some("11:00"));
    with_run.run = Some(vec![Some("/bin/sync".to_owned()), Some("--fast".to_owned())]);
    let day = plan_day_request(
        McpPlanDayFields {
            override_history: None,
            date: None,
            timezone: None,
            blocks: Some(vec![fields(Some("Focus"), Some("09:00")), with_run]),
        },
        zone.clone(),
        today,
        Lead::from_seconds_const(300),
    )
    .unwrap();
    assert_eq!(day.plan.date, today);
    assert_eq!(day.plan.timezone, zone);
    assert_eq!(day.plan.blocks.len(), 2);
    assert!(!day.override_history);
    assert_eq!(day.runs, vec![vec!["/bin/sync".to_owned(), "--fast".to_owned()]]);
    assert_eq!(
        usage(plan_day_request(
            McpPlanDayFields { override_history: Some(true), date: None, timezone: None, blocks: None },
            zone.clone(),
            today,
            Lead::from_seconds_const(300),
        )),
        "plan_day requires a 'blocks' array"
    );
    assert_eq!(
        usage(plan_day_request(
            McpPlanDayFields {
                override_history: None,
                date: None,
                timezone: None,
                blocks: Some(vec![fields(Some("ok"), Some("09:00")), fields(None, Some("10:00"))]),
            },
            zone.clone(),
            today,
            Lead::from_seconds_const(300),
        )),
        "block[1] missing required field 'title'"
    );
    assert!(matches!(
        plan_day_request(
            McpPlanDayFields { override_history: None, date: Some("June".to_owned()), timezone: None, blocks: None },
            zone,
            today,
            Lead::from_seconds_const(300),
        ),
        Err(Error::Field(FieldParseError::Date { .. }))
    ));
}

#[test]
fn tool_argument_helpers() {
    assert_eq!(
        present_texts(&vec![Some("a".to_owned()), None, Some("b".to_owned())]),
        vec!["a".to_owned(), "b".to_owned()]
    );
    assert_eq!(extract_date(&Some("2026-06-08".to_owned())), PlanDate::parse("2026-06-08"));
    assert!(extract_date(&Some("nope".to_owned())).is_none());
    assert!(extract_date(&None).is_none());
}

#[test]
fn script_quoting_escapes_reserved_characters() {
    assert_eq!(applescript_string(r#"say "hi" \ bye"#), r#""say \"hi\" \\ bye""#);
    assert_eq!(powershell_string("it's"), "'it''s'");
    assert_eq!(xml_escape(r#"<a href="x">Tom & 'Jerry'</a>"#), "&lt;a href=&quot;x&quot;&gt;Tom &amp; &apos;Jerry&apos;&lt;/a&gt;");
    assert_eq!(xml_escape("plain"), "plain");
}

#[test]
fn nav_labels_and_cockpit_arguments() {
    let nav = NavModel { active_tab: NavTab::Today, pending_approvals_count: 3 };
    assert_eq!(nav_label(NavTab::Approvals, &nav), "Approvals (3)");
    assert_eq!(nav_label(NavTab::Today, &nav), "Today");
    let none = NavModel { active_tab: NavTab::Today, pending_approvals_count: 0 };
    assert_eq!(nav_label(NavTab::Approvals, &none), "Approvals");
    let mut args = vec!["agenda".to_owned()];
    opt_date_args(&mut args, &Some("2026-06-08".to_owned()));
    assert_eq!(args, vec!["agenda", "--date", "2026-06-08"]);
    opt_date_args(&mut args, &None);
    assert_eq!(args.len(), 3);
}

#[test]
fn store_paths_follow_the_layout() {
    let store = Store::new("/tmp/root");
    assert_eq!(store.plans_dir(), "/tmp/root/data/ccplan/plans");
    assert_eq!(store.archive_dir(), "/tmp/root/data/ccplan/archive");
    assert_eq!(store.log_dir(), "/tmp/root/data/ccplan/log");
    let date = PlanDate::parse("2026-06-08").unwrap();
    assert_eq!(store.plan_path(&date), "/tmp/root/data/ccplan/plans/2026-06-08.toml");
    assert_eq!(store.archive_path(&date), "/tmp/root/data/ccplan/archive/2026-06-08.toml");
    assert_eq!(store.fire_log_path(), "/tmp/root/data/ccplan/log/fire.log");
    assert_eq!(store.lock_path(), "/tmp/root/state/ccplan/store.lock");
    assert_eq!(store.config_path(), "/tmp/root/config/ccplan/config.toml");
}
