use ccplan::civil::PlanDate;
use ccplan::lifecycle::Event;
use ccplan::model::{BlockId, ScheduleRev};
use ccplan::platform::{fire_args, timezone_doctor_check, trigger_identity, DoctorCheck, DoctorReport};
use ccplan::store::TriggerRecord;
use ccplan::time::Timestamp;

#[test]
fn timezone_check_warns_when_plan_differs_from_system() {
    let check = timezone_doctor_check("Asia/Kolkata", Some("Etc/UTC"));

    assert_eq!(
        check,
        DoctorCheck::warning(
            "timezone",
            "system timezone is Asia/Kolkata; today's plan timezone is Etc/UTC".to_owned(),
            "run `ccplan set --from <file> --date <date>` with the intended timezone".to_owned(),
        )
    );
    assert_eq!(
        timezone_doctor_check("Asia/Kolkata", None),
        DoctorCheck::ok("timezone", "system timezone Asia/Kolkata; no plan for today".to_owned())
    );
    assert_eq!(
        timezone_doctor_check("Asia/Kolkata", Some("Asia/Kolkata")),
        DoctorCheck::ok("timezone", "system timezone Asia/Kolkata; plan Asia/Kolkata".to_owned())
    );
}

#[test]
fn doctor_report_renders_checks_and_fixes() {
    let report = DoctorReport {
        checks: vec![
            DoctorCheck::ok("scheduler", "ready".to_owned()),
            DoctorCheck::warning("notifier", "missing bus".to_owned(), "log in to a desktop session".to_owned()),
            DoctorCheck::error("timezone", "bad".to_owned(), "fix it".to_owned()),
        ],
    };

    let output = report.text();

    assert!(output.contains("scheduler: ok - ready"));
    assert!(output.contains("notifier: warning - missing bus"));
    assert!(output.contains("timezone: error - bad"));
    assert!(output.contains("fix: log in to a desktop session"));
}

#[test]
fn fire_arguments_include_absolute_instant_and_revision() {
    let trigger = TriggerRecord {
        backend_id: "2026-06-08-abc-0123456789abcdef-start".to_owned(),
        date: PlanDate::parse("2026-06-08").unwrap(),
        block_id: BlockId::new("focus".to_owned()).unwrap(),
        event: Event::Start,
        rev: ScheduleRev::new("0123456789abcdef".to_owned()).unwrap(),
        scheduled_at: Timestamp::parse("2026-06-08T05:30:00Z").unwrap(),
    };

    assert_eq!(
        fire_args(&trigger),
        vec![
            "fire",
            "--date",
            "2026-06-08",
            "--id",
            "focus",
            "--event",
            "start",
            "--rev",
            "0123456789abcdef",
            "--at",
            "2026-06-08T05:30:00Z",
        ]
    );
    assert_eq!(
        trigger_identity(&trigger.date, "abcd1234ef", &trigger.rev, trigger.event),
        "2026-06-08-abcd1234ef-0123456789abcdef-start"
    );
}
