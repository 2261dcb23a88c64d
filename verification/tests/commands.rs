use ccplan::commands::{
    authorize_run, cap_tail, format_table_row, humanize_countdown, status_label, tail_string,
    write_table, AgendaEntry,
};
use ccplan::config::AutomationConfig;
use ccplan::model::Status;

#[test]
fn humanize_countdown_covers_each_unit_branch() {
    assert_eq!(humanize_countdown(0), "now");
    assert_eq!(humanize_countdown(-5), "now");
    assert_eq!(humanize_countdown(45), "in 45s");
    assert_eq!(humanize_countdown(120), "in 2m");
    assert_eq!(humanize_countdown(3_600), "in 1h00m");
    assert_eq!(humanize_countdown(3_600 + 5 * 60), "in 1h05m");
}

#[test]
fn status_label_covers_every_status() {
    assert_eq!(status_label(Status::Pending), "pending");
    assert_eq!(status_label(Status::Active), "active");
    assert_eq!(status_label(Status::Done), "done");
    assert_eq!(status_label(Status::Skipped), "skipped");
    assert_eq!(status_label(Status::Missed), "missed");
    assert_eq!(status_label(Status::Expired), "expired");
}

#[test]
fn table_aligns_columns_and_trims_trailing_space() {
    let widths = [5, 3];
    assert_eq!(
        format_table_row(&["ab".to_owned(), "x".to_owned()], &widths),
        "ab     x"
    );
    assert_eq!(
        format_table_row(&["abcde".to_owned(), String::new()], &widths),
        "abcde"
    );

    let text = write_table(&["ID", "TITLE"], &[vec!["a".to_owned(), "Alpha".to_owned()]]);
    assert_eq!(text, "ID  TITLE\na   Alpha\n");
}

#[test]
fn agenda_entry_row_includes_countdown_column() {
    let header = AgendaEntry::header();
    assert_eq!(header, &["TIME", "IN", "STATUS", "ID", "TITLE"]);
}

const ABS_PATH_A: &str = "/bin/echo";
const ABS_PATH_B: &str = "/bin/true";

fn enabled_with(allow: &[&str]) -> AutomationConfig {
    AutomationConfig {
        enabled: true,
        allowed_executables: allow.iter().map(|s| (*s).to_owned()).collect(),
        ..AutomationConfig::default()
    }
}

#[test]
fn authorize_run_allows_absolute_allowlisted_program() {
    let config = enabled_with(&[ABS_PATH_A]);
    assert!(authorize_run(&config, &[ABS_PATH_A.to_owned(), "hi".to_owned()]).is_ok());
}

#[test]
fn authorize_run_refuses_when_disabled() {
    assert_eq!(
        authorize_run(&AutomationConfig::default(), &[ABS_PATH_A.to_owned()]),
        Err("automation is disabled".to_owned())
    );
}

#[test]
fn authorize_run_refuses_empty_argv() {
    assert!(
        authorize_run(&enabled_with(&[]), &[])
            .unwrap_err()
            .contains("empty run command argv")
    );
}

#[test]
fn authorize_run_refuses_relative_program() {
    assert!(
        authorize_run(&enabled_with(&["echo"]), &["echo".to_owned()])
            .unwrap_err()
            .contains("executable path is not absolute")
    );
}

#[test]
fn authorize_run_refuses_unlisted_program() {
    assert!(
        authorize_run(&enabled_with(&[ABS_PATH_B]), &[ABS_PATH_A.to_owned()])
            .unwrap_err()
            .contains("executable not in allowlist")
    );
}

#[test]
fn cap_tail_keeps_only_most_recent_bytes() {
    let mut buf = b"0123456789".to_vec();
    cap_tail(&mut buf, 4);
    assert_eq!(buf, b"6789");
    let mut small = b"ab".to_vec();
    cap_tail(&mut small, 4);
    assert_eq!(small, b"ab");
}

#[test]
fn tail_string_trims_and_escapes_newlines() {
    assert_eq!(tail_string(b"  a\nb\r\n  "), "a\\nb");
}
