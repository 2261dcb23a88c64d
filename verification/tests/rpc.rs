use ccplan::commands::{run_outcome, RunEnd};
use ccplan::config::ConfigError;
use ccplan::error::Error;
use ccplan::mcp::{edit_block_request, snooze_block_request, McpEditFields};
use ccplan::model::FieldParseError;
use ccplan::rpc::{
    serve_step, tool_call, tool_of, unknown_tool_message, LineReply, McpTool, RpcMethod, ServeAction,
    MAX_LINE_BYTES,
};

/// The replies to a stream of lines, as the server loop gives them: silent lines give none, and
/// a stop ends the stream.
fn replies(input: &str) -> Vec<LineReply> {
    let mut out = Vec::new();
    for line in input.split_inclusive('\n') {
        match serve_step(line) {
            ServeAction::Stop(reply) => {
                out.push(reply);
                break;
            }
            ServeAction::Skip => {}
            ServeAction::Reply(LineReply::Silent) => {}
            ServeAction::Reply(reply) => out.push(reply),
        }
    }
    out
}

fn req(id: i64, method: &str, params: &str) -> String {
    format!("{{\"jsonrpc\":\"2.0\",\"id\":{id},\"method\":\"{method}\",\"params\":{params}}}\n")
}

fn notif(method: &str) -> String {
    format!("{{\"jsonrpc\":\"2.0\",\"method\":\"{method}\"}}\n")
}

fn failure(reply: &LineReply) -> (String, i32, String) {
    match reply {
        LineReply::Failure { id, code, message } => (id.clone(), *code, message.clone()),
        other => panic!("expected an error reply, got {other:?}"),
    }
}

#[test]
fn notifications_get_no_response() {
    let mut input = String::new();
    input.push_str(&notif("notifications/initialized"));
    input.push_str(&notif("notifications/cancelled"));
    input.push_str(&req(1, "ping", "{}"));
    let out = replies(&input);
    assert_eq!(out.len(), 1, "only ping gets a response");
    assert_eq!(
        out[0],
        LineReply::Run { id: "1".to_owned(), method: RpcMethod::Ping, params: Some("{}".to_owned()) }
    );
}

#[test]
fn unknown_method_returns_error_code_32601() {
    let out = replies(&req(1, "no/such/method", "{}"));
    assert_eq!(failure(&out[0]), ("1".to_owned(), -32601, "method not found: no/such/method".to_owned()));
}

#[test]
fn unknown_tool_name_returns_iserror_true() {
    let out = replies(&req(1, "tools/call", r#"{"name":"not_a_tool","arguments":{}}"#));
    let params = match &out[0] {
        LineReply::Run { method: RpcMethod::ToolsCall, params, .. } => params.clone(),
        other => panic!("expected a tool call, got {other:?}"),
    };
    let (name, arguments) = tool_call(&params).unwrap();
    assert_eq!(name, "not_a_tool");
    assert_eq!(arguments, "{}");
    assert_eq!(tool_of(&name), None);
}

#[test]
fn unknown_tool_returns_error() {
    let mut input = notif("notifications/initialized");
    input.push_str(&req(1, "tools/call", r#"{"name":"ccplan_fire","arguments":{}}"#));
    let out = replies(&input);
    assert_eq!(out.len(), 1);
    let params = match &out[0] {
        LineReply::Run { params, .. } => params.clone(),
        other => panic!("expected a tool call, got {other:?}"),
    };
    let (name, _) = tool_call(&params).unwrap();
    assert_eq!(tool_of(&name), None);
    assert!(unknown_tool_message(&name).contains("unknown tool"));
    assert_eq!(unknown_tool_message(&name), "unknown tool: ccplan_fire");
}

#[test]
fn malformed_json_line_returns_parse_error() {
    let out = replies("this is not json\n");
    let (id, code, message) = failure(&out[0]);
    assert_eq!(id, "null");
    assert_eq!(code, -32700);
    let expected = serde_json::from_str::<serde_json::Value>("this is not json").unwrap_err().to_string();
    assert_eq!(message, format!("parse error: {expected}"));
}

#[test]
fn empty_lines_are_ignored() {
    let input = format!("\n\n\n{}", req(1, "ping", "{}"));
    let out = replies(&input);
    assert_eq!(out.len(), 1);
    assert!(matches!(&out[0], LineReply::Run { id, .. } if id == "1"));
    assert_eq!(serve_step("\r\n"), ServeAction::Skip);
}

#[test]
fn eof_causes_clean_shutdown() {
    assert!(replies("").is_empty());
}

#[test]
fn tools_call_without_name_returns_invalid_params() {
    let out = replies(&req(1, "tools/call", r#"{"arguments":{}}"#));
    let params = match &out[0] {
        LineReply::Run { method: RpcMethod::ToolsCall, params, .. } => params.clone(),
        other => panic!("expected a tool call, got {other:?}"),
    };
    assert_eq!(tool_call(&params), Err("missing tool name".to_owned()));
    assert_eq!(tool_call(&None), Err("missing tool name".to_owned()));
}

#[test]
fn request_with_null_id_is_treated_as_notification() {
    let input = format!("{}\n{}", r#"{"jsonrpc":"2.0","id":null,"method":"ping"}"#, req(1, "ping", "{}"));
    let out = replies(&input);
    assert_eq!(out.len(), 1);
    assert!(matches!(&out[0], LineReply::Run { id, .. } if id == "1"));
}

#[test]
fn missing_method_field_returns_invalid_request() {
    let out = replies("{\"jsonrpc\":\"2.0\",\"id\":1}\n");
    assert_eq!(failure(&out[0]), ("1".to_owned(), -32600, "invalid request: missing method".to_owned()));
}

#[test]
fn line_too_large_returns_error_and_closes_connection() {
    let oversized = "x".repeat(MAX_LINE_BYTES as usize + 1) + "\n";
    let input = format!("{oversized}{}", req(1, "ping", "{}"));
    let out = replies(&input);
    assert_eq!(out.len(), 1);
    assert_eq!(failure(&out[0]), ("null".to_owned(), -32700, "request line too large".to_owned()));
}

#[test]
fn line_at_the_limit_is_still_read() {
    // Two-byte characters count twice: this line is one byte under the limit with its newline.
    let body = "é".repeat((MAX_LINE_BYTES as usize - 1) / 2);
    let line = format!("{body}\n");
    assert_eq!(line.len(), MAX_LINE_BYTES as usize - 1);
    assert!(matches!(serve_step(&line), ServeAction::Reply(_)));
    let over = format!("{body}é\n");
    assert!(matches!(serve_step(&over), ServeAction::Stop(_)));
}

#[test]
fn string_ids_are_echoed_as_json_text() {
    let out = replies("{\"id\":\"abc\",\"method\":\"tools/list\"}\n");
    assert_eq!(
        out[0],
        LineReply::Run { id: "\"abc\"".to_owned(), method: RpcMethod::ToolsList, params: None }
    );
    let out = replies("{\"id\":2,\"method\":\"initialize\"}\n");
    assert!(matches!(&out[0], LineReply::Run { method: RpcMethod::Initialize, .. }));
}

#[test]
fn tool_call_without_arguments_passes_null() {
    let params = Some(r#"{"name":"ccplan_list_now"}"#.to_owned());
    assert_eq!(tool_call(&params), Ok(("ccplan_list_now".to_owned(), "null".to_owned())));
}

#[test]
fn every_offered_tool_has_its_name() {
    let names = [
        ("ccplan_plan_day", McpTool::PlanDay),
        ("ccplan_apply", McpTool::Apply),
        ("ccplan_show_plan", McpTool::ShowPlan),
        ("ccplan_list_now", McpTool::ListNow),
        ("ccplan_list_next", McpTool::ListNext),
        ("ccplan_show_agenda", McpTool::ShowAgenda),
        ("ccplan_add_block", McpTool::AddBlock),
        ("ccplan_add_reminder", McpTool::AddReminder),
        ("ccplan_mark_block", McpTool::MarkBlock),
        ("ccplan_edit_block", McpTool::EditBlock),
        ("ccplan_remove_block", McpTool::RemoveBlock),
        ("ccplan_snooze_block", McpTool::SnoozeBlock),
        ("ccplan_save_template", McpTool::SaveTemplate),
        ("ccplan_list_templates", McpTool::ListTemplates),
        ("ccplan_apply_template", McpTool::ApplyTemplate),
        ("ccplan_fire_log", McpTool::FireLog),
    ];
    for (name, tool) in names {
        assert_eq!(tool_of(name), Some(tool));
    }
    assert_eq!(tool_of("ccplan_completions"), None);
}

#[test]
fn config_error_messages_name_path_and_cause() {
    let parse = ConfigError::Parse { path: "/c/config.toml".to_owned(), message: "bad key".to_owned() };
    assert_eq!(parse.message(), "config parse error at `/c/config.toml`: bad key");
    let io = ConfigError::Io { path: "/c".to_owned(), message: "Is a directory".to_owned() };
    assert_eq!(io.message(), "config I/O error at `/c`: Is a directory");
}

#[test]
fn run_outcomes_render_each_ending() {
    assert_eq!(run_outcome(&RunEnd::Success), "success");
    assert_eq!(run_outcome(&RunEnd::Exit(2)), "failed:exit=2");
    assert_eq!(run_outcome(&RunEnd::Exit(-1)), "failed:exit=-1");
    assert_eq!(run_outcome(&RunEnd::Exit(i32::MIN)), format!("failed:exit={}", i32::MIN));
    assert_eq!(run_outcome(&RunEnd::Signal), "failed:signal");
    assert_eq!(run_outcome(&RunEnd::Timeout), "timeout");
    assert_eq!(run_outcome(&RunEnd::WaitFailed("gone".to_owned())), "error:gone");
    assert_eq!(run_outcome(&RunEnd::SpawnFailed("not found".to_owned())), "failed-to-spawn:not found");
}

fn edit_fields(duration: Option<&str>, notify: Option<&str>) -> McpEditFields {
    McpEditFields {
        id: Some("focus".to_owned()),
        date: None,
        title: None,
        start: None,
        end: None,
        duration: duration.map(str::to_owned),
        notify: notify.map(str::to_owned),
        run: None,
    }
}

#[test]
fn refused_durations_report_their_text_or_seconds() {
    let r = edit_block_request(edit_fields(Some("5x"), None));
    assert!(matches!(r, Err(Error::Field(FieldParseError::Duration { ref value })) if value == "5x"));
    let r = edit_block_request(edit_fields(Some("25h"), None));
    assert!(matches!(r, Err(Error::Field(FieldParseError::Duration { ref value })) if value == "90000"));
    let r = edit_block_request(edit_fields(None, Some("30h")));
    assert!(matches!(r, Err(Error::Field(FieldParseError::Duration { ref value })) if value == "108000"));
    let r = snooze_block_request(Some("focus".to_owned()), Some("soon".to_owned()), None);
    assert!(matches!(r, Err(Error::Field(FieldParseError::Duration { ref value })) if value == "soon"));
}
