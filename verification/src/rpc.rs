//! The JSON-RPC side of the agent tool server: how one request line is read and what it is
//! answered. The server reads newline-delimited JSON-RPC 2.0 requests; reading and writing the
//! lines and running the tools is left to the caller.

use vstd::prelude::*;

use crate::model::opt_text_view;
use crate::text::{chars_eq, chars_of, concat2, string_of};

verus! {

/// The longest request line the server reads, in bytes (4 MiB).
pub const MAX_LINE_BYTES: u64 = 4194304;

/// The bytes a character takes in UTF-8 (std `char::len_utf8`).
pub open spec fn utf8_width(c: char) -> nat {
    if (c as u32) < 0x80 {
        1
    } else if (c as u32) < 0x800 {
        2
    } else if (c as u32) < 0x10000 {
        3
    } else {
        4
    }
}

/// The bytes a text takes in UTF-8.
pub open spec fn utf8_size(s: Seq<char>) -> nat
    decreases s.len(),
{
    if s.len() == 0 {
        0
    } else {
        utf8_size(s.drop_last()) + utf8_width(s.last())
    }
}

proof fn lemma_utf8_size_prefix(s: Seq<char>, k: int)
    requires
        0 <= k <= s.len(),
    ensures
        utf8_size(s.take(k)) <= utf8_size(s),
    decreases s.len(),
{
    if k < s.len() {
        assert(s.drop_last().take(k) == s.take(k));
        lemma_utf8_size_prefix(s.drop_last(), k);
    } else {
        assert(s.take(k) == s);
    }
}

fn char_width(c: char) -> (r: u64)
    ensures
        r == utf8_width(c),
{
    let code = c as u32;
    if code < 0x80 {
        1
    } else if code < 0x800 {
        2
    } else if code < 0x10000 {
        3
    } else {
        4
    }
}

/// Whether a line takes more than the longest line's bytes in UTF-8.
fn too_large(line: &[char]) -> (r: bool)
    ensures
        r == (utf8_size(line@) > MAX_LINE_BYTES),
{
    let mut total: u64 = 0;
    let mut i: usize = 0;
    while i < line.len()
        invariant
            i <= line@.len(),
            total == utf8_size(line@.take(i as int)),
            total <= MAX_LINE_BYTES,
        decreases line.len() - i,
    {
        assert(line@.take(i as int + 1).drop_last() == line@.take(i as int));
        total = total + char_width(line[i]);
        i = i + 1;
        if total > MAX_LINE_BYTES {
            proof {
                lemma_utf8_size_prefix(line@, i as int);
            }
            return true;
        }
    }
    assert(line@.take(line@.len() as int) == line@);
    false
}

/// A line without its trailing newline and carriage-return characters.
pub open spec fn line_body(s: Seq<char>) -> Seq<char>
    decreases s.len(),
{
    if s.len() > 0 && (s.last() == '\n' || s.last() == '\r') {
        line_body(s.drop_last())
    } else {
        s
    }
}

fn trim_line_end(line: &[char]) -> (r: Vec<char>)
    ensures
        r@ == line_body(line@),
{
    let mut k: usize = line.len();
    assert(line@.take(k as int) == line@);
    while k > 0 && (line[k - 1] == '\n' || line[k - 1] == '\r')
        invariant
            k <= line@.len(),
            line_body(line@) == line_body(line@.take(k as int)),
        decreases k,
    {
        assert(line@.take(k as int).drop_last() == line@.take(k as int - 1));
        k = k - 1;
    }
    let mut out: Vec<char> = Vec::new();
    let mut i: usize = 0;
    while i < k
        invariant
            i <= k <= line@.len(),
            out@ == line@.take(i as int),
        decreases k - i,
    {
        assert(line@.take(i as int + 1) == line@.take(i as int).push(line@[i as int]));
        out.push(line[i]);
        i = i + 1;
    }
    out
}

/// What `serde_json` makes of a request line: its error message when the line is not JSON;
/// otherwise the `id` member as JSON text when there is one, the `method` member when it is a
/// string, and the `params` member as JSON text when there is one.
pub uninterp spec fn json_request(line: Seq<char>) -> Result<(Option<Seq<char>>, Option<Seq<char>>, Option<Seq<char>>), Seq<char>>;

/// What `serde_json` makes of the params of a `tools/call` request: `None` when they are not
/// JSON; otherwise the `name` member when it is a string, and the `arguments` member as JSON text
/// when there is one.
pub uninterp spec fn json_tool_params(params: Seq<char>) -> Option<(Option<Seq<char>>, Option<Seq<char>>)>;

/// A request line as `serde_json` reads it: the id and params as JSON text, the method name.
#[derive(Debug, Clone, PartialEq, Eq)]
pub struct RpcLine {
    pub id: Option<String>,
    pub method: Option<String>,
    pub params: Option<String>,
}

pub open spec fn rpc_line_view(r: Result<RpcLine, String>) -> Result<(Option<Seq<char>>, Option<Seq<char>>, Option<Seq<char>>), Seq<char>> {
    match r {
        Ok(l) => Ok((opt_text_view(l.id), opt_text_view(l.method), opt_text_view(l.params))),
        Err(m) => Err(m@),
    }
}

/// Reads a request line with `serde_json::from_str` into a `serde_json::Value`, then takes its
/// `id` and `params` members (`Value::get`, rendered with `Display`) and its `method` member when
/// it is a string (`Value::as_str`).
///
/// Trusted: what comes back is named (`json_request`); it depends on the line alone.
#[verifier::external_body]
pub(crate) fn parse_request_line(line: &str) -> (r: Result<RpcLine, String>)
    ensures
        rpc_line_view(r) == json_request(line@),
{
    let msg: serde_json::Value = match serde_json::from_str(line) {
        Ok(msg) => msg,
        Err(error) => return Err(error.to_string()),
    };
    Ok(RpcLine {
        id: msg.get("id").map(serde_json::Value::to_string),
        method: msg.get("method").and_then(serde_json::Value::as_str).map(str::to_owned),
        params: msg.get("params").map(serde_json::Value::to_string),
    })
}

/// Reads the params of a `tools/call` request with `serde_json::from_str`, then takes its `name`
/// member when it is a string and its `arguments` member rendered with `Display`.
///
/// Trusted: what comes back is named (`json_tool_params`); it depends on the text alone.
#[verifier::external_body]
fn parse_tool_params(params: &str) -> (r: Option<(Option<String>, Option<String>)>)
    ensures
        match r {
            Some((name, arguments)) => json_tool_params(params@) == Some((opt_text_view(name), opt_text_view(arguments))),
            None => json_tool_params(params@) is None,
        },
{
    let value: serde_json::Value = match serde_json::from_str(params) {
        Ok(value) => value,
        Err(_) => return None,
    };
    let name = value.get("name").and_then(serde_json::Value::as_str).map(str::to_owned);
    Some((name, value.get("arguments").map(serde_json::Value::to_string)))
}

/// The methods the server answers.
#[derive(Debug, Clone, Copy, PartialEq, Eq, Structural)]
pub enum RpcMethod {
    Initialize,
    ToolsList,
    ToolsCall,
    Ping,
}

/// The method a name stands for.
pub open spec fn rpc_method(name: Seq<char>) -> Option<RpcMethod> {
    if name == "initialize"@ {
        Some(RpcMethod::Initialize)
    } else if name == "tools/list"@ {
        Some(RpcMethod::ToolsList)
    } else if name == "tools/call"@ {
        Some(RpcMethod::ToolsCall)
    } else if name == "ping"@ {
        Some(RpcMethod::Ping)
    } else {
        None
    }
}

fn text_is(s: &str, lit: &str) -> (r: bool)
    ensures
        r == (s@ == lit@),
{
    let a = chars_of(s);
    let b = chars_of(lit);
    chars_eq(a.as_slice(), b.as_slice())
}

fn method_of(name: &str) -> (r: Option<RpcMethod>)
    ensures
        r == rpc_method(name@),
{
    if text_is(name, "initialize") {
        Some(RpcMethod::Initialize)
    } else if text_is(name, "tools/list") {
        Some(RpcMethod::ToolsList)
    } else if text_is(name, "tools/call") {
        Some(RpcMethod::ToolsCall)
    } else if text_is(name, "ping") {
        Some(RpcMethod::Ping)
    } else {
        None
    }
}

/// What a request line is answered.
#[derive(Debug, Clone, PartialEq, Eq)]
pub enum LineReply {
    /// A notification: nothing is written back.
    Silent,
    /// An error response: the id as JSON text, the JSON-RPC error code and its message.
    Failure { id: String, code: i32, message: String },
    /// A method to run; its response carries the id (JSON text). The params are kept as JSON text.
    Run { id: String, method: RpcMethod, params: Option<String> },
}

/// `r` is the error response with id text `id`, code `code` and message `message`.
pub open spec fn is_failure(r: LineReply, id: Seq<char>, code: int, message: Seq<char>) -> bool {
    r matches LineReply::Failure { id: i, code: c, message: m } && i@ == id && c == code && m@ == message
}

/// What a line is answered, given what `serde_json` made of it: a parse error (-32700) with a
/// null id; nothing for a request without an id or with a null one; a missing method (-32600);
/// an unknown method (-32601); otherwise the method to run.
pub open spec fn line_reply_is(r: LineReply, parsed: Result<(Option<Seq<char>>, Option<Seq<char>>, Option<Seq<char>>), Seq<char>>) -> bool {
    match parsed {
        Err(e) => is_failure(r, "null"@, -32700, "parse error: "@ + e),
        Ok((id, method, params)) => match id {
            None => r is Silent,
            Some(i) => if i == "null"@ {
                r is Silent
            } else {
                match method {
                    None => is_failure(r, i, -32600, "invalid request: missing method"@),
                    Some(m) => match rpc_method(m) {
                        None => is_failure(r, i, -32601, "method not found: "@ + m),
                        Some(k) => r matches LineReply::Run { id: ri, method: rk, params: rp }
                            && ri@ == i && rk == k && opt_text_view(rp) == params,
                    },
                }
            },
        },
    }
}

fn copy_opt(o: &Option<String>) -> (r: Option<String>)
    ensures
        opt_text_view(r) == opt_text_view(*o),
{
    match o {
        Some(s) => Some(crate::text::copy_string(s)),
        None => None,
    }
}

/// Decides what a parsed request line is answered.
pub fn line_reply(parsed: Result<RpcLine, String>) -> (r: LineReply)
    ensures
        line_reply_is(r, rpc_line_view(parsed)),
{
    let line = match parsed {
        Err(e) => {
            return LineReply::Failure {
                id: "null".to_owned(),
                code: -32700,
                message: concat2("parse error: ", e.as_str()),
            };
        },
        Ok(line) => line,
    };
    let id = match &line.id {
        None => return LineReply::Silent,
        Some(id) => id,
    };
    if text_is(id.as_str(), "null") {
        return LineReply::Silent;
    }
    let method = match &line.method {
        None => {
            return LineReply::Failure {
                id: crate::text::copy_string(id),
                code: -32600,
                message: "invalid request: missing method".to_owned(),
            };
        },
        Some(m) => m,
    };
    match method_of(method.as_str()) {
        None => LineReply::Failure {
            id: crate::text::copy_string(id),
            code: -32601,
            message: concat2("method not found: ", method.as_str()),
        },
        Some(k) => LineReply::Run { id: crate::text::copy_string(id), method: k, params: copy_opt(&line.params) },
    }
}

/// What the server does with one line read.
#[derive(Debug, Clone, PartialEq, Eq)]
pub enum ServeAction {
    /// Write the reply, then stop reading.
    Stop(LineReply),
    /// Read the next line.
    Skip,
    /// Answer the line as the reply says, then read the next one.
    Reply(LineReply),
}

/// Handles one line as read, newline included: a line over the byte limit stops the server with
/// a -32700 "request line too large" error; a line that is empty once its trailing newline and
/// carriage-return characters are dropped is skipped; any other line is parsed and answered.
pub fn serve_step(line: &str) -> (r: ServeAction)
    ensures
        utf8_size(line@) > MAX_LINE_BYTES ==> (r matches ServeAction::Stop(s) && is_failure(
            s,
            "null"@,
            -32700,
            "request line too large"@,
        )),
        utf8_size(line@) <= MAX_LINE_BYTES && line_body(line@).len() == 0 ==> r is Skip,
        utf8_size(line@) <= MAX_LINE_BYTES && line_body(line@).len() > 0 ==> (r matches ServeAction::Reply(reply)
            && line_reply_is(reply, json_request(line_body(line@)))),
{
    let chars = chars_of(line);
    if too_large(chars.as_slice()) {
        return ServeAction::Stop(LineReply::Failure {
            id: "null".to_owned(),
            code: -32700,
            message: "request line too large".to_owned(),
        });
    }
    let body = trim_line_end(chars.as_slice());
    if body.len() == 0 {
        return ServeAction::Skip;
    }
    let text = string_of(body.as_slice());
    ServeAction::Reply(line_reply(parse_request_line(text.as_str())))
}

/// The tool a `tools/call` request names, with its arguments as JSON text (`null` when it has
/// none), or the -32602 error message when the params name no tool.
pub open spec fn tool_call_is(r: Result<(String, String), String>, params: Option<Seq<char>>) -> bool {
    match params {
        Some(p) => match json_tool_params(p) {
            Some((Some(name), arguments)) => r matches Ok((n, a)) && n@ == name && a@ == match arguments {
                Some(t) => t,
                None => "null"@,
            },
            _ => r matches Err(m) && m@ == "missing tool name"@,
        },
        None => r matches Err(m) && m@ == "missing tool name"@,
    }
}

/// Reads the tool name and arguments of a `tools/call` request from its params.
pub fn tool_call(params: &Option<String>) -> (r: Result<(String, String), String>)
    ensures
        tool_call_is(r, opt_text_view(*params)),
{
    let p = match params {
        Some(p) => p,
        None => return Err("missing tool name".to_owned()),
    };
    match parse_tool_params(p.as_str()) {
        Some((Some(name), arguments)) => {
            let arguments = match arguments {
                Some(a) => a,
                None => "null".to_owned(),
            };
            Ok((name, arguments))
        },
        _ => Err("missing tool name".to_owned()),
    }
}

/// The tools the server offers.
#[derive(Debug, Clone, Copy, PartialEq, Eq, Structural)]
pub enum McpTool {
    PlanDay,
    Apply,
    ShowPlan,
    ListNow,
    ListNext,
    ShowAgenda,
    AddBlock,
    AddReminder,
    MarkBlock,
    EditBlock,
    RemoveBlock,
    SnoozeBlock,
    SaveTemplate,
    ListTemplates,
    ApplyTemplate,
    FireLog,
}

/// The tool a name stands for.
pub open spec fn mcp_tool(name: Seq<char>) -> Option<McpTool> {
    if name == "ccplan_plan_day"@ {
        Some(McpTool::PlanDay)
    } else if name == "ccplan_apply"@ {
        Some(McpTool::Apply)
    } else if name == "ccplan_show_plan"@ {
        Some(McpTool::ShowPlan)
    } else if name == "ccplan_list_now"@ {
        Some(McpTool::ListNow)
    } else if name == "ccplan_list_next"@ {
        Some(McpTool::ListNext)
    } else if name == "ccplan_show_agenda"@ {
        Some(McpTool::ShowAgenda)
    } else if name == "ccplan_add_block"@ {
        Some(McpTool::AddBlock)
    } else if name == "ccplan_add_reminder"@ {
        Some(McpTool::AddReminder)
    } else if name == "ccplan_mark_block"@ {
        Some(McpTool::MarkBlock)
    } else if name == "ccplan_edit_block"@ {
        Some(McpTool::EditBlock)
    } else if name == "ccplan_remove_block"@ {
        Some(McpTool::RemoveBlock)
    } else if name == "ccplan_snooze_block"@ {
        Some(McpTool::SnoozeBlock)
    } else if name == "ccplan_save_template"@ {
        Some(McpTool::SaveTemplate)
    } else if name == "ccplan_list_templates"@ {
        Some(McpTool::ListTemplates)
    } else if name == "ccplan_apply_template"@ {
        Some(McpTool::ApplyTemplate)
    } else if name == "ccplan_fire_log"@ {
        Some(McpTool::FireLog)
    } else {
        None
    }
}

/// The tool a `tools/call` names, if the server offers it.
pub fn tool_of(name: &str) -> (r: Option<McpTool>)
    ensures
        r == mcp_tool(name@),
{
    if text_is(name, "ccplan_plan_day") {
        Some(McpTool::PlanDay)
    } else if text_is(name, "ccplan_apply") {
        Some(McpTool::Apply)
    } else if text_is(name, "ccplan_show_plan") {
        Some(McpTool::ShowPlan)
    } else if text_is(name, "ccplan_list_now") {
        Some(McpTool::ListNow)
    } else if text_is(name, "ccplan_list_next") {
        Some(McpTool::ListNext)
    } else if text_is(name, "ccplan_show_agenda") {
        Some(McpTool::ShowAgenda)
    } else if text_is(name, "ccplan_add_block") {
        Some(McpTool::AddBlock)
    } else if text_is(name, "ccplan_add_reminder") {
        Some(McpTool::AddReminder)
    } else if text_is(name, "ccplan_mark_block") {
        Some(McpTool::MarkBlock)
    } else if text_is(name, "ccplan_edit_block") {
        Some(McpTool::EditBlock)
    } else if text_is(name, "ccplan_remove_block") {
        Some(McpTool::RemoveBlock)
    } else if text_is(name, "ccplan_snooze_block") {
        Some(McpTool::SnoozeBlock)
    } else if text_is(name, "ccplan_save_template") {
        Some(McpTool::SaveTemplate)
    } else if text_is(name, "ccplan_list_templates") {
        Some(McpTool::ListTemplates)
    } else if text_is(name, "ccplan_apply_template") {
        Some(McpTool::ApplyTemplate)
    } else if text_is(name, "ccplan_fire_log") {
        Some(McpTool::FireLog)
    } else {
        None
    }
}

/// The message of a call to a tool the server does not offer.
pub fn unknown_tool_message(name: &str) -> (r: String)
    ensures
        r@ == "unknown tool: "@ + name@,
{
    concat2("unknown tool: ", name)
}

} // verus!
