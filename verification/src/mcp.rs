//! The decisions of the tool server: error codes and hints, and warnings about commands that
//! will not run.

use vstd::prelude::*;

use crate::civil::{jiff_date_parse, PlanDate};
use crate::commands::{
    decode_lossy, listed, paths_equal, plain_path, slug_block_id, slug_of, surely_unlisted, utf8_lossy,
};
use crate::config::AutomationConfig;
use crate::error::Error;
use crate::model::{
    clock_time_parse, duration_error_value, same_ignoring_ascii_case, duration_parse, opt_text_view, run_view, strings_view, valid_block_id, Block, BlockId,
    ClockTime, DurationSpec, FieldParseError, Lead, Plan, Run, Span, Status, TimeZoneName,
};
use crate::store::StoreError;
use crate::text::{chars_of, copy_string, decimal, decimal_chars, push_str, string_of};

verus! {

pub open spec fn history_conflict(e: Error) -> bool {
    e is HistoryConflict || (e matches Error::Store(s) && s is TerminalHistory)
}

fn is_history_conflict(e: &Error) -> (r: bool)
    ensures
        r == history_conflict(*e),
{
    match e {
        Error::HistoryConflict { .. } => true,
        Error::Store(StoreError::TerminalHistory { .. }) => true,
        _ => false,
    }
}

pub open spec fn error_code_text(e: Error) -> Seq<char> {
    if history_conflict(e) {
        "history_conflict"@
    } else {
        match e {
            Error::NotFound(_) => "not_found"@,
            Error::AutomationRefused(_) => "automation_refused"@,
            Error::Scheduler(_) => "scheduler_error"@,
            Error::Plan(_) => "plan_error"@,
            Error::Store(StoreError::Locked) => "store_locked"@,
            _ => "internal_error"@,
        }
    }
}

/// The machine-readable code of an error in a tool result.
pub fn error_code(e: &Error) -> (r: &'static str)
    ensures
        r@ == error_code_text(*e),
{
    if is_history_conflict(e) {
        return "history_conflict";
    }
    match e {
        Error::NotFound(_) => "not_found",
        Error::AutomationRefused(_) => "automation_refused",
        Error::Scheduler(_) => "scheduler_error",
        Error::Plan(_) => "plan_error",
        Error::Store(StoreError::Locked) => "store_locked",
        _ => "internal_error",
    }
}

pub open spec fn error_hint_text(e: Error) -> Seq<char> {
    if history_conflict(e) {
        "pass override_history: true to replace terminal blocks"@
    } else {
        match e {
            Error::NotFound(_) => "use ccplan_plan_day to create a plan first"@,
            Error::AutomationRefused(_) => "enable automation in config and allowlist the executable"@,
            Error::Scheduler(_) => "run ccplan doctor to diagnose the scheduler"@,
            Error::Store(StoreError::Locked) => "another writer holds the store lock; retry in a moment"@,
            _ => "check the error message for details"@,
        }
    }
}

/// What to do about an error, for a tool result.
pub fn error_hint(e: &Error) -> (r: &'static str)
    ensures
        r@ == error_hint_text(*e),
{
    if is_history_conflict(e) {
        return "pass override_history: true to replace terminal blocks";
    }
    match e {
        Error::NotFound(_) => "use ccplan_plan_day to create a plan first",
        Error::AutomationRefused(_) => "enable automation in config and allowlist the executable",
        Error::Scheduler(_) => "run ccplan doctor to diagnose the scheduler",
        Error::Store(StoreError::Locked) => "another writer holds the store lock; retry in a moment",
        _ => "check the error message for details",
    }
}

pub open spec fn disabled_warning() -> Seq<char> {
    "WARNING: one or more blocks have run: commands, but automation is disabled; the commands will NOT execute at fire time (the notification will still fire). Enable automation in config to arm them."@
}

/// Joins texts with `, `.
pub open spec fn join_commas(v: Seq<Seq<char>>) -> Seq<char>
    decreases v.len(),
{
    if v.len() == 0 {
        Seq::empty()
    } else if v.len() == 1 {
        v[0]
    } else {
        join_commas(v.drop_last()) + ", "@ + v.last()
    }
}

pub open spec fn unlisted_warning(programs: Seq<Seq<char>>) -> Seq<char> {
    "WARNING: the following run: executables are not in the allowlist and will NOT execute at fire time (the notification will still fire): "@
        + join_commas(programs) + ". Add them to allowed_executables in config to arm them."@
}

/// The programs of the first `n` commands that the allowlist lacks, in order (empty argument
/// lists skipped).
pub open spec fn unlisted_programs(runs: Seq<Seq<Seq<char>>>, allowed: Seq<bool>, n: int) -> Seq<Seq<char>>
    decreases n,
{
    if n <= 0 {
        Seq::empty()
    } else {
        unlisted_programs(runs, allowed, n - 1) + if runs[n - 1].len() > 0 && !allowed[n - 1] {
            seq![runs[n - 1][0]]
        } else {
            Seq::empty()
        }
    }
}

/// The warning for commands under a policy, given for each command whether the allowlist holds
/// its program: none without commands, the disabled warning when automation is off, otherwise
/// the list of unlisted programs, or none when there is none.
pub open spec fn warning_for(enabled: bool, runs: Seq<Seq<Seq<char>>>, allowed: Seq<bool>) -> Option<Seq<char>> {
    if runs.len() == 0 {
        None
    } else if !enabled {
        Some(disabled_warning())
    } else {
        let u = unlisted_programs(runs, allowed, runs.len() as int);
        if u.len() == 0 {
            None
        } else {
            Some(unlisted_warning(u))
        }
    }
}

/// Decides the warning from the policy's switch and, for each command, whether the allowlist
/// holds its program.
pub fn run_warning_decision(enabled: bool, runs: &[Vec<String>], allowed: &[bool]) -> (r: Option<String>)
    requires
        allowed@.len() == runs@.len(),
    ensures
        opt_text_view(r) == warning_for(enabled, runs_view(runs@), allowed@),
{
    if runs.len() == 0 {
        return None;
    }
    if !enabled {
        return Some("WARNING: one or more blocks have run: commands, but automation is disabled; the commands will NOT execute at fire time (the notification will still fire). Enable automation in config to arm them.".to_owned());
    }
    let ghost rv = runs_view(runs@);
    let mut joined: Vec<char> = Vec::new();
    let mut count: usize = 0;
    let mut i: usize = 0;
    while i < runs.len()
        invariant
            i <= runs@.len(),
            allowed@.len() == runs@.len(),
            rv == runs_view(runs@),
            count == unlisted_programs(rv, allowed@, i as int).len(),
            count <= i,
            joined@ == join_commas(unlisted_programs(rv, allowed@, i as int)),
        decreases runs.len() - i,
    {
        let ghost before = unlisted_programs(rv, allowed@, i as int);
        if runs[i].len() > 0 && !allowed[i] {
            let program = runs[i][0].as_str();
            assert(rv[i as int][0] == program@);
            if count > 0 {
                push_str(&mut joined, ", ");
            }
            push_str(&mut joined, program);
            proof {
                let after = unlisted_programs(rv, allowed@, i + 1);
                assert(after == before.push(program@));
                assert(after.drop_last() == before);
            }
            count = count + 1;
        } else {
            proof {
                assert(unlisted_programs(rv, allowed@, i + 1) == before + Seq::<Seq<char>>::empty());
                assert(before + Seq::<Seq<char>>::empty() == before);
            }
        }
        i = i + 1;
    }
    if count == 0 {
        return None;
    }
    let mut m: Vec<char> = Vec::new();
    push_str(&mut m, "WARNING: the following run: executables are not in the allowlist and will NOT execute at fire time (the notification will still fire): ");
    crate::text::push_all(&mut m, joined.as_slice());
    push_str(&mut m, ". Add them to allowed_executables in config to arm them.");
    Some(string_of(m.as_slice()))
}

/// The reply to `add_block`: what the add (and apply) commands printed, or `block added` when
/// they printed nothing, then the run warning, if any, on a line of its own.
pub fn add_block_reply(output: &[u8], warning: Option<String>) -> (r: String)
    ensures
        r@ == (if utf8_lossy(output@).len() == 0 { "block added"@ } else { utf8_lossy(output@) })
            + match warning {
                Some(w) => w@ + "\n"@,
                None => Seq::empty(),
            },
{
    let text = decode_lossy(output);
    let mut out = chars_of(text.as_str());
    if out.len() == 0 {
        push_str(&mut out, "block added");
    }
    let ghost head = out@;
    match warning {
        Some(w) => {
            push_str(&mut out, w.as_str());
            push_str(&mut out, "\n");
        },
        None => {
            assert(out@ == head + Seq::<char>::empty());
        },
    }
    string_of(out.as_slice())
}

/// A warning when some blocks' commands would not run at fire time: `None` with no commands;
/// the disabled warning when automation is off; otherwise the programs the allowlist lacks
/// (checked with the platform's path equality), or `None` when it lacks none.
pub fn run_authorization_warning(automation: &AutomationConfig, runs: &[Vec<String>]) -> (r: Option<String>)
    ensures
        exists|allowed: Seq<bool>|
            allowed.len() == runs@.len()
            && (forall|i: int| 0 <= i < runs@.len() && runs@[i]@.len() > 0
                && listed(automation.allowed_executables@, runs@[i]@[0]@) ==> #[trigger] allowed[i])
            && (forall|i: int| 0 <= i < runs@.len() && runs@[i]@.len() > 0
                && surely_unlisted(automation.allowed_executables@, runs@[i]@[0]@) ==> !#[trigger] allowed[i])
            && opt_text_view(r) == #[trigger] warning_for(automation.enabled, runs_view(runs@), allowed),
{
    let mut allowed: Vec<bool> = Vec::new();
    let mut i: usize = 0;
    while i < runs.len()
        invariant
            i <= runs@.len(),
            allowed@.len() == i,
            forall|j: int| 0 <= j < i && runs@[j]@.len() > 0
                && listed(automation.allowed_executables@, runs@[j]@[0]@) ==> #[trigger] allowed@[j],
            forall|j: int| 0 <= j < i && runs@[j]@.len() > 0
                && surely_unlisted(automation.allowed_executables@, runs@[j]@[0]@) ==> !#[trigger] allowed@[j],
        decreases runs.len() - i,
    {
        let mut found = false;
        if runs[i].len() > 0 {
            let program = runs[i][0].as_str();
            let mut k: usize = 0;
            while k < automation.allowed_executables.len()
                invariant
                    k <= automation.allowed_executables@.len(),
                    program@ == runs@[i as int]@[0]@,
                    (exists|j: int| 0 <= j < k && #[trigger] automation.allowed_executables@[j]@ == program@) ==> found,
                    found ==> exists|j: int| 0 <= j < k && !(plain_path(#[trigger] automation.allowed_executables@[j]@)
                        && plain_path(program@) && automation.allowed_executables@[j]@ != program@),
                decreases automation.allowed_executables.len() - k,
            {
                if paths_equal(automation.allowed_executables[k].as_str(), program) {
                    found = true;
                }
                k = k + 1;
            }
        }
        let ghost a0 = allowed@;
        allowed.push(found);
        proof {
            assert forall|j: int| 0 <= j < i + 1 && runs@[j]@.len() > 0
                && listed(automation.allowed_executables@, runs@[j]@[0]@) implies #[trigger] allowed@[j] by {
                if j < i {
                    assert(allowed@[j] == a0[j]);
                }
            }
            assert forall|j: int| 0 <= j < i + 1 && runs@[j]@.len() > 0
                && surely_unlisted(automation.allowed_executables@, runs@[j]@[0]@) implies !#[trigger] allowed@[j] by {
                if j < i {
                    assert(allowed@[j] == a0[j]);
                }
            }
        }
        i = i + 1;
    }
    let r = run_warning_decision(automation.enabled, runs, allowed.as_slice());
    assert(opt_text_view(r) == warning_for(automation.enabled, runs_view(runs@), allowed@));
    r
}


// ── Tool arguments ─────────────────────────────────────────────────────────

/// The texts among a list of JSON values, in order (the values that are not strings dropped).
pub open spec fn texts_present(v: Seq<Option<String>>) -> Seq<Seq<char>>
    decreases v.len(),
{
    if v.len() == 0 {
        Seq::empty()
    } else {
        texts_present(v.drop_last()) + match v.last() {
            Some(t) => seq![t@],
            None => Seq::empty(),
        }
    }
}

/// Keeps the texts of a list of JSON values, dropping the values that are not strings.
pub fn present_texts(v: &Vec<Option<String>>) -> (r: Vec<String>)
    ensures
        strings_view(r@) == texts_present(v@),
{
    let mut out: Vec<String> = Vec::new();
    let mut i: usize = 0;
    while i < v.len()
        invariant
            i <= v@.len(),
            strings_view(out@) == texts_present(v@.take(i as int)),
        decreases v.len() - i,
    {
        assert(v@.take(i as int + 1).drop_last() == v@.take(i as int));
        if let Some(t) = &v[i] {
            out.push(copy_string(t));
        }
        assert(strings_view(out@) =~= texts_present(v@.take(i as int + 1)));
        i = i + 1;
    }
    assert(v@.take(v@.len() as int) == v@);
    out
}

/// The date a tool call names, when its text is a date (an unreadable date counts as none).
pub fn extract_date(date: &Option<String>) -> (r: Option<PlanDate>)
    ensures
        date is None ==> r is None,
        date matches Some(t) ==> match jiff_date_parse(t@) {
            Some(triple) => r matches Some(d) && d.triple() == triple,
            None => r is None,
        },
{
    match date {
        Some(t) => PlanDate::parse(t.as_str()),
        None => None,
    }
}

/// The fields of one block of a tool call, as its JSON object holds them: a text field is present
/// when the object holds a string there; a list keeps each element, as its text when it is one.
#[derive(Debug, Clone, PartialEq, Eq)]
pub struct McpBlockFields {
    pub title: Option<String>,
    pub start: Option<String>,
    pub end: Option<String>,
    pub duration: Option<String>,
    pub notify: Option<String>,
    pub id: Option<String>,
    pub tags: Vec<Option<String>>,
    pub run: Option<Vec<Option<String>>>,
}

/// What is wrong with the fields of a block, in the order the checks run.
pub enum McpBlockIssue {
    MissingTitle,
    MissingStart,
    BadStart,
    BadEnd,
    BadDuration,
    BothEnds,
    NoEnd,
    BadNotify,
    BadId,
    BadRun,
}

pub open spec fn duration_text_ok(t: Seq<char>) -> bool {
    duration_parse(t) matches Some(n) && 0 < n <= 86400
}

pub open spec fn lead_text_ok(t: Seq<char>) -> bool {
    duration_parse(t) matches Some(n) && n <= 86400
}

/// The block's id text: the one given, or the slug of the title.
pub open spec fn mcp_block_id_text(f: McpBlockFields) -> Seq<char> {
    match f.id {
        Some(i) => i@,
        None => slug_of(f.title->0@),
    }
}

/// The command of a block: the texts of its `run` list, when there are any.
pub open spec fn mcp_run_texts(f: McpBlockFields) -> Option<Seq<Seq<char>>> {
    match f.run {
        Some(a) => if texts_present(a@).len() > 0 {
            Some(texts_present(a@))
        } else {
            None
        },
        None => None,
    }
}

pub open spec fn mcp_block_issue(f: McpBlockFields) -> Option<McpBlockIssue> {
    if f.title is None {
        Some(McpBlockIssue::MissingTitle)
    } else if f.start is None {
        Some(McpBlockIssue::MissingStart)
    } else if clock_time_parse(f.start->0@) is None {
        Some(McpBlockIssue::BadStart)
    } else if f.end matches Some(e) && clock_time_parse(e@) is None {
        Some(McpBlockIssue::BadEnd)
    } else if f.duration matches Some(d) && !duration_text_ok(d@) {
        Some(McpBlockIssue::BadDuration)
    } else if f.end is Some && f.duration is Some {
        Some(McpBlockIssue::BothEnds)
    } else if f.end is None && f.duration is None {
        Some(McpBlockIssue::NoEnd)
    } else if f.notify matches Some(n) && !lead_text_ok(n@) {
        Some(McpBlockIssue::BadNotify)
    } else if !valid_block_id(mcp_block_id_text(f)) {
        Some(McpBlockIssue::BadId)
    } else if mcp_run_texts(f) matches Some(argv) && argv[0].len() == 0 {
        Some(McpBlockIssue::BadRun)
    } else {
        None
    }
}

/// `block[INDEX] TEXT`.
pub open spec fn block_message(index: nat, text: Seq<char>) -> Seq<char> {
    "block["@ + decimal(index) + "] "@ + text
}

/// The error a block issue is reported with.
pub open spec fn mcp_issue_reported(e: Error, issue: McpBlockIssue, f: McpBlockFields, index: nat) -> bool {
    match issue {
        McpBlockIssue::MissingTitle => e matches Error::Usage(m) && m@ == block_message(index, "missing required field 'title'"@),
        McpBlockIssue::MissingStart => e matches Error::Usage(m) && m@ == block_message(index, "missing required field 'start'"@),
        McpBlockIssue::BadStart => e matches Error::Field(FieldParseError::ClockTime { value }) && value@ == f.start->0@,
        McpBlockIssue::BadEnd => e matches Error::Field(FieldParseError::ClockTime { value }) && value@ == f.end->0@,
        McpBlockIssue::BadDuration => e matches Error::Field(FieldParseError::Duration { value })
            && value@ == duration_error_value(f.duration->0@),
        McpBlockIssue::BothEnds => e matches Error::Usage(m) && m@ == block_message(index, "must set exactly one of 'end' or 'duration'"@),
        McpBlockIssue::NoEnd => e matches Error::Usage(m) && m@ == block_message(index, "must set 'end' or 'duration'"@),
        McpBlockIssue::BadNotify => e matches Error::Field(FieldParseError::Duration { value })
            && value@ == duration_error_value(f.notify->0@),
        McpBlockIssue::BadId => e matches Error::Field(FieldParseError::BlockId { value }) && value@ == mcp_block_id_text(f),
        McpBlockIssue::BadRun => e == Error::Field(FieldParseError::Run),
    }
}

/// The pending block the fields of a tool call describe.
#[verifier::opaque]
pub open spec fn mcp_block_built(b: Block, f: McpBlockFields, default_lead: Lead) -> bool {
    &&& b.id@ == mcp_block_id_text(f)
    &&& b.title@ == f.title->0@
    &&& clock_time_parse(f.start->0@) == Some(b.start.spec_minutes())
    &&& match f.end {
        Some(e) => b.span matches Span::End(t) && clock_time_parse(e@) == Some(t.spec_minutes()),
        None => b.span matches Span::Duration(d) && duration_parse(f.duration->0@) == Some(d.spec_seconds()),
    }
    &&& match f.notify {
        Some(n) => duration_parse(n@) == Some(b.notify.spec_seconds()),
        None => b.notify == default_lead,
    }
    &&& strings_view(b.tags@) == texts_present(f.tags@)
    &&& b.status == Status::Pending
    &&& run_view(b.run) == mcp_run_texts(f)
    &&& b.recurrence is None
    &&& b.origin is None
    &&& b.after@.len() == 0
    &&& b.on_success@.len() == 0
    &&& b.on_failure@.len() == 0
    &&& b.on_missed@.len() == 0
    &&& b.retry is None
    &&& b.expect_by is None
    &&& b.approval is None
    &&& b.when is None
    &&& b.agent is None
}

fn usage_at(index: usize, text: &str) -> (r: Error)
    ensures
        r matches Error::Usage(m) && m@ == block_message(index as nat, text@),
{
    let mut m: Vec<char> = Vec::new();
    push_str(&mut m, "block[");
    let d = decimal_chars(index as u64);
    crate::text::push_all(&mut m, d.as_slice());
    push_str(&mut m, "] ");
    push_str(&mut m, text);
    Error::Usage(string_of(m.as_slice()))
}

/// Builds the block at `index` of a `plan_day` call: title and start required, exactly one of end
/// and duration, the lead or `default_lead`, the id or the title's slug, the texts of `tags`, and
/// the texts of `run` as its command when there are any.
#[verifier::spinoff_prover]
#[verifier::rlimit(40)]
pub fn parse_mcp_block(fields: McpBlockFields, index: usize, default_lead: Lead) -> (r: Result<Block, Error>)
    ensures
        r is Err <==> mcp_block_issue(fields) is Some,
        r matches Err(e) ==> mcp_issue_reported(e, mcp_block_issue(fields)->0, fields, index as nat),
        r matches Ok(b) ==> mcp_block_built(b, fields, default_lead),
{
    let ghost f = fields;
    let McpBlockFields { title, start, end, duration, notify, id, tags, run } = fields;
    let title = match title {
        Some(t) => t,
        None => {
            return Err(usage_at(index, "missing required field 'title'"));
        },
    };
    let start = match start {
        Some(s) => match ClockTime::parse(s.as_str()) {
            Ok(t) => t,
            Err(e) => {
                return Err(Error::Field(e));
            },
        },
        None => {
            return Err(usage_at(index, "missing required field 'start'"));
        },
    };
    let end = match &end {
        Some(s) => match ClockTime::parse(s.as_str()) {
            Ok(t) => Some(t),
            Err(e) => {
                return Err(Error::Field(e));
            },
        },
        None => None,
    };
    let duration = match &duration {
        Some(s) => match DurationSpec::parse(s.as_str()) {
            Ok(d) => Some(d),
            Err(e) => {
                return Err(Error::Field(e));
            },
        },
        None => None,
    };
    let span = match (end, duration) {
        (Some(e), None) => Span::End(e),
        (None, Some(d)) => Span::Duration(d),
        (Some(_), Some(_)) => {
            return Err(usage_at(index, "must set exactly one of 'end' or 'duration'"));
        },
        (None, None) => {
            return Err(usage_at(index, "must set 'end' or 'duration'"));
        },
    };
    let notify = match &notify {
        Some(s) => match Lead::parse(s.as_str()) {
            Ok(l) => l,
            Err(e) => {
                return Err(Error::Field(e));
            },
        },
        None => default_lead,
    };
    let id = match id {
        Some(s) => match BlockId::new(s) {
            Ok(i) => i,
            Err(e) => {
                return Err(Error::Field(e));
            },
        },
        None => match slug_block_id(title.as_str()) {
            Ok(i) => i,
            Err(e) => {
                return Err(e);
            },
        },
    };
    proof {
        if f.id is None {
            crate::commands::lemma_slug_valid(f.title->0@);
        }
    }
    let tags = present_texts(&tags);
    let run = match &run {
        Some(a) => {
            let argv = present_texts(a);
            assert(argv@.len() > 0 ==> strings_view(argv@)[0] == argv@[0]@);
            if argv.len() == 0 {
                None
            } else {
                match Run::new(argv) {
                    Ok(x) => Some(x),
                    Err(e) => {
                        return Err(Error::Field(e));
                    },
                }
            }
        },
        None => None,
    };
    proof {
        reveal(mcp_block_built);
    }
    Ok(Block {
        id,
        title,
        start,
        span,
        notify,
        tags,
        status: Status::Pending,
        run,
        recurrence: None,
        origin: None,
        after: Vec::new(),
        on_success: Vec::new(),
        on_failure: Vec::new(),
        on_missed: Vec::new(),
        retry: None,
        expect_by: None,
        approval: None,
        when: None,
        agent: None,
    })
}


fn usage(text: &str) -> (r: Error)
    ensures
        r matches Error::Usage(m) && m@ == text@,
{
    Error::Usage(text.to_owned())
}

/// A required id text parsed, or the usage error naming the tool.
fn required_id(id: Option<String>, missing: &str) -> (r: Result<BlockId, Error>)
    ensures
        id is None ==> (r matches Err(Error::Usage(m)) && m@ == missing@),
        id matches Some(t) ==> match r {
            Ok(b) => valid_block_id(t@) && b@ == t@,
            Err(e) => !valid_block_id(t@) && (e matches Error::Field(FieldParseError::BlockId { value }) && value@ == t@),
        },
{
    match id {
        Some(t) => match BlockId::new(t) {
            Ok(b) => Ok(b),
            Err(e) => Err(Error::Field(e)),
        },
        None => Err(usage(missing)),
    }
}

/// The arguments of `add_block`: the block's fields, the date, and whether to apply after.
#[derive(Debug, Clone, PartialEq, Eq)]
pub struct McpAddFields {
    pub block: McpBlockFields,
    pub date: Option<String>,
    pub apply: Option<bool>,
}

/// An `add_block` call checked: what the add command receives, and whether to apply after.
#[derive(Debug)]
pub struct McpAddRequest {
    pub date: Option<PlanDate>,
    pub id: Option<BlockId>,
    pub title: String,
    pub start: ClockTime,
    pub end: Option<ClockTime>,
    pub duration: Option<DurationSpec>,
    pub notify: Option<Lead>,
    pub tags: Vec<String>,
    pub run: Vec<String>,
    pub apply: bool,
}

/// The first issue of `add_block` fields: as for a plan block, but the id is only checked when
/// given (the add command slugs the title otherwise) and the command is not checked here.
pub open spec fn add_issue(f: McpBlockFields) -> Option<McpBlockIssue> {
    if f.title is None {
        Some(McpBlockIssue::MissingTitle)
    } else if f.start is None {
        Some(McpBlockIssue::MissingStart)
    } else if clock_time_parse(f.start->0@) is None {
        Some(McpBlockIssue::BadStart)
    } else if f.end matches Some(e) && clock_time_parse(e@) is None {
        Some(McpBlockIssue::BadEnd)
    } else if f.duration matches Some(d) && !duration_text_ok(d@) {
        Some(McpBlockIssue::BadDuration)
    } else if f.end is Some && f.duration is Some {
        Some(McpBlockIssue::BothEnds)
    } else if f.end is None && f.duration is None {
        Some(McpBlockIssue::NoEnd)
    } else if f.notify matches Some(n) && !lead_text_ok(n@) {
        Some(McpBlockIssue::BadNotify)
    } else if f.id matches Some(t) && !valid_block_id(t@) {
        Some(McpBlockIssue::BadId)
    } else {
        None
    }
}

pub open spec fn add_issue_reported(e: Error, issue: McpBlockIssue, f: McpBlockFields) -> bool {
    match issue {
        McpBlockIssue::MissingTitle => e matches Error::Usage(m) && m@ == "add_block requires 'title'"@,
        McpBlockIssue::MissingStart => e matches Error::Usage(m) && m@ == "add_block requires 'start'"@,
        McpBlockIssue::BothEnds => e matches Error::Usage(m) && m@ == "add_block: set exactly one of 'end' or 'duration'"@,
        McpBlockIssue::NoEnd => e matches Error::Usage(m) && m@ == "add_block: set 'end' or 'duration'"@,
        McpBlockIssue::BadId => e matches Error::Field(FieldParseError::BlockId { value }) && value@ == f.id->0@,
        _ => mcp_issue_reported(e, issue, f, 0),
    }
}

/// Checks an `add_block` call: title and start required, exactly one of end and duration, and
/// each given field readable; an unreadable date counts as none, and `apply` defaults to false.
pub fn add_block_request(fields: McpAddFields) -> (r: Result<McpAddRequest, Error>)
    ensures
        r is Err <==> add_issue(fields.block) is Some,
        r matches Err(e) ==> add_issue_reported(e, add_issue(fields.block)->0, fields.block),
        r matches Ok(q) ==> {
            &&& q.title@ == fields.block.title->0@
            &&& clock_time_parse(fields.block.start->0@) == Some(q.start.spec_minutes())
            &&& match fields.block.end {
                Some(e) => q.end matches Some(t) && clock_time_parse(e@) == Some(t.spec_minutes()),
                None => q.end is None,
            }
            &&& match fields.block.duration {
                Some(d) => q.duration matches Some(x) && duration_parse(d@) == Some(x.spec_seconds()),
                None => q.duration is None,
            }
            &&& match fields.block.notify {
                Some(n) => q.notify matches Some(l) && duration_parse(n@) == Some(l.spec_seconds()),
                None => q.notify is None,
            }
            &&& match fields.block.id {
                Some(t) => q.id matches Some(b) && b@ == t@,
                None => q.id is None,
            }
            &&& strings_view(q.tags@) == texts_present(fields.block.tags@)
            &&& strings_view(q.run@) == match fields.block.run {
                Some(a) => texts_present(a@),
                None => Seq::empty(),
            }
            &&& match fields.date {
                Some(t) => match jiff_date_parse(t@) {
                    Some(triple) => q.date matches Some(d) && d.triple() == triple,
                    None => q.date is None,
                },
                None => q.date is None,
            }
            &&& q.apply == match fields.apply {
                Some(b) => b,
                None => false,
            }
        },
{
    let McpAddFields { block, date, apply } = fields;
    let McpBlockFields { title, start, end, duration, notify, id, tags, run } = block;
    let title = match title {
        Some(t) => t,
        None => {
            return Err(usage("add_block requires 'title'"));
        },
    };
    let start = match start {
        Some(s) => match ClockTime::parse(s.as_str()) {
            Ok(t) => t,
            Err(e) => {
                return Err(Error::Field(e));
            },
        },
        None => {
            return Err(usage("add_block requires 'start'"));
        },
    };
    let end = match &end {
        Some(s) => match ClockTime::parse(s.as_str()) {
            Ok(t) => Some(t),
            Err(e) => {
                return Err(Error::Field(e));
            },
        },
        None => None,
    };
    let duration = match &duration {
        Some(s) => match DurationSpec::parse(s.as_str()) {
            Ok(d) => Some(d),
            Err(e) => {
                return Err(Error::Field(e));
            },
        },
        None => None,
    };
    if end.is_some() && duration.is_some() {
        return Err(usage("add_block: set exactly one of 'end' or 'duration'"));
    }
    if end.is_none() && duration.is_none() {
        return Err(usage("add_block: set 'end' or 'duration'"));
    }
    let notify = match &notify {
        Some(s) => match Lead::parse(s.as_str()) {
            Ok(l) => Some(l),
            Err(e) => {
                return Err(Error::Field(e));
            },
        },
        None => None,
    };
    let id = match id {
        Some(t) => match BlockId::new(t) {
            Ok(b) => Some(b),
            Err(e) => {
                return Err(Error::Field(e));
            },
        },
        None => None,
    };
    let tags = present_texts(&tags);
    let run = match &run {
        Some(a) => present_texts(a),
        None => {
            let v: Vec<String> = Vec::new();
            assert(strings_view(v@) =~= Seq::<Seq<char>>::empty());
            v
        },
    };
    let date = extract_date(&date);
    let apply = match apply {
        Some(b) => b,
        None => false,
    };
    Ok(McpAddRequest { date, id, title, start, end, duration, notify, tags, run, apply })
}

/// The arguments of `edit_block`.
#[derive(Debug, Clone, PartialEq, Eq)]
pub struct McpEditFields {
    pub id: Option<String>,
    pub date: Option<String>,
    pub title: Option<String>,
    pub start: Option<String>,
    pub end: Option<String>,
    pub duration: Option<String>,
    pub notify: Option<String>,
    pub run: Option<Vec<Option<String>>>,
}

pub open spec fn edit_id_ok(f: McpEditFields) -> bool {
    f.id matches Some(t) && valid_block_id(t@)
}

pub open spec fn edit_start_ok(f: McpEditFields) -> bool {
    f.start matches Some(s) ==> clock_time_parse(s@) is Some
}

pub open spec fn edit_end_ok(f: McpEditFields) -> bool {
    f.end matches Some(s) ==> clock_time_parse(s@) is Some
}

pub open spec fn edit_duration_ok(f: McpEditFields) -> bool {
    f.duration matches Some(s) ==> duration_text_ok(s@)
}

pub open spec fn edit_notify_ok(f: McpEditFields) -> bool {
    f.notify matches Some(s) ==> lead_text_ok(s@)
}

/// Checks an `edit_block` call: the id is required; each given field must be readable; an
/// unreadable date counts as none. The edit's own rules are the edit command's.
pub fn edit_block_request(fields: McpEditFields) -> (r: Result<(BlockId, Option<PlanDate>, crate::commands::BlockEdit), Error>)
    ensures
        fields.id is None ==> (r matches Err(Error::Usage(m)) && m@ == "edit_block requires 'id'"@),
        r is Ok <==> {
            &&& fields.id matches Some(t) && valid_block_id(t@)
            &&& fields.start matches Some(s) ==> clock_time_parse(s@) is Some
            &&& fields.end matches Some(s) ==> clock_time_parse(s@) is Some
            &&& fields.duration matches Some(s) ==> duration_text_ok(s@)
            &&& fields.notify matches Some(s) ==> lead_text_ok(s@)
        },
        fields.id is Some && !edit_id_ok(fields)
            ==> (r matches Err(Error::Field(FieldParseError::BlockId { value })) && value@ == fields.id->0@),
        edit_id_ok(fields) && !edit_start_ok(fields)
            ==> (r matches Err(Error::Field(FieldParseError::ClockTime { value })) && value@ == fields.start->0@),
        edit_id_ok(fields) && edit_start_ok(fields) && !edit_end_ok(fields)
            ==> (r matches Err(Error::Field(FieldParseError::ClockTime { value })) && value@ == fields.end->0@),
        edit_id_ok(fields) && edit_start_ok(fields) && edit_end_ok(fields) && !edit_duration_ok(fields)
            ==> (r matches Err(Error::Field(FieldParseError::Duration { value }))
                && value@ == duration_error_value(fields.duration->0@)),
        edit_id_ok(fields) && edit_start_ok(fields) && edit_end_ok(fields) && edit_duration_ok(fields) && !edit_notify_ok(fields)
            ==> (r matches Err(Error::Field(FieldParseError::Duration { value }))
                && value@ == duration_error_value(fields.notify->0@)),
        r matches Ok(q) ==> {
            &&& q.0@ == fields.id->0@
            &&& match fields.date {
                Some(t) => match jiff_date_parse(t@) {
                    Some(triple) => q.1 matches Some(d) && d.triple() == triple,
                    None => q.1 is None,
                },
                None => q.1 is None,
            }
            &&& opt_text_view(q.2.title) == opt_text_view(fields.title)
            &&& match fields.start {
                Some(s) => q.2.start matches Some(t) && clock_time_parse(s@) == Some(t.spec_minutes()),
                None => q.2.start is None,
            }
            &&& match fields.end {
                Some(s) => q.2.end matches Some(t) && clock_time_parse(s@) == Some(t.spec_minutes()),
                None => q.2.end is None,
            }
            &&& match fields.duration {
                Some(s) => q.2.duration matches Some(d) && duration_parse(s@) == Some(d.spec_seconds()),
                None => q.2.duration is None,
            }
            &&& match fields.notify {
                Some(s) => q.2.notify matches Some(l) && duration_parse(s@) == Some(l.spec_seconds()),
                None => q.2.notify is None,
            }
            &&& strings_view(q.2.run@) == match fields.run {
                Some(a) => texts_present(a@),
                None => Seq::empty(),
            }
        },
{
    let McpEditFields { id, date, title, start, end, duration, notify, run } = fields;
    let id = required_id(id, "edit_block requires 'id'")?;
    let start = match &start {
        Some(s) => match ClockTime::parse(s.as_str()) {
            Ok(t) => Some(t),
            Err(e) => {
                return Err(Error::Field(e));
            },
        },
        None => None,
    };
    let end = match &end {
        Some(s) => match ClockTime::parse(s.as_str()) {
            Ok(t) => Some(t),
            Err(e) => {
                return Err(Error::Field(e));
            },
        },
        None => None,
    };
    let duration = match &duration {
        Some(s) => match DurationSpec::parse(s.as_str()) {
            Ok(d) => Some(d),
            Err(e) => {
                return Err(Error::Field(e));
            },
        },
        None => None,
    };
    let notify = match &notify {
        Some(s) => match Lead::parse(s.as_str()) {
            Ok(l) => Some(l),
            Err(e) => {
                return Err(Error::Field(e));
            },
        },
        None => None,
    };
    let run = match &run {
        Some(a) => present_texts(a),
        None => {
            let v: Vec<String> = Vec::new();
            assert(strings_view(v@) =~= Seq::<Seq<char>>::empty());
            v
        },
    };
    let date = extract_date(&date);
    Ok((id, date, crate::commands::BlockEdit { title, start, end, duration, notify, run }))
}

pub open spec fn mark_status_of(t: Seq<char>) -> Option<Status> {
    if t == "done"@ {
        Some(Status::Done)
    } else if t == "skipped"@ {
        Some(Status::Skipped)
    } else {
        None
    }
}

/// Checks a `mark_block` call: the id and a status of `done` or `skipped` are required.
pub fn mark_block_request(id: Option<String>, status: Option<String>) -> (r: Result<(BlockId, Status), Error>)
    ensures
        match id {
            None => r matches Err(Error::Usage(m)) && m@ == "mark_block requires 'id'"@,
            Some(t) => if !valid_block_id(t@) {
                r matches Err(Error::Field(FieldParseError::BlockId { value })) && value@ == t@
            } else {
                match status {
                    None => r matches Err(Error::Usage(m)) && m@ == "mark_block requires 'status'"@,
                    Some(s) => match mark_status_of(s@) {
                        Some(st) => r matches Ok(q) && q.0@ == t@ && q.1 == st,
                        None => r matches Err(Error::Usage(m))
                            && m@ == "mark_block: status must be 'done' or 'skipped', got '"@ + s@ + "'"@,
                    },
                }
            },
        },
{
    let id = required_id(id, "mark_block requires 'id'")?;
    let status = match status {
        Some(s) => s,
        None => {
            return Err(usage("mark_block requires 'status'"));
        },
    };
    let v = crate::text::chars_of(status.as_str());
    let done = crate::text::chars_of("done");
    let skipped = crate::text::chars_of("skipped");
    if crate::text::chars_eq(v.as_slice(), done.as_slice()) {
        Ok((id, Status::Done))
    } else if crate::text::chars_eq(v.as_slice(), skipped.as_slice()) {
        Ok((id, Status::Skipped))
    } else {
        let mut m: Vec<char> = Vec::new();
        push_str(&mut m, "mark_block: status must be 'done' or 'skipped', got '");
        push_str(&mut m, status.as_str());
        push_str(&mut m, "'");
        Err(Error::Usage(string_of(m.as_slice())))
    }
}

/// Checks a `remove_block` call: the id is required.
pub fn remove_block_request(id: Option<String>) -> (r: Result<BlockId, Error>)
    ensures
        id is None ==> (r matches Err(Error::Usage(m)) && m@ == "remove_block requires 'id'"@),
        id matches Some(t) ==> match r {
            Ok(b) => valid_block_id(t@) && b@ == t@,
            Err(e) => !valid_block_id(t@) && (e matches Error::Field(FieldParseError::BlockId { value }) && value@ == t@),
        },
{
    required_id(id, "remove_block requires 'id'")
}

/// Checks a `snooze_block` call: the id and a readable `by` duration are required; an unreadable
/// date counts as none.
pub fn snooze_block_request(id: Option<String>, by: Option<String>, date: Option<String>) -> (r: Result<
    (BlockId, DurationSpec, Option<PlanDate>),
    Error,
>)
    ensures
        match id {
            None => r matches Err(Error::Usage(m)) && m@ == "snooze_block requires 'id'"@,
            Some(t) => if !valid_block_id(t@) {
                r matches Err(Error::Field(FieldParseError::BlockId { value })) && value@ == t@
            } else {
                match by {
                    None => r matches Err(Error::Usage(m)) && m@ == "snooze_block requires 'by'"@,
                    Some(b) => if duration_text_ok(b@) {
                        r matches Ok(q) && q.0@ == t@ && duration_parse(b@) == Some(q.1.spec_seconds())
                            && match date {
                                Some(x) => match jiff_date_parse(x@) {
                                    Some(triple) => q.2 matches Some(d) && d.triple() == triple,
                                    None => q.2 is None,
                                },
                                None => q.2 is None,
                            }
                    } else {
                        r matches Err(Error::Field(FieldParseError::Duration { value }))
                            && value@ == duration_error_value(b@)
                    },
                }
            },
        },
{
    let id = required_id(id, "snooze_block requires 'id'")?;
    let by = match by {
        Some(b) => match DurationSpec::parse(b.as_str()) {
            Ok(d) => d,
            Err(e) => {
                return Err(Error::Field(e));
            },
        },
        None => {
            return Err(usage("snooze_block requires 'by'"));
        },
    };
    Ok((id, by, extract_date(&date)))
}


/// The arguments of `plan_day`.
#[derive(Debug, Clone, PartialEq, Eq)]
pub struct McpPlanDayFields {
    pub override_history: Option<bool>,
    pub date: Option<String>,
    pub timezone: Option<String>,
    pub blocks: Option<Vec<McpBlockFields>>,
}

/// A `plan_day` call checked: the plan to store, whether it may replace terminal history, and
/// the commands its blocks carry.
#[derive(Debug)]
pub struct McpPlanDay {
    pub plan: Plan,
    pub override_history: bool,
    pub runs: Vec<Vec<String>>,
}

/// The commands of the blocks, in order, for the blocks that carry one.
pub open spec fn run_list(bs: Seq<McpBlockFields>) -> Seq<Seq<Seq<char>>>
    decreases bs.len(),
{
    if bs.len() == 0 {
        Seq::empty()
    } else {
        run_list(bs.drop_last()) + match mcp_run_texts(bs.last()) {
            Some(a) => seq![a],
            None => Seq::empty(),
        }
    }
}

pub open spec fn runs_view(v: Seq<Vec<String>>) -> Seq<Seq<Seq<char>>> {
    Seq::new(v.len(), |i: int| strings_view(v[i]@))
}

/// Block `i` has the first issue among the blocks.
pub open spec fn first_block_issue_at(bs: Seq<McpBlockFields>, i: int) -> bool {
    &&& 0 <= i < bs.len()
    &&& forall|j: int| 0 <= j < i ==> mcp_block_issue(#[trigger] bs[j]) is None
    &&& mcp_block_issue(bs[i]) is Some
}

/// A date argument that is absent or readable.
pub open spec fn date_arg_ok(date: Option<String>) -> bool {
    date matches Some(t) ==> jiff_date_parse(t@) is Some
}

/// Checks a `plan_day` call and builds its plan: the date given (or `today`), the zone given (or
/// `zone`), and each block from its fields, in order; `override_history` defaults to false.
#[verifier::spinoff_prover]
#[verifier::rlimit(60)]
pub fn plan_day_request(fields: McpPlanDayFields, zone: TimeZoneName, today: PlanDate, default_lead: Lead) -> (r: Result<McpPlanDay, Error>)
    ensures
        !date_arg_ok(fields.date) ==> (r matches Err(Error::Field(FieldParseError::Date { value }))
            && value@ == fields.date->0@),
        r matches Err(Error::Field(FieldParseError::TimeZone { value })) ==> (fields.timezone matches Some(z) && value@ == z@),
        date_arg_ok(fields.date) && fields.timezone is None && fields.blocks is None ==> (r matches Err(Error::Usage(m))
            && m@ == "plan_day requires a 'blocks' array"@),
        date_arg_ok(fields.date) && fields.timezone is None && fields.blocks is Some ==> (r is Ok <==> forall|k: int|
            0 <= k < fields.blocks->0@.len() ==> mcp_block_issue(#[trigger] fields.blocks->0@[k]) is None),
        r matches Err(e) ==> {
            ||| !date_arg_ok(fields.date)
            ||| (e matches Error::Field(x) && x is TimeZone)
            ||| (fields.blocks is None && (e matches Error::Usage(m) && m@ == "plan_day requires a 'blocks' array"@))
            ||| exists|i: int| #[trigger] first_block_issue_at(fields.blocks->0@, i)
                && mcp_issue_reported(e, mcp_block_issue(fields.blocks->0@[i])->0, fields.blocks->0@[i], i as nat)
        },
        r matches Ok(p) ==> {
            &&& date_arg_ok(fields.date)
            &&& fields.blocks is Some
            &&& match fields.date {
                Some(t) => jiff_date_parse(t@) == Some(p.plan.date.triple()),
                None => p.plan.date == today,
            }
            &&& fields.timezone is None ==> p.plan.timezone == zone
            &&& fields.timezone matches Some(z) ==> same_ignoring_ascii_case(p.plan.timezone@, z@)
            &&& p.plan.blocks@.len() == fields.blocks->0@.len()
            &&& forall|k: int| 0 <= k < p.plan.blocks@.len() ==> mcp_block_built(
                #[trigger] p.plan.blocks@[k],
                fields.blocks->0@[k],
                default_lead,
            )
            &&& p.override_history == match fields.override_history {
                Some(b) => b,
                None => false,
            }
            &&& runs_view(p.runs@) == run_list(fields.blocks->0@)
        },
{
    let McpPlanDayFields { override_history, date, timezone, blocks } = fields;
    let override_history = match override_history {
        Some(b) => b,
        None => false,
    };
    let date = match &date {
        Some(t) => match PlanDate::parse(t.as_str()) {
            Some(d) => Some(d),
            None => {
                return Err(Error::Field(FieldParseError::Date { value: copy_string(t) }));
            },
        },
        None => None,
    };
    let timezone = match &timezone {
        Some(z) => match TimeZoneName::parse(z.as_str()) {
            Ok(t) => t,
            Err(e) => {
                return Err(Error::Field(e));
            },
        },
        None => zone,
    };
    let raws = match blocks {
        Some(b) => b,
        None => {
            return Err(usage("plan_day requires a 'blocks' array"));
        },
    };
    let ghost bs = raws@;
    let n = raws.len();
    let mut rest = raws;
    let mut built: Vec<Block> = Vec::new();
    let mut runs: Vec<Vec<String>> = Vec::new();
    let mut index: usize = 0;
    while rest.len() > 0
        invariant
            index <= bs.len(),
            bs.len() == n,
            date_arg_ok(fields.date),
            fields.blocks matches Some(v) && v@ == bs,
            rest@ == bs.skip(index as int),
            built@.len() == index,
            forall|j: int| 0 <= j < index ==> mcp_block_issue(#[trigger] bs[j]) is None,
            forall|k: int| 0 <= k < index ==> mcp_block_built(#[trigger] built@[k], bs[k], default_lead),
            runs_view(runs@) == run_list(bs.take(index as int)),
        decreases rest.len(),
    {
        let f = rest.remove(0);
        assert(f == bs[index as int]);
        assert(bs.take(index as int + 1).drop_last() == bs.take(index as int));
        assert(bs.take(index as int + 1).last() == bs[index as int]);
        match parse_mcp_block(f, index, default_lead) {
            Ok(b) => {
                assert(run_view(b.run) == mcp_run_texts(f)) by {
                    reveal(mcp_block_built);
                }
                let ghost before = runs_view(runs@);
                match &b.run {
                    Some(x) => {
                        runs.push(x.to_argv());
                        assert(runs_view(runs@) =~= before.push(strings_view(x@)));
                    },
                    None => {},
                }
                assert(runs_view(runs@) =~= run_list(bs.take(index as int + 1)));
                built.push(b);
                proof {
                    assert(bs.skip(index as int + 1) =~= bs.skip(index as int).drop_first());
                }
                index = index + 1;
            },
            Err(e) => {
                assert(first_block_issue_at(bs, index as int));
                return Err(e);
            },
        }
    }
    assert(index == bs.len());
    assert(bs.take(bs.len() as int) == bs);
    let plan_date = match date {
        Some(d) => d,
        None => today,
    };
    Ok(McpPlanDay { plan: Plan { date: plan_date, timezone, blocks: built }, override_history, runs })
}

} // verus!
