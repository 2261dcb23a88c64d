//! View-model builders for the cockpit: plain data computed from plans and the fire log.

use vstd::prelude::*;

use crate::civil::PlanDate;
use crate::model::{
    opt_text_view, recur_rule_text, status_terminal, status_text, strings_view, weekday_list_text,
    weekday_text, Approval, Block, Plan, RecurEnd, RecurRule, RecurringRules, Status, Weekday,
    ids_view, join_spaces, span_end_seconds,
};
use crate::recurrence::{rule_shape, RuleShape};
use crate::store::FireRecord;
use crate::text::{
    chars_of, contains_chars, contains_seq, copy_string, copy_strings, decimal, decimal_chars,
    push_all, push_str, string_of, zero_padded, zero_padded_chars,
};
use crate::time::{placed, resolve_block_end, resolve_block_start, trunc_secs, Timestamp};

verus! {

// ── Formatting helpers ─────────────────────────────────────────────────────

/// `HH:MM` of a number of seconds since midnight (hours are not wrapped at 24).
pub open spec fn clock_text(seconds: nat) -> Seq<char> {
    zero_padded(seconds / 3600, 2) + seq![':'] + zero_padded(seconds % 3600 / 60, 2)
}

pub fn format_clock(seconds: u32) -> (r: Vec<char>)
    ensures
        r@ == clock_text(seconds as nat),
{
    let mut out = zero_padded_chars((seconds / 3600) as u64, 2);
    out.push(':');
    let m = zero_padded_chars((seconds % 3600 / 60) as u64, 2);
    push_all(&mut out, m.as_slice());
    out
}

/// How long until a start: `now` when not in the future, otherwise `in 2h05m`, `in 5m` or
/// `in 45s` depending on the largest non-zero unit.
pub open spec fn countdown_text(secs: int) -> Seq<char> {
    if secs <= 0 {
        "now"@
    } else {
        let hours = secs / 3600;
        let minutes = secs % 3600 / 60;
        if hours > 0 {
            "in "@ + decimal(hours as nat) + seq!['h'] + zero_padded(minutes as nat, 2) + seq!['m']
        } else if minutes > 0 {
            "in "@ + decimal(minutes as nat) + seq!['m']
        } else {
            "in "@ + decimal(secs as nat) + seq!['s']
        }
    }
}

pub fn countdown_str(starts_in_secs: i64) -> (r: String)
    ensures
        r@ == countdown_text(starts_in_secs as int),
{
    if starts_in_secs <= 0 {
        return "now".to_owned();
    }
    let hours = starts_in_secs / 3600;
    let minutes = starts_in_secs % 3600 / 60;
    let mut out: Vec<char> = Vec::new();
    push_str(&mut out, "in ");
    if hours > 0 {
        let h = decimal_chars(hours as u64);
        push_all(&mut out, h.as_slice());
        out.push('h');
        let m = zero_padded_chars(minutes as u64, 2);
        push_all(&mut out, m.as_slice());
        out.push('m');
    } else if minutes > 0 {
        let m = decimal_chars(minutes as u64);
        push_all(&mut out, m.as_slice());
        out.push('m');
    } else {
        let s = decimal_chars(starts_in_secs as u64);
        push_all(&mut out, s.as_slice());
        out.push('s');
    }
    string_of(out.as_slice())
}

pub fn format_weekday(day: Weekday) -> (r: &'static str)
    ensures
        r@ == weekday_text(day),
{
    day.as_str()
}

/// The schedule of a rule as the cockpit shows it: like the plan file, except intervals read
/// `every 3 days` and `every 2 weeks`.
pub open spec fn rule_label(rule: RuleShape) -> Seq<char> {
    match rule {
        RuleShape::Daily => "daily"@,
        RuleShape::Weekday => "weekday"@,
        RuleShape::Weekend => "weekend"@,
        RuleShape::Weekly(days) => "weekly:"@ + weekday_list_text(days),
        RuleShape::EveryNDays(n) => "every "@ + decimal(n) + " days"@,
        RuleShape::EveryNWeeks(n) => "every "@ + decimal(n) + " weeks"@,
    }
}

pub fn format_recur_rule(rule: &RecurRule) -> (r: String)
    ensures
        r@ == rule_label(rule_shape(*rule)),
{
    let mut out: Vec<char> = Vec::new();
    match rule {
        RecurRule::Daily => push_str(&mut out, "daily"),
        RecurRule::Weekday => push_str(&mut out, "weekday"),
        RecurRule::Weekend => push_str(&mut out, "weekend"),
        RecurRule::Weekly(days) => {
            push_str(&mut out, "weekly:");
            crate::model::push_weekday_list(&mut out, days);
        },
        RecurRule::EveryNDays(n) => {
            push_str(&mut out, "every ");
            let d = decimal_chars(*n as u64);
            push_all(&mut out, d.as_slice());
            push_str(&mut out, " days");
        },
        RecurRule::EveryNWeeks(n) => {
            push_str(&mut out, "every ");
            let d = decimal_chars(*n as u64);
            push_all(&mut out, d.as_slice());
            push_str(&mut out, " weeks");
        },
    }
    string_of(out.as_slice())
}

// ── Block cards ────────────────────────────────────────────────────────────

/// A single block rendered in the Today/Upcoming timeline.
#[derive(Debug, Clone, PartialEq)]
pub struct BlockCardModel {
    pub id: String,
    pub title: String,
    pub time_range: String,
    pub countdown: String,
    pub status: Status,
    pub has_recurrence: bool,
    pub has_run: bool,
    pub awaiting_approval: bool,
    pub has_agent: bool,
    pub has_expect_by_breach: bool,
    pub tags: Vec<String>,
}

/// `09:00–09:45`: the block's start and resolved end, joined by an en dash.
pub open spec fn time_range_text(b: Block) -> Seq<char> {
    clock_text(b.start.spec_seconds()) + seq!['\u{2013}'] + clock_text(b.spec_end_seconds())
}

/// The countdown column of a card: the status label once terminal, `now` while running, the
/// time left before the start, or `ended`.
pub open spec fn card_countdown(b: Block, start: Timestamp, end: Timestamp, now: Timestamp) -> Seq<char> {
    if status_terminal(b.status) {
        status_text(b.status)
    } else if start.spec_nanos() <= now.spec_nanos() && now.spec_nanos() < end.spec_nanos() {
        "now"@
    } else if start.spec_nanos() > now.spec_nanos() {
        countdown_text(trunc_secs(start.spec_nanos() - now.spec_nanos()))
    } else {
        "ended"@
    }
}

pub open spec fn awaiting_approval(b: Block) -> bool {
    b.approval == Some(Approval::Pending) && b.run is Some
}

/// The block was expected to finish within `expect_by` of its start, that time has passed, and
/// it is still open.
pub open spec fn expect_by_breached(b: Block, start: Timestamp, now: Timestamp) -> bool {
    match b.expect_by {
        Some(e) => trunc_secs(now.spec_nanos() - start.spec_nanos()) > e.spec_seconds() && !status_terminal(b.status),
        None => false,
    }
}

pub open spec fn card_matches(c: BlockCardModel, b: Block, start: Timestamp, end: Timestamp, now: Timestamp) -> bool {
    &&& c.id@ == b.id@
    &&& c.title@ == b.title@
    &&& c.time_range@ == time_range_text(b)
    &&& c.countdown@ == card_countdown(b, start, end, now)
    &&& c.status == b.status
    &&& c.has_recurrence == b.recurrence is Some
    &&& c.has_run == b.run is Some
    &&& c.awaiting_approval == awaiting_approval(b)
    &&& c.has_agent == b.agent is Some
    &&& c.has_expect_by_breach == expect_by_breached(b, start, now)
    &&& strings_view(c.tags@) == strings_view(b.tags@)
}

/// Builds a block's card from its resolved start and end instants.
pub fn build_block_card_model_at(block: &Block, start: Timestamp, end: Timestamp, now: Timestamp) -> (r: BlockCardModel)
    ensures
        card_matches(r, *block, start, end, now),
{
    let mut range = format_clock(block.start.seconds_since_midnight());
    range.push('\u{2013}');
    let e = format_clock(block.resolved_end_seconds());
    push_all(&mut range, e.as_slice());
    let countdown = if block.status.is_terminal() {
        block.status.as_str().to_owned()
    } else if start.le(now) && now.lt(end) {
        "now".to_owned()
    } else if now.lt(start) {
        countdown_str(start.duration_since(now).as_secs())
    } else {
        "ended".to_owned()
    };
    let breach = match block.expect_by {
        Some(expect_by) => {
            let elapsed = now.duration_since(start).as_secs();
            elapsed as i128 > expect_by.as_seconds() as i128 && !block.status.is_terminal()
        },
        None => false,
    };
    let tags = copy_strings(&block.tags);
    proof {
        assert(strings_view(tags@) =~= strings_view(block.tags@));
    }
    let awaiting = match block.approval {
        Some(Approval::Pending) => block.run.is_some(),
        _ => false,
    };
    let id = block.id.as_str().to_owned();
    let time_range = string_of(range.as_slice());
    assert(id@ == block.id@);
    assert(time_range@ == time_range_text(*block));
    assert(countdown@ == card_countdown(*block, start, end, now));
    assert(awaiting == awaiting_approval(*block));
    assert(breach == expect_by_breached(*block, start, now));
    BlockCardModel {
        id,
        title: copy_string(&block.title),
        time_range,
        countdown,
        status: block.status,
        has_recurrence: block.recurrence.is_some(),
        has_run: block.run.is_some(),
        awaiting_approval: awaiting,
        has_agent: block.agent.is_some(),
        has_expect_by_breach: breach,
        tags,
    }
}

/// The instants used for a block: each is `now` or the block's wall-clock start (end) resolved
/// in the plan's zone.
pub open spec fn instants_for(plan: Plan, b: Block, start: Timestamp, end: Timestamp, now: Timestamp) -> bool {
    &&& (start == now || placed(start.spec_nanos(), plan.date, plan.timezone@, b.start.spec_seconds() as int))
    &&& (end == now || placed(end.spec_nanos(), plan.date, plan.timezone@, span_end_seconds(b.span, b.start) as int))
}

/// The instants used for each block of a plan, as `instants_for` says.
pub open spec fn times_for(plan: Plan, starts: Seq<Timestamp>, ends: Seq<Timestamp>, now: Timestamp) -> bool {
    &&& starts.len() == plan.blocks@.len()
    &&& ends.len() == plan.blocks@.len()
    &&& forall|k: int| 0 <= k < plan.blocks@.len() ==> #[trigger] instants_for(plan, plan.blocks@[k], starts[k], ends[k], now)
}

/// Builds a block's card, resolving its start and end in the plan's time zone; a time that
/// cannot be resolved counts as `now`.
pub fn build_block_card_model(block: &Block, plan: &Plan, now: Timestamp) -> (r: BlockCardModel)
    ensures
        exists|start: Timestamp, end: Timestamp| #[trigger] instants_for(*plan, *block, start, end, now) && card_matches(r, *block, start, end, now),
{
    let start = match resolve_block_start(plan, block) {
        Ok(t) => t,
        Err(_) => now,
    };
    let end = match resolve_block_end(plan, block) {
        Ok(t) => t,
        Err(_) => now,
    };
    assert(instants_for(*plan, *block, start, end, now));
    build_block_card_model_at(block, start, end, now)
}

// ── Approvals ──────────────────────────────────────────────────────────────

/// A single pending-approval item in the Approvals panel.
#[derive(Debug, Clone, PartialEq)]
pub struct ApprovalItemModel {
    pub id: String,
    pub title: String,
    pub when: String,
    pub argv: String,
    pub reason: Option<String>,
}

/// Data for the Approvals panel (blocks with a command awaiting approval).
#[derive(Debug, Clone, PartialEq)]
pub struct ApprovalsModel {
    pub items: Vec<ApprovalItemModel>,
}

pub open spec fn approval_item_matches(item: ApprovalItemModel, b: Block) -> bool {
    &&& item.id@ == b.id@
    &&& item.title@ == b.title@
    &&& item.when@ == clock_text(b.start.spec_seconds())
    &&& item.argv@ == crate::model::join_spaces(strings_view(b.run->0@))
    &&& opt_text_view(item.reason) == match b.agent {
        Some(a) => Some("Scheduled by: "@ + a@),
        None => None,
    }
}

pub open spec fn awaiting_blocks(blocks: Seq<Block>) -> Seq<Block> {
    blocks.filter(|b: Block| awaiting_approval(b))
}

/// Builds the Approvals model: one item per block whose command awaits approval, in plan order.
pub fn build_approvals_model(plan: &Plan) -> (r: ApprovalsModel)
    ensures
        r.items@.len() == awaiting_blocks(plan.blocks@).len(),
        forall|k: int| 0 <= k < r.items@.len() ==> approval_item_matches(#[trigger] r.items@[k], awaiting_blocks(plan.blocks@)[k]),
{
    let ghost pred = |b: Block| awaiting_approval(b);
    let mut items: Vec<ApprovalItemModel> = Vec::new();
    let mut i: usize = 0;
    while i < plan.blocks.len()
        invariant
            i <= plan.blocks.len(),
            pred == (|b: Block| awaiting_approval(b)),
            items@.len() == plan.blocks@.take(i as int).filter(pred).len(),
            forall|k: int| 0 <= k < items@.len() ==> approval_item_matches(#[trigger] items@[k], plan.blocks@.take(i as int).filter(pred)[k]),
        decreases plan.blocks.len() - i,
    {
        let b = &plan.blocks[i];
        assert(plan.blocks@.take(i as int + 1).drop_last() == plan.blocks@.take(i as int));
        assert(plan.blocks@.take(i as int + 1).last() == *b);
        let pending = match b.approval {
            Some(Approval::Pending) => b.run.is_some(),
            _ => false,
        };
        assert(pending == pred(*b));
        let ghost before = plan.blocks@.take(i as int).filter(pred);
        let ghost after = plan.blocks@.take(i as int + 1).filter(pred);
        assert(after == if pred(*b) { before.push(*b) } else { before }) by {
            reveal(Seq::filter);
        }
        if pending {
            let mut argv: Vec<char> = Vec::new();
            match &b.run {
                Some(run) => crate::model::push_joined(&mut argv, run.as_slice(), ' '),
                None => {},
            }
            let reason = match &b.agent {
                Some(a) => {
                    let mut t: Vec<char> = Vec::new();
                    push_str(&mut t, "Scheduled by: ");
                    push_str(&mut t, a.as_str());
                    Some(string_of(t.as_slice()))
                },
                None => None,
            };
            let item = ApprovalItemModel {
                id: b.id.as_str().to_owned(),
                title: copy_string(&b.title),
                when: string_of(format_clock(b.start.seconds_since_midnight()).as_slice()),
                argv: string_of(argv.as_slice()),
                reason,
            };
            items.push(item);
            assert(approval_item_matches(item, *b));
        }
        i = i + 1;
    }
    assert(plan.blocks@.take(plan.blocks.len() as int) == plan.blocks@);
    ApprovalsModel { items }
}

// ── Activity feed ──────────────────────────────────────────────────────────

/// Visual category for an activity feed item.
#[derive(Debug, Clone, Copy, PartialEq, Eq, Structural)]
pub enum ActivityKind {
    Success,
    Run,
    Error,
    Info,
}

/// A single entry in the Activity (fire-ledger) feed.
#[derive(Debug, Clone, PartialEq)]
pub struct ActivityItemModel {
    pub icon: &'static str,
    pub ts_label: String,
    pub text: String,
    pub kind: ActivityKind,
}

/// Data for the Activity feed panel.
#[derive(Debug, Clone, PartialEq)]
pub struct ActivityModel {
    pub items: Vec<ActivityItemModel>,
}

pub open spec fn outcome_kind(outcome: Seq<char>) -> ActivityKind {
    if outcome == "notify"@ || outcome == "close"@ {
        ActivityKind::Success
    } else if outcome == "activate"@ {
        ActivityKind::Run
    } else if outcome == "missed"@ {
        ActivityKind::Error
    } else {
        ActivityKind::Info
    }
}

pub open spec fn kind_icon(kind: ActivityKind) -> Seq<char> {
    match kind {
        ActivityKind::Success => "\u{2713}"@,
        ActivityKind::Run => "\u{25b6}"@,
        ActivityKind::Error => "\u{2717}"@,
        ActivityKind::Info => "\u{b7}"@,
    }
}

/// Icon and category for a fire outcome.
pub fn outcome_style(outcome: &str) -> (r: (&'static str, ActivityKind))
    ensures
        r.1 == outcome_kind(outcome@),
        r.0@ == kind_icon(r.1),
{
    let o = chars_of(outcome);
    let notify = chars_of("notify");
    let close = chars_of("close");
    let activate = chars_of("activate");
    let missed = chars_of("missed");
    if crate::text::chars_eq(o.as_slice(), notify.as_slice()) || crate::text::chars_eq(o.as_slice(), close.as_slice()) {
        ("\u{2713}", ActivityKind::Success)
    } else if crate::text::chars_eq(o.as_slice(), activate.as_slice()) {
        ("\u{25b6}", ActivityKind::Run)
    } else if crate::text::chars_eq(o.as_slice(), missed.as_slice()) {
        ("\u{2717}", ActivityKind::Error)
    } else {
        ("\u{b7}", ActivityKind::Info)
    }
}

/// `ID OUTCOME`, or `ID OUTCOME — DETAIL` when there is a detail.
pub open spec fn activity_text(r: FireRecord) -> Seq<char> {
    if r.detail@.len() == 0 {
        r.id@ + seq![' '] + r.outcome@
    } else {
        r.id@ + seq![' '] + r.outcome@ + " \u{2014} "@ + r.detail@
    }
}

pub open spec fn activity_item_matches(item: ActivityItemModel, r: FireRecord) -> bool {
    &&& item.kind == outcome_kind(r.outcome@)
    &&& item.icon@ == kind_icon(item.kind)
    &&& item.ts_label@ == r.ts.spec_text()
    &&& item.text@ == activity_text(r)
}

/// Builds the Activity feed from fire-log records, newest (last recorded) first.
pub fn build_activity_model(records: &[FireRecord]) -> (r: ActivityModel)
    ensures
        r.items@.len() == records@.len(),
        forall|k: int| 0 <= k < records@.len() ==> activity_item_matches(#[trigger] r.items@[k], records@[records@.len() - 1 - k]),
{
    let mut items: Vec<ActivityItemModel> = Vec::new();
    let mut i: usize = records.len();
    while i > 0
        invariant
            i <= records.len(),
            items@.len() == records.len() - i,
            forall|k: int| 0 <= k < items@.len() ==> activity_item_matches(#[trigger] items@[k], records@[records@.len() - 1 - k]),
        decreases i,
    {
        i = i - 1;
        let r = &records[i];
        let (icon, kind) = outcome_style(r.outcome.as_str());
        let mut text: Vec<char> = Vec::new();
        push_str(&mut text, r.id.as_str());
        text.push(' ');
        push_str(&mut text, r.outcome.as_str());
        if chars_of(r.detail.as_str()).len() > 0 {
            push_str(&mut text, " \u{2014} ");
            push_str(&mut text, r.detail.as_str());
        }
        let item = ActivityItemModel { icon, ts_label: r.ts.text(), text: string_of(text.as_slice()), kind };
        assert(item.text@ == activity_text(*r));
        assert(activity_item_matches(item, records@[i as int]));
        items.push(item);
    }
    ActivityModel { items }
}

// ── Navigation ─────────────────────────────────────────────────────────────

/// Navigation tabs in the left rail.
#[derive(Debug, Clone, Copy, PartialEq, Eq, Structural)]
pub enum NavTab {
    Today,
    Upcoming,
    Automations,
    Agents,
    Activity,
    Approvals,
}

/// Data for the left-rail nav.
#[derive(Debug, Clone, PartialEq)]
pub struct NavModel {
    pub active_tab: NavTab,
    pub pending_approvals_count: usize,
}

pub fn build_nav_model(active_tab: NavTab, pending_approvals_count: usize) -> (r: NavModel)
    ensures
        r.active_tab == active_tab,
        r.pending_approvals_count == pending_approvals_count,
{
    NavModel { active_tab, pending_approvals_count }
}

/// The label of a nav tab: its name, and for approvals the pending count when there is any.
pub open spec fn nav_label_text(tab: NavTab, pending: nat) -> Seq<char> {
    match tab {
        NavTab::Today => "Today"@,
        NavTab::Upcoming => "Upcoming"@,
        NavTab::Automations => "Automations"@,
        NavTab::Agents => "Agents"@,
        NavTab::Activity => "Activity"@,
        NavTab::Approvals => if pending > 0 {
            "Approvals ("@ + decimal(pending) + ")"@
        } else {
            "Approvals"@
        },
    }
}

pub fn nav_label(tab: NavTab, nav: &NavModel) -> (r: String)
    ensures
        r@ == nav_label_text(tab, nav.pending_approvals_count as nat),
{
    match tab {
        NavTab::Today => "Today".to_owned(),
        NavTab::Upcoming => "Upcoming".to_owned(),
        NavTab::Automations => "Automations".to_owned(),
        NavTab::Agents => "Agents".to_owned(),
        NavTab::Activity => "Activity".to_owned(),
        NavTab::Approvals => {
            if nav.pending_approvals_count > 0 {
                let mut out: Vec<char> = Vec::new();
                push_str(&mut out, "Approvals (");
                let d = decimal_chars(nav.pending_approvals_count as u64);
                push_all(&mut out, d.as_slice());
                push_str(&mut out, ")");
                string_of(out.as_slice())
            } else {
                "Approvals".to_owned()
            }
        },
    }
}

/// Appends `--date DATE` to a command line when a date is given.
pub fn opt_date_args(args: &mut Vec<String>, date: &Option<String>)
    ensures
        strings_view(final(args)@) == strings_view(old(args)@) + match date {
            Some(d) => seq!["--date"@, d@],
            None => Seq::empty(),
        },
{
    let ghost before = strings_view(args@);
    if let Some(d) = date {
        args.push("--date".to_owned());
        args.push(copy_string(d));
        assert(strings_view(args@) =~= before + seq!["--date"@, d@]);
    } else {
        assert(strings_view(args@) =~= before + Seq::<Seq<char>>::empty());
    }
}

// ── Agents ─────────────────────────────────────────────────────────────────

/// A single agent's summary in the Agents panel.
#[derive(Debug, Clone, PartialEq)]
pub struct AgentStatusModel {
    pub name: String,
    pub last_action: String,
    pub is_ok: bool,
}

/// Data for the Agents panel.
#[derive(Debug, Clone, PartialEq)]
pub struct AgentsModel {
    pub agents: Vec<AgentStatusModel>,
}

pub open spec fn record_agent(r: FireRecord) -> Option<Seq<char>> {
    opt_text_view(r.agent)
}

/// Record `i` is the last one of `records` by agent `name`.
pub open spec fn last_by(records: Seq<FireRecord>, name: Seq<char>, i: int) -> bool {
    &&& 0 <= i < records.len()
    &&& record_agent(records[i]) == Some(name)
    &&& forall|j: int| i < j < records.len() ==> record_agent(#[trigger] records[j]) != Some(name)
}

/// The first sixteen characters of a timestamp's text (`YYYY-MM-DDTHH:MM`), or all of it when
/// shorter.
pub open spec fn ts_short(t: Seq<char>) -> Seq<char> {
    if t.len() >= 16 {
        t.take(16)
    } else {
        t
    }
}

pub open spec fn agent_matches(a: AgentStatusModel, r: FireRecord) -> bool {
    &&& a.last_action@ == ts_short(r.ts.spec_text()) + seq![' '] + r.outcome@
    &&& a.is_ok == (r.outcome@ != "missed"@ && !contains_seq(r.outcome@, "fail"@))
}

/// One entry per agent that appears in the records, ordered by name, each summarizing that
/// agent's last record.
pub open spec fn agents_listing(records: Seq<FireRecord>, agents: Seq<AgentStatusModel>) -> bool {
    &&& forall|p: int, q: int| 0 <= p < q < agents.len() ==> crate::text::seq_lt(#[trigger] agents[p].name@, #[trigger] agents[q].name@)
    &&& forall|p: int| 0 <= p < agents.len() ==> #[trigger] summarizes(records, agents[p])
    &&& forall|i: int| 0 <= i < records.len() && (#[trigger] record_agent(records[i])) is Some ==> listed(agents, record_agent(records[i])->0)
}

/// `a` summarizes the last record of its agent.
pub open spec fn summarizes(records: Seq<FireRecord>, a: AgentStatusModel) -> bool {
    exists|i: int| #[trigger] last_by(records, a.name@, i) && agent_matches(a, records[i])
}

/// Some entry of `agents` has this name.
pub open spec fn listed(agents: Seq<AgentStatusModel>, name: Seq<char>) -> bool {
    exists|p: int| 0 <= p < agents.len() && #[trigger] agents[p].name@ == name
}

fn agent_eq(o: &Option<String>, name: &[char]) -> (r: bool)
    ensures
        r == (opt_text_view(*o) == Some(name@)),
{
    match o {
        Some(a) => {
            let v = chars_of(a.as_str());
            crate::text::chars_eq(v.as_slice(), name)
        },
        None => false,
    }
}

/// Summarizes one record for the Agents panel.
fn agent_status(name: &[char], r: &FireRecord) -> (a: AgentStatusModel)
    ensures
        a.name@ == name@,
        agent_matches(a, *r),
{
    let ts = r.ts.text();
    let tv = chars_of(ts.as_str());
    let mut action: Vec<char> = Vec::new();
    let n: usize = if tv.len() >= 16 { 16 } else { tv.len() };
    let mut k: usize = 0;
    while k < n
        invariant
            k <= n <= tv.len(),
            action@ == tv@.take(k as int),
        decreases n - k,
    {
        action.push(tv[k]);
        k = k + 1;
    }
    assert(action@ == ts_short(r.ts.spec_text()));
    action.push(' ');
    push_str(&mut action, r.outcome.as_str());
    let o = chars_of(r.outcome.as_str());
    let missed = chars_of("missed");
    let fail = chars_of("fail");
    let is_missed = crate::text::chars_eq(o.as_slice(), missed.as_slice());
    let has_fail = contains_chars(o.as_slice(), fail.as_slice());
    let is_ok = !is_missed && !has_fail;
    assert(action@ == ts_short(r.ts.spec_text()) + seq![' '] + r.outcome@);
    assert(is_ok == (r.outcome@ != "missed"@ && !contains_seq(r.outcome@, "fail"@)));
    AgentStatusModel { name: string_of(name), last_action: string_of(action.as_slice()), is_ok }
}

/// Builds the Agents panel: one entry per agent in the records, ordered by name, each from the
/// agent's most recent (last) record.
#[verifier::spinoff_prover]
#[verifier::rlimit(30)]
pub fn build_agents_model(records: &[FireRecord]) -> (r: AgentsModel)
    ensures
        agents_listing(records@, r.agents@),
{
    let mut agents: Vec<AgentStatusModel> = Vec::new();
    let mut i: usize = 0;
    while i < records.len()
        invariant
            i <= records.len(),
            forall|p: int, q: int| 0 <= p < q < agents@.len() ==> crate::text::seq_lt(#[trigger] agents@[p].name@, #[trigger] agents@[q].name@),
            forall|p: int| 0 <= p < agents@.len() ==> #[trigger] summarizes(records@, agents@[p]),
            forall|j: int| 0 <= j < i && (#[trigger] record_agent(records@[j])) is Some ==> listed(agents@, record_agent(records@[j])->0),
        decreases records.len() - i,
    {
        match &records[i].agent {
            None => {},
            Some(a) => {
                let name = chars_of(a.as_str());
                // Position of the first entry whose name is not below `name`.
                let mut p: usize = 0;
                while p < agents.len() && crate::text::chars_lt(chars_of(agents[p].name.as_str()).as_slice(), name.as_slice())
                    invariant
                        p <= agents@.len(),
                        forall|q: int| 0 <= q < p ==> crate::text::seq_lt(#[trigger] agents@[q].name@, name@),
                    decreases agents.len() - p,
                {
                    p = p + 1;
                }
                let present = p < agents.len() && crate::text::chars_eq(chars_of(agents[p].name.as_str()).as_slice(), name.as_slice());
                if !present {
                    // The agent's last record.
                    let mut j: usize = records.len();
                    while j > i + 1 && !agent_eq(&records[j - 1].agent, name.as_slice())
                        invariant
                            i + 1 <= j <= records.len(),
                            record_agent(records@[i as int]) == Some(name@),
                            forall|k: int| j <= k < records.len() ==> record_agent(#[trigger] records@[k]) != Some(name@),
                        decreases j,
                    {
                        j = j - 1;
                    }
                    let last = j - 1;
                    let entry = agent_status(name.as_slice(), &records[last]);
                    assert(last_by(records@, name@, last as int));
                    assert(summarizes(records@, entry));
                    let ghost old_agents = agents@;
                    proof {
                        if p < old_agents.len() {
                            crate::text::lemma_seq_lt_total(old_agents[p as int].name@, name@);
                        }
                    }
                    agents.insert(p, entry);
                    proof {
                        assert forall|x: int, y: int| 0 <= x < y < agents@.len() implies crate::text::seq_lt(#[trigger] agents@[x].name@, #[trigger] agents@[y].name@) by {
                            if y < p {
                                assert(agents@[x] == old_agents[x]);
                                assert(agents@[y] == old_agents[y]);
                            } else if y == p {
                                assert(agents@[x] == old_agents[x]);
                                assert(crate::text::seq_lt(old_agents[x].name@, name@));
                            } else if x < p {
                                assert(agents@[x] == old_agents[x]);
                                assert(crate::text::seq_lt(old_agents[x].name@, name@));
                                assert(agents@[y] == old_agents[y - 1]);
                                if y - 1 > p {
                                    crate::text::lemma_seq_lt_transitive(agents@[x].name@, name@, old_agents[p as int].name@);
                                    crate::text::lemma_seq_lt_transitive(agents@[x].name@, old_agents[p as int].name@, old_agents[y - 1].name@);
                                } else {
                                    crate::text::lemma_seq_lt_transitive(agents@[x].name@, name@, old_agents[p as int].name@);
                                }
                            } else if x == p {
                                assert(agents@[y] == old_agents[y - 1]);
                                if y - 1 > p {
                                    crate::text::lemma_seq_lt_transitive(name@, old_agents[p as int].name@, old_agents[y - 1].name@);
                                }
                            } else {
                                assert(agents@[x] == old_agents[x - 1]);
                                assert(agents@[y] == old_agents[y - 1]);
                            }
                        }
                        assert forall|q: int| 0 <= q < agents@.len() implies #[trigger] summarizes(records@, agents@[q]) by {
                            if q < p {
                                assert(agents@[q] == old_agents[q]);
                            } else if q > p {
                                assert(agents@[q] == old_agents[q - 1]);
                            }
                        }
                        assert forall|j2: int| 0 <= j2 < i + 1 && (#[trigger] record_agent(records@[j2])) is Some implies listed(agents@, record_agent(records@[j2])->0) by {
                            if j2 == i {
                                assert(agents@[p as int].name@ == name@);
                            } else {
                                let w = choose|w: int| 0 <= w < old_agents.len() && #[trigger] old_agents[w].name@ == record_agent(records@[j2])->0;
                                if w < p {
                                    assert(agents@[w] == old_agents[w]);
                                } else {
                                    assert(agents@[w + 1] == old_agents[w]);
                                }
                            }
                        }
                    }
                } else {
                    proof {
                        assert forall|j2: int| 0 <= j2 < i + 1 && (#[trigger] record_agent(records@[j2])) is Some implies listed(agents@, record_agent(records@[j2])->0) by {
                            if j2 == i {
                                assert(agents@[p as int].name@ == name@);
                            }
                        }
                    }
                }
            },
        }
        proof {
            assert forall|j2: int| 0 <= j2 < i + 1 && (#[trigger] record_agent(records@[j2])) is Some implies listed(agents@, record_agent(records@[j2])->0) by {
                if j2 < i {
                } else {
                    assert(record_agent(records@[i as int]) is Some);
                }
            }
        }
        i = i + 1;
    }
    AgentsModel { agents }
}

// ── Automations ────────────────────────────────────────────────────────────

/// A single recurring rule shown in the Automations panel.
#[derive(Debug, Clone, PartialEq)]
pub struct AutomationRuleModel {
    pub id: String,
    pub title: String,
    pub schedule: String,
    pub end_label: Option<String>,
    pub has_run: bool,
    pub has_agent: bool,
}

/// Data for the Automations panel.
#[derive(Debug, Clone, PartialEq)]
pub struct AutomationsModel {
    pub rules: Vec<AutomationRuleModel>,
}

pub open spec fn end_text(e: RecurEnd) -> Seq<char> {
    match e {
        RecurEnd::Until(d) => "until "@ + d.spec_text(),
        RecurEnd::Count(n) => decimal(n as nat) + " occurrences"@,
    }
}

pub open spec fn rule_model_matches(m: AutomationRuleModel, b: Block) -> bool {
    &&& m.id@ == b.id@
    &&& m.title@ == b.title@
    &&& m.schedule@ == match b.recurrence {
        Some(r) => rule_label(rule_shape(r.rule)),
        None => "(no schedule)"@,
    }
    &&& opt_text_view(m.end_label) == match b.recurrence {
        Some(r) => match r.end {
            Some(e) => Some(end_text(e)),
            None => None,
        },
        None => None,
    }
    &&& m.has_run == b.run is Some
    &&& m.has_agent == b.agent is Some
}

/// Builds the Automations panel: one entry per recurring rule, in order.
pub fn build_automations_model(rules: &RecurringRules) -> (r: AutomationsModel)
    ensures
        r.rules@.len() == rules.blocks@.len(),
        forall|k: int| 0 <= k < r.rules@.len() ==> rule_model_matches(#[trigger] r.rules@[k], rules.blocks@[k]),
{
    let mut out: Vec<AutomationRuleModel> = Vec::new();
    let mut i: usize = 0;
    while i < rules.blocks.len()
        invariant
            i <= rules.blocks.len(),
            out@.len() == i,
            forall|k: int| 0 <= k < i ==> rule_model_matches(#[trigger] out@[k], rules.blocks@[k]),
        decreases rules.blocks.len() - i,
    {
        let block = &rules.blocks[i];
        let (schedule, end_label) = match &block.recurrence {
            Some(rec) => {
                let sched = format_recur_rule(&rec.rule);
                let end = match rec.end {
                    Some(RecurEnd::Until(date)) => {
                        let mut t: Vec<char> = Vec::new();
                        push_str(&mut t, "until ");
                        let d = date.text_chars();
                        push_all(&mut t, d.as_slice());
                        Some(string_of(t.as_slice()))
                    },
                    Some(RecurEnd::Count(n)) => {
                        let mut t = decimal_chars(n as u64);
                        push_str(&mut t, " occurrences");
                        Some(string_of(t.as_slice()))
                    },
                    None => None,
                };
                (sched, end)
            },
            None => ("(no schedule)".to_owned(), None),
        };
        out.push(AutomationRuleModel {
            id: block.id.as_str().to_owned(),
            title: copy_string(&block.title),
            schedule,
            end_label,
            has_run: block.run.is_some(),
            has_agent: block.agent.is_some(),
        });
        i = i + 1;
    }
    AutomationsModel { rules: out }
}

// ── Block detail ───────────────────────────────────────────────────────────

/// Detailed information about a selected block for the right context pane.
#[derive(Debug, Clone, PartialEq)]
pub struct BlockDetailModel {
    pub id: String,
    pub title: String,
    pub time_range: String,
    pub countdown: String,
    pub status: Status,
    pub recurrence_label: Option<String>,
    pub run_argv: Option<String>,
    pub after_ids: Vec<String>,
    pub agent: Option<String>,
    pub approval: Option<String>,
    pub tags: Vec<String>,
}

pub open spec fn recurrence_label(r: crate::model::Recurrence) -> Seq<char> {
    match r.end {
        None => rule_label(rule_shape(r.rule)),
        Some(RecurEnd::Until(d)) => rule_label(rule_shape(r.rule)) + ", until "@ + d.spec_text(),
        Some(RecurEnd::Count(n)) => rule_label(rule_shape(r.rule)) + ", "@ + decimal(n as nat) + "\u{d7}"@,
    }
}

pub open spec fn detail_matches(d: BlockDetailModel, b: Block, start: Timestamp, end: Timestamp, now: Timestamp) -> bool {
    &&& d.id@ == b.id@
    &&& d.title@ == b.title@
    &&& d.time_range@ == time_range_text(b)
    &&& d.countdown@ == card_countdown(b, start, end, now)
    &&& d.status == b.status
    &&& opt_text_view(d.recurrence_label) == match b.recurrence {
        Some(r) => Some(recurrence_label(r)),
        None => None,
    }
    &&& opt_text_view(d.run_argv) == match b.run {
        Some(run) => Some(join_spaces(strings_view(run@))),
        None => None,
    }
    &&& strings_view(d.after_ids@) == ids_view(b.after@)
    &&& opt_text_view(d.agent) == opt_text_view(b.agent)
    &&& opt_text_view(d.approval) == match b.approval {
        Some(Approval::Pending) => Some("pending"@),
        Some(Approval::Approved) => Some("approved"@),
        None => None,
    }
    &&& strings_view(d.tags@) == strings_view(b.tags@)
}

/// Builds the detail pane for a block from its resolved start and end instants.
pub fn build_block_detail_model_at(block: &Block, start: Timestamp, end: Timestamp, now: Timestamp) -> (r: BlockDetailModel)
    ensures
        detail_matches(r, *block, start, end, now),
{
    let card = build_block_card_model_at(block, start, end, now);
    let recurrence_label = match &block.recurrence {
        Some(rec) => {
            let base = format_recur_rule(&rec.rule);
            let mut t = chars_of(base.as_str());
            match rec.end {
                None => {},
                Some(RecurEnd::Until(date)) => {
                    push_str(&mut t, ", until ");
                    let d = date.text_chars();
                    push_all(&mut t, d.as_slice());
                },
                Some(RecurEnd::Count(n)) => {
                    push_str(&mut t, ", ");
                    let d = decimal_chars(n as u64);
                    push_all(&mut t, d.as_slice());
                    push_str(&mut t, "\u{d7}");
                },
            }
            Some(string_of(t.as_slice()))
        },
        None => None,
    };
    let run_argv = match &block.run {
        Some(run) => {
            let mut t: Vec<char> = Vec::new();
            crate::model::push_joined(&mut t, run.as_slice(), ' ');
            Some(string_of(t.as_slice()))
        },
        None => None,
    };
    let mut after_ids: Vec<String> = Vec::new();
    let mut k: usize = 0;
    while k < block.after.len()
        invariant
            k <= block.after.len(),
            after_ids@.len() == k,
            forall|j: int| 0 <= j < k ==> #[trigger] after_ids@[j]@ == block.after@[j]@,
        decreases block.after.len() - k,
    {
        after_ids.push(block.after[k].as_str().to_owned());
        k = k + 1;
    }
    assert(strings_view(after_ids@) =~= ids_view(block.after@));
    let approval = match block.approval {
        Some(Approval::Pending) => Some("pending".to_owned()),
        Some(Approval::Approved) => Some("approved".to_owned()),
        None => None,
    };
    let agent = match &block.agent {
        Some(a) => Some(copy_string(a)),
        None => None,
    };
    BlockDetailModel {
        id: card.id,
        title: card.title,
        time_range: card.time_range,
        countdown: card.countdown,
        status: block.status,
        recurrence_label,
        run_argv,
        after_ids,
        agent,
        approval,
        tags: card.tags,
    }
}

/// Builds the detail pane for a block, resolving its times in the plan's zone (a time that
/// cannot be resolved counts as `now`).
pub fn build_block_detail_model(block: &Block, plan: &Plan, now: Timestamp) -> (r: BlockDetailModel)
    ensures
        exists|start: Timestamp, end: Timestamp| #[trigger] instants_for(*plan, *block, start, end, now) && detail_matches(r, *block, start, end, now),
{
    let start = match resolve_block_start(plan, block) {
        Ok(t) => t,
        Err(_) => now,
    };
    let end = match resolve_block_end(plan, block) {
        Ok(t) => t,
        Err(_) => now,
    };
    assert(instants_for(*plan, *block, start, end, now));
    build_block_detail_model_at(block, start, end, now)
}

// ── Today, Upcoming and Up next ─────────────────────────────────────────────

/// The start and end instants of each block of a plan, resolved in the plan's zone; a time that
/// cannot be resolved counts as `now`.
pub fn block_times(plan: &Plan, now: Timestamp) -> (r: (Vec<Timestamp>, Vec<Timestamp>))
    ensures
        r.0@.len() == plan.blocks@.len(),
        r.1@.len() == plan.blocks@.len(),
        times_for(*plan, r.0@, r.1@, now),
{
    let mut starts: Vec<Timestamp> = Vec::new();
    let mut ends: Vec<Timestamp> = Vec::new();
    let mut i: usize = 0;
    while i < plan.blocks.len()
        invariant
            i <= plan.blocks.len(),
            starts@.len() == i,
            ends@.len() == i,
            forall|k: int| 0 <= k < i ==> #[trigger] instants_for(*plan, plan.blocks@[k], starts@[k], ends@[k], now),
        decreases plan.blocks.len() - i,
    {
        let b = &plan.blocks[i];
        let start = match resolve_block_start(plan, b) {
            Ok(t) => t,
            Err(_) => now,
        };
        let end = match resolve_block_end(plan, b) {
            Ok(t) => t,
            Err(_) => now,
        };
        assert(instants_for(*plan, plan.blocks@[i as int], start, end, now));
        let ghost s0 = starts@;
        let ghost e0 = ends@;
        starts.push(start);
        ends.push(end);
        proof {
            assert forall|k: int| 0 <= k < i + 1 implies #[trigger] instants_for(*plan, plan.blocks@[k], starts@[k], ends@[k], now) by {
                if k < i {
                    assert(starts@[k] == s0[k] && ends@[k] == e0[k]);
                }
            }
        }
        i = i + 1;
    }
    (starts, ends)
}

/// Cards for all blocks, in order, from their resolved instants.
pub fn build_cards_at(blocks: &Vec<Block>, starts: &Vec<Timestamp>, ends: &Vec<Timestamp>, now: Timestamp) -> (r: Vec<BlockCardModel>)
    requires
        starts@.len() == blocks@.len(),
        ends@.len() == blocks@.len(),
    ensures
        r@.len() == blocks@.len(),
        forall|k: int| 0 <= k < r@.len() ==> card_matches(#[trigger] r@[k], blocks@[k], starts@[k], ends@[k], now),
{
    let mut cards: Vec<BlockCardModel> = Vec::new();
    let mut i: usize = 0;
    while i < blocks.len()
        invariant
            i <= blocks.len(),
            starts@.len() == blocks@.len(),
            ends@.len() == blocks@.len(),
            cards@.len() == i,
            forall|k: int| 0 <= k < i ==> card_matches(#[trigger] cards@[k], blocks@[k], starts@[k], ends@[k], now),
        decreases blocks.len() - i,
    {
        cards.push(build_block_card_model_at(&blocks[i], starts[i], ends[i], now));
        i = i + 1;
    }
    cards
}

/// Data for the Today timeline panel.
#[derive(Debug, Clone, PartialEq)]
pub struct TodayModel {
    pub date_label: String,
    pub now_label: String,
    /// Index into `cards` before which the "now" line is drawn (`None`: after all cards).
    pub now_line_index: Option<usize>,
    pub cards: Vec<BlockCardModel>,
}

pub open spec fn counting_down(c: BlockCardModel) -> bool {
    c.countdown@.len() >= 3 && c.countdown@.take(3) == "in "@
}

/// The first card whose countdown reads `in …`.
pub open spec fn now_line(cards: Seq<BlockCardModel>, idx: Option<usize>) -> bool {
    match idx {
        Some(i) => i < cards.len() && counting_down(cards[i as int]) && forall|k: int| 0 <= k < i ==> !counting_down(#[trigger] cards[k]),
        None => forall|k: int| 0 <= k < cards.len() ==> !counting_down(#[trigger] cards[k]),
    }
}

/// Hour and minute of an instant in a named zone, with `jiff::Timestamp::to_zoned` on the zone
/// `jiff::tz::TimeZone::get` loads.
///
/// Trusted, with only the ranges stated: the local time depends on the machine's time zone
/// database. `None` means the zone did not load.
#[verifier::external_body]
fn jiff_zoned_clock(zone: &str, nanos: i128) -> (r: Option<(i8, i8)>)
    ensures
        r matches Some(hm) ==> 0 <= hm.0 < 24 && 0 <= hm.1 < 60,
{
    let tz = jiff::tz::TimeZone::get(zone).ok()?;
    let t = jiff::Timestamp::from_nanosecond(nanos).ok()?;
    let z = t.to_zoned(tz);
    Some((z.hour(), z.minute()))
}

/// Hour and minute of an instant in UTC.
pub fn utc_clock(t: Timestamp) -> (r: (i8, i8))
    ensures
        r.0 == (t.spec_nanos() / 1000000000) % 86400 / 3600,
        r.1 == (t.spec_nanos() / 1000000000) % 3600 / 60,
{
    let n = t.as_nanos();
    let secs = if n >= 0 {
        n / 1000000000
    } else {
        -((-n + 999999999) / 1000000000)
    };
    assert(secs == n / 1000000000) by (nonlinear_arith)
        requires
            n >= 0 ==> secs == n / 1000000000,
            n < 0 ==> secs == -((-n + 999999999) / 1000000000),
    ;
    let day = secs % 86400;
    let day = if day < 0 { day + 86400 } else { day };
    assert(day == secs % 86400);
    let hour = (day / 3600) as i8;
    let minute = (day % 3600 / 60) as i8;
    assert(day % 3600 == secs % 3600) by (nonlinear_arith)
        requires
            day == secs % 86400,
    ;
    (hour, minute)
}

/// `cards` are the cards of `blocks`, one each and in order, for the given instants.
pub open spec fn cards_for(cards: Seq<BlockCardModel>, blocks: Seq<Block>, starts: Seq<Timestamp>, ends: Seq<Timestamp>, now: Timestamp) -> bool {
    &&& starts.len() == blocks.len()
    &&& ends.len() == blocks.len()
    &&& cards.len() == blocks.len()
    &&& forall|k: int| 0 <= k < blocks.len() ==> card_matches(#[trigger] cards[k], blocks[k], starts[k], ends[k], now)
}

/// Builds the Today timeline from the plan, its blocks' instants and the local clock reading.
pub fn build_today_model_at(plan: &Plan, starts: &Vec<Timestamp>, ends: &Vec<Timestamp>, now: Timestamp, clock: (i8, i8)) -> (r: TodayModel)
    requires
        starts@.len() == plan.blocks@.len(),
        ends@.len() == plan.blocks@.len(),
        0 <= clock.0 && 0 <= clock.1,
    ensures
        r.date_label@ == plan.date.spec_text(),
        r.now_label@ == zero_padded(clock.0 as nat, 2) + seq![':'] + zero_padded(clock.1 as nat, 2),
        r.cards@.len() == plan.blocks@.len(),
        forall|k: int| 0 <= k < r.cards@.len() ==> card_matches(#[trigger] r.cards@[k], plan.blocks@[k], starts@[k], ends@[k], now),
        now_line(r.cards@, r.now_line_index),
{
    let cards = build_cards_at(&plan.blocks, starts, ends, now);
    let mut label = zero_padded_chars(clock.0 as u64, 2);
    label.push(':');
    let m = zero_padded_chars(clock.1 as u64, 2);
    push_all(&mut label, m.as_slice());
    let prefix = chars_of("in ");
    proof {
        reveal_strlit("in ");
    }
    let mut found = false;
    let mut i: usize = 0;
    while i < cards.len() && !found
        invariant
            i <= cards@.len(),
            prefix@ == "in "@,
            found ==> i > 0 && counting_down(cards@[i - 1]),
            forall|k: int| 0 <= k < (if found { i - 1 } else { i as int }) ==> !counting_down(#[trigger] cards@[k]),
        decreases cards.len() - i,
    {
        let c = chars_of(cards[i].countdown.as_str());
        proof {
            reveal_strlit("in ");
        }
        if crate::text::starts_with_chars(c.as_slice(), prefix.as_slice()) {
            found = true;
        }
        i = i + 1;
    }
    let idx = if found {
        Some(i - 1)
    } else {
        None
    };
    TodayModel { date_label: plan.date.text(), now_label: string_of(label.as_slice()), now_line_index: idx, cards }
}

/// Builds the Today timeline, reading the clock in the plan's zone (UTC when the zone does not
/// load).
pub fn build_today_model(plan: &Plan, now: Timestamp) -> (r: TodayModel)
    ensures
        r.date_label@ == plan.date.spec_text(),
        r.cards@.len() == plan.blocks@.len(),
        exists|starts: Seq<Timestamp>, ends: Seq<Timestamp>| #[trigger] cards_for(r.cards@, plan.blocks@, starts, ends, now)
            && times_for(*plan, starts, ends, now),
        now_line(r.cards@, r.now_line_index),
{
    let (starts, ends) = block_times(plan, now);
    let clock = match jiff_zoned_clock(plan.timezone.as_str(), now.as_nanos()) {
        Some(hm) => hm,
        None => utc_clock(now),
    };
    let r = build_today_model_at(plan, &starts, &ends, now, clock);
    assert(cards_for(r.cards@, plan.blocks@, starts@, ends@, now));
    r
}

/// A single future day shown in the Upcoming panel.
#[derive(Debug, Clone, PartialEq)]
pub struct UpcomingDay {
    pub date_label: String,
    pub cards: Vec<BlockCardModel>,
}

/// Data for the Upcoming panel (the next days' plans).
#[derive(Debug, Clone, PartialEq)]
pub struct UpcomingModel {
    pub days: Vec<UpcomingDay>,
}

/// Builds the Upcoming panel: one day per plan, in order, with a card per block.
pub fn build_upcoming_model(plans: &[Plan], now: Timestamp) -> (r: UpcomingModel)
    ensures
        r.days@.len() == plans@.len(),
        forall|k: int| 0 <= k < r.days@.len() ==> (#[trigger] r.days@[k]).date_label@ == plans@[k].date.spec_text()
            && r.days@[k].cards@.len() == plans@[k].blocks@.len()
            && exists|starts: Seq<Timestamp>, ends: Seq<Timestamp>| #[trigger] cards_for(r.days@[k].cards@, plans@[k].blocks@, starts, ends, now)
                && times_for(plans@[k], starts, ends, now),
{
    let mut days: Vec<UpcomingDay> = Vec::new();
    let mut i: usize = 0;
    while i < plans.len()
        invariant
            i <= plans@.len(),
            days@.len() == i,
            forall|k: int| 0 <= k < i ==> (#[trigger] days@[k]).date_label@ == plans@[k].date.spec_text()
                && days@[k].cards@.len() == plans@[k].blocks@.len()
                && exists|starts: Seq<Timestamp>, ends: Seq<Timestamp>| #[trigger] cards_for(days@[k].cards@, plans@[k].blocks@, starts, ends, now)
                    && times_for(plans@[k], starts, ends, now),
        decreases plans.len() - i,
    {
        let plan = &plans[i];
        let (starts, ends) = block_times(plan, now);
        let cards = build_cards_at(&plan.blocks, &starts, &ends, now);
        let ghost (s0, e0) = (starts@, ends@);
        assert(cards_for(cards@, plan.blocks@, s0, e0, now));
        days.push(UpcomingDay { date_label: plan.date.text(), cards });
        assert(cards_for(days@[i as int].cards@, plans@[i as int].blocks@, s0, e0, now));
        i = i + 1;
    }
    UpcomingModel { days }
}

/// The next (up to three) upcoming blocks shown when nothing is selected.
#[derive(Debug, Clone, PartialEq)]
pub struct UpNextModel {
    pub items: Vec<BlockCardModel>,
}

/// Block `k` is still open and starts at or after `now`.
pub open spec fn upcoming_at(blocks: Seq<Block>, starts: Seq<Timestamp>, now: Timestamp, k: int) -> bool {
    !status_terminal(blocks[k].status) && starts[k].spec_nanos() >= now.spec_nanos()
}

/// The indices of the first (up to three) upcoming blocks, in order.
pub open spec fn first_upcoming(blocks: Seq<Block>, starts: Seq<Timestamp>, now: Timestamp, picked: Seq<int>) -> bool {
    &&& picked.len() <= 3
    &&& forall|x: int, y: int| 0 <= x < y < picked.len() ==> picked[x] < picked[y]
    &&& forall|x: int| 0 <= x < picked.len() ==> 0 <= #[trigger] picked[x] < blocks.len() && upcoming_at(blocks, starts, now, picked[x])
    &&& forall|k: int| 0 <= k < blocks.len() && upcoming_at(blocks, starts, now, k) && (picked.len() < 3 || k < picked.last()) ==> exists|x: int| 0 <= x < picked.len() && #[trigger] picked[x] == k
}

/// `items` are the cards of the first (up to three) upcoming blocks, for the given instants.
pub open spec fn up_next_for(items: Seq<BlockCardModel>, blocks: Seq<Block>, starts: Seq<Timestamp>, ends: Seq<Timestamp>, now: Timestamp) -> bool {
    &&& starts.len() == blocks.len()
    &&& ends.len() == blocks.len()
    &&& exists|picked: Seq<int>| #[trigger] first_upcoming(blocks, starts, now, picked) && picked.len() == items.len()
        && forall|x: int| 0 <= x < picked.len() ==> card_matches(#[trigger] items[x], blocks[picked[x]], starts[picked[x]], ends[picked[x]], now)
}

/// Builds the Up-next list from the blocks' instants: the first three open blocks that start at
/// or after `now`, as cards.
pub fn build_up_next_model_at(plan: &Plan, starts: &Vec<Timestamp>, ends: &Vec<Timestamp>, now: Timestamp) -> (r: UpNextModel)
    requires
        starts@.len() == plan.blocks@.len(),
        ends@.len() == plan.blocks@.len(),
    ensures
        exists|picked: Seq<int>| #[trigger] first_upcoming(plan.blocks@, starts@, now, picked) && picked.len() == r.items@.len()
            && forall|x: int| 0 <= x < picked.len() ==> card_matches(#[trigger] r.items@[x], plan.blocks@[picked[x]], starts@[picked[x]], ends@[picked[x]], now),
{
    let mut items: Vec<BlockCardModel> = Vec::new();
    let ghost mut picked: Seq<int> = Seq::empty();
    let mut i: usize = 0;
    while i < plan.blocks.len() && items.len() < 3
        invariant
            i <= plan.blocks@.len(),
            starts@.len() == plan.blocks@.len(),
            ends@.len() == plan.blocks@.len(),
            picked.len() == items@.len() <= 3,
            forall|x: int, y: int| 0 <= x < y < picked.len() ==> picked[x] < picked[y],
            forall|x: int| 0 <= x < picked.len() ==> 0 <= #[trigger] picked[x] < i && upcoming_at(plan.blocks@, starts@, now, picked[x]),
            forall|k: int| 0 <= k < i && upcoming_at(plan.blocks@, starts@, now, k) ==> exists|x: int| 0 <= x < picked.len() && #[trigger] picked[x] == k,
            forall|x: int| 0 <= x < picked.len() ==> card_matches(#[trigger] items@[x], plan.blocks@[picked[x]], starts@[picked[x]], ends@[picked[x]], now),
        decreases plan.blocks.len() - i,
    {
        let b = &plan.blocks[i];
        if !b.status.is_terminal() && now.le(starts[i]) {
            items.push(build_block_card_model_at(b, starts[i], ends[i], now));
            proof {
                let old_picked = picked;
                picked = picked.push(i as int);
                assert forall|k: int| 0 <= k < i + 1 && upcoming_at(plan.blocks@, starts@, now, k) implies exists|x: int| 0 <= x < picked.len() && #[trigger] picked[x] == k by {
                    if k < i {
                        let x = choose|x: int| 0 <= x < old_picked.len() && #[trigger] old_picked[x] == k;
                        assert(picked[x] == k);
                    } else {
                        assert(picked[picked.len() - 1] == k);
                    }
                }
            }
        }
        i = i + 1;
    }
    proof {
        assert forall|k: int| 0 <= k < plan.blocks@.len() && upcoming_at(plan.blocks@, starts@, now, k) && (picked.len() < 3 || k < picked.last()) implies exists|x: int| 0 <= x < picked.len() && #[trigger] picked[x] == k by {
            if k >= i {
                assert(picked.len() == 3);
                assert(picked.last() < i);
            }
        }
        assert(first_upcoming(plan.blocks@, starts@, now, picked));
    }
    UpNextModel { items }
}

/// Builds the Up-next list, resolving the blocks' times in the plan's zone.
pub fn build_up_next_model(plan: &Plan, now: Timestamp) -> (r: UpNextModel)
    ensures
        r.items@.len() <= 3,
        exists|starts: Seq<Timestamp>, ends: Seq<Timestamp>| #[trigger] up_next_for(r.items@, plan.blocks@, starts, ends, now)
            && times_for(*plan, starts, ends, now),
{
    let (starts, ends) = block_times(plan, now);
    let r = build_up_next_model_at(plan, &starts, &ends, now);
    assert(up_next_for(r.items@, plan.blocks@, starts@, ends@, now));
    r
}

} // verus!
