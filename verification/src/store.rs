//! The store's rules without its files: where things live, how an incoming plan merges with the
//! stored one, and the fired-event and trigger ledgers.

use vstd::prelude::*;

use crate::civil::PlanDate;
use crate::lifecycle::Event;
use crate::model::{
    blocks_valid, first_issue_at, plan_error_text, same_block, status_terminal, Block, BlockId, Plan, PlanError,
    ScheduleRev, ValidationError,
};
use crate::text::{chars_of, concat2, concat3, push_str, string_of};
use crate::time::Timestamp;

verus! {

/// `Path::join` of a relative component onto a base, as std does it on Unix: a separator is
/// added unless the base is empty or already ends with one.
pub open spec fn path_join(base: Seq<char>, part: Seq<char>) -> Seq<char> {
    if base.len() == 0 {
        part
    } else if base.last() == '/' {
        base + part
    } else {
        base + seq!['/'] + part
    }
}

pub fn join_path(base: &str, part: &str) -> (r: String)
    ensures
        r@ == path_join(base@, part@),
{
    let b = chars_of(base);
    let mut out: Vec<char> = Vec::new();
    crate::text::push_all(&mut out, b.as_slice());
    if b.len() > 0 && b[b.len() - 1] != '/' {
        out.push('/');
    }
    push_str(&mut out, part);
    string_of(out.as_slice())
}

/// Where the planner keeps its data, configuration and state.
#[derive(Debug, Clone)]
pub struct Store {
    data: String,
    config: String,
    state: String,
}

impl Store {
    pub closed spec fn spec_data(&self) -> Seq<char> {
        self.data@
    }

    pub closed spec fn spec_config(&self) -> Seq<char> {
        self.config@
    }

    pub closed spec fn spec_state(&self) -> Seq<char> {
        self.state@
    }

    /// A store rooted at `base_dir`: `data/ccplan`, `config/ccplan` and `state/ccplan` below it.
    pub fn new(base_dir: &str) -> (r: Store)
        ensures
            r.spec_data() == path_join(path_join(base_dir@, "data"@), "ccplan"@),
            r.spec_config() == path_join(path_join(base_dir@, "config"@), "ccplan"@),
            r.spec_state() == path_join(path_join(base_dir@, "state"@), "ccplan"@),
    {
        let data = join_path(base_dir, "data");
        let config = join_path(base_dir, "config");
        let state = join_path(base_dir, "state");
        Store {
            data: join_path(data.as_str(), "ccplan"),
            config: join_path(config.as_str(), "ccplan"),
            state: join_path(state.as_str(), "ccplan"),
        }
    }

    /// A store with the given directories (as the platform's project directories give them).
    pub fn from_dirs(data: String, config: String, state: String) -> (r: Store)
        ensures
            r.spec_data() == data@,
            r.spec_config() == config@,
            r.spec_state() == state@,
    {
        Store { data, config, state }
    }

    pub fn data_dir(&self) -> (r: &str)
        ensures
            r@ == self.spec_data(),
    {
        self.data.as_str()
    }

    pub fn state_dir(&self) -> (r: &str)
        ensures
            r@ == self.spec_state(),
    {
        self.state.as_str()
    }

    pub fn config_dir(&self) -> (r: &str)
        ensures
            r@ == self.spec_config(),
    {
        self.config.as_str()
    }

    /// `<data>/plans`.
    pub fn plans_dir(&self) -> (r: String)
        ensures
            r@ == path_join(self.spec_data(), "plans"@),
    {
        join_path(self.data.as_str(), "plans")
    }

    /// `<data>/archive`.
    pub fn archive_dir(&self) -> (r: String)
        ensures
            r@ == path_join(self.spec_data(), "archive"@),
    {
        join_path(self.data.as_str(), "archive")
    }

    /// `<data>/log`.
    pub fn log_dir(&self) -> (r: String)
        ensures
            r@ == path_join(self.spec_data(), "log"@),
    {
        join_path(self.data.as_str(), "log")
    }

    /// `<data>/plans/<date>.toml`.
    pub fn plan_path(&self, date: &PlanDate) -> (r: String)
        ensures
            r@ == path_join(path_join(self.spec_data(), "plans"@), date.spec_text() + ".toml"@),
    {
        let dir = self.plans_dir();
        let mut name: Vec<char> = date.text_chars();
        push_str(&mut name, ".toml");
        let n = string_of(name.as_slice());
        join_path(dir.as_str(), n.as_str())
    }

    /// `<data>/archive/<date>.toml`.
    pub fn archive_path(&self, date: &PlanDate) -> (r: String)
        ensures
            r@ == path_join(path_join(self.spec_data(), "archive"@), date.spec_text() + ".toml"@),
    {
        let dir = self.archive_dir();
        let mut name: Vec<char> = date.text_chars();
        push_str(&mut name, ".toml");
        let n = string_of(name.as_slice());
        join_path(dir.as_str(), n.as_str())
    }

    /// `<data>/log/fire.log`.
    pub fn fire_log_path(&self) -> (r: String)
        ensures
            r@ == path_join(path_join(self.spec_data(), "log"@), "fire.log"@),
    {
        let dir = self.log_dir();
        join_path(dir.as_str(), "fire.log")
    }

    /// `<state>/store.lock`.
    pub fn lock_path(&self) -> (r: String)
        ensures
            r@ == path_join(self.spec_state(), "store.lock"@),
    {
        join_path(self.state.as_str(), "store.lock")
    }

    /// `<state>/fired.json`.
    pub fn fired_path(&self) -> (r: String)
        ensures
            r@ == path_join(self.spec_state(), "fired.json"@),
    {
        join_path(self.state.as_str(), "fired.json")
    }

    /// `<state>/triggers.json`.
    pub fn triggers_path(&self) -> (r: String)
        ensures
            r@ == path_join(self.spec_state(), "triggers.json"@),
    {
        join_path(self.state.as_str(), "triggers.json")
    }

    /// `<config>/config.toml`.
    pub fn config_path(&self) -> (r: String)
        ensures
            r@ == path_join(self.spec_config(), "config.toml"@),
    {
        join_path(self.config.as_str(), "config.toml")
    }
}

/// Whether a plan merge may change terminal blocks.
#[derive(Debug, Clone, Copy, PartialEq, Eq, Structural)]
pub enum HistoryPolicy {
    Preserve,
    Override,
}

/// One line of the fire log.
#[derive(Debug, Clone, PartialEq, Eq)]
pub struct FireRecord {
    pub ts: Timestamp,
    pub date: PlanDate,
    pub id: BlockId,
    pub event: Event,
    pub outcome: String,
    pub detail: String,
    pub agent: Option<String>,
}

/// The identity of one firing of one trigger.
#[derive(Debug, Clone, PartialEq, Eq)]
pub struct FiredEventKey {
    pub date: PlanDate,
    pub block_id: BlockId,
    pub event: Event,
    pub rev: ScheduleRev,
    pub scheduled_at: Timestamp,
}

#[derive(Debug, Clone, Copy, PartialEq, Eq, Structural)]
pub enum FiredStatus {
    Recorded,
    AlreadyFired,
}

/// A trigger the planner installed with a scheduler backend.
#[derive(Debug, Clone, PartialEq, Eq)]
pub struct TriggerRecord {
    pub backend_id: String,
    pub date: PlanDate,
    pub block_id: BlockId,
    pub event: Event,
    pub rev: ScheduleRev,
    pub scheduled_at: Timestamp,
}

/// Why a store operation failed.
#[derive(Debug, Clone, PartialEq, Eq)]
pub enum StoreError {
    ProjectDirsUnavailable,
    Locked,
    Io { path: String, message: String },
    Plan(PlanError),
    Json { path: String, message: String },
    TerminalHistory { id: BlockId },
}

impl StoreError {
    /// Process exit code: a plan error's own code, 6 for terminal history, 1 otherwise.
    pub fn exit_code(&self) -> (r: i32)
        ensures
            r == match self {
                StoreError::Plan(_) => 2int,
                StoreError::TerminalHistory { .. } => 6,
                _ => 1,
            },
    {
        match self {
            StoreError::Plan(error) => error.exit_code(),
            StoreError::TerminalHistory { .. } => 6,
            StoreError::ProjectDirsUnavailable | StoreError::Locked | StoreError::Io { .. }
            | StoreError::Json { .. } => 1,
        }
    }

    /// The message shown for the error, e.g. ``I/O error at `/p`: denied``.
    pub fn message(&self) -> (r: String)
        ensures
            r@ == store_error_text(*self),
    {
        match self {
            StoreError::ProjectDirsUnavailable => "project directories are unavailable".to_owned(),
            StoreError::Locked => "store is locked by another writer".to_owned(),
            StoreError::Io { path, message } => {
                let mut out = chars_of("I/O error at `");
                push_str(&mut out, path.as_str());
                push_str(&mut out, "`: ");
                push_str(&mut out, message.as_str());
                string_of(out.as_slice())
            },
            StoreError::Plan(error) => {
                let text = error.message();
                concat2("invalid plan in store: ", text.as_str())
            },
            StoreError::Json { path, message } => {
                let mut out = chars_of("invalid JSON at `");
                push_str(&mut out, path.as_str());
                push_str(&mut out, "`: ");
                push_str(&mut out, message.as_str());
                string_of(out.as_slice())
            },
            StoreError::TerminalHistory { id } => concat3(
                "terminal block `",
                id.as_str(),
                "` would be altered without override",
            ),
        }
    }
}

pub open spec fn store_error_text(e: StoreError) -> Seq<char> {
    match e {
        StoreError::ProjectDirsUnavailable => "project directories are unavailable"@,
        StoreError::Locked => "store is locked by another writer"@,
        StoreError::Io { path, message } => "I/O error at `"@ + path@ + "`: "@ + message@,
        StoreError::Plan(p) => "invalid plan in store: "@ + plan_error_text(p),
        StoreError::Json { path, message } => "invalid JSON at `"@ + path@ + "`: "@ + message@,
        StoreError::TerminalHistory { id } => "terminal block `"@ + id@ + "` would be altered without override"@,
    }
}

// ── Fired-event ledger ─────────────────────────────────────────────────────

pub open spec fn same_key(a: FiredEventKey, b: FiredEventKey) -> bool {
    &&& a.date == b.date
    &&& a.block_id@ == b.block_id@
    &&& a.event == b.event
    &&& a.rev@ == b.rev@
    &&& a.scheduled_at == b.scheduled_at
}

pub open spec fn key_fired(fired: Seq<FiredEventKey>, key: FiredEventKey) -> bool {
    exists|i: int| 0 <= i < fired.len() && same_key(#[trigger] fired[i], key)
}

/// An empty ledger has seen no firing.
pub proof fn empty_ledger_has_fired_nothing(key: FiredEventKey)
    ensures
        !key_fired(Seq::<FiredEventKey>::empty(), key),
{
}

/// Recording a firing marks that firing, and only it: a key that differs from the recorded one
/// in any field (its date, block, event, revision or scheduled instant) counts as fired afterwards
/// exactly when it did before.
pub proof fn recording_marks_only_that_firing(fired: Seq<FiredEventKey>, recorded: FiredEventKey, key: FiredEventKey)
    ensures
        key_fired(fired.push(recorded), recorded),
        (recorded.date != key.date || recorded.block_id@ != key.block_id@ || recorded.event != key.event
            || recorded.rev@ != key.rev@ || recorded.scheduled_at != key.scheduled_at)
            ==> (key_fired(fired.push(recorded), key) == key_fired(fired, key)),
{
    let after = fired.push(recorded);
    assert(same_key(after[fired.len() as int], recorded));
    if key_fired(fired, key) {
        let i = choose|i: int| 0 <= i < fired.len() && same_key(#[trigger] fired[i], key);
        assert(after[i] == fired[i]);
    }
    if key_fired(after, key) && (recorded.date != key.date || recorded.block_id@ != key.block_id@
        || recorded.event != key.event || recorded.rev@ != key.rev@ || recorded.scheduled_at != key.scheduled_at) {
        let i = choose|i: int| 0 <= i < after.len() && same_key(#[trigger] after[i], key);
        if i == fired.len() {
            recorded.scheduled_at.lemma_nanos_determine(key.scheduled_at);
            assert(false);
        }
        assert(after[i] == fired[i]);
    }
}

fn key_eq(a: &FiredEventKey, b: &FiredEventKey) -> (r: bool)
    ensures
        r == same_key(*a, *b),
{
    proof {
        a.scheduled_at.lemma_nanos_determine(b.scheduled_at);
    }
    a.date.same(&b.date) && a.block_id.same(&b.block_id) && a.event == b.event && a.rev.same(&b.rev)
        && a.scheduled_at.as_nanos() == b.scheduled_at.as_nanos()
}

/// The keys of every trigger firing recorded so far.
#[derive(Debug, Clone, Default)]
pub struct FiredLedger {
    pub fired: Vec<FiredEventKey>,
}

impl FiredLedger {
    /// Records `key` unless it was recorded before; says which happened.
    pub fn check_and_set(&mut self, key: FiredEventKey) -> (r: FiredStatus)
        ensures
            (r == FiredStatus::AlreadyFired) <==> key_fired(old(self).fired@, key),
            r == FiredStatus::AlreadyFired ==> final(self).fired@ == old(self).fired@,
            r == FiredStatus::Recorded ==> final(self).fired@ == old(self).fired@.push(key),
            key_fired(final(self).fired@, key),
    {
        let mut i: usize = 0;
        while i < self.fired.len()
            invariant
                i <= self.fired.len(),
                self.fired@ == old(self).fired@,
                forall|k: int| 0 <= k < i ==> !same_key(#[trigger] self.fired@[k], key),
            decreases self.fired.len() - i,
        {
            if key_eq(&self.fired[i], &key) {
                assert(same_key(self.fired@[i as int], key));
                return FiredStatus::AlreadyFired;
            }
            i = i + 1;
        }
        self.fired.push(key);
        assert(same_key(self.fired@[self.fired@.len() - 1], key));
        FiredStatus::Recorded
    }

    /// Drops every key recorded for `date`; says whether any was dropped.
    pub fn prune_date(&mut self, date: &PlanDate) -> (r: bool)
        ensures
            final(self).fired@ == old(self).fired@.filter(|k: FiredEventKey| k.date != *date),
            r == (final(self).fired@.len() != old(self).fired@.len()),
    {
        let ghost pred = |k: FiredEventKey| k.date != *date;
        let old_len = self.fired.len();
        let mut rest: Vec<FiredEventKey> = Vec::new();
        std::mem::swap(&mut rest, &mut self.fired);
        let mut kept: Vec<FiredEventKey> = Vec::new();
        while rest.len() > 0
            invariant
                pred == (|k: FiredEventKey| k.date != *date),
                kept@ + rest@.filter(pred) == old(self).fired@.filter(pred),
            decreases rest.len(),
        {
            let ghost before = rest@;
            let ghost kept_before = kept@;
            let k = rest.remove(0);
            proof {
                assert(before == seq![k] + rest@);
                rest@.lemma_filter_prepend(k, pred);
            }
            if !k.date.same(date) {
                kept.push(k);
                assert(kept@ + rest@.filter(pred) == kept_before + (seq![k] + rest@.filter(pred)));
            } else {
                assert(rest@.filter(pred) == (seq![k] + rest@).filter(pred));
            }
        }
        self.fired = kept;
        self.fired.len() != old_len
    }
}

/// Recording a firing and then asking about it again answers that it already fired.
pub proof fn fired_ledger_is_idempotent(fired: Seq<FiredEventKey>, key: FiredEventKey)
    ensures
        key_fired(if key_fired(fired, key) { fired } else { fired.push(key) }, key),
{
    if !key_fired(fired, key) {
        assert(same_key(fired.push(key)[fired.len() as int], key));
    }
}

// ── Trigger ledger ─────────────────────────────────────────────────────────

/// The triggers the planner installed, one per backend id.
#[derive(Debug, Clone, Default)]
pub struct TriggerLedger {
    pub triggers: Vec<TriggerRecord>,
}

pub open spec fn backend_ids(v: Seq<TriggerRecord>) -> Seq<Seq<char>> {
    Seq::new(v.len(), |i: int| v[i].backend_id@)
}

/// Keeps the entries whose backend id is not `id`.
pub open spec fn other_ids(id: Seq<char>) -> spec_fn(TriggerRecord) -> bool {
    |t: TriggerRecord| t.backend_id@ != id
}

impl TriggerRecord {
    /// A copy of the record.
    pub fn copied(&self) -> (r: TriggerRecord)
        ensures
            r == *self,
    {
        TriggerRecord {
            backend_id: crate::text::copy_string(&self.backend_id),
            date: self.date,
            block_id: self.block_id.copied(),
            event: self.event,
            rev: self.rev.copied(),
            scheduled_at: self.scheduled_at,
        }
    }
}

impl TriggerLedger {
    /// Removes the triggers with `backend_id`; says whether any was removed.
    pub fn remove_trigger(&mut self, backend_id: &str) -> (r: bool)
        ensures
            final(self).triggers@ == old(self).triggers@.filter(other_ids(backend_id@)),
            r == (final(self).triggers@.len() != old(self).triggers@.len()),
    {
        let ghost pred = other_ids(backend_id@);
        let old_len = self.triggers.len();
        let mut rest: Vec<TriggerRecord> = Vec::new();
        std::mem::swap(&mut rest, &mut self.triggers);
        let mut kept: Vec<TriggerRecord> = Vec::new();
        while rest.len() > 0
            invariant
                pred == other_ids(backend_id@),
                kept@ + rest@.filter(pred) == old(self).triggers@.filter(pred),
            decreases rest.len(),
        {
            let ghost before = rest@;
            let ghost kept_before = kept@;
            let t = rest.remove(0);
            proof {
                assert(before == seq![t] + rest@);
                rest@.lemma_filter_prepend(t, pred);
            }
            let a = chars_of(t.backend_id.as_str());
            let b = chars_of(backend_id);
            if !crate::text::chars_eq(a.as_slice(), b.as_slice()) {
                kept.push(t);
                assert(kept@ + rest@.filter(pred) == kept_before + (seq![t] + rest@.filter(pred)));
            } else {
                assert(rest@.filter(pred) == (seq![t] + rest@).filter(pred));
            }
        }
        self.triggers = kept;
        self.triggers.len() != old_len
    }

    /// Records a trigger, replacing any with the same backend id.
    pub fn record_trigger(&mut self, trigger: TriggerRecord)
        ensures
            final(self).triggers@ == old(self).triggers@.filter(other_ids(trigger.backend_id@)).push(trigger),
    {
        let id = crate::text::copy_string(&trigger.backend_id);
        self.remove_trigger(id.as_str());
        self.triggers.push(trigger);
    }
}

// ── Plan merge ─────────────────────────────────────────────────────────────

pub open spec fn is_terminal_block(b: Block) -> bool {
    status_terminal(b.status)
}

/// The terminal blocks of a plan, in order.
pub open spec fn terminals(blocks: Seq<Block>) -> Seq<Block> {
    blocks.filter(|b: Block| is_terminal_block(b))
}

/// Index of the first block with `id`.
pub open spec fn first_with_id(blocks: Seq<Block>, id: Seq<char>) -> Option<int>
    decreases blocks.len(),
{
    if blocks.len() == 0 {
        None
    } else {
        match first_with_id(blocks.drop_last(), id) {
            Some(i) => Some(i),
            None => if blocks.last().id@ == id {
                Some(blocks.len() - 1)
            } else {
                None
            },
        }
    }
}

pub proof fn lemma_first_with_id(blocks: Seq<Block>, id: Seq<char>)
    ensures
        match first_with_id(blocks, id) {
            Some(i) => 0 <= i < blocks.len() && blocks[i].id@ == id && forall|k: int| 0 <= k < i ==> blocks[k].id@ != id,
            None => forall|k: int| 0 <= k < blocks.len() ==> blocks[k].id@ != id,
        },
    decreases blocks.len(),
{
    if blocks.len() > 0 {
        lemma_first_with_id(blocks.drop_last(), id);
        assert forall|k: int| 0 <= k < blocks.len() - 1 implies blocks[k] == blocks.drop_last()[k] by {}
    }
}

/// `out` holds a block that says the same as `t`.
pub open spec fn has_copy(out: Seq<Block>, t: Block) -> bool {
    exists|i: int| 0 <= i < out.len() && #[trigger] same_block(out[i], t)
}

/// Carries the stored terminal blocks `ts` over into `blocks`, in order: a terminal block whose
/// id the blocks already use must be repeated unchanged there (else the merge fails with its
/// id); one whose id is absent is appended.
pub open spec fn carry_terminals(ts: Seq<Block>, blocks: Seq<Block>) -> Result<Seq<Block>, Seq<char>>
    decreases ts.len(),
{
    if ts.len() == 0 {
        Ok(blocks)
    } else {
        let t = ts[0];
        match first_with_id(blocks, t.id@) {
            Some(i) => if same_block(blocks[i], t) {
                carry_terminals(ts.drop_first(), blocks)
            } else {
                Err(t.id@)
            },
            None => carry_terminals(ts.drop_first(), blocks.push(t)),
        }
    }
}

/// What merging `incoming` over the stored plan gives, block-wise: the error's id, or the blocks.
pub open spec fn merge_outcome(existing: Plan, incoming: Plan) -> Result<Seq<Block>, Seq<char>> {
    let ts = terminals(existing.blocks@);
    if existing.timezone@ != incoming.timezone@ && ts.len() > 0 {
        Err(ts[0].id@)
    } else {
        carry_terminals(ts, incoming.blocks@)
    }
}

/// Finds the first block with the given id.
fn find_id(blocks: &Vec<Block>, id: &BlockId) -> (r: Option<usize>)
    ensures
        r matches Some(j) ==> first_with_id(blocks@, id@) == Some(j as int) && j < blocks@.len(),
        r is None ==> first_with_id(blocks@, id@) is None,
{
    let mut j: usize = 0;
    while j < blocks.len()
        invariant
            j <= blocks.len(),
            forall|k: int| 0 <= k < j ==> blocks@[k].id@ != id@,
        decreases blocks.len() - j,
    {
        if blocks[j].id.same(id) {
            proof {
                lemma_first_with_id(blocks@, id@);
            }
            return Some(j);
        }
        j = j + 1;
    }
    proof {
        lemma_first_with_id(blocks@, id@);
    }
    None
}

/// Merges an incoming plan with the stored plan of its date.
///
/// The incoming plan must be valid. With `Override`, or with nothing stored, it is taken as is.
/// With `Preserve`, the stored plan's terminal blocks are history: they are carried over, and an
/// incoming plan that changes one, or changes the time zone while any exists, is refused.
pub fn merge_plans(existing: Option<Plan>, incoming: Plan, policy: HistoryPolicy) -> (r: Result<Plan, StoreError>)
    ensures
        !blocks_valid(incoming.blocks@) ==> (r matches Err(StoreError::Plan(PlanError::Validation(e)))
            && exists|i: int| 0 <= i < incoming.blocks@.len() && #[trigger] first_issue_at(incoming.blocks@, i, e)),
        blocks_valid(incoming.blocks@) && (policy == HistoryPolicy::Override || existing is None)
            ==> r == Ok::<Plan, StoreError>(incoming),
        blocks_valid(incoming.blocks@) && policy == HistoryPolicy::Preserve && existing is Some ==> {
            let ex = existing->0;
            match merge_outcome(ex, incoming) {
                Err(id) => r matches Err(StoreError::TerminalHistory { id: got }) && got@ == id,
                Ok(bs) => if blocks_valid(bs) {
                    r matches Ok(p) && p.blocks@ == bs && p.date == incoming.date && p.timezone == incoming.timezone
                } else {
                    r matches Err(StoreError::Plan(PlanError::Validation(e)))
                        && exists|i: int| 0 <= i < bs.len() && #[trigger] first_issue_at(bs, i, e)
                },
            }
        },
{
    match incoming.validate() {
        Err(e) => return Err(StoreError::Plan(PlanError::Validation(e))),
        Ok(()) => {},
    }
    if policy == HistoryPolicy::Override {
        return Ok(incoming);
    }
    let ex = match existing {
        None => return Ok(incoming),
        Some(p) => p,
    };
    let ghost ex0 = ex;
    let ghost tpred = |b: Block| is_terminal_block(b);
    // Take the terminal blocks out of the stored plan, in order.
    let mut rest: Vec<Block> = ex.blocks;
    let mut ts: Vec<Block> = Vec::new();
    while rest.len() > 0
        invariant
            tpred == (|b: Block| is_terminal_block(b)),
            ts@ + rest@.filter(tpred) == ex0.blocks@.filter(tpred),
        decreases rest.len(),
    {
        let ghost before = rest@;
        let ghost ts_before = ts@;
        let b = rest.remove(0);
        proof {
            assert(before == seq![b] + rest@);
            rest@.lemma_filter_prepend(b, tpred);
        }
        if b.status.is_terminal() {
            ts.push(b);
            assert(ts@ + rest@.filter(tpred) == ts_before + (seq![b] + rest@.filter(tpred)));
        } else {
            assert(rest@.filter(tpred) == (seq![b] + rest@).filter(tpred));
        }
    }
    assert(ts@ == terminals(ex0.blocks@));
    if !ex.timezone.same(&incoming.timezone) && ts.len() > 0 {
        return Err(StoreError::TerminalHistory { id: ts[0].id.copied() });
    }
    let Plan { date, timezone, blocks: incoming_blocks } = incoming;
    let mut blocks = incoming_blocks;
    let ghost all_ts = ts@;
    assert(merge_outcome(ex0, incoming) == carry_terminals(all_ts, incoming.blocks@));
    while ts.len() > 0
        invariant
            carry_terminals(all_ts, incoming.blocks@) == carry_terminals(ts@, blocks@),
            blocks_valid(incoming.blocks@),
            policy == HistoryPolicy::Preserve,
            existing == Some(ex0),
            all_ts == terminals(ex0.blocks@),
            merge_outcome(ex0, incoming) == carry_terminals(all_ts, incoming.blocks@),
        decreases ts.len(),
    {
        let ghost before = ts@;
        let t = ts.remove(0);
        assert(before[0] == t && before.drop_first() == ts@);
        match find_id(&blocks, &t.id) {
            Some(j) => {
                if !blocks[j].same(&t) {
                    return Err(StoreError::TerminalHistory { id: t.id.copied() });
                }
            },
            None => {
                blocks.push(t);
            },
        }
    }
    let merged = Plan { date, timezone, blocks };
    match merged.validate() {
        Err(e) => Err(StoreError::Plan(PlanError::Validation(e))),
        Ok(()) => Ok(merged),
    }
}

/// What a carry gives keeps every block it started from, in place, and holds an unchanged copy of
/// every terminal block carried.
pub proof fn lemma_carry_keeps(ts: Seq<Block>, blocks: Seq<Block>)
    requires
        carry_terminals(ts, blocks) is Ok,
    ensures
        ({
            let out = carry_terminals(ts, blocks)->Ok_0;
            &&& blocks.len() <= out.len()
            &&& forall|i: int| 0 <= i < blocks.len() ==> out[i] == blocks[i]
            &&& forall|k: int| 0 <= k < ts.len() ==> has_copy(out, #[trigger] ts[k])
        }),
    decreases ts.len(),
{
    if ts.len() > 0 {
        let t = ts[0];
        match first_with_id(blocks, t.id@) {
            Some(j) => {
                lemma_first_with_id(blocks, t.id@);
                assert(0 <= j < blocks.len() && blocks[j].id@ == t.id@);
                assert(same_block(blocks[j], t));
                lemma_carry_keeps(ts.drop_first(), blocks);
                let out = carry_terminals(ts, blocks)->Ok_0;
                assert(out[j] == blocks[j]);
                assert forall|k: int| 0 <= k < ts.len() implies has_copy(out, #[trigger] ts[k]) by {
                    if k == 0 {
                        assert(same_block(out[j], ts[0]));
                    } else {
                        assert(ts[k] == ts.drop_first()[k - 1]);
                    }
                }
            },
            None => {
                lemma_carry_keeps(ts.drop_first(), blocks.push(t));
                let out = carry_terminals(ts, blocks)->Ok_0;
                assert(out[blocks.len() as int] == blocks.push(t)[blocks.len() as int]);
                crate::model::lemma_same_block_refl(t);
                assert forall|k: int| 0 <= k < ts.len() implies has_copy(out, #[trigger] ts[k]) by {
                    if k == 0 {
                        assert(same_block(out[blocks.len() as int], ts[0]));
                    } else {
                        assert(ts[k] == ts.drop_first()[k - 1]);
                    }
                }
            },
        }
    }
}

/// A merge that keeps history keeps it whole: when it succeeds, every terminal block of the
/// stored plan is in the result unchanged, and every incoming block is kept in place.
pub proof fn preserve_merge_keeps_terminal_history(existing: Plan, incoming: Plan)
    requires
        merge_outcome(existing, incoming) is Ok,
    ensures
        ({
            let out = merge_outcome(existing, incoming)->Ok_0;
            &&& forall|i: int| 0 <= i < incoming.blocks@.len() ==> out[i] == incoming.blocks@[i]
            &&& forall|k: int| 0 <= k < existing.blocks@.len() && is_terminal_block(#[trigger] existing.blocks@[k])
                ==> has_copy(out, existing.blocks@[k])
        }),
{
    let ts = terminals(existing.blocks@);
    lemma_carry_keeps(ts, incoming.blocks@);
    let out = merge_outcome(existing, incoming)->Ok_0;
    assert forall|k: int| 0 <= k < existing.blocks@.len() && is_terminal_block(#[trigger] existing.blocks@[k])
        implies has_copy(out, existing.blocks@[k]) by {
        existing.blocks@.lemma_filter_contains(|b: Block| is_terminal_block(b), k);
        let m = choose|m: int| 0 <= m < ts.len() && ts[m] == existing.blocks@[k];
        assert(has_copy(out, ts[m]));
    }
}


proof fn lemma_carry_refuses(ts: Seq<Block>, blocks: Seq<Block>, p: int, i: int)
    requires
        0 <= p < ts.len(),
        first_with_id(blocks, ts[p].id@) == Some(i),
        0 <= i < blocks.len(),
        !same_block(blocks[i], ts[p]),
    ensures
        carry_terminals(ts, blocks) is Err,
    decreases p,
{
    if p > 0 {
        let t = ts[0];
        let rest = ts.drop_first();
        assert(rest[p - 1] == ts[p]);
        match first_with_id(blocks, t.id@) {
            Some(j) => {
                if same_block(blocks[j], t) {
                    lemma_carry_refuses(rest, blocks, p - 1, i);
                }
            },
            None => {
                let grown = blocks.push(t);
                assert(grown.drop_last() == blocks);
                assert(first_with_id(grown, ts[p].id@) == Some(i));
                assert(grown[i] == blocks[i]);
                lemma_carry_refuses(rest, grown, p - 1, i);
            },
        }
    }
}

/// A merge that keeps history refuses to change it: when the first incoming block with the id
/// of a stored terminal block says something else, the merge fails.
pub proof fn preserve_merge_refuses_changed_history(existing: Plan, incoming: Plan, k: int, i: int)
    requires
        0 <= k < existing.blocks@.len(),
        is_terminal_block(existing.blocks@[k]),
        first_with_id(incoming.blocks@, existing.blocks@[k].id@) == Some(i),
        !same_block(incoming.blocks@[i], existing.blocks@[k]),
    ensures
        merge_outcome(existing, incoming) is Err,
{
    let ts = terminals(existing.blocks@);
    existing.blocks@.lemma_filter_contains(|b: Block| is_terminal_block(b), k);
    let p = choose|p: int| 0 <= p < ts.len() && ts[p] == existing.blocks@[k];
    lemma_first_with_id(incoming.blocks@, existing.blocks@[k].id@);
    if !(existing.timezone@ != incoming.timezone@ && ts.len() > 0) {
        lemma_carry_refuses(ts, incoming.blocks@, p, i);
    }
}

} // verus!
