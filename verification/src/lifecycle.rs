//! Fire decisions: what a trigger firing for a block does, and which overdue blocks to settle.

use vstd::prelude::*;

use crate::model::{
    is_key_sorting, lemma_key_sorting_insert, status_terminal, Block, BlockId, Plan, Status,
};
use crate::text::{chars_eq, chars_lt, chars_of, seq_lt};
use crate::model::span_end_seconds;
use crate::time::{placed, resolve_block_end, resolve_block_start, SignedDuration, TimeError, Timestamp};

verus! {

/// The three moments a block's triggers fire at.
#[derive(Debug, Clone, Copy, PartialEq, Eq, Structural)]
pub enum Event {
    Notify,
    Start,
    End,
}

pub open spec fn event_text(e: Event) -> Seq<char> {
    match e {
        Event::Notify => "notify"@,
        Event::Start => "start"@,
        Event::End => "end"@,
    }
}

/// A text that names no event.
#[derive(Debug, Clone, PartialEq, Eq)]
pub struct EventParseError {
    value: String,
}

impl EventParseError {
    pub closed spec fn spec_value(&self) -> Seq<char> {
        self.value@
    }

    pub fn value(&self) -> (r: &str)
        ensures
            r@ == self.spec_value(),
    {
        self.value.as_str()
    }

    /// The message shown for the error: ``invalid event `VALUE` ``.
    pub fn message(&self) -> (r: String)
        ensures
            r@ == "invalid event `"@ + self.spec_value() + "`"@,
    {
        let mut out: Vec<char> = Vec::new();
        crate::text::push_str(&mut out, "invalid event `");
        crate::text::push_str(&mut out, self.value.as_str());
        crate::text::push_str(&mut out, "`");
        crate::text::string_of(out.as_slice())
    }
}

impl Event {
    pub fn as_str(self) -> (r: &'static str)
        ensures
            r@ == event_text(self),
    {
        match self {
            Event::Notify => "notify",
            Event::Start => "start",
            Event::End => "end",
        }
    }

    /// Parses an event name (`FromStr`).
    pub fn parse(value: &str) -> (r: Result<Event, EventParseError>)
        ensures
            r matches Ok(e) ==> event_text(e) == value@,
            r is Err ==> forall|e: Event| event_text(e) != value@,
            r matches Err(err) ==> err.spec_value() == value@,
    {
        let v = chars_of(value);
        let n = chars_of("notify");
        if chars_eq(v.as_slice(), n.as_slice()) {
            return Ok(Event::Notify);
        }
        let s = chars_of("start");
        if chars_eq(v.as_slice(), s.as_slice()) {
            return Ok(Event::Start);
        }
        let e = chars_of("end");
        if chars_eq(v.as_slice(), e.as_slice()) {
            return Ok(Event::End);
        }
        proof {
            assert forall|ev: Event| event_text(ev) != value@ by {
                match ev {
                    Event::Notify => {},
                    Event::Start => {},
                    Event::End => {},
                }
            }
        }
        Err(EventParseError { value: value.to_owned() })
    }
}

/// What happens at the end of an active block: it is marked done, or it expires.
#[derive(Debug, Clone, Copy, PartialEq, Eq, Structural)]
pub enum EndBehavior {
    AutoDone,
    Expire,
}

/// How late a trigger may fire and still act, and how blocks close.
#[derive(Debug, Clone, Copy, PartialEq, Eq)]
pub struct LifecyclePolicy {
    grace: SignedDuration,
    end_behavior: EndBehavior,
}

pub open spec fn close_status_of(b: EndBehavior) -> Status {
    match b {
        EndBehavior::AutoDone => Status::Done,
        EndBehavior::Expire => Status::Expired,
    }
}

impl LifecyclePolicy {
    pub closed spec fn spec_grace(self) -> SignedDuration {
        self.grace
    }

    pub closed spec fn spec_end_behavior(self) -> EndBehavior {
        self.end_behavior
    }

    pub fn new(grace: SignedDuration, end_behavior: EndBehavior) -> (r: LifecyclePolicy)
        ensures
            r.spec_grace() == grace,
            r.spec_end_behavior() == end_behavior,
    {
        LifecyclePolicy { grace, end_behavior }
    }

    pub fn grace(self) -> (r: SignedDuration)
        ensures
            r == self.spec_grace(),
    {
        self.grace
    }

    /// The status an active block closes with.
    pub fn close_status(self) -> (r: Status)
        ensures
            r == close_status_of(self.spec_end_behavior()),
    {
        match self.end_behavior {
            EndBehavior::AutoDone => Status::Done,
            EndBehavior::Expire => Status::Expired,
        }
    }
}

/// What a firing trigger does.
#[derive(Debug, Clone, Copy, PartialEq, Eq, Structural)]
pub enum FireDecision {
    NoOp,
    Notify,
    Activate { run: bool },
    MarkMissed,
    Close { status: Status },
}

#[derive(Debug, Clone, PartialEq, Eq)]
pub struct StatusUpdate {
    pub id: BlockId,
    pub status: Status,
}

/// A trigger is overdue when it fires more than the grace after its scheduled instant; firing
/// exactly at the end of the grace is still on time.
pub open spec fn overdue(scheduled_at: Timestamp, now: Timestamp, grace: SignedDuration) -> bool {
    now.spec_nanos() - scheduled_at.spec_nanos() > grace.spec_nanos()
}

/// The decision for a block in `status` (with or without a command), for `event`, given whether
/// the trigger is overdue and the status active blocks close with.
pub open spec fn fire_decision(
    status: Status,
    has_run: bool,
    event: Event,
    late: bool,
    close: Status,
) -> FireDecision {
    if status_terminal(status) {
        FireDecision::NoOp
    } else {
        match event {
            Event::Notify => if late {
                FireDecision::NoOp
            } else {
                FireDecision::Notify
            },
            Event::Start => if status != Status::Pending {
                FireDecision::NoOp
            } else if late {
                FireDecision::MarkMissed
            } else {
                FireDecision::Activate { run: has_run }
            },
            Event::End => if status == Status::Active {
                FireDecision::Close { status: close }
            } else {
                FireDecision::NoOp
            },
        }
    }
}

pub fn is_overdue(scheduled_at: Timestamp, now: Timestamp, grace: SignedDuration) -> (r: bool)
    ensures
        r == overdue(scheduled_at, now, grace),
{
    now.duration_since(scheduled_at).gt(grace)
}

/// Decides what a trigger for `block` firing at `now`, scheduled for `scheduled_at`, does.
pub fn decide_fire(
    block: &Block,
    event: Event,
    scheduled_at: Timestamp,
    now: Timestamp,
    policy: LifecyclePolicy,
) -> (r: FireDecision)
    ensures
        r == fire_decision(
            block.status,
            block.run is Some,
            event,
            overdue(scheduled_at, now, policy.spec_grace()),
            close_status_of(policy.spec_end_behavior()),
        ),
{
    if block.status.is_terminal() {
        return FireDecision::NoOp;
    }
    match event {
        Event::Notify => {
            if is_overdue(scheduled_at, now, policy.grace()) {
                FireDecision::NoOp
            } else {
                FireDecision::Notify
            }
        },
        Event::Start => decide_start(block, scheduled_at, now, policy.grace()),
        Event::End => {
            if block.status == Status::Active {
                FireDecision::Close { status: policy.close_status() }
            } else {
                FireDecision::NoOp
            }
        },
    }
}

fn decide_start(block: &Block, scheduled_at: Timestamp, now: Timestamp, grace: SignedDuration) -> (r: FireDecision)
    ensures
        r == (if block.status != Status::Pending {
            FireDecision::NoOp
        } else if overdue(scheduled_at, now, grace) {
            FireDecision::MarkMissed
        } else {
            FireDecision::Activate { run: block.run is Some }
        }),
{
    if block.status != Status::Pending {
        return FireDecision::NoOp;
    }
    if is_overdue(scheduled_at, now, grace) {
        FireDecision::MarkMissed
    } else {
        FireDecision::Activate { run: block.run.is_some() }
    }
}

/// A block already done, skipped, missed or expired is never acted on again, whatever fires.
pub proof fn terminal_blocks_never_act(
    status: Status,
    has_run: bool,
    event: Event,
    late: bool,
    close: Status,
)
    requires
        status_terminal(status),
    ensures
        fire_decision(status, has_run, event, late, close) == FireDecision::NoOp,
{
}

/// A trigger firing exactly the grace after its scheduled instant is still on time.
pub proof fn grace_boundary_is_on_time(scheduled_at: Timestamp, now: Timestamp, grace: SignedDuration)
    requires
        now.spec_nanos() - scheduled_at.spec_nanos() == grace.spec_nanos(),
    ensures
        !overdue(scheduled_at, now, grace),
{
}

/// The status an overdue block settles to: a pending block whose start passed is missed, an
/// active block whose end passed is expired.
pub open spec fn settle_status(status: Status, late: bool) -> Option<Status> {
    match status {
        Status::Pending => if late {
            Some(Status::Missed)
        } else {
            None
        },
        Status::Active => if late {
            Some(Status::Expired)
        } else {
            None
        },
        _ => None,
    }
}

/// The settlement of one block, given the instant that matters for it (its start while pending,
/// its end while active).
pub fn reconcile_block_at(status: Status, instant: Timestamp, now: Timestamp, grace: SignedDuration) -> (r: Option<Status>)
    ensures
        r == settle_status(status, overdue(instant, now, grace)),
{
    match status {
        Status::Pending => if is_overdue(instant, now, grace) {
            Some(Status::Missed)
        } else {
            None
        },
        Status::Active => if is_overdue(instant, now, grace) {
            Some(Status::Expired)
        } else {
            None
        },
        _ => None,
    }
}

pub open spec fn update_entries(v: Seq<StatusUpdate>) -> Seq<(Seq<char>, Status)> {
    Seq::new(v.len(), |i: int| (v[i].id@, v[i].status))
}

/// The instant that decides whether block `b` is overdue: its start while pending, its end
/// otherwise.
pub open spec fn deciding_instant(b: Block, start: Timestamp, end: Timestamp) -> Timestamp {
    if b.status is Pending {
        start
    } else {
        end
    }
}

/// The settlements of the first `n` blocks, in plan order: the id and new status of each block
/// whose deciding instant is overdue.
pub open spec fn settlements(
    blocks: Seq<Block>,
    starts: Seq<Timestamp>,
    ends: Seq<Timestamp>,
    now: Timestamp,
    grace: SignedDuration,
    n: int,
) -> Seq<(Seq<char>, Status)>
    decreases n,
{
    if n <= 0 {
        Seq::empty()
    } else {
        let b = blocks[n - 1];
        settlements(blocks, starts, ends, now, grace, n - 1) + match settle_status(
            b.status,
            overdue(deciding_instant(b, starts[n - 1], ends[n - 1]), now, grace),
        ) {
            Some(st) => seq![(b.id@, st)],
            None => Seq::empty(),
        }
    }
}

/// `v` is the settlements of all blocks for these instants, ordered by id (blocks sharing an id
/// keep their plan order).
pub open spec fn settled_updates(
    blocks: Seq<Block>,
    starts: Seq<Timestamp>,
    ends: Seq<Timestamp>,
    now: Timestamp,
    grace: SignedDuration,
    v: Seq<StatusUpdate>,
) -> bool {
    is_key_sorting(settlements(blocks, starts, ends, now, grace, blocks.len() as int), update_entries(v))
}

/// Inserts an update into a list ordered by id, after any update with the same id.
fn insert_by_id(out: &mut Vec<StatusUpdate>, u: StatusUpdate, Ghost(src): Ghost<Seq<(Seq<char>, Status)>>)
    requires
        is_key_sorting(src, update_entries(old(out)@)),
    ensures
        is_key_sorting(src.push((u.id@, u.status)), update_entries(final(out)@)),
{
    let key = u.id.chars();
    let ghost e = (u.id@, u.status);
    let ghost old_v = update_entries(out@);
    let mut p: usize = out.len();
    while p > 0 && chars_lt(key.as_slice(), out[p - 1].id.chars().as_slice())
        invariant
            p <= out.len(),
            old_v == update_entries(out@),
            key@ == e.0,
            forall|q: int| p <= q < out.len() ==> seq_lt(e.0, #[trigger] old_v[q].0),
        decreases p,
    {
        p = p - 1;
    }
    out.insert(p, u);
    proof {
        assert(update_entries(out@) == old_v.insert(p as int, e));
        lemma_key_sorting_insert(src, old_v, e, p as int);
    }
}

/// The status updates for the plan's blocks at `now`, given each block's start and end instants:
/// a pending block whose start is overdue is missed, an active block whose end is overdue is
/// expired; the updates are ordered by block id.
pub fn reconcile_overdue_at(plan: &Plan, starts: &Vec<Timestamp>, ends: &Vec<Timestamp>, now: Timestamp, grace: SignedDuration) -> (r: Vec<StatusUpdate>)
    requires
        starts@.len() == plan.blocks@.len(),
        ends@.len() == plan.blocks@.len(),
    ensures
        settled_updates(plan.blocks@, starts@, ends@, now, grace, r@),
{
    let mut updates: Vec<StatusUpdate> = Vec::new();
    let ghost mut src: Seq<(Seq<char>, Status)> = Seq::empty();
    proof {
        crate::model::lemma_key_sorting_empty(src, update_entries(updates@));
    }
    let mut i: usize = 0;
    while i < plan.blocks.len()
        invariant
            i <= plan.blocks.len(),
            starts@.len() == plan.blocks@.len(),
            ends@.len() == plan.blocks@.len(),
            src == settlements(plan.blocks@, starts@, ends@, now, grace, i as int),
            is_key_sorting(src, update_entries(updates@)),
        decreases plan.blocks.len() - i,
    {
        let block = &plan.blocks[i];
        let instant = match block.status {
            Status::Pending => starts[i],
            _ => ends[i],
        };
        let settled = reconcile_block_at(block.status, instant, now, grace);
        proof {
            assert(instant == deciding_instant(plan.blocks@[i as int], starts@[i as int], ends@[i as int]));
        }
        if let Some(status) = settled {
            let u = StatusUpdate { id: block.id.copied(), status };
            let ghost e = (u.id@, u.status);
            insert_by_id(&mut updates, u, Ghost(src));
            proof {
                assert(src.push(e) =~= settlements(plan.blocks@, starts@, ends@, now, grace, i + 1));
                src = src.push(e);
            }
        } else {
            proof {
                assert(src =~= settlements(plan.blocks@, starts@, ends@, now, grace, i + 1));
            }
        }
        i = i + 1;
    }
    updates
}

/// Status updates for blocks whose missed or expired windows elapsed while no trigger fired,
/// ordered by block id.
pub fn reconcile_overdue(plan: &Plan, now: Timestamp, grace: SignedDuration) -> (r: Result<Vec<StatusUpdate>, TimeError>)
    ensures
        r matches Ok(v) ==> exists|starts: Seq<Timestamp>, ends: Seq<Timestamp>|
            #[trigger] resolved_instants(*plan, starts, ends) && settled_updates(plan.blocks@, starts, ends, now, grace, v@),
        r is Err ==> exists|k: int| 0 <= k < plan.blocks@.len()
            && ((#[trigger] plan.blocks@[k]).status is Pending || plan.blocks@[k].status is Active),
        r matches Err(TimeError::TimeZone(e)) ==> e is TimeZone && e->TimeZone_value@ == plan.timezone@,
        r matches Err(TimeError::Resolve(_)) ==> plan.date.triple().0 == -9999 || plan.date.triple().0 == 9999,
{
    let mut starts: Vec<Timestamp> = Vec::new();
    let mut ends: Vec<Timestamp> = Vec::new();
    let mut i: usize = 0;
    while i < plan.blocks.len()
        invariant
            i <= plan.blocks.len(),
            starts@.len() == i,
            ends@.len() == i,
            forall|k: int| 0 <= k < i ==> #[trigger] instants_fit(*plan, starts@, ends@, k),
        decreases plan.blocks.len() - i,
    {
        let block = &plan.blocks[i];
        let ghost s0 = starts@;
        let ghost e0 = ends@;
        match block.status {
            Status::Pending => {
                let start = match resolve_block_start(plan, block) {
                    Ok(t) => t,
                    Err(e) => {
                        assert(plan.blocks@[i as int].status is Pending);
                        return Err(e);
                    },
                };
                starts.push(start);
                ends.push(now);
            },
            Status::Active => {
                let end = match resolve_block_end(plan, block) {
                    Ok(t) => t,
                    Err(e) => {
                        assert(plan.blocks@[i as int].status is Active);
                        return Err(e);
                    },
                };
                starts.push(now);
                ends.push(end);
            },
            _ => {
                starts.push(now);
                ends.push(now);
            },
        }
        proof {
            assert forall|k: int| 0 <= k < i + 1 implies #[trigger] instants_fit(*plan, starts@, ends@, k) by {
                if k < i {
                    assert(instants_fit(*plan, s0, e0, k));
                    assert(starts@[k] == s0[k] && ends@[k] == e0[k]);
                }
            }
        }
        i = i + 1;
    }
    let v = reconcile_overdue_at(plan, &starts, &ends, now, grace);
    assert(resolved_instants(*plan, starts@, ends@));
    Ok(v)
}

/// The instants of block `k`: a pending block's start and an active block's end are its
/// wall-clock times resolved in the plan's zone.
pub open spec fn instants_fit(plan: Plan, starts: Seq<Timestamp>, ends: Seq<Timestamp>, k: int) -> bool {
    let b = plan.blocks@[k];
    &&& b.status is Pending ==> placed(starts[k].spec_nanos(), plan.date, plan.timezone@, b.start.spec_seconds() as int)
    &&& b.status is Active ==> placed(ends[k].spec_nanos(), plan.date, plan.timezone@, span_end_seconds(b.span, b.start) as int)
}

/// One start and one end instant per block, fitting each block as `instants_fit` says.
pub open spec fn resolved_instants(plan: Plan, starts: Seq<Timestamp>, ends: Seq<Timestamp>) -> bool {
    &&& starts.len() == plan.blocks@.len()
    &&& ends.len() == plan.blocks@.len()
    &&& forall|k: int| 0 <= k < plan.blocks@.len() ==> #[trigger] instants_fit(plan, starts, ends, k)
}

} // verus!
