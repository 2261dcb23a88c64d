//! The decision core of the opt-in serve loop: which reactive blocks fire on a tick, and which
//! due blocks go to an agent.

use vstd::prelude::*;

use crate::lifecycle::Event;
use crate::model::{opt_text_view, status_terminal, Block, BlockId, Plan, Status, WhenCondition, WhenShape};
use crate::text::{chars_eq, chars_of, copy_string};

verus! {

/// The last condition marker the serve loop saw for each block: a map from block id to marker,
/// kept as the entries written in order, where a later entry for an id replaces an earlier one.
#[derive(Debug, Clone, Default)]
pub struct ServeMemory {
    markers: Vec<(BlockId, String)>,
}

pub open spec fn markers_view(v: Seq<(BlockId, String)>) -> Seq<(Seq<char>, Seq<char>)> {
    Seq::new(v.len(), |i: int| (v[i].0@, v[i].1@))
}

/// The marker of the last entry for `id`.
pub open spec fn marker_of(m: Seq<(Seq<char>, Seq<char>)>, id: Seq<char>) -> Option<Seq<char>>
    decreases m.len(),
{
    if m.len() == 0 {
        None
    } else if m.last().0 == id {
        Some(m.last().1)
    } else {
        marker_of(m.drop_last(), id)
    }
}

/// The markers as a map from block id to marker: entries are inserted in order, so a later entry
/// for an id replaces an earlier one.
pub open spec fn markers_map(m: Seq<(Seq<char>, Seq<char>)>) -> Map<Seq<char>, Seq<char>>
    decreases m.len(),
{
    if m.len() == 0 {
        Map::empty()
    } else {
        markers_map(m.drop_last()).insert(m.last().0, m.last().1)
    }
}

/// Looking a block up in the markers is looking it up in their map: each id has at most one
/// marker, the last one written for it.
pub proof fn marker_of_is_map_lookup(m: Seq<(Seq<char>, Seq<char>)>, id: Seq<char>)
    ensures
        marker_of(m, id) == (if markers_map(m).dom().contains(id) {
            Some(markers_map(m)[id])
        } else {
            None
        }),
    decreases m.len(),
{
    if m.len() > 0 {
        marker_of_is_map_lookup(m.drop_last(), id);
    }
}

impl ServeMemory {
    pub closed spec fn spec_markers(&self) -> Seq<(Seq<char>, Seq<char>)> {
        markers_view(self.markers@)
    }

    /// The memory as a map from block id to the marker last seen for it.
    pub open spec fn spec_map(&self) -> Map<Seq<char>, Seq<char>> {
        markers_map(self.spec_markers())
    }

    pub fn new() -> (r: ServeMemory)
        ensures
            r.spec_markers() == Seq::<(Seq<char>, Seq<char>)>::empty(),
    {
        let r = ServeMemory { markers: Vec::new() };
        assert(r.spec_markers() =~= Seq::<(Seq<char>, Seq<char>)>::empty());
        r
    }

    /// The marker last seen for a block.
    pub fn marker_for(&self, id: &BlockId) -> (r: Option<&str>)
        ensures
            match r {
                Some(s) => marker_of(self.spec_markers(), id@) == Some(s@),
                None => marker_of(self.spec_markers(), id@) is None,
            },
            match r {
                Some(s) => self.spec_map().dom().contains(id@) && self.spec_map()[id@] == s@,
                None => !self.spec_map().dom().contains(id@),
            },
    {
        proof {
            marker_of_is_map_lookup(self.spec_markers(), id@);
        }
        let mut k: usize = self.markers.len();
        assert(self.spec_markers().take(k as int) =~= self.spec_markers());
        while k > 0 && !self.markers[k - 1].0.same(id)
            invariant
                k <= self.markers@.len(),
                marker_of(self.spec_markers(), id@) == marker_of(self.spec_markers().take(k as int), id@),
            decreases k,
        {
            assert(self.spec_markers().take(k as int).drop_last() =~= self.spec_markers().take(k as int - 1));
            k = k - 1;
        }
        if k == 0 {
            None
        } else {
            Some(self.markers[k - 1].1.as_str())
        }
    }

    fn push(&mut self, id: BlockId, marker: String)
        ensures
            final(self).spec_markers() == old(self).spec_markers().push((id@, marker@)),
    {
        let ghost before = self.spec_markers();
        self.markers.push((id, marker));
        assert(self.spec_markers() =~= before.push((id@, marker@)));
    }
}

/// One polled condition result, handed in by the side of the loop that polls.
#[derive(Debug, Clone, PartialEq, Eq)]
pub struct ConditionState {
    pub satisfied: bool,
    pub marker: Option<String>,
}

impl ConditionState {
    pub fn satisfied(marker: String) -> (r: ConditionState)
        ensures
            r.satisfied,
            r.marker matches Some(m) && m@ == marker@,
    {
        ConditionState { satisfied: true, marker: Some(marker) }
    }

    pub fn unsatisfied() -> (r: ConditionState)
        ensures
            !r.satisfied,
            r.marker is None,
    {
        ConditionState { satisfied: false, marker: None }
    }

    /// The marker of a satisfied state (`satisfied` when it carries none).
    pub fn active_marker(&self) -> (r: Option<String>)
        ensures
            opt_text_view(r) == active_marker_of(*self),
    {
        if self.satisfied {
            match &self.marker {
                Some(m) => Some(copy_string(m)),
                None => Some("satisfied".to_owned()),
            }
        } else {
            None
        }
    }
}

pub open spec fn active_marker_of(st: ConditionState) -> Option<Seq<char>> {
    if st.satisfied {
        match st.marker {
            Some(m) => Some(m@),
            None => Some("satisfied"@),
        }
    } else {
        None
    }
}

/// The state given for `id` (the last entry for it).
pub open spec fn state_of(states: Seq<(BlockId, ConditionState)>, id: Seq<char>) -> Option<ConditionState>
    decreases states.len(),
{
    if states.len() == 0 {
        None
    } else if states.last().0@ == id {
        Some(states.last().1)
    } else {
        state_of(states.drop_last(), id)
    }
}

/// The marker a block holds this tick: a pending block with a condition whose state is satisfied.
pub open spec fn tick_marker(b: Block, states: Seq<(BlockId, ConditionState)>) -> Option<Seq<char>> {
    if b.when is Some && b.status == Status::Pending {
        match state_of(states, b.id@) {
            Some(st) => active_marker_of(st),
            None => None,
        }
    } else {
        None
    }
}

/// The markers remembered after a tick, in block order.
pub open spec fn next_markers(blocks: Seq<Block>, states: Seq<(BlockId, ConditionState)>) -> Seq<(Seq<char>, Seq<char>)>
    decreases blocks.len(),
{
    if blocks.len() == 0 {
        Seq::empty()
    } else {
        let b = blocks.last();
        next_markers(blocks.drop_last(), states) + match tick_marker(b, states) {
            Some(m) => seq![(b.id@, m)],
            None => Seq::empty(),
        }
    }
}

/// The blocks that fire this tick, in order: those holding a marker the memory does not have for
/// them.
pub open spec fn fired(blocks: Seq<Block>, states: Seq<(BlockId, ConditionState)>, memory: Seq<(Seq<char>, Seq<char>)>) -> Seq<(Seq<char>, WhenShape)>
    decreases blocks.len(),
{
    if blocks.len() == 0 {
        Seq::empty()
    } else {
        let b = blocks.last();
        fired(blocks.drop_last(), states, memory) + match tick_marker(b, states) {
            Some(m) => if marker_of(memory, b.id@) != Some(m) {
                seq![(b.id@, b.when->0@)]
            } else {
                Seq::empty()
            },
            None => Seq::empty(),
        }
    }
}

/// A block whose condition crossed into a satisfied state this tick.
#[derive(Debug, Clone, PartialEq, Eq)]
pub struct ReactiveDecision {
    pub block_id: BlockId,
    pub condition: WhenCondition,
}

/// The outcome of one serve tick.
#[derive(Debug, Clone)]
pub struct ReactivePlan {
    pub decisions: Vec<ReactiveDecision>,
    pub next_memory: ServeMemory,
}

pub open spec fn decisions_view(v: Seq<ReactiveDecision>) -> Seq<(Seq<char>, WhenShape)> {
    Seq::new(v.len(), |i: int| (v[i].block_id@, v[i].condition@))
}

fn state_for<'a>(states: &'a [(BlockId, ConditionState)], id: &BlockId) -> (r: Option<&'a ConditionState>)
    ensures
        match r {
            Some(st) => state_of(states@, id@) == Some(*st),
            None => state_of(states@, id@) is None,
        },
{
    let mut k: usize = states.len();
    assert(states@.take(k as int) =~= states@);
    while k > 0 && !states[k - 1].0.same(id)
        invariant
            k <= states@.len(),
            state_of(states@, id@) == state_of(states@.take(k as int), id@),
        decreases k,
    {
        assert(states@.take(k as int).drop_last() =~= states@.take(k as int - 1));
        k = k - 1;
    }
    if k == 0 {
        None
    } else {
        Some(&states[k - 1].1)
    }
}

/// Decides which reactive blocks fire this tick: a pending block with a condition fires when its
/// state is satisfied with a marker the memory does not hold for it. The next memory holds the
/// markers of this tick, so an unsatisfied or missing state clears a block's marker.
pub fn decide_reactive_triggers(plan: &Plan, states: &[(BlockId, ConditionState)], memory: &ServeMemory) -> (r: ReactivePlan)
    ensures
        decisions_view(r.decisions@) == fired(plan.blocks@, states@, memory.spec_markers()),
        r.next_memory.spec_markers() == next_markers(plan.blocks@, states@),
{
    let mut decisions: Vec<ReactiveDecision> = Vec::new();
    let mut next_memory = ServeMemory::new();
    let mut i: usize = 0;
    while i < plan.blocks.len()
        invariant
            i <= plan.blocks@.len(),
            decisions_view(decisions@) == fired(plan.blocks@.take(i as int), states@, memory.spec_markers()),
            next_memory.spec_markers() == next_markers(plan.blocks@.take(i as int), states@),
        decreases plan.blocks.len() - i,
    {
        let block = &plan.blocks[i];
        let ghost pre = plan.blocks@.take(i as int);
        assert(plan.blocks@.take(i as int + 1).drop_last() == pre);
        assert(plan.blocks@.take(i as int + 1).last() == *block);
        let marker = match &block.when {
            None => None,
            Some(_) => {
                if block.status == Status::Pending {
                    match state_for(states, &block.id) {
                        Some(st) => st.active_marker(),
                        None => None,
                    }
                } else {
                    None
                }
            },
        };
        assert(opt_text_view(marker) == tick_marker(*block, states@));
        match marker {
            None => {
                assert(next_markers(plan.blocks@.take(i as int + 1), states@) =~= next_markers(pre, states@));
                assert(fired(plan.blocks@.take(i as int + 1), states@, memory.spec_markers()) =~= fired(pre, states@, memory.spec_markers()));
            },
            Some(m) => {
                let known = match memory.marker_for(&block.id) {
                    Some(s) => {
                        let a = chars_of(s);
                        let b = chars_of(m.as_str());
                        chars_eq(a.as_slice(), b.as_slice())
                    },
                    None => false,
                };
                if !known {
                    let cond = match &block.when {
                        Some(c) => c.copied(),
                        None => {
                            proof {
                                assert(false);
                            }
                            WhenCondition::FileExists(copy_string(&m))
                        },
                    };
                    let ghost before = decisions_view(decisions@);
                    decisions.push(ReactiveDecision { block_id: block.id.copied(), condition: cond });
                    assert(decisions_view(decisions@) =~= before.push((block.id@, block.when->0@)));
                }
                assert(fired(plan.blocks@.take(i as int + 1), states@, memory.spec_markers()) =~= fired(pre, states@, memory.spec_markers()) + (if known { Seq::empty() } else { seq![(block.id@, block.when->0@)] }));
                next_memory.push(block.id.copied(), m);
            },
        }
        i = i + 1;
    }
    assert(plan.blocks@.take(plan.blocks@.len() as int) == plan.blocks@);
    ReactivePlan { decisions, next_memory }
}

/// The marker held for an id after a tick is the marker any block with that id holds this tick.
proof fn lemma_next_marker(blocks: Seq<Block>, states: Seq<(BlockId, ConditionState)>, k: int)
    requires
        0 <= k < blocks.len(),
        tick_marker(blocks[k], states) is Some,
    ensures
        marker_of(next_markers(blocks, states), blocks[k].id@) == tick_marker(blocks[k], states),
    decreases blocks.len(),
{
    let b = blocks.last();
    let pre = blocks.drop_last();
    if k == blocks.len() - 1 {
        let nm = next_markers(blocks, states);
        assert(nm.last() == (b.id@, tick_marker(b, states)->0));
    } else {
        assert(blocks[k] == pre[k]);
        lemma_next_marker(pre, states, k);
        match tick_marker(b, states) {
            Some(m) => {
                if b.id@ == blocks[k].id@ {
                    assert(state_of(states, b.id@) == state_of(states, blocks[k].id@));
                } else {
                    assert(next_markers(blocks, states).drop_last() == next_markers(pre, states));
                }
            },
            None => {
                assert(next_markers(blocks, states) == next_markers(pre, states));
            },
        }
    }
}

/// A satisfied condition fires once: a second tick with the same states and the memory the
/// first tick left fires nothing.
pub proof fn satisfied_condition_fires_once(blocks: Seq<Block>, states: Seq<(BlockId, ConditionState)>)
    ensures
        fired(blocks, states, next_markers(blocks, states)) =~= Seq::<(Seq<char>, WhenShape)>::empty(),
{
    lemma_no_refire(blocks, states, blocks.len() as int);
    assert(blocks.take(blocks.len() as int) == blocks);
}

proof fn lemma_no_refire(blocks: Seq<Block>, states: Seq<(BlockId, ConditionState)>, n: int)
    requires
        0 <= n <= blocks.len(),
    ensures
        fired(blocks.take(n), states, next_markers(blocks, states)) =~= Seq::<(Seq<char>, WhenShape)>::empty(),
    decreases n,
{
    if n > 0 {
        lemma_no_refire(blocks, states, n - 1);
        let t = blocks.take(n);
        assert(t.drop_last() == blocks.take(n - 1));
        assert(t.last() == blocks[n - 1]);
        if tick_marker(blocks[n - 1], states) is Some {
            lemma_next_marker(blocks, states, n - 1);
        }
    }
}

/// One agent/block/event claim recorded in the fire ledger.
#[derive(Debug, Clone, PartialEq, Eq)]
pub struct AgentEventKey {
    pub agent: String,
    pub block_id: BlockId,
    pub event: Event,
}

/// A due block this tick assigns to an agent.
#[derive(Debug, Clone, PartialEq, Eq)]
pub struct AgentAssignment {
    pub agent: String,
    pub block_id: BlockId,
    pub event: Event,
}

pub open spec fn claimed_by(claimed: Seq<AgentEventKey>, agent: Seq<char>, id: Seq<char>) -> bool {
    exists|i: int| 0 <= i < claimed.len() && #[trigger] claimed[i].agent@ == agent && claimed[i].block_id@ == id && claimed[i].event == Event::Start
}

pub open spec fn is_due(due: Seq<BlockId>, id: Seq<char>) -> bool {
    exists|i: int| 0 <= i < due.len() && #[trigger] due[i]@ == id
}

/// Block `b` goes to `agent`: it is the agent's, open, due and not yet claimed.
pub open spec fn assignable(b: Block, agent: Seq<char>, due: Seq<BlockId>, claimed: Seq<AgentEventKey>) -> bool {
    opt_text_view(b.agent) == Some(agent) && !status_terminal(b.status) && is_due(due, b.id@) && !claimed_by(claimed, agent, b.id@)
}

pub open spec fn assigned_ids(blocks: Seq<Block>, agent: Seq<char>, due: Seq<BlockId>, claimed: Seq<AgentEventKey>) -> Seq<Seq<char>> {
    blocks.filter(|b: Block| assignable(b, agent, due, claimed)).map_values(|b: Block| b.id@)
}

/// Assigns the agent's due, open, unclaimed blocks (their start event), in plan order.
pub fn decide_agent_assignments(plan: &Plan, agent: &str, due_blocks: &[BlockId], claimed: &[AgentEventKey]) -> (r: Vec<AgentAssignment>)
    ensures
        r@.len() == assigned_ids(plan.blocks@, agent@, due_blocks@, claimed@).len(),
        forall|k: int| 0 <= k < r@.len() ==> (#[trigger] r@[k]).agent@ == agent@ && r@[k].event == Event::Start
            && r@[k].block_id@ == assigned_ids(plan.blocks@, agent@, due_blocks@, claimed@)[k],
{
    let ghost pred = |b: Block| assignable(b, agent@, due_blocks@, claimed@);
    let mut out: Vec<AgentAssignment> = Vec::new();
    let av = chars_of(agent);
    let mut i: usize = 0;
    while i < plan.blocks.len()
        invariant
            i <= plan.blocks@.len(),
            av@ == agent@,
            pred == (|b: Block| assignable(b, agent@, due_blocks@, claimed@)),
            out@.len() == plan.blocks@.take(i as int).filter(pred).len(),
            forall|k: int| 0 <= k < out@.len() ==> (#[trigger] out@[k]).agent@ == agent@ && out@[k].event == Event::Start
                && out@[k].block_id@ == plan.blocks@.take(i as int).filter(pred)[k].id@,
        decreases plan.blocks.len() - i,
    {
        let b = &plan.blocks[i];
        assert(plan.blocks@.take(i as int + 1).drop_last() == plan.blocks@.take(i as int));
        assert(plan.blocks@.take(i as int + 1).last() == *b);
        let mine = match &b.agent {
            Some(a) => chars_eq(chars_of(a.as_str()).as_slice(), av.as_slice()),
            None => false,
        };
        let mut due = false;
        let mut d: usize = 0;
        while d < due_blocks.len()
            invariant
                d <= due_blocks@.len(),
                due == exists|x: int| 0 <= x < d && #[trigger] due_blocks@[x]@ == b.id@,
            decreases due_blocks.len() - d,
        {
            if due_blocks[d].same(&b.id) {
                due = true;
            }
            d = d + 1;
        }
        let mut taken = false;
        let mut c: usize = 0;
        while c < claimed.len()
            invariant
                c <= claimed@.len(),
                av@ == agent@,
                taken == exists|x: int| 0 <= x < c && #[trigger] claimed@[x].agent@ == agent@ && claimed@[x].block_id@ == b.id@ && claimed@[x].event == Event::Start,
            decreases claimed.len() - c,
        {
            let k = &claimed[c];
            if chars_eq(chars_of(k.agent.as_str()).as_slice(), av.as_slice()) && k.block_id.same(&b.id) && k.event == Event::Start {
                taken = true;
            }
            c = c + 1;
        }
        let ok = mine && !b.status.is_terminal() && due && !taken;
        assert(ok == pred(*b));
        assert(plan.blocks@.take(i as int + 1).filter(pred) == if pred(*b) {
            plan.blocks@.take(i as int).filter(pred).push(*b)
        } else {
            plan.blocks@.take(i as int).filter(pred)
        }) by {
            reveal(Seq::filter);
        }
        if ok {
            out.push(AgentAssignment { agent: agent.to_owned(), block_id: b.id.copied(), event: Event::Start });
        }
        i = i + 1;
    }
    assert(plan.blocks@.take(plan.blocks@.len() as int) == plan.blocks@);
    out
}

} // verus!
